use vstd::prelude::*;
use vstd::string::StrSliceExecFns;
use vstd::string::StringExecFns;
use crate::error::CacheError;
use crate::text::push_char;

verus! {

/// A value type the typed cache can store: it owns a canonical text
/// encoding and a decoding that inverts it.
///
/// `dec` is total over payloads: a payload that decodes to no value is
/// treated by the cache as corrupt.
pub trait Codec: Sized {
    /// Whether the value can be encoded at all.
    spec fn encodable(&self) -> bool;

    /// The canonical encoding of the value.
    spec fn enc(&self) -> Seq<char>;

    /// The value a payload decodes to, if any.
    spec fn dec(s: Seq<char>) -> Option<Self>;

    /// Decoding a value's own encoding gives the value back.
    proof fn lemma_round_trip(&self)
        requires
            self.encodable(),
        ensures
            Self::dec(self.enc()) == Option::Some(*self),
    ;

    /// Encodes the value; a value that cannot be encoded is an error, not
    /// a panic.
    fn encode(&self) -> (r: Result<String, CacheError>)
        ensures
            self.encodable() ==> (r matches Ok(s) && s@ == self.enc()),
            !self.encodable() ==> (r matches Err(e) && e == CacheError::SerializationFailure),
    ;

    /// Decodes a payload; `None` marks a corrupt payload.
    fn decode(s: &str) -> (r: Option<Self>)
        ensures
            r == Self::dec(s@),
    ;
}

/// The ten decimal digit characters.
pub open spec fn is_digit_char(c: char) -> bool {
    c == '0' || c == '1' || c == '2' || c == '3' || c == '4' || c == '5' || c == '6' || c == '7'
        || c == '8' || c == '9'
}

/// The numeric value of a decimal digit character.
pub open spec fn digit_val(c: char) -> int {
    if c == '0' {
        0
    } else if c == '1' {
        1
    } else if c == '2' {
        2
    } else if c == '3' {
        3
    } else if c == '4' {
        4
    } else if c == '5' {
        5
    } else if c == '6' {
        6
    } else if c == '7' {
        7
    } else if c == '8' {
        8
    } else {
        9
    }
}

/// The decimal digit character for a value below ten.
pub open spec fn digit_char(d: int) -> char {
    if d == 0 {
        '0'
    } else if d == 1 {
        '1'
    } else if d == 2 {
        '2'
    } else if d == 3 {
        '3'
    } else if d == 4 {
        '4'
    } else if d == 5 {
        '5'
    } else if d == 6 {
        '6'
    } else if d == 7 {
        '7'
    } else if d == 8 {
        '8'
    } else {
        '9'
    }
}

/// The decimal representation of a number, without leading zeroes.
pub open spec fn dec_rep(n: nat) -> Seq<char>
    decreases n,
{
    if n < 10 {
        seq![digit_char(n as int)]
    } else {
        dec_rep(n / 10).push(digit_char((n % 10) as int))
    }
}

/// Every character of the sequence is a decimal digit.
pub open spec fn all_digits(s: Seq<char>) -> bool {
    forall|i: int| 0 <= i < s.len() ==> is_digit_char(#[trigger] s[i])
}

/// The number denoted by a sequence of decimal digits.
pub open spec fn digits_val(s: Seq<char>) -> int
    decreases s.len(),
{
    if s.len() == 0 {
        0
    } else {
        digits_val(s.drop_last()) * 10 + digit_val(s.last())
    }
}

/// What a payload must look like to decode as an unsigned number: plain
/// decimal digits, no leading zero, and a value that fits.
pub open spec fn u64_dec(s: Seq<char>) -> Option<u64> {
    if s.len() > 0 && all_digits(s) && (s[0] != '0' || s.len() == 1) && digits_val(s)
        <= u64::MAX {
        Option::Some(digits_val(s) as u64)
    } else {
        Option::None
    }
}

proof fn lemma_dec_rep_digits(n: nat)
    ensures
        dec_rep(n).len() >= 1,
        all_digits(dec_rep(n)),
        n >= 1 ==> dec_rep(n)[0] != '0',
        n < 10 ==> dec_rep(n).len() == 1,
        digits_val(dec_rep(n)) == n,
    decreases n,
{
    if n < 10 {
        assert(dec_rep(n) =~= seq![digit_char(n as int)]);
        assert(dec_rep(n).drop_last() =~= Seq::<char>::empty());
        assert(dec_rep(n).last() == digit_char(n as int));
        assert(digit_val(digit_char(n as int)) == n);
        assert(digits_val(dec_rep(n)) == digits_val(dec_rep(n).drop_last()) * 10 + digit_val(
            dec_rep(n).last(),
        ));
    } else {
        lemma_dec_rep_digits(n / 10);
        let prev = dec_rep(n / 10);
        let whole = dec_rep(n);
        assert(whole == prev.push(digit_char((n % 10) as int)));
        assert(whole.drop_last() =~= prev);
        assert(whole[0] == prev[0]);
        assert forall|i: int| 0 <= i < whole.len() implies is_digit_char(#[trigger] whole[i]) by {
            if i < prev.len() {
                assert(whole[i] == prev[i]);
            }
        }
        assert(digits_val(whole) == (n / 10) * 10 + (n % 10));
        assert(n == (n / 10) * 10 + (n % 10));
    }
}

proof fn lemma_digits_val_nonneg(s: Seq<char>)
    requires
        all_digits(s),
    ensures
        digits_val(s) >= 0,
    decreases s.len(),
{
    if s.len() > 0 {
        let d = s.drop_last();
        assert(all_digits(d)) by {
            assert forall|j: int| 0 <= j < d.len() implies is_digit_char(#[trigger] d[j]) by {
                assert(d[j] == s[j]);
            }
        }
        lemma_digits_val_nonneg(d);
        assert(digit_val(s.last()) >= 0);
    }
}

/// A digit appended on the right grows the denoted number tenfold, so a
/// prefix never denotes more than the whole.
proof fn lemma_digits_val_prefix(s: Seq<char>, i: int)
    requires
        all_digits(s),
        0 <= i <= s.len(),
    ensures
        digits_val(s) >= digits_val(s.subrange(0, i)),
    decreases s.len(),
{
    if i == s.len() {
        assert(s.subrange(0, i) =~= s);
    } else {
        let d = s.drop_last();
        assert(all_digits(d)) by {
            assert forall|j: int| 0 <= j < d.len() implies is_digit_char(#[trigger] d[j]) by {
                assert(d[j] == s[j]);
            }
        }
        lemma_digits_val_prefix(d, i);
        assert(d.subrange(0, i) =~= s.subrange(0, i));
        lemma_digits_val_nonneg(d);
        assert(digit_val(s.last()) >= 0);
        assert(digits_val(d) * 10 >= digits_val(d));
    }
}

fn digit_char_of(d: u64) -> (c: char)
    requires
        d < 10,
    ensures
        c == digit_char(d as int),
{
    if d == 0 {
        '0'
    } else if d == 1 {
        '1'
    } else if d == 2 {
        '2'
    } else if d == 3 {
        '3'
    } else if d == 4 {
        '4'
    } else if d == 5 {
        '5'
    } else if d == 6 {
        '6'
    } else if d == 7 {
        '7'
    } else if d == 8 {
        '8'
    } else {
        '9'
    }
}

fn digit_of_char(c: char) -> (r: Option<u64>)
    ensures
        match r {
            Option::Some(d) => is_digit_char(c) && d < 10 && d == digit_val(c),
            Option::None => !is_digit_char(c),
        },
{
    match c {
        '0' => Option::Some(0),
        '1' => Option::Some(1),
        '2' => Option::Some(2),
        '3' => Option::Some(3),
        '4' => Option::Some(4),
        '5' => Option::Some(5),
        '6' => Option::Some(6),
        '7' => Option::Some(7),
        '8' => Option::Some(8),
        '9' => Option::Some(9),
        _ => Option::None,
    }
}

fn encode_u64(n: u64) -> (r: String)
    ensures
        r@ == dec_rep(n as nat),
    decreases n,
{
    if n < 10 {
        let mut s = String::new();
        push_char(&mut s, digit_char_of(n));
        proof {
            assert(s@ =~= seq![digit_char(n as int)]);
        }
        s
    } else {
        let mut s = encode_u64(n / 10);
        push_char(&mut s, digit_char_of(n % 10));
        s
    }
}

fn decode_u64(s: &str) -> (r: Option<u64>)
    ensures
        r == u64_dec(s@),
{
    let n = s.unicode_len();
    if n == 0 {
        return Option::None;
    }
    if n > 1 && s.get_char(0) == '0' {
        return Option::None;
    }
    let mut acc: u64 = 0;
    let mut i: usize = 0;
    while i < n
        invariant
            n == s@.len(),
            0 < n <= usize::MAX,
            i <= n,
            all_digits(s@.subrange(0, i as int)),
            acc == digits_val(s@.subrange(0, i as int)),
        decreases n - i,
    {
        let ghost pre = s@.subrange(0, i as int);
        proof {
            assert(s@.subrange(0, i + 1).drop_last() =~= pre);
            assert(s@.subrange(0, i + 1).last() == s@[i as int]);
        }
        let c = s.get_char(i);
        match digit_of_char(c) {
            Option::None => {
                return Option::None;
            },
            Option::Some(d) => {
                if acc > (u64::MAX - d) / 10 {
                    proof {
                        let t = s@.subrange(0, i + 1);
                        assert(all_digits(t)) by {
                            assert forall|j: int| 0 <= j < t.len() implies is_digit_char(
                                #[trigger] t[j],
                            ) by {
                                if j < i {
                                    assert(t[j] == pre[j]);
                                }
                            }
                        }
                        assert(digits_val(t) == acc * 10 + d);
                        assert(acc >= (u64::MAX - d) / 10 + 1);
                        assert(acc * 10 >= ((u64::MAX - d) / 10 + 1) * 10) by (nonlinear_arith)
                            requires
                                acc >= (u64::MAX - d) / 10 + 1,
                        ;
                        assert(((u64::MAX - d) / 10) * 10 + 10 > u64::MAX - d);
                        if all_digits(s@) {
                            lemma_digits_val_prefix(s@, i + 1);
                        }
                    }
                    return Option::None;
                }
                proof {
                    assert(acc <= (u64::MAX - d) / 10);
                    assert(acc * 10 <= ((u64::MAX - d) / 10) * 10) by (nonlinear_arith)
                        requires
                            acc <= (u64::MAX - d) / 10,
                    ;
                    assert(((u64::MAX - d) / 10) * 10 <= u64::MAX - d);
                }
                acc = acc * 10 + d;
                proof {
                    let t = s@.subrange(0, i + 1);
                    assert(all_digits(t)) by {
                        assert forall|j: int| 0 <= j < t.len() implies is_digit_char(
                            #[trigger] t[j],
                        ) by {
                            if j < i {
                                assert(t[j] == pre[j]);
                            }
                        }
                    }
                    assert(digits_val(t) == digits_val(pre) * 10 + digit_val(s@[i as int]));
                }
            },
        }
        i = i + 1;
    }
    proof {
        assert(s@.subrange(0, n as int) =~= s@);
    }
    Option::Some(acc)
}

impl Codec for u64 {
    open spec fn encodable(&self) -> bool {
        true
    }

    open spec fn enc(&self) -> Seq<char> {
        dec_rep(*self as nat)
    }

    open spec fn dec(s: Seq<char>) -> Option<u64> {
        u64_dec(s)
    }

    proof fn lemma_round_trip(&self) {
        lemma_dec_rep_digits(*self as nat);
    }

    fn encode(&self) -> (r: Result<String, CacheError>) {
        Result::Ok(encode_u64(*self))
    }

    fn decode(s: &str) -> (r: Option<u64>) {
        decode_u64(s)
    }
}

/// The decimal representation of a signed number: a minus sign before
/// the magnitude when negative.
pub open spec fn i64_rep(n: int) -> Seq<char> {
    if n < 0 {
        seq!['-'] + dec_rep((-n) as nat)
    } else {
        dec_rep(n as nat)
    }
}

pub(crate) fn encode_i64(n: i64) -> (r: String)
    ensures
        r@ == i64_rep(n as int),
{
    if n >= 0 {
        encode_u64(n as u64)
    } else {
        let mag: u64 = (-(n as i128)) as u64;
        proof {
            assert(mag == -(n as int));
        }
        let mut s = String::new();
        push_char(&mut s, '-');
        let digits = encode_u64(mag);
        s.append(digits.as_str());
        proof {
            assert(s@ =~= seq!['-'] + dec_rep(mag as nat));
        }
        s
    }
}

/// What a payload must look like to decode as a truth value.
pub open spec fn bool_dec(s: Seq<char>) -> Option<bool> {
    if s == "true"@ {
        Option::Some(true)
    } else if s == "false"@ {
        Option::Some(false)
    } else {
        Option::None
    }
}

impl Codec for bool {
    open spec fn encodable(&self) -> bool {
        true
    }

    open spec fn enc(&self) -> Seq<char> {
        if *self {
            "true"@
        } else {
            "false"@
        }
    }

    open spec fn dec(s: Seq<char>) -> Option<bool> {
        bool_dec(s)
    }

    proof fn lemma_round_trip(&self) {
        reveal_strlit("true");
        reveal_strlit("false");
        assert("true"@.len() == 4);
        assert("false"@.len() == 5);
        assert("true"@ != "false"@);
    }

    fn encode(&self) -> (r: Result<String, CacheError>) {
        if *self {
            Result::Ok(String::from_str("true"))
        } else {
            Result::Ok(String::from_str("false"))
        }
    }

    fn decode(s: &str) -> (r: Option<bool>) {
        if crate::text::str_eq(s, "true") {
            Option::Some(true)
        } else if crate::text::str_eq(s, "false") {
            Option::Some(false)
        } else {
            Option::None
        }
    }
}

} // verus!
