use vstd::prelude::*;
use vstd::string::StrSliceExecFns;
use vstd::string::StringExecFns;
use crate::glob::glob_match;
use crate::glob::lemma_prefix_star;
use crate::glob::literal_pattern;
use crate::text::is_alnum_char;
use crate::text::is_alphanumeric_char;
use crate::text::lower_of;
use crate::text::push_char;
use crate::text::to_lowercase_str;

verus! {

/// The hexadecimal digit character for a value below sixteen.
pub open spec fn hex_digit(d: int) -> char {
    if d == 0 {
        '0'
    } else if d == 1 {
        '1'
    } else if d == 2 {
        '2'
    } else if d == 3 {
        '3'
    } else if d == 4 {
        '4'
    } else if d == 5 {
        '5'
    } else if d == 6 {
        '6'
    } else if d == 7 {
        '7'
    } else if d == 8 {
        '8'
    } else if d == 9 {
        '9'
    } else if d == 10 {
        'a'
    } else if d == 11 {
        'b'
    } else if d == 12 {
        'c'
    } else if d == 13 {
        'd'
    } else if d == 14 {
        'e'
    } else {
        'f'
    }
}

/// The lowercase hexadecimal text of the `len` least significant digits
/// of `n`, most significant first.
pub open spec fn hex_rep(n: nat, len: nat) -> Seq<char>
    decreases len,
{
    if len == 0 {
        Seq::empty()
    } else {
        hex_rep(n / 16, (len - 1) as nat).push(hex_digit((n % 16) as int))
    }
}

/// The canonical hyphenated lowercase text of a 128-bit identifier:
/// five hexadecimal groups of 8, 4, 4, 4 and 12 digits.
pub open spec fn uuid_seq(id: u128) -> Seq<char> {
    hex_rep((id as nat) / 0x1000000000000000000000000, 8) + seq!['-'] + hex_rep(
        ((id as nat) / 0x100000000000000000000) % 0x10000,
        4,
    ) + seq!['-'] + hex_rep(((id as nat) / 0x10000000000000000) % 0x10000, 4) + seq!['-']
        + hex_rep(((id as nat) / 0x1000000000000) % 0x10000, 4) + seq!['-'] + hex_rep(
        (id as nat) % 0x1000000000000,
        12,
    )
}

fn hex_digit_of(d: u128) -> (c: char)
    requires
        d < 16,
    ensures
        c == hex_digit(d as int),
{
    if d == 0 {
        '0'
    } else if d == 1 {
        '1'
    } else if d == 2 {
        '2'
    } else if d == 3 {
        '3'
    } else if d == 4 {
        '4'
    } else if d == 5 {
        '5'
    } else if d == 6 {
        '6'
    } else if d == 7 {
        '7'
    } else if d == 8 {
        '8'
    } else if d == 9 {
        '9'
    } else if d == 10 {
        'a'
    } else if d == 11 {
        'b'
    } else if d == 12 {
        'c'
    } else if d == 13 {
        'd'
    } else if d == 14 {
        'e'
    } else {
        'f'
    }
}

fn hex_fixed(n: u128, len: usize) -> (r: String)
    ensures
        r@ == hex_rep(n as nat, len as nat),
    decreases len,
{
    if len == 0 {
        String::new()
    } else {
        let mut s = hex_fixed(n / 16, len - 1);
        push_char(&mut s, hex_digit_of(n % 16));
        s
    }
}

/// Formats a 128-bit identifier in its canonical hyphenated lowercase
/// hexadecimal form.
pub fn uuid_string(id: u128) -> (r: String)
    ensures
        r@ == uuid_seq(id),
{
    let mut s = hex_fixed(id / 0x1000000000000000000000000, 8);
    s.append("-");
    let g2 = hex_fixed((id / 0x100000000000000000000) % 0x10000, 4);
    s.append(g2.as_str());
    s.append("-");
    let g3 = hex_fixed((id / 0x10000000000000000) % 0x10000, 4);
    s.append(g3.as_str());
    s.append("-");
    let g4 = hex_fixed((id / 0x1000000000000) % 0x10000, 4);
    s.append(g4.as_str());
    s.append("-");
    let g5 = hex_fixed(id % 0x1000000000000, 12);
    s.append(g5.as_str());
    proof {
        reveal_strlit("-");
        assert("-"@ =~= seq!['-']);
        assert(s@ =~= uuid_seq(id));
    }
    s
}

/// A character the key sanitizer keeps: a letter or digit, a hyphen, or
/// an underscore.
pub open spec fn keep_char(c: char) -> bool {
    is_alnum_char(c) || c == '-' || c == '_'
}

/// The key view of the organisation-by-id family.
pub open spec fn key_org_id(id: u128) -> Seq<char> {
    seq!['o', 'r', 'g', ':', 'i', 'd', ':'] + uuid_seq(id)
}

/// The key view of the organisation-list family.
pub open spec fn key_org_list(h: Seq<char>) -> Seq<char> {
    seq!['o', 'r', 'g', ':', 'l', 'i', 's', 't', ':'] + h
}

/// The organisation family wildcard.
pub open spec fn pattern_org() -> Seq<char> {
    seq!['o', 'r', 'g', ':', '*']
}

/// The key view of the organisation counter.
pub open spec fn key_org_count() -> Seq<char> {
    seq!['o', 'r', 'g', ':', 'c', 'o', 'u', 'n', 't']
}

/// The key view of the country-connection-by-id family.
pub open spec fn key_cc_id(id: u128) -> Seq<char> {
    seq!['c', 'c', ':', 'i', 'd', ':'] + uuid_seq(id)
}

/// The key view of the country-connection-list family.
pub open spec fn key_cc_list(h: Seq<char>) -> Seq<char> {
    seq!['c', 'c', ':', 'l', 'i', 's', 't', ':'] + h
}

/// The country-connection family wildcard.
pub open spec fn pattern_cc() -> Seq<char> {
    seq!['c', 'c', ':', '*']
}

/// The key view of a versioned key.
pub open spec fn key_versioned(base: Seq<char>, v: Seq<char>) -> Seq<char> {
    base + seq![':', 'v', ':'] + v
}

/// Deterministic, collision-resistant cache key construction per resource
/// family. For one logical identity the same key is always produced, and
/// a family's wildcard pattern matches every key of that family and none
/// of the other's.
pub struct CacheKeys;

impl CacheKeys {
    /// The cache key of one organisation.
    pub fn organisation_by_id(id: u128) -> (r: String)
        ensures
            r@ == key_org_id(id),
    {
        let mut s = String::from_str("org:id:");
        let u = uuid_string(id);
        s.append(u.as_str());
        proof {
            reveal_strlit("org:id:");
            assert(s@ =~= key_org_id(id));
        }
        s
    }

    /// The cache key of an organisation list for one filter hash.
    pub fn organisations_list(filters_hash: &str) -> (r: String)
        ensures
            r@ == key_org_list(filters_hash@),
    {
        let mut s = String::from_str("org:list:");
        s.append(filters_hash);
        proof {
            reveal_strlit("org:list:");
            assert(s@ =~= key_org_list(filters_hash@));
        }
        s
    }

    /// The wildcard pattern of the organisation family.
    pub fn organisation_pattern() -> (r: String)
        ensures
            r@ == pattern_org(),
    {
        let s = String::from_str("org:*");
        proof {
            reveal_strlit("org:*");
            assert(s@ =~= pattern_org());
        }
        s
    }

    /// The cache key of the organisation counter.
    pub fn organisation_count() -> (r: String)
        ensures
            r@ == key_org_count(),
    {
        let s = String::from_str("org:count");
        proof {
            reveal_strlit("org:count");
            assert(s@ =~= key_org_count());
        }
        s
    }

    /// The cache key of one country connection.
    pub fn country_connection_by_id(id: u128) -> (r: String)
        ensures
            r@ == key_cc_id(id),
    {
        let mut s = String::from_str("cc:id:");
        let u = uuid_string(id);
        s.append(u.as_str());
        proof {
            reveal_strlit("cc:id:");
            assert(s@ =~= key_cc_id(id));
        }
        s
    }

    /// The cache key of a country-connection list for one filter hash.
    pub fn country_connections_list(filters_hash: &str) -> (r: String)
        ensures
            r@ == key_cc_list(filters_hash@),
    {
        let mut s = String::from_str("cc:list:");
        s.append(filters_hash);
        proof {
            reveal_strlit("cc:list:");
            assert(s@ =~= key_cc_list(filters_hash@));
        }
        s
    }

    /// The wildcard pattern of the country-connection family.
    pub fn country_connection_pattern() -> (r: String)
        ensures
            r@ == pattern_cc(),
    {
        let s = String::from_str("cc:*");
        proof {
            reveal_strlit("cc:*");
            assert(s@ =~= pattern_cc());
        }
        s
    }

    /// Strips every character that is not a letter, digit, hyphen or
    /// underscore, then lowercases the rest, so that caller-supplied text
    /// is safe inside a composite key.
    pub fn sanitize_key(input: &str) -> (r: String)
        ensures
            r@ == lower_of(input@.filter(|c: char| keep_char(c))),
    {
        let n = input.unicode_len();
        let mut kept = String::new();
        let mut i: usize = 0;
        while i < n
            invariant
                n == input@.len(),
                i <= n,
                kept@ == input@.subrange(0, i as int).filter(|c: char| keep_char(c)),
            decreases n - i,
        {
            let c = input.get_char(i);
            let keep = if is_alphanumeric_char(c) {
                true
            } else {
                c == '-' || c == '_'
            };
            if keep {
                push_char(&mut kept, c);
            }
            proof {
                let pre = input@.subrange(0, i as int);
                let cur = input@.subrange(0, i + 1);
                assert(cur.drop_last() =~= pre);
                assert(cur.last() == input@[i as int]);
                assert(kept@ == cur.filter(|c: char| keep_char(c))) by {
                    reveal(Seq::filter);
                }
            }
            i = i + 1;
        }
        proof {
            assert(input@.subrange(0, n as int) =~= input@);
        }
        to_lowercase_str(kept.as_str())
    }

    /// The key of one version of a base key.
    pub fn versioned_key(base_key: &str, version: &str) -> (r: String)
        ensures
            r@ == key_versioned(base_key@, version@),
    {
        let mut s = String::from_str(base_key);
        s.append(":v:");
        s.append(version);
        proof {
            reveal_strlit(":v:");
            assert(s@ =~= key_versioned(base_key@, version@));
        }
        s
    }
}

/// The text a list-cache filter-hash uses for one optional filter value.
pub open spec fn opt_filter_rep(v: Option<i64>) -> Seq<char> {
    match v {
        Option::Some(n) => crate::codec::i64_rep(n as int),
        Option::None => seq!['n', 'o', 'n', 'e'],
    }
}

/// The filter-hash of a list query: a deterministic summary of its
/// filters, fit to stand as the suffix of a list-cache key.
pub open spec fn filter_hash_seq(limit: Option<i64>, offset: Option<i64>) -> Seq<char> {
    seq!['l', 'i', 'm', 'i', 't', ':'] + opt_filter_rep(limit) + seq![
        ':',
        'o',
        'f',
        'f',
        's',
        'e',
        't',
        ':',
    ] + opt_filter_rep(offset)
}

/// The query filters of a list request: the shape whose values a
/// list-cache key summarizes through a filter-hash.
#[derive(Clone, Copy, Debug)]
pub struct CountriesListQueryParams {
    pub limit: Option<i64>,
    pub offset: Option<i64>,
}

impl CountriesListQueryParams {
    /// A deterministic filter-hash over the filters: the same filters
    /// always give the same text, so the same list query always reaches
    /// the same list-cache key.
    pub fn filter_hash(&self) -> (r: String)
        ensures
            r@ == filter_hash_seq(self.limit, self.offset),
    {
        let mut s = String::from_str("limit:");
        match self.limit {
            Option::Some(n) => {
                let d = crate::codec::encode_i64(n);
                s.append(d.as_str());
            },
            Option::None => {
                s.append("none");
            },
        }
        s.append(":offset:");
        match self.offset {
            Option::Some(n) => {
                let d = crate::codec::encode_i64(n);
                s.append(d.as_str());
            },
            Option::None => {
                s.append("none");
            },
        }
        proof {
            reveal_strlit("limit:");
            reveal_strlit(":offset:");
            reveal_strlit("none");
            assert(s@ =~= filter_hash_seq(self.limit, self.offset));
        }
        s
    }
}

/// Sixteen to the power `len`: the number of values a fixed-width
/// hexadecimal text of `len` digits can name.
pub open spec fn pow16(len: nat) -> nat
    decreases len,
{
    if len == 0 {
        1
    } else {
        16 * pow16((len - 1) as nat)
    }
}

proof fn lemma_hex_rep_len(n: nat, len: nat)
    ensures
        hex_rep(n, len).len() == len,
    decreases len,
{
    if len > 0 {
        lemma_hex_rep_len(n / 16, (len - 1) as nat);
    }
}

proof fn lemma_hex_rep_inj(a: nat, b: nat, len: nat)
    requires
        a < pow16(len),
        b < pow16(len),
        hex_rep(a, len) == hex_rep(b, len),
    ensures
        a == b,
    decreases len,
{
    if len == 0 {
    } else {
        let ra = hex_rep(a, len);
        let rb = hex_rep(b, len);
        assert(ra == hex_rep(a / 16, (len - 1) as nat).push(hex_digit((a % 16) as int)));
        assert(rb == hex_rep(b / 16, (len - 1) as nat).push(hex_digit((b % 16) as int)));
        lemma_hex_rep_len(a / 16, (len - 1) as nat);
        lemma_hex_rep_len(b / 16, (len - 1) as nat);
        assert(ra.last() == hex_digit((a % 16) as int));
        assert(rb.last() == hex_digit((b % 16) as int));
        assert(a % 16 == b % 16);
        assert(ra.drop_last() =~= hex_rep(a / 16, (len - 1) as nat));
        assert(rb.drop_last() =~= hex_rep(b / 16, (len - 1) as nat));
        assert(a / 16 < pow16((len - 1) as nat)) by (nonlinear_arith)
            requires
                a < 16 * pow16((len - 1) as nat),
        ;
        assert(b / 16 < pow16((len - 1) as nat)) by (nonlinear_arith)
            requires
                b < 16 * pow16((len - 1) as nat),
        ;
        lemma_hex_rep_inj(a / 16, b / 16, (len - 1) as nat);
        assert(a == 16 * (a / 16) + a % 16);
        assert(b == 16 * (b / 16) + b % 16);
    }
}

proof fn lemma_pow16_values()
    ensures
        pow16(4) == 0x10000,
        pow16(8) == 0x100000000,
        pow16(12) == 0x1000000000000,
{
    assert(pow16(0) == 1);
    assert(pow16(1) == 16);
    assert(pow16(2) == 0x100);
    assert(pow16(3) == 0x1000);
    assert(pow16(4) == 0x10000);
    assert(pow16(5) == 0x100000);
    assert(pow16(6) == 0x1000000);
    assert(pow16(7) == 0x10000000);
    assert(pow16(8) == 0x100000000);
    assert(pow16(9) == 0x1000000000);
    assert(pow16(10) == 0x10000000000);
    assert(pow16(11) == 0x100000000000);
    assert(pow16(12) == 0x1000000000000);
}

/// The canonical hyphenated text names its identifier uniquely.
proof fn lemma_uuid_seq_inj(id1: u128, id2: u128)
    requires
        uuid_seq(id1) == uuid_seq(id2),
    ensures
        id1 == id2,
{
    lemma_pow16_values();
    let n1 = id1 as nat;
    let n2 = id2 as nat;
    let a1 = n1 / 0x1000000000000000000000000;
    let a2 = n2 / 0x1000000000000000000000000;
    let b1 = (n1 / 0x100000000000000000000) % 0x10000;
    let b2 = (n2 / 0x100000000000000000000) % 0x10000;
    let c1 = (n1 / 0x10000000000000000) % 0x10000;
    let c2 = (n2 / 0x10000000000000000) % 0x10000;
    let d1 = (n1 / 0x1000000000000) % 0x10000;
    let d2 = (n2 / 0x1000000000000) % 0x10000;
    let e1 = n1 % 0x1000000000000;
    let e2 = n2 % 0x1000000000000;
    lemma_hex_rep_len(a1, 8);
    lemma_hex_rep_len(a2, 8);
    lemma_hex_rep_len(b1, 4);
    lemma_hex_rep_len(b2, 4);
    lemma_hex_rep_len(c1, 4);
    lemma_hex_rep_len(c2, 4);
    lemma_hex_rep_len(d1, 4);
    lemma_hex_rep_len(d2, 4);
    lemma_hex_rep_len(e1, 12);
    lemma_hex_rep_len(e2, 12);
    let u1 = uuid_seq(id1);
    let u2 = uuid_seq(id2);
    assert(hex_rep(a1, 8) =~= u1.subrange(0, 8));
    assert(hex_rep(a2, 8) =~= u2.subrange(0, 8));
    assert(hex_rep(b1, 4) =~= u1.subrange(9, 13));
    assert(hex_rep(b2, 4) =~= u2.subrange(9, 13));
    assert(hex_rep(c1, 4) =~= u1.subrange(14, 18));
    assert(hex_rep(c2, 4) =~= u2.subrange(14, 18));
    assert(hex_rep(d1, 4) =~= u1.subrange(19, 23));
    assert(hex_rep(d2, 4) =~= u2.subrange(19, 23));
    assert(hex_rep(e1, 12) =~= u1.subrange(24, 36));
    assert(hex_rep(e2, 12) =~= u2.subrange(24, 36));
    assert(a1 < pow16(8)) by (nonlinear_arith)
        requires
            n1 < 0x100000000000000000000000000000000,
            a1 == n1 / 0x1000000000000000000000000,
            pow16(8) == 0x100000000,
    ;
    assert(a2 < pow16(8)) by (nonlinear_arith)
        requires
            n2 < 0x100000000000000000000000000000000,
            a2 == n2 / 0x1000000000000000000000000,
            pow16(8) == 0x100000000,
    ;
    lemma_hex_rep_inj(a1, a2, 8);
    lemma_hex_rep_inj(b1, b2, 4);
    lemma_hex_rep_inj(c1, c2, 4);
    lemma_hex_rep_inj(d1, d2, 4);
    lemma_hex_rep_inj(e1, e2, 12);
    lemma_uuid_fields_determine(id1);
    lemma_uuid_fields_determine(id2);
}

/// The five hexadecimal groups of the canonical text carry all 128 bits:
/// the identifier is a fixed arithmetic combination of them.
proof fn lemma_uuid_fields_determine(id: u128)
    ensures
        ({
            let n = id as nat;
            let a = n / 0x1000000000000000000000000;
            let b = (n / 0x100000000000000000000) % 0x10000;
            let c = (n / 0x10000000000000000) % 0x10000;
            let d = (n / 0x1000000000000) % 0x10000;
            let e = n % 0x1000000000000;
            n == (((a * 0x10000 + b) * 0x10000 + c) * 0x10000 + d) * 0x1000000000000 + e
        }),
{
    let n = id as int;
    vstd::arithmetic::div_mod::lemma_div_denominator(n, 0x100000000000000000000, 0x10000);
    vstd::arithmetic::div_mod::lemma_div_denominator(n, 0x10000000000000000, 0x10000);
    vstd::arithmetic::div_mod::lemma_div_denominator(n, 0x1000000000000, 0x10000);
    assert(0x100000000000000000000 * 0x10000 == 0x1000000000000000000000000);
    assert(0x10000000000000000 * 0x10000 == 0x100000000000000000000);
    assert(0x1000000000000 * 0x10000 == 0x10000000000000000);
    vstd::arithmetic::div_mod::lemma_fundamental_div_mod(n / 0x100000000000000000000, 0x10000);
    vstd::arithmetic::div_mod::lemma_fundamental_div_mod(n / 0x10000000000000000, 0x10000);
    vstd::arithmetic::div_mod::lemma_fundamental_div_mod(n / 0x1000000000000, 0x10000);
    vstd::arithmetic::div_mod::lemma_fundamental_div_mod(n, 0x1000000000000);
}

proof fn lemma_concat_cancel_left(p: Seq<char>, x: Seq<char>, y: Seq<char>)
    requires
        p + x == p + y,
    ensures
        x == y,
{
    assert(x =~= (p + x).subrange(p.len() as int, (p + x).len() as int));
    assert(y =~= (p + y).subrange(p.len() as int, (p + y).len() as int));
}

/// Key construction is collision-free: within one builder two identities
/// collide only if they are the same identity, and no two builders ever
/// produce the same key.
pub proof fn lemma_keys_collision_free(id1: u128, id2: u128, h1: Seq<char>, h2: Seq<char>)
    ensures
        key_org_id(id1) == key_org_id(id2) ==> id1 == id2,
        key_cc_id(id1) == key_cc_id(id2) ==> id1 == id2,
        key_org_list(h1) == key_org_list(h2) ==> h1 == h2,
        key_cc_list(h1) == key_cc_list(h2) ==> h1 == h2,
        key_org_id(id1) != key_cc_id(id2),
        key_org_id(id1) != key_org_list(h1),
        key_org_id(id1) != key_org_count(),
        key_org_list(h1) != key_org_count(),
        key_cc_id(id1) != key_cc_list(h1),
{
    if key_org_id(id1) == key_org_id(id2) {
        lemma_concat_cancel_left(
            seq!['o', 'r', 'g', ':', 'i', 'd', ':'],
            uuid_seq(id1),
            uuid_seq(id2),
        );
        lemma_uuid_seq_inj(id1, id2);
    }
    if key_cc_id(id1) == key_cc_id(id2) {
        lemma_concat_cancel_left(seq!['c', 'c', ':', 'i', 'd', ':'], uuid_seq(id1), uuid_seq(id2));
        lemma_uuid_seq_inj(id1, id2);
    }
    if key_org_list(h1) == key_org_list(h2) {
        lemma_concat_cancel_left(seq!['o', 'r', 'g', ':', 'l', 'i', 's', 't', ':'], h1, h2);
    }
    if key_cc_list(h1) == key_cc_list(h2) {
        lemma_concat_cancel_left(seq!['c', 'c', ':', 'l', 'i', 's', 't', ':'], h1, h2);
    }
    assert(key_org_id(id1)[0] == 'o' && key_cc_id(id2)[0] == 'c');
    assert(key_org_id(id1)[4] == 'i');
    if key_org_id(id1).len() == key_org_list(h1).len() {
        assert(key_org_list(h1)[4] == 'l');
    }
    if key_org_id(id1).len() == key_org_count().len() {
        assert(key_org_count()[4] == 'c');
    }
    if key_org_list(h1).len() == key_org_count().len() {
        assert(key_org_list(h1)[4] == 'l' && key_org_count()[4] == 'c');
    }
    assert(key_cc_id(id1)[3] == 'i');
    if key_cc_id(id1).len() == key_cc_list(h1).len() {
        assert(key_cc_list(h1)[3] == 'l');
    }
}

/// Each family's wildcard pattern matches every key that the family's
/// builders produce and no key of the other family.
pub proof fn lemma_pattern_families(id1: u128, h1: Seq<char>, id2: u128, h2: Seq<char>)
    ensures
        glob_match(pattern_org(), key_org_id(id1)),
        glob_match(pattern_org(), key_org_list(h1)),
        glob_match(pattern_org(), key_org_count()),
        !glob_match(pattern_org(), key_cc_id(id2)),
        !glob_match(pattern_org(), key_cc_list(h2)),
        glob_match(pattern_cc(), key_cc_id(id2)),
        glob_match(pattern_cc(), key_cc_list(h2)),
        !glob_match(pattern_cc(), key_org_id(id1)),
        !glob_match(pattern_cc(), key_org_list(h1)),
        !glob_match(pattern_cc(), key_org_count()),
{
    let po = seq!['o', 'r', 'g', ':'];
    let pc = seq!['c', 'c', ':'];
    assert(literal_pattern(po));
    assert(literal_pattern(pc));
    assert(pattern_org() =~= po + seq!['*']);
    assert(pattern_cc() =~= pc + seq!['*']);
    lemma_prefix_star(po, key_org_id(id1));
    lemma_prefix_star(po, key_org_list(h1));
    lemma_prefix_star(po, key_org_count());
    lemma_prefix_star(po, key_cc_id(id2));
    lemma_prefix_star(po, key_cc_list(h2));
    lemma_prefix_star(pc, key_cc_id(id2));
    lemma_prefix_star(pc, key_cc_list(h2));
    lemma_prefix_star(pc, key_org_id(id1));
    lemma_prefix_star(pc, key_org_list(h1));
    lemma_prefix_star(pc, key_org_count());
    assert(key_org_id(id1).subrange(0, 4) =~= po);
    assert(key_org_list(h1).subrange(0, 4) =~= po);
    assert(key_org_count().subrange(0, 4) =~= po);
    assert(key_cc_id(id2).subrange(0, 3) =~= pc);
    assert(key_cc_list(h2).subrange(0, 3) =~= pc);
    assert(key_cc_id(id2)[0] == 'c');
    assert(key_cc_list(h2)[0] == 'c');
    assert(key_org_id(id1)[0] == 'o');
    assert(key_org_list(h1)[0] == 'o');
    assert(key_org_count()[0] == 'o');
}

} // verus!
