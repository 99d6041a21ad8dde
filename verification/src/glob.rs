use vstd::prelude::*;
use vstd::string::StrSliceExecFns;

verus! {

/// Glob-style pattern matching over whole strings: `*` matches any run of
/// characters, `?` matches exactly one, every other character matches
/// itself.
pub open spec fn glob_match(p: Seq<char>, s: Seq<char>) -> bool
    decreases p.len(), s.len(),
{
    if p.len() == 0 {
        s.len() == 0
    } else if p[0] == '*' {
        glob_match(p.skip(1), s) || (s.len() > 0 && glob_match(p, s.skip(1)))
    } else {
        s.len() > 0 && (p[0] == '?' || p[0] == s[0]) && glob_match(p.skip(1), s.skip(1))
    }
}

fn glob_match_from(p: &str, plen: usize, s: &str, slen: usize, pi: usize, si: usize) -> (r:
    bool)
    requires
        plen == p@.len(),
        slen == s@.len(),
        pi <= plen,
        si <= slen,
    ensures
        r == glob_match(p@.skip(pi as int), s@.skip(si as int)),
    decreases plen - pi, slen - si,
{
    proof {
        assert(p@.skip(pi as int).len() == plen - pi);
        assert(s@.skip(si as int).len() == slen - si);
    }
    if pi == plen {
        return si == slen;
    }
    proof {
        assert(p@.skip(pi as int)[0] == p@[pi as int]);
        assert(p@.skip(pi as int).skip(1) =~= p@.skip(pi + 1));
    }
    let c = p.get_char(pi);
    if c == '*' {
        if glob_match_from(p, plen, s, slen, pi + 1, si) {
            return true;
        }
        if si < slen {
            proof {
                assert(s@.skip(si as int).skip(1) =~= s@.skip(si + 1));
            }
            if glob_match_from(p, plen, s, slen, pi, si + 1) {
                return true;
            }
        }
        false
    } else {
        if si == slen {
            return false;
        }
        proof {
            assert(s@.skip(si as int)[0] == s@[si as int]);
            assert(s@.skip(si as int).skip(1) =~= s@.skip(si + 1));
        }
        let sc = s.get_char(si);
        if c == '?' || c == sc {
            glob_match_from(p, plen, s, slen, pi + 1, si + 1)
        } else {
            false
        }
    }
}

/// Whether the whole string `s` matches the glob pattern `p`.
pub fn glob_matches(p: &str, s: &str) -> (r: bool)
    ensures
        r == glob_match(p@, s@),
{
    let plen = p.unicode_len();
    let slen = s.unicode_len();
    let r = glob_match_from(p, plen, s, slen, 0, 0);
    proof {
        assert(p@.skip(0) =~= p@);
        assert(s@.skip(0) =~= s@);
    }
    r
}

/// The pattern contains no wildcard: it can only match itself.
pub open spec fn literal_pattern(p: Seq<char>) -> bool {
    forall|i: int| 0 <= i < p.len() ==> p[i] != '*' && p[i] != '?'
}

proof fn lemma_star_matches_all(s: Seq<char>)
    ensures
        glob_match(seq!['*'], s),
    decreases s.len(),
{
    assert(seq!['*'][0] == '*');
    assert(seq!['*'].skip(1) =~= Seq::<char>::empty());
    if s.len() == 0 {
        assert(glob_match(seq!['*'].skip(1), s));
    } else {
        lemma_star_matches_all(s.skip(1));
    }
}

/// A wildcard pattern `p + "*"` with a literal prefix `p` matches exactly
/// the strings that begin with `p`.
pub proof fn lemma_prefix_star(p: Seq<char>, s: Seq<char>)
    requires
        literal_pattern(p),
    ensures
        glob_match(p + seq!['*'], s) <==> (s.len() >= p.len() && s.subrange(0, p.len() as int)
            == p),
    decreases p.len(),
{
    let q = p + seq!['*'];
    if p.len() == 0 {
        assert(q =~= seq!['*']);
        lemma_star_matches_all(s);
        assert(s.subrange(0, 0) =~= p);
    } else {
        assert(q[0] == p[0]);
        assert(q.skip(1) =~= p.skip(1) + seq!['*']);
        assert(literal_pattern(p.skip(1)));
        if s.len() == 0 {
            assert(!glob_match(q, s));
        } else {
            lemma_prefix_star(p.skip(1), s.skip(1));
            if glob_match(q, s) {
                assert(s[0] == p[0]);
                assert(s.subrange(0, p.len() as int) =~= seq![s[0]] + s.skip(1).subrange(
                    0,
                    p.len() - 1,
                ));
                assert(p =~= seq![p[0]] + p.skip(1));
            } else {
                if s.len() >= p.len() && s.subrange(0, p.len() as int) == p {
                    assert(s[0] == s.subrange(0, p.len() as int)[0]);
                    assert(s.skip(1).subrange(0, p.len() - 1) =~= s.subrange(
                        0,
                        p.len() as int,
                    ).skip(1));
                    assert(glob_match(q.skip(1), s.skip(1)));
                    assert(glob_match(q, s));
                }
            }
        }
    }
}

} // verus!
