//! Character-sequence predicates and the executable string helpers that
//! realize them: equality, prefix, substring search, lexicographic order.
use vstd::prelude::*;

verus! {

/// Lexicographic order on character sequences: `a` comes strictly before `b`.
pub open spec fn lex_lt(a: Seq<char>, b: Seq<char>) -> bool
    decreases a.len(),
{
    if b.len() == 0 {
        false
    } else if a.len() == 0 {
        true
    } else if a[0] != b[0] {
        a[0] < b[0]
    } else {
        lex_lt(a.skip(1), b.skip(1))
    }
}

/// `p` is a prefix of `s`.
pub open spec fn is_prefix(p: Seq<char>, s: Seq<char>) -> bool {
    p.len() <= s.len() && p == s.subrange(0, p.len() as int)
}

/// `m` occurs somewhere inside `t` as a contiguous run of characters.
pub open spec fn has_substring(t: Seq<char>, m: Seq<char>) -> bool {
    exists|i: int| 0 <= i && i + m.len() <= t.len() && m == #[trigger] t.subrange(i, i + m.len())
}

/// The items joined into one sequence with `sep` between neighbours.
pub open spec fn join(sep: Seq<char>, items: Seq<Seq<char>>) -> Seq<char>
    decreases items.len(),
{
    if items.len() == 0 {
        Seq::empty()
    } else if items.len() == 1 {
        items[0]
    } else {
        items[0] + sep + join(sep, items.skip(1))
    }
}

/// The characters of `s`, materialized for constant-time indexing.
pub fn chars_of(s: &str) -> (r: Vec<char>)
    ensures
        r@ == s@,
{
    let len = s.unicode_len();
    let mut r: Vec<char> = Vec::new();
    let mut i: usize = 0;
    while i < len
        invariant
            len == s@.len(),
            i <= len,
            r@ == s@.subrange(0, i as int),
        decreases len - i,
    {
        r.push(s.get_char(i));
        assert(r@ =~= s@.subrange(0, i + 1 as int));
        i = i + 1;
    }
    assert(r@ =~= s@);
    r
}

/// The two strings hold the same characters.
pub fn str_eq(a: &str, b: &str) -> (r: bool)
    ensures
        r == (a@ == b@),
{
    let alen = a.unicode_len();
    let blen = b.unicode_len();
    if alen != blen {
        return false;
    }
    let mut i: usize = 0;
    while i < alen
        invariant
            alen == a@.len(),
            alen == b@.len(),
            i <= alen,
            forall|k: int| 0 <= k < i ==> a@[k] == b@[k],
        decreases alen - i,
    {
        if a.get_char(i) != b.get_char(i) {
            return false;
        }
        i = i + 1;
    }
    assert(a@ =~= b@);
    true
}

/// `p` is a prefix of `s`.
pub fn has_prefix(s: &str, p: &str) -> (r: bool)
    ensures
        r == is_prefix(p@, s@),
{
    let plen = p.unicode_len();
    let slen = s.unicode_len();
    if plen > slen {
        return false;
    }
    let mut i: usize = 0;
    while i < plen
        invariant
            plen == p@.len(),
            slen == s@.len(),
            plen <= slen,
            i <= plen,
            forall|k: int| 0 <= k < i ==> p@[k] == s@[k],
        decreases plen - i,
    {
        if p.get_char(i) != s.get_char(i) {
            assert(!is_prefix(p@, s@)) by {
                assert(s@.subrange(0, p@.len() as int)[i as int] == s@[i as int]);
            }
            return false;
        }
        i = i + 1;
    }
    assert(p@ =~= s@.subrange(0, p@.len() as int));
    true
}

/// `m` occurs as a substring of `t`.
pub fn contains_text(t: &str, m: &str) -> (r: bool)
    ensures
        r == has_substring(t@, m@),
{
    let tc = chars_of(t);
    let mc = chars_of(m);
    let tlen = tc.len();
    let mlen = mc.len();
    if mlen > tlen {
        assert(!has_substring(t@, m@));
        return false;
    }
    if mlen == 0 {
        assert(m@ =~= t@.subrange(0, 0 + m@.len() as int));
        return true;
    }
    let mut i: usize = 0;
    while i <= tlen - mlen
        invariant
            tc@ == t@,
            mc@ == m@,
            tlen == t@.len(),
            mlen == m@.len(),
            0 < mlen <= tlen,
            i <= tlen - mlen + 1,
            forall|k: int| 0 <= k < i ==> m@ != #[trigger] t@.subrange(k, k + m@.len()),
        decreases tlen - i,
    {
        let mut j: usize = 0;
        let mut matched: bool = true;
        while j < mlen
            invariant
                tc@ == t@,
                mc@ == m@,
                tlen == t@.len(),
                mlen == m@.len(),
                i + mlen <= tlen,
                j <= mlen,
                matched ==> forall|k: int| 0 <= k < j ==> m@[k] == t@[i + k],
                !matched ==> m@ != t@.subrange(i as int, i + m@.len()),
            decreases mlen - j,
        {
            if tc[i + j] != mc[j] {
                assert(m@ != t@.subrange(i as int, i + m@.len())) by {
                    assert(t@.subrange(i as int, i + m@.len())[j as int] == t@[i + j]);
                }
                matched = false;
                j = mlen;
            } else {
                j = j + 1;
            }
        }
        if matched {
            assert(m@ =~= t@.subrange(i as int, i + m@.len()));
            return true;
        }
        i = i + 1;
    }
    assert forall|k: int| 0 <= k && k + m@.len() <= t@.len() implies m@ != #[trigger] t@.subrange(
        k,
        k + m@.len(),
    ) by {
        assert(k < i);
    }
    false
}

/// `a` comes strictly before `b` in lexicographic order.
pub fn str_lt(a: &str, b: &str) -> (r: bool)
    ensures
        r == lex_lt(a@, b@),
{
    let alen = a.unicode_len();
    let blen = b.unicode_len();
    let mut i: usize = 0;
    assert(a@.skip(0) =~= a@);
    assert(b@.skip(0) =~= b@);
    loop
        invariant
            alen == a@.len(),
            blen == b@.len(),
            i <= alen,
            i <= blen,
            lex_lt(a@, b@) == lex_lt(a@.skip(i as int), b@.skip(i as int)),
        decreases alen - i,
    {
        if i >= blen {
            assert(!lex_lt(a@.skip(i as int), b@.skip(i as int)));
            return false;
        }
        if i >= alen {
            assert(lex_lt(a@.skip(i as int), b@.skip(i as int)));
            return true;
        }
        let ca = a.get_char(i);
        let cb = b.get_char(i);
        assert(a@.skip(i as int)[0] == a@[i as int]);
        assert(b@.skip(i as int)[0] == b@[i as int]);
        if ca != cb {
            return ca < cb;
        }
        assert(a@.skip(i as int).skip(1) =~= a@.skip(i + 1));
        assert(b@.skip(i as int).skip(1) =~= b@.skip(i + 1));
        i = i + 1;
    }
}

/// The lexicographic order is irreflexive and asymmetric.
pub proof fn lemma_lex_lt_asymmetric(a: Seq<char>, b: Seq<char>)
    ensures
        lex_lt(a, b) ==> !lex_lt(b, a),
    decreases a.len(),
{
    if a.len() > 0 && b.len() > 0 && a[0] == b[0] {
        lemma_lex_lt_asymmetric(a.skip(1), b.skip(1));
    }
}

/// The lexicographic order is transitive.
pub proof fn lemma_lex_lt_transitive(a: Seq<char>, b: Seq<char>, c: Seq<char>)
    ensures
        lex_lt(a, b) && lex_lt(b, c) ==> lex_lt(a, c),
    decreases a.len(),
{
    if a.len() > 0 && b.len() > 0 && c.len() > 0 && a[0] == b[0] && b[0] == c[0] {
        lemma_lex_lt_transitive(a.skip(1), b.skip(1), c.skip(1));
    }
}

/// Any two character sequences are related: below, above, or equal.
pub proof fn lemma_lex_lt_connected(a: Seq<char>, b: Seq<char>)
    ensures
        !lex_lt(a, b) && !lex_lt(b, a) ==> a == b,
    decreases a.len(),
{
    if !lex_lt(a, b) && !lex_lt(b, a) {
        if a.len() == 0 || b.len() == 0 {
            assert(a =~= b);
        } else {
            lemma_lex_lt_connected(a.skip(1), b.skip(1));
            assert(a =~= seq![a[0]] + a.skip(1));
            assert(b =~= seq![b[0]] + b.skip(1));
        }
    }
}

} // verus!
