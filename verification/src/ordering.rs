//! The display order of diagnostics: primary key the file path of the first
//! span (lexicographic), then its starting line, then its starting column. A
//! diagnostic with no spans sorts before every located one. The sort is
//! stable: diagnostics with identical keys keep their input order.
use vstd::prelude::*;

use crate::diagnostics::Message;
use crate::text::lex_lt;
use crate::text::str_lt;
use crate::text::str_eq;
use crate::text::lemma_lex_lt_asymmetric;
use crate::text::lemma_lex_lt_transitive;
use crate::text::lemma_lex_lt_connected;

verus! {

/// The sort key of a diagnostic: the file path, starting line, and starting
/// column of its first span, if it has one.
pub open spec fn loc_key(m: Message) -> Option<(Seq<char>, u16, u16)> {
    if m.spans@.len() == 0 {
        None
    } else {
        Some((m.spans@[0].file_name@, m.spans@[0].line_start, m.spans@[0].column_start))
    }
}

/// `a` is displayed strictly before `b`: an absent key sorts first; present
/// keys compare by file path, then starting line, then starting column.
pub open spec fn key_lt(a: Message, b: Message) -> bool {
    match (loc_key(a), loc_key(b)) {
        (Option::None, Option::None) => false,
        (Option::None, Option::Some(_)) => true,
        (Option::Some(_), Option::None) => false,
        (Option::Some(ka), Option::Some(kb)) => lex_lt(ka.0, kb.0) || (ka.0 == kb.0 && (ka.1
            < kb.1 || (ka.1 == kb.1 && ka.2 < kb.2))),
    }
}

/// `a` and `b` have identical sort keys.
pub open spec fn key_eq(a: Message, b: Message) -> bool {
    match (loc_key(a), loc_key(b)) {
        (Option::None, Option::None) => true,
        (Option::Some(ka), Option::Some(kb)) => ka.0 == kb.0 && ka.1 == kb.1 && ka.2 == kb.2,
        _ => false,
    }
}

/// `a` is displayed no later than `b`.
pub open spec fn key_le(a: Message, b: Message) -> bool {
    key_lt(a, b) || key_eq(a, b)
}

/// The display order is strict: a diagnostic sorted before another is neither
/// after it nor tied with it.
pub proof fn lemma_key_lt_asymmetric(a: Message, b: Message)
    ensures
        key_lt(a, b) ==> !key_lt(b, a) && !key_eq(a, b),
{
    match (loc_key(a), loc_key(b)) {
        (Option::Some(ka), Option::Some(kb)) => {
            lemma_lex_lt_asymmetric(ka.0, kb.0);
        },
        _ => {},
    }
}

/// The display order is transitive.
pub proof fn lemma_key_lt_transitive(a: Message, b: Message, c: Message)
    ensures
        key_lt(a, b) && key_lt(b, c) ==> key_lt(a, c),
{
    match (loc_key(a), loc_key(b), loc_key(c)) {
        (Option::Some(ka), Option::Some(kb), Option::Some(kc)) => {
            lemma_lex_lt_transitive(ka.0, kb.0, kc.0);
        },
        _ => {},
    }
}

/// Any two diagnostics are comparable: distinct keys are strictly ordered one
/// way or the other, and the only unordered case is a tie.
pub proof fn lemma_key_connected(a: Message, b: Message)
    ensures
        !key_lt(a, b) && !key_lt(b, a) ==> key_eq(a, b),
{
    match (loc_key(a), loc_key(b)) {
        (Option::Some(ka), Option::Some(kb)) => {
            lemma_lex_lt_connected(ka.0, kb.0);
        },
        _ => {},
    }
}

/// Strict order on diagnostics paired with their input position: by key, and
/// among tied keys by position. On pairs with distinct positions this is a
/// strict total order, which is what makes the sort stable.
pub open spec fn pair_lt(a: (Message, usize), b: (Message, usize)) -> bool {
    key_lt(a.0, b.0) || (key_eq(a.0, b.0) && a.1 < b.1)
}

/// Non-strict companion of `pair_lt`.
pub open spec fn pair_le(a: (Message, usize), b: (Message, usize)) -> bool {
    key_lt(a.0, b.0) || (key_eq(a.0, b.0) && a.1 <= b.1)
}

/// Any two pairs are related by `pair_le` one way or the other.
proof fn lemma_pair_le_total(a: (Message, usize), b: (Message, usize))
    ensures
        pair_le(a, b) || pair_le(b, a),
        !pair_lt(b, a) ==> pair_le(a, b),
{
    lemma_key_connected(a.0, b.0);
    lemma_key_lt_asymmetric(a.0, b.0);
    lemma_key_lt_asymmetric(b.0, a.0);
}

/// `pair_le` is transitive.
proof fn lemma_pair_le_transitive(a: (Message, usize), b: (Message, usize), c: (Message, usize))
    ensures
        pair_le(a, b) && pair_le(b, c) ==> pair_le(a, c),
{
    lemma_key_lt_transitive(a.0, b.0, c.0);
    lemma_key_lt_asymmetric(a.0, b.0);
    lemma_key_lt_asymmetric(b.0, c.0);
}

/// The position, at or after `k`, of a pair that no pair at or after `k`
/// strictly precedes; the earliest such position.
pub open spec fn min_index_from(s: Seq<(Message, usize)>, k: int) -> int
    decreases s.len() - k,
{
    if k >= s.len() - 1 {
        k
    } else {
        let m = min_index_from(s, k + 1);
        if 0 <= m < s.len() && pair_lt(s[m], s[k]) {
            m
        } else {
            k
        }
    }
}

proof fn lemma_min_index_from_bounds(s: Seq<(Message, usize)>, k: int)
    requires
        0 <= k < s.len(),
    ensures
        k <= min_index_from(s, k) < s.len(),
    decreases s.len() - k,
{
    if k < s.len() - 1 {
        lemma_min_index_from_bounds(s, k + 1);
    }
}

proof fn lemma_min_index_from_min(s: Seq<(Message, usize)>, k: int)
    requires
        0 <= k < s.len(),
    ensures
        forall|j: int| k <= j < s.len() ==> pair_le(s[min_index_from(s, k)], #[trigger] s[j]),
    decreases s.len() - k,
{
    lemma_min_index_from_bounds(s, k);
    let m = min_index_from(s, k);
    if k >= s.len() - 1 {
        lemma_pair_le_total(s[k], s[k]);
    } else {
        let m1 = min_index_from(s, k + 1);
        lemma_min_index_from_bounds(s, k + 1);
        lemma_min_index_from_min(s, k + 1);
        lemma_pair_le_total(s[k], s[m1]);
        assert forall|j: int| k <= j < s.len() implies pair_le(s[m], #[trigger] s[j]) by {
            if j > k && m == k {
                lemma_pair_le_transitive(s[k], s[m1], s[j]);
            }
        }
    }
}

/// The diagnostics sorted by `pair_lt`: repeatedly move the least remaining
/// pair to the front.
pub open spec fn sel_sort(s: Seq<(Message, usize)>) -> Seq<(Message, usize)>
    decreases s.len(),
{
    if s.len() == 0 {
        s
    } else {
        let j = min_index_from(s, 0);
        if 0 <= j < s.len() {
            seq![s[j]] + sel_sort(s.remove(j))
        } else {
            s
        }
    }
}

proof fn lemma_sel_sort_len(s: Seq<(Message, usize)>)
    ensures
        sel_sort(s).len() == s.len(),
    decreases s.len(),
{
    if s.len() > 0 {
        lemma_min_index_from_bounds(s, 0);
        lemma_sel_sort_len(s.remove(min_index_from(s, 0)));
    }
}

/// Sorting keeps exactly the elements: the result is a permutation.
proof fn lemma_sel_sort_multiset(s: Seq<(Message, usize)>)
    ensures
        sel_sort(s).to_multiset() == s.to_multiset(),
    decreases s.len(),
{
    broadcast use vstd::seq_lib::group_to_multiset_ensures;

    if s.len() > 0 {
        let j = min_index_from(s, 0);
        lemma_min_index_from_bounds(s, 0);
        let rest = s.remove(j);
        lemma_sel_sort_multiset(rest);
        assert(sel_sort(rest).insert(0, s[j]) =~= seq![s[j]] + sel_sort(rest));
        assert(sel_sort(s).to_multiset() == rest.to_multiset().insert(s[j]));
        assert(s.to_multiset() =~= rest.to_multiset().insert(s[j]));
    }
}

/// Every element of the sorted sequence is an element of the input.
proof fn lemma_sel_sort_membership(s: Seq<(Message, usize)>)
    ensures
        forall|i: int| 0 <= i < sel_sort(s).len() ==> s.contains(#[trigger] sel_sort(s)[i]),
{
    broadcast use vstd::seq_lib::group_to_multiset_ensures;

    lemma_sel_sort_multiset(s);
    assert forall|i: int| 0 <= i < sel_sort(s).len() implies s.contains(
        #[trigger] sel_sort(s)[i],
    ) by {
        assert(sel_sort(s).contains(sel_sort(s)[i]));
        assert(sel_sort(s).to_multiset().count(sel_sort(s)[i]) > 0);
    }
}

/// The sorted sequence is ordered by `pair_le`.
proof fn lemma_sel_sort_sorted(s: Seq<(Message, usize)>)
    ensures
        forall|i: int, j: int|
            0 <= i < j < sel_sort(s).len() ==> pair_le(
                #[trigger] sel_sort(s)[i],
                #[trigger] sel_sort(s)[j],
            ),
    decreases s.len(),
{
    if s.len() > 0 {
        let m = min_index_from(s, 0);
        lemma_min_index_from_bounds(s, 0);
        let rest = s.remove(m);
        let sorted = sel_sort(s);
        lemma_sel_sort_sorted(rest);
        lemma_sel_sort_membership(rest);
        lemma_min_index_from_min(s, 0);
        assert forall|i: int, j: int|
            0 <= i < j < sorted.len() implies pair_le(
            #[trigger] sorted[i],
            #[trigger] sorted[j],
        ) by {
            if i == 0 {
                let e = sorted[j];
                assert(e == sel_sort(rest)[j - 1]);
                assert(rest.contains(e));
                let k = choose|k: int| 0 <= k < rest.len() && rest[k] == e;
                if k < m {
                    assert(s[k] == e);
                } else {
                    assert(s[k + 1] == e);
                }
            } else {
                assert(pair_le(sel_sort(rest)[i - 1], sel_sort(rest)[j - 1]));
            }
        }
    }
}

/// Each diagnostic paired with its input position.
pub open spec fn with_index(s: Seq<Message>) -> Seq<(Message, usize)> {
    Seq::new(s.len(), |i: int| (s[i], i as usize))
}

/// The diagnostics of a sequence of pairs, positions dropped.
pub open spec fn strip_pairs(s: Seq<(Message, usize)>) -> Seq<Message> {
    s.map_values(|p: (Message, usize)| p.0)
}

/// The input diagnostics in display order: sorted by key, ties kept in input
/// order.
pub open spec fn sorted_view(s: Seq<Message>) -> Seq<Message> {
    strip_pairs(sel_sort(with_index(s)))
}

proof fn lemma_strip_multiset(w: Seq<(Message, usize)>)
    ensures
        strip_pairs(sel_sort(w)).to_multiset() == strip_pairs(w).to_multiset(),
    decreases w.len(),
{
    broadcast use vstd::seq_lib::group_to_multiset_ensures;

    if w.len() > 0 {
        let j = min_index_from(w, 0);
        lemma_min_index_from_bounds(w, 0);
        let rest = w.remove(j);
        lemma_strip_multiset(rest);
        assert(strip_pairs(rest) =~= strip_pairs(w).remove(j));
        assert(strip_pairs(sel_sort(w)) =~= seq![w[j].0] + strip_pairs(sel_sort(rest)));
        assert(strip_pairs(sel_sort(rest)).insert(0, w[j].0) =~= seq![w[j].0] + strip_pairs(
            sel_sort(rest),
        ));
        assert(strip_pairs(w)[j] == w[j].0);
        assert(strip_pairs(sel_sort(w)).to_multiset() == strip_pairs(w).to_multiset().remove(
            w[j].0,
        ).insert(w[j].0));
        assert(strip_pairs(w).contains(strip_pairs(w)[j]));
        assert(strip_pairs(w).to_multiset().count(w[j].0) > 0);
        assert(strip_pairs(w).to_multiset().remove(w[j].0).insert(w[j].0) =~= strip_pairs(
            w,
        ).to_multiset());
    }
}

/// Sorting permutes the input: the same diagnostics come out that went in.
pub proof fn lemma_sort_is_permutation(s: Seq<Message>)
    ensures
        sorted_view(s).to_multiset() == s.to_multiset(),
{
    lemma_strip_multiset(with_index(s));
    assert(strip_pairs(with_index(s)) =~= s);
}

/// The displayed sequence is ordered: each diagnostic's key is at or before
/// the key of every later one.
pub proof fn lemma_sort_is_sorted(s: Seq<Message>)
    ensures
        sorted_view(s).len() == s.len(),
        forall|i: int, j: int|
            0 <= i < j < sorted_view(s).len() ==> key_le(
                #[trigger] sorted_view(s)[i],
                #[trigger] sorted_view(s)[j],
            ),
{
    lemma_sel_sort_sorted(with_index(s));
    lemma_sel_sort_len(with_index(s));
    assert forall|i: int, j: int|
        0 <= i < j < sorted_view(s).len() implies key_le(
        #[trigger] sorted_view(s)[i],
        #[trigger] sorted_view(s)[j],
    ) by {
        let w = sel_sort(with_index(s));
        assert(pair_le(w[i], w[j]));
    }
}

/// The sort is stable: every output pair records the input position its
/// diagnostic came from, and diagnostics with identical keys appear in the
/// order of those positions.
pub proof fn lemma_sort_is_stable(s: Seq<Message>)
    requires
        s.len() <= usize::MAX,
    ensures
        sel_sort(with_index(s)).len() == s.len(),
        forall|i: int|
            0 <= i < s.len() ==> (#[trigger] sel_sort(with_index(s))[i]).1 < s.len() && sel_sort(
                with_index(s),
            )[i].0 == s[sel_sort(with_index(s))[i].1 as int],
        forall|i: int, j: int|
            0 <= i < j < s.len() && key_eq(
                (#[trigger] sel_sort(with_index(s))[i]).0,
                (#[trigger] sel_sort(with_index(s))[j]).0,
            ) ==> sel_sort(with_index(s))[i].1 < sel_sort(with_index(s))[j].1,
{
    let w = with_index(s);
    let sorted = sel_sort(w);
    lemma_sel_sort_len(w);
    lemma_sel_sort_membership(w);
    lemma_sel_sort_sorted(w);
    lemma_sel_sort_multiset(w);
    assert forall|i: int|
        0 <= i < s.len() implies (#[trigger] sorted[i]).1 < s.len() && sorted[i].0 == s[sorted[i].1
        as int] by {
        assert(w.contains(sorted[i]));
        let k = choose|k: int| 0 <= k < w.len() && w[k] == sorted[i];
        assert(w[k] == (s[k], k as usize));
        assert(sorted[i].1 == k as usize && sorted[i].0 == s[k]);
    }
    assert(w.no_duplicates()) by {
        assert forall|i: int, j: int|
            0 <= i < w.len() && 0 <= j < w.len() && i != j implies w[i] != w[j] by {
            assert(w[i] == (s[i], i as usize));
            assert(w[j] == (s[j], j as usize));
            assert((i as usize) != (j as usize));
            assert(w[i].1 != w[j].1);
        }
    }
    w.lemma_multiset_has_no_duplicates();
    sorted.lemma_multiset_has_no_duplicates_conv();
    assert forall|i: int, j: int|
        0 <= i < j < s.len() && key_eq((#[trigger] sorted[i]).0, (#[trigger] sorted[j]).0) implies
        sorted[i].1 < sorted[j].1 by {
        assert(pair_le(sorted[i], sorted[j]));
        lemma_key_lt_asymmetric(sorted[i].0, sorted[j].0);
        lemma_key_lt_asymmetric(sorted[j].0, sorted[i].0);
        if sorted[i].1 == sorted[j].1 {
            assert(sorted[i].0 == s[sorted[i].1 as int] && sorted[j].0 == s[sorted[j].1 as int]);
            assert(sorted[i] == sorted[j]);
        }
    }
}

/// Whether `a` is displayed strictly before `b`.
pub fn msg_key_lt(a: &Message, b: &Message) -> (r: bool)
    ensures
        r == key_lt(*a, *b),
{
    if b.spans.len() == 0 {
        false
    } else if a.spans.len() == 0 {
        true
    } else {
        let sa = &a.spans[0];
        let sb = &b.spans[0];
        if str_lt(sa.file_name.as_str(), sb.file_name.as_str()) {
            true
        } else if !str_eq(sa.file_name.as_str(), sb.file_name.as_str()) {
            false
        } else if sa.line_start != sb.line_start {
            sa.line_start < sb.line_start
        } else {
            sa.column_start < sb.column_start
        }
    }
}

/// Whether `a` and `b` have identical sort keys.
pub fn msg_key_eq(a: &Message, b: &Message) -> (r: bool)
    ensures
        r == key_eq(*a, *b),
{
    if a.spans.len() == 0 && b.spans.len() == 0 {
        true
    } else if a.spans.len() == 0 || b.spans.len() == 0 {
        false
    } else {
        let sa = &a.spans[0];
        let sb = &b.spans[0];
        str_eq(sa.file_name.as_str(), sb.file_name.as_str()) && sa.line_start == sb.line_start
            && sa.column_start == sb.column_start
    }
}

fn pair_lt_exec(a: &(Message, usize), b: &(Message, usize)) -> (r: bool)
    ensures
        r == pair_lt(*a, *b),
{
    if msg_key_lt(&a.0, &b.0) {
        true
    } else if msg_key_eq(&a.0, &b.0) {
        a.1 < b.1
    } else {
        false
    }
}

/// The diagnostics in display order: sorted by file path, starting line, and
/// starting column of the first span, diagnostics without a span first, and
/// diagnostics with identical keys in input order.
#[verifier::loop_isolation(false)]
pub fn sort_messages(msgs: Vec<Message>) -> (r: Vec<Message>)
    ensures
        r@ == sorted_view(msgs@),
{
    let ghost orig: Seq<Message> = msgs@;
    let n = msgs.len();
    let mut msgs = msgs;
    let mut pairs: Vec<(Message, usize)> = Vec::new();
    let mut i: usize = 0;
    while msgs.len() > 0
        invariant
            n == orig.len(),
            i + msgs@.len() == orig.len(),
            msgs@ == orig.skip(i as int),
            pairs@ == with_index(orig).take(i as int),
        decreases msgs@.len(),
    {
        let m = msgs.remove(0);
        proof {
            assert(m == orig[i as int]);
        }
        pairs.push((m, i));
        i = i + 1;
        proof {
            assert(msgs@ =~= orig.skip(i as int));
            assert(pairs@ =~= with_index(orig).take(i as int));
        }
    }
    proof {
        assert(pairs@ =~= with_index(orig));
    }
    let mut out: Vec<Message> = Vec::new();
    while pairs.len() > 0
        invariant
            out@ + strip_pairs(sel_sort(pairs@)) == sorted_view(orig),
        decreases pairs@.len(),
    {
        let plen = pairs.len();
        let mut best: usize = plen - 1;
        let mut k: usize = plen - 1;
        while k > 0
            invariant
                plen == pairs@.len(),
                k < plen,
                best < plen,
                best == min_index_from(pairs@, k as int),
            decreases k,
        {
            k = k - 1;
            if !pair_lt_exec(&pairs[best], &pairs[k]) {
                best = k;
            }
        }
        let ghost old_pairs = pairs@;
        let ghost old_out = out@;
        proof {
            lemma_min_index_from_bounds(old_pairs, 0);
            assert(sel_sort(old_pairs) == seq![old_pairs[best as int]] + sel_sort(
                old_pairs.remove(best as int),
            ));
        }
        let p = pairs.remove(best);
        out.push(p.0);
        proof {
            assert(strip_pairs(sel_sort(old_pairs)) =~= seq![old_pairs[best as int].0]
                + strip_pairs(sel_sort(pairs@)));
            assert(out@ + strip_pairs(sel_sort(pairs@)) =~= old_out + strip_pairs(
                sel_sort(old_pairs),
            ));
        }
    }
    proof {
        assert(out@ =~= sorted_view(orig));
    }
    out
}

} // verus!
