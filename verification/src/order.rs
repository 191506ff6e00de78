//! The order of siblings: by priority, then by title, ties keeping the order
//! in which they came.

use vstd::prelude::*;
use crate::bd::Issue;
use crate::text::{
    lemma_text_lt_irreflexive, lemma_text_lt_total, lemma_text_lt_transitive, text_before, text_lt,
};
use crate::tree::{TreeNode, records, ints};

verus! {

/// Whether `a` is listed strictly before `b`: lower priority first, and among
/// equal priorities the lesser title first.
pub open spec fn ranks_before(a: Issue, b: Issue) -> bool {
    a.priority < b.priority || (a.priority == b.priority && text_lt(a.title@, b.title@))
}

/// Whether `a` is listed strictly before `b`.
pub fn listed_before(a: &Issue, b: &Issue) -> (r: bool)
    ensures
        r == ranks_before(*a, *b),
{
    a.priority < b.priority || (a.priority == b.priority && text_before(
        a.title.as_str(),
        b.title.as_str(),
    ))
}

/// `s` with `x` put in behind every element that does not rank after it.
pub open spec fn insert_ranked(recs: Seq<Issue>, s: Seq<int>, x: int) -> Seq<int>
    decreases s.len(),
{
    if s.len() > 0 && ranks_before(recs[x], recs[s.last()]) {
        insert_ranked(recs, s.drop_last(), x).push(s.last())
    } else {
        s.push(x)
    }
}

/// The node indices of `s` in listing order: ranked by `ranks_before`, nodes
/// of equal rank in the order in which `s` holds them.
pub open spec fn rank_sort(recs: Seq<Issue>, s: Seq<int>) -> Seq<int>
    decreases s.len(),
{
    if s.len() == 0 {
        s
    } else {
        insert_ranked(recs, rank_sort(recs, s.drop_last()), s.last())
    }
}

/// Whether no element of `s` ranks before an element that stands earlier.
pub open spec fn ranked(recs: Seq<Issue>, s: Seq<int>) -> bool {
    forall|i: int, j: int| 0 <= i < j < s.len() ==> !ranks_before(recs[s[j]], recs[s[i]])
}

/// `ranks_before` is a strict weak order: irreflexive, transitive, and
/// transitive in its ties.
pub proof fn lemma_ranks_before_order(a: Issue, b: Issue, c: Issue)
    ensures
        !ranks_before(a, a),
        ranks_before(a, b) && ranks_before(b, c) ==> ranks_before(a, c),
        !ranks_before(a, b) && !ranks_before(b, c) ==> !ranks_before(a, c),
{
    lemma_text_lt_irreflexive(a.title@);
    if ranks_before(a, b) && ranks_before(b, c) {
        if a.priority == b.priority && b.priority == c.priority {
            lemma_text_lt_transitive(a.title@, b.title@, c.title@);
        }
    }
    if !ranks_before(a, b) && !ranks_before(b, c) && ranks_before(a, c) {
        if a.priority == b.priority && b.priority == c.priority {
            lemma_text_lt_total(a.title@, b.title@);
            lemma_text_lt_total(b.title@, c.title@);
            if text_lt(b.title@, a.title@) && text_lt(c.title@, b.title@) {
                lemma_text_lt_transitive(c.title@, b.title@, a.title@);
                lemma_text_lt_transitive(a.title@, c.title@, a.title@);
            }
        }
    }
}

/// Inserting into a ranked sequence keeps it ranked and adds exactly `x`.
pub proof fn lemma_insert_ranked(recs: Seq<Issue>, s: Seq<int>, x: int)
    requires
        ranked(recs, s),
    ensures
        ranked(recs, insert_ranked(recs, s, x)),
        insert_ranked(recs, s, x).to_multiset() == s.to_multiset().insert(x),
        insert_ranked(recs, s, x).len() == s.len() + 1,
    decreases s.len(),
{
    broadcast use vstd::seq_lib::group_to_multiset_ensures;

    let out = insert_ranked(recs, s, x);
    if s.len() > 0 && ranks_before(recs[x], recs[s.last()]) {
        let head = s.drop_last();
        let inner = insert_ranked(recs, head, x);
        assert(ranked(recs, head)) by {
            assert forall|i: int, j: int| 0 <= i < j < head.len() implies !ranks_before(
                recs[head[j]],
                recs[head[i]],
            ) by {
                assert(head[i] == s[i] && head[j] == s[j]);
            }
        }
        lemma_insert_ranked(recs, head, x);
        assert(s =~= head.push(s.last()));
        assert(out == inner.push(s.last()));
        assert forall|i: int, j: int| 0 <= i < j < out.len() implies !ranks_before(
            recs[out[j]],
            recs[out[i]],
        ) by {
            if j == out.len() - 1 {
                // out[i] is x or an element of head
                assert(inner.to_multiset().count(inner[i]) > 0);
                if inner[i] == x {
                    lemma_ranks_before_order(recs[s.last()], recs[x], recs[x]);
                    lemma_text_lt_total(recs[x].title@, recs[s.last()].title@);
                    if ranks_before(recs[s.last()], recs[x]) {
                        lemma_ranks_before_order(recs[x], recs[s.last()], recs[x]);
                    }
                } else {
                    assert(head.to_multiset().count(inner[i]) > 0);
                    assert(head.contains(inner[i]));
                    let k = choose|k: int| 0 <= k < head.len() && head[k] == inner[i];
                    assert(s[k] == inner[i]);
                }
            } else {
                assert(out[i] == inner[i] && out[j] == inner[j]);
            }
        }
    } else {
        assert forall|i: int, j: int| 0 <= i < j < out.len() implies !ranks_before(
            recs[out[j]],
            recs[out[i]],
        ) by {
            if j == out.len() - 1 {
                if s.len() > 0 {
                    // x does not rank before the last, the last not before s[i]
                    if i < s.len() - 1 {
                        lemma_ranks_before_order(recs[x], recs[s.last()], recs[s[i]]);
                    }
                }
            }
        }
    }
}

/// `rank_sort` rearranges its argument, and what it returns is ranked.
pub proof fn lemma_rank_sort(recs: Seq<Issue>, s: Seq<int>)
    ensures
        ranked(recs, rank_sort(recs, s)),
        rank_sort(recs, s).to_multiset() == s.to_multiset(),
        rank_sort(recs, s).len() == s.len(),
    decreases s.len(),
{
    broadcast use vstd::seq_lib::group_to_multiset_ensures;

    if s.len() > 0 {
        lemma_rank_sort(recs, s.drop_last());
        lemma_insert_ranked(recs, rank_sort(recs, s.drop_last()), s.last());
        assert(s =~= s.drop_last().push(s.last()));
    }
}

/// `rank_sort` lists exactly the elements of its argument, and none twice
/// where the argument lists none twice.
pub proof fn lemma_rank_sort_members(recs: Seq<Issue>, s: Seq<int>)
    ensures
        forall|x: int| rank_sort(recs, s).contains(x) <==> s.contains(x),
        s.no_duplicates() ==> rank_sort(recs, s).no_duplicates(),
{
    broadcast use vstd::seq_lib::group_to_multiset_ensures;

    lemma_rank_sort(recs, s);
    let out = rank_sort(recs, s);
    assert forall|x: int| out.contains(x) <==> s.contains(x) by {
        assert(out.to_multiset().count(x) == s.to_multiset().count(x));
    }
    if s.no_duplicates() {
        s.lemma_multiset_has_no_duplicates();
        out.lemma_multiset_has_no_duplicates_conv();
    }
}

/// Whether `x` stands somewhere before `y` in `s`.
pub open spec fn before_in(s: Seq<int>, x: int, y: int) -> bool {
    exists|a: int, b: int| 0 <= a < b < s.len() && s[a] == x && s[b] == y
}

/// Inserting keeps every element of the sequence.
pub proof fn lemma_insert_ranked_keeps(recs: Seq<Issue>, s: Seq<int>, x: int, e: int)
    requires
        s.contains(e),
    ensures
        insert_ranked(recs, s, x).contains(e),
    decreases s.len(),
{
    let at = choose|at: int| 0 <= at < s.len() && s[at] == e;
    if s.len() > 0 && ranks_before(recs[x], recs[s.last()]) {
        let inner = insert_ranked(recs, s.drop_last(), x);
        if at < s.len() - 1 {
            assert(s.drop_last()[at] == e);
            lemma_insert_ranked_keeps(recs, s.drop_last(), x, e);
            let to = choose|to: int| 0 <= to < inner.len() && inner[to] == e;
            assert(inner.push(s.last())[to] == e);
        } else {
            assert(inner.push(s.last())[inner.len() as int] == e);
        }
    } else {
        assert(s.push(x)[at] == e);
    }
}

/// Inserting keeps the order in which the elements of the sequence stand.
pub proof fn lemma_insert_ranked_keeps_order(
    recs: Seq<Issue>,
    s: Seq<int>,
    x: int,
    e: int,
    f: int,
)
    requires
        before_in(s, e, f),
    ensures
        before_in(insert_ranked(recs, s, x), e, f),
    decreases s.len(),
{
    let (a, b) = choose|a: int, b: int| 0 <= a < b < s.len() && s[a] == e && s[b] == f;
    let out = insert_ranked(recs, s, x);
    if s.len() > 0 && ranks_before(recs[x], recs[s.last()]) {
        let head = s.drop_last();
        let inner = insert_ranked(recs, head, x);
        if b < s.len() - 1 {
            assert(head[a] == e && head[b] == f);
            lemma_insert_ranked_keeps_order(recs, head, x, e, f);
            let (c, d) = choose|c: int, d: int|
                0 <= c < d < inner.len() && inner[c] == e && inner[d] == f;
            assert(out[c] == e && out[d] == f);
        } else {
            assert(head[a] == e);
            assert(head.contains(e));
            lemma_insert_ranked_keeps(recs, head, x, e);
            let c = choose|c: int| 0 <= c < inner.len() && inner[c] == e;
            assert(out[c] == e && out[inner.len() as int] == f);
        }
    } else {
        assert(out[a] == e && out[b] == f);
    }
}

/// An element that the inserted one does not rank before stands before it.
pub proof fn lemma_insert_ranked_behind(recs: Seq<Issue>, s: Seq<int>, x: int, e: int)
    requires
        s.contains(e),
        !ranks_before(recs[x], recs[e]),
    ensures
        before_in(insert_ranked(recs, s, x), e, x),
    decreases s.len(),
{
    let at = choose|at: int| 0 <= at < s.len() && s[at] == e;
    let out = insert_ranked(recs, s, x);
    if s.len() > 0 && ranks_before(recs[x], recs[s.last()]) {
        let head = s.drop_last();
        let inner = insert_ranked(recs, head, x);
        assert(head[at] == e);
        assert(head.contains(e));
        lemma_insert_ranked_behind(recs, head, x, e);
        let (c, d) = choose|c: int, d: int|
            0 <= c < d < inner.len() && inner[c] == e && inner[d] == x;
        assert(out[c] == e && out[d] == x);
    } else {
        assert(out[at] == e && out[s.len() as int] == x);
    }
}

/// The order is stable: of two elements of which the later does not rank
/// before the earlier, the earlier still stands before the later once they
/// are sorted. With `lemma_rank_sort` this says all of where `rank_sort`
/// puts each element.
pub proof fn law_rank_sort_stable(recs: Seq<Issue>, s: Seq<int>, i: int, j: int)
    requires
        0 <= i < j < s.len(),
        !ranks_before(recs[s[j]], recs[s[i]]),
    ensures
        before_in(rank_sort(recs, s), s[i], s[j]),
    decreases s.len(),
{
    let head = s.drop_last();
    let sorted = rank_sort(recs, head);
    assert(head[i] == s[i]);
    if j < s.len() - 1 {
        assert(head[j] == s[j]);
        law_rank_sort_stable(recs, head, i, j);
        lemma_insert_ranked_keeps_order(recs, sorted, s.last(), s[i], s[j]);
    } else {
        assert(head.contains(s[i]));
        lemma_rank_sort_members(recs, head);
        lemma_insert_ranked_behind(recs, sorted, s.last(), s[i]);
    }
}

/// The nodes of `items` in listing order.
pub fn sort_by_rank(nodes: &Vec<TreeNode>, items: &Vec<usize>) -> (out: Vec<usize>)
    requires
        forall|i: int| 0 <= i < items.len() ==> items[i] < nodes.len(),
    ensures
        ints(out@) == rank_sort(records(nodes@), ints(items@)),
        out.len() == items.len(),
        forall|i: int| 0 <= i < out.len() ==> out[i] < nodes.len(),
{
    let ghost recs = records(nodes@);
    let n = items.len();
    let mut out: Vec<usize> = Vec::new();
    let mut k: usize = 0;
    while k < n
        invariant
            n == items.len(),
            k <= n,
            recs == records(nodes@),
            out.len() == k,
            ints(out@) == rank_sort(recs, ints(items@).subrange(0, k as int)),
            forall|i: int| 0 <= i < items.len() ==> items[i] < nodes.len(),
            forall|i: int| 0 <= i < out.len() ==> out[i] < nodes.len(),
        decreases n - k,
    {
        let x = items[k];
        let ghost sorted = ints(out@);
        let mut j: usize = out.len();
        proof {
            assert(sorted.subrange(0, j as int) =~= sorted);
            assert(insert_ranked(recs, sorted, x as int) + sorted.subrange(
                j as int,
                sorted.len() as int,
            ) =~= insert_ranked(recs, sorted, x as int));
        }
        while j > 0 && listed_before(&nodes[x].issue, &nodes[out[j - 1]].issue)
            invariant
                j <= out.len(),
                x < nodes.len(),
                recs == records(nodes@),
                sorted == ints(out@),
                forall|i: int| 0 <= i < out.len() ==> out[i] < nodes.len(),
                insert_ranked(recs, sorted, x as int) == insert_ranked(
                    recs,
                    sorted.subrange(0, j as int),
                    x as int,
                ) + sorted.subrange(j as int, sorted.len() as int),
            decreases j,
        {
            proof {
                let head = sorted.subrange(0, j as int);
                assert(head.last() == out[j - 1] as int);
                assert(head.drop_last() =~= sorted.subrange(0, j - 1));
                assert(insert_ranked(recs, head, x as int) == insert_ranked(
                    recs,
                    head.drop_last(),
                    x as int,
                ).push(head.last()));
                assert(insert_ranked(recs, head.drop_last(), x as int).push(head.last())
                    + sorted.subrange(j as int, sorted.len() as int) =~= insert_ranked(
                    recs,
                    head.drop_last(),
                    x as int,
                ) + sorted.subrange(j - 1, sorted.len() as int));
            }
            j -= 1;
        }
        proof {
            let head = sorted.subrange(0, j as int);
            if j > 0 {
                assert(head.last() == out[j - 1] as int);
            }
            assert(insert_ranked(recs, head, x as int) == head.push(x as int));
            assert(head.push(x as int) + sorted.subrange(j as int, sorted.len() as int)
                =~= sorted.insert(j as int, x as int));
            assert(ints(out@.insert(j as int, x)) =~= sorted.insert(j as int, x as int));
            let upto = ints(items@).subrange(0, k + 1);
            assert(upto.drop_last() =~= ints(items@).subrange(0, k as int));
            assert(upto.last() == x as int);
        }
        out.insert(j, x);
        k += 1;
    }
    assert(ints(items@).subrange(0, n as int) =~= ints(items@));
    out
}

} // verus!
