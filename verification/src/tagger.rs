use vstd::prelude::*;

use crate::kinds::{kind_of_dimension, spec_kind_of_dimension, Dimension, OutputKind};
use crate::seqs::{lemma_cons_contains, lemma_drop_last_contains, lemma_push_contains};
use crate::span::{spec_overlap, spec_span_contains, Span};

verus! {

/// One node of the parse forest together with the statistical score the
/// scorer assigned to it: a span, the structural shape of its parse tree,
/// its dimension-tagged intermediate value, the matcher's latent flag, and
/// a log-probability in fixed-point millionths.
#[derive(Copy, Clone, Debug, PartialEq, Eq, Structural)]
pub struct Candidate {
    pub span: Span,
    pub tree_height: u32,
    pub tree_num_nodes: u32,
    pub dimension: Dimension,
    pub latent: bool,
    pub probalog: i64,
}

/// Index of the first occurrence of `k` in `order`, or -1 when absent.
pub open spec fn spec_position(order: Seq<OutputKind>, k: OutputKind) -> int
    decreases order.len(),
{
    if order.len() == 0 {
        -1
    } else if order[0] == k {
        0
    } else if spec_position(order.drop_first(), k) == -1 {
        -1
    } else {
        spec_position(order.drop_first(), k) + 1
    }
}

/// Priority rank of a candidate under `order`: the position of its output
/// kind, or -1 when its dimension maps to no kind or to one not requested.
pub open spec fn spec_rank_of(c: Candidate, order: Seq<OutputKind>) -> int {
    match spec_kind_of_dimension(c.dimension) {
        Some(k) => spec_position(order, k),
        None => -1,
    }
}

/// A candidate survives the kind filter exactly when its kind is requested.
pub open spec fn spec_eligible(c: Candidate, order: Seq<OutputKind>) -> bool {
    spec_rank_of(c, order) >= 0
}

/// Weight order within one kind: higher score wins; ties go to the lower
/// parse tree, then to the tree with fewer nodes.
pub open spec fn spec_weight_ge(a: Candidate, b: Candidate) -> bool {
    a.probalog > b.probalog || (a.probalog == b.probalog && (a.tree_height < b.tree_height
        || (a.tree_height == b.tree_height && a.tree_num_nodes <= b.tree_num_nodes)))
}

/// The selection order of the tagger: earlier kind in `order` first, then
/// descending weight within one kind.
pub open spec fn spec_prio_le(a: Candidate, b: Candidate, order: Seq<OutputKind>) -> bool {
    spec_rank_of(a, order) < spec_rank_of(b, order) || (spec_rank_of(a, order) == spec_rank_of(
        b,
        order,
    ) && spec_weight_ge(a, b))
}

pub open spec fn spec_sorted_by_prio(s: Seq<Candidate>, order: Seq<OutputKind>) -> bool {
    forall|i: int, j: int| 0 <= i < j < s.len() ==> spec_prio_le(s[i], s[j], order)
}

/// Step 1 of the tagger: drop every candidate whose kind is not requested,
/// keeping the forest order.
pub open spec fn filter_spec(s: Seq<Candidate>, order: Seq<OutputKind>) -> Seq<Candidate>
    decreases s.len(),
{
    if s.len() == 0 {
        Seq::empty()
    } else {
        let pre = filter_spec(s.drop_last(), order);
        if spec_eligible(s.last(), order) {
            pre.push(s.last())
        } else {
            pre
        }
    }
}

/// Stable insertion of `x` behind every element that precedes it in the
/// selection order.
pub open spec fn insert_sorted(s: Seq<Candidate>, x: Candidate, order: Seq<OutputKind>) -> Seq<
    Candidate,
>
    decreases s.len(),
{
    if s.len() == 0 {
        seq![x]
    } else if spec_prio_le(s[0], x, order) {
        seq![s[0]] + insert_sorted(s.drop_first(), x, order)
    } else {
        seq![x] + s
    }
}

/// Stable sort of the filtered candidates by the selection order.
pub open spec fn sort_spec(s: Seq<Candidate>, order: Seq<OutputKind>) -> Seq<Candidate>
    decreases s.len(),
{
    if s.len() == 0 {
        Seq::empty()
    } else {
        insert_sorted(sort_spec(s.drop_last(), order), s.last(), order)
    }
}

/// Greedy span commitment: walk the sorted candidates and keep each one
/// whose byte range is free of every already-committed byte range.
pub open spec fn greedy_spec(s: Seq<Candidate>) -> Seq<Candidate>
    decreases s.len(),
{
    if s.len() == 0 {
        Seq::empty()
    } else {
        let pre = greedy_spec(s.drop_last());
        if exists|i: int| 0 <= i < pre.len() && spec_overlap(pre[i].span, s.last().span) {
            pre
        } else {
            pre.push(s.last())
        }
    }
}

/// The whole best-only tagging pass as one function of its inputs.
pub open spec fn tag_best_spec(forest: Seq<Candidate>, order: Seq<OutputKind>) -> Seq<Candidate> {
    greedy_spec(sort_spec(filter_spec(forest, order), order))
}

pub proof fn lemma_position_bounds(order: Seq<OutputKind>, k: OutputKind)
    ensures
        -1 <= spec_position(order, k) < order.len(),
        spec_position(order, k) >= 0 ==> order[spec_position(order, k)] == k,
    decreases order.len(),
{
    if order.len() > 0 && order[0] != k {
        lemma_position_bounds(order.drop_first(), k);
    }
}

pub proof fn lemma_position_found(order: Seq<OutputKind>, k: OutputKind, p: int)
    requires
        0 <= p < order.len(),
        order[p] == k,
        forall|j: int| 0 <= j < p ==> order[j] != k,
    ensures
        spec_position(order, k) == p,
    decreases order.len(),
{
    if p > 0 {
        lemma_position_found(order.drop_first(), k, p - 1);
    }
}

pub proof fn lemma_position_absent(order: Seq<OutputKind>, k: OutputKind)
    requires
        forall|j: int| 0 <= j < order.len() ==> order[j] != k,
    ensures
        spec_position(order, k) == -1,
    decreases order.len(),
{
    if order.len() > 0 {
        lemma_position_absent(order.drop_first(), k);
    }
}

/// Index of the first occurrence of `k` in `order`, when there is one.
pub fn position_of(order: &Vec<OutputKind>, k: OutputKind) -> (r: Option<usize>)
    ensures
        r is Some <==> spec_position(order@, k) >= 0,
        r is Some ==> r.unwrap() as int == spec_position(order@, k),
{
    let mut i: usize = 0;
    while i < order.len()
        invariant
            0 <= i <= order@.len(),
            forall|j: int| 0 <= j < i ==> order@[j] != k,
        decreases order@.len() - i,
    {
        if order[i] == k {
            proof {
                lemma_position_found(order@, k, i as int);
            }
            return Some(i);
        }
        i += 1;
    }
    proof {
        lemma_position_absent(order@, k);
    }
    None
}

/// Whether the candidate's kind is one the caller asked for.
pub fn is_eligible(c: &Candidate, order: &Vec<OutputKind>) -> (r: bool)
    ensures
        r == spec_eligible(*c, order@),
{
    match kind_of_dimension(&c.dimension) {
        Some(k) => position_of(order, k).is_some(),
        None => false,
    }
}

fn prio_le_exec(a: &Candidate, b: &Candidate, order: &Vec<OutputKind>) -> (r: bool)
    requires
        spec_eligible(*a, order@),
        spec_eligible(*b, order@),
    ensures
        r == spec_prio_le(*a, *b, order@),
{
    let ka = kind_of_dimension(&a.dimension).unwrap();
    let kb = kind_of_dimension(&b.dimension).unwrap();
    let pa = position_of(order, ka).unwrap();
    let pb = position_of(order, kb).unwrap();
    pa < pb || (pa == pb && (a.probalog > b.probalog || (a.probalog == b.probalog && (a.tree_height
        < b.tree_height || (a.tree_height == b.tree_height && a.tree_num_nodes
        <= b.tree_num_nodes)))))
}

pub proof fn lemma_prio_le_total(a: Candidate, b: Candidate, order: Seq<OutputKind>)
    ensures
        spec_prio_le(a, b, order) || spec_prio_le(b, a, order),
{
}

pub proof fn lemma_filter_props(s: Seq<Candidate>, order: Seq<OutputKind>)
    ensures
        forall|y: Candidate|
            filter_spec(s, order).contains(y) <==> s.contains(y) && spec_eligible(y, order),
        forall|i: int|
            0 <= i < filter_spec(s, order).len() ==> spec_eligible(
                filter_spec(s, order)[i],
                order,
            ),
    decreases s.len(),
{
    if s.len() > 0 {
        lemma_filter_props(s.drop_last(), order);
        let pre = filter_spec(s.drop_last(), order);
        assert forall|y: Candidate|
            filter_spec(s, order).contains(y) <==> s.contains(y) && spec_eligible(
                y,
                order,
            ) by {
            lemma_drop_last_contains(s, y);
            if spec_eligible(s.last(), order) {
                lemma_push_contains(pre, s.last(), y);
            }
        }
        assert forall|i: int| 0 <= i < filter_spec(s, order).len() implies spec_eligible(
            filter_spec(s, order)[i],
            order,
        ) by {
            assert(filter_spec(s, order).contains(filter_spec(s, order)[i]));
        }
    }
}

pub proof fn lemma_insert_sorted_props(s: Seq<Candidate>, x: Candidate, order: Seq<OutputKind>)
    ensures
        insert_sorted(s, x, order).len() == s.len() + 1,
        forall|y: Candidate| insert_sorted(s, x, order).contains(y) <==> s.contains(y) || y == x,
    decreases s.len(),
{
    if s.len() == 0 {
        assert forall|y: Candidate|
            insert_sorted(s, x, order).contains(y) <==> s.contains(y) || y == x by {
            if insert_sorted(s, x, order).contains(y) {
                let j = choose|j: int|
                    0 <= j < insert_sorted(s, x, order).len() && insert_sorted(s, x, order)[j]
                        == y;
                assert(j == 0);
            }
            if y == x {
                assert(insert_sorted(s, x, order)[0] == x);
            }
        }
    } else if spec_prio_le(s[0], x, order) {
        lemma_insert_sorted_props(s.drop_first(), x, order);
        assert forall|y: Candidate|
            insert_sorted(s, x, order).contains(y) <==> s.contains(y) || y == x by {
            lemma_cons_contains(s[0], insert_sorted(s.drop_first(), x, order), y);
            assert(s =~= seq![s[0]] + s.drop_first());
            lemma_cons_contains(s[0], s.drop_first(), y);
        }
    } else {
        assert forall|y: Candidate|
            insert_sorted(s, x, order).contains(y) <==> s.contains(y) || y == x by {
            lemma_cons_contains(x, s, y);
        }
    }
}

pub proof fn lemma_sort_props(s: Seq<Candidate>, order: Seq<OutputKind>)
    ensures
        sort_spec(s, order).len() == s.len(),
        forall|y: Candidate| sort_spec(s, order).contains(y) <==> s.contains(y),
    decreases s.len(),
{
    if s.len() > 0 {
        lemma_sort_props(s.drop_last(), order);
        lemma_insert_sorted_props(sort_spec(s.drop_last(), order), s.last(), order);
        assert forall|y: Candidate| sort_spec(s, order).contains(y) <==> s.contains(y) by {
            lemma_drop_last_contains(s, y);
        }
    }
}

pub proof fn lemma_insert_sorted_sorted(s: Seq<Candidate>, x: Candidate, order: Seq<OutputKind>)
    requires
        spec_sorted_by_prio(s, order),
    ensures
        spec_sorted_by_prio(insert_sorted(s, x, order), order),
    decreases s.len(),
{
    lemma_insert_sorted_props(s, x, order);
    let r = insert_sorted(s, x, order);
    if s.len() == 0 {
    } else if spec_prio_le(s[0], x, order) {
        lemma_insert_sorted_props(s.drop_first(), x, order);
        assert(spec_sorted_by_prio(s.drop_first(), order)) by {
            assert forall|i: int, j: int|
                0 <= i < j < s.drop_first().len() implies spec_prio_le(
                s.drop_first()[i],
                s.drop_first()[j],
                order,
            ) by {
                assert(s.drop_first()[i] == s[i + 1]);
                assert(s.drop_first()[j] == s[j + 1]);
            }
        }
        lemma_insert_sorted_sorted(s.drop_first(), x, order);
        let tail = insert_sorted(s.drop_first(), x, order);
        assert forall|i: int, j: int| 0 <= i < j < r.len() implies spec_prio_le(
            r[i],
            r[j],
            order,
        ) by {
            if i == 0 {
                assert(r[0] == s[0]);
                assert(tail[j - 1] == r[j]);
                assert(tail.contains(tail[j - 1]));
                if s.drop_first().contains(tail[j - 1]) {
                    let m = choose|m: int|
                        0 <= m < s.drop_first().len() && s.drop_first()[m] == tail[j - 1];
                    assert(s[m + 1] == tail[j - 1]);
                    assert(spec_prio_le(s[0], s[m + 1], order));
                } else {
                    assert(tail[j - 1] == x);
                }
            } else {
                assert(r[i] == tail[i - 1]);
                assert(r[j] == tail[j - 1]);
            }
        }
    } else {
        lemma_prio_le_total(s[0], x, order);
        assert forall|i: int, j: int| 0 <= i < j < r.len() implies spec_prio_le(
            r[i],
            r[j],
            order,
        ) by {
            if i == 0 {
                assert(r[0] == x);
                assert(r[j] == s[j - 1]);
                if j - 1 > 0 {
                    assert(spec_prio_le(s[0], s[j - 1], order));
                }
            } else {
                assert(r[i] == s[i - 1]);
                assert(r[j] == s[j - 1]);
            }
        }
    }
}

pub proof fn lemma_sort_sorted(s: Seq<Candidate>, order: Seq<OutputKind>)
    ensures
        spec_sorted_by_prio(sort_spec(s, order), order),
    decreases s.len(),
{
    if s.len() > 0 {
        lemma_sort_sorted(s.drop_last(), order);
        lemma_insert_sorted_sorted(sort_spec(s.drop_last(), order), s.last(), order);
    }
}

pub proof fn lemma_greedy_props(s: Seq<Candidate>)
    ensures
        forall|y: Candidate| greedy_spec(s).contains(y) ==> s.contains(y),
        forall|i: int, j: int|
            0 <= i < greedy_spec(s).len() && 0 <= j < greedy_spec(s).len() && i != j
                ==> !spec_overlap(greedy_spec(s)[i].span, greedy_spec(s)[j].span),
    decreases s.len(),
{
    if s.len() > 0 {
        lemma_greedy_props(s.drop_last());
        let pre = greedy_spec(s.drop_last());
        let g = greedy_spec(s);
        assert forall|y: Candidate| g.contains(y) implies s.contains(y) by {
            lemma_drop_last_contains(s, y);
            if !(exists|i: int| 0 <= i < pre.len() && spec_overlap(pre[i].span, s.last().span)) {
                lemma_push_contains(pre, s.last(), y);
            }
        }
        assert forall|i: int, j: int|
            0 <= i < g.len() && 0 <= j < g.len() && i != j implies !spec_overlap(
            g[i].span,
            g[j].span,
        ) by {
            if i < pre.len() && j < pre.len() {
            } else if i == pre.len() && j < pre.len() {
                assert(g[i] == s.last());
                assert(g[j] == pre[j]);
            } else if j == pre.len() && i < pre.len() {
                assert(g[j] == s.last());
                assert(g[i] == pre[i]);
            }
        }
    }
}

/// Every candidate of the sorted list that the greedy pass drops overlaps a
/// committed candidate that precedes it in the selection order.
pub proof fn lemma_greedy_maximal(s: Seq<Candidate>, order: Seq<OutputKind>)
    requires
        spec_sorted_by_prio(s, order),
    ensures
        forall|k: int|
            0 <= k < s.len() ==> greedy_spec(s).contains(s[k]) || exists|i: int|
                0 <= i < greedy_spec(s).len() && spec_overlap(greedy_spec(s)[i].span, s[k].span)
                    && spec_prio_le(greedy_spec(s)[i], s[k], order),
    decreases s.len(),
{
    if s.len() > 0 {
        assert(spec_sorted_by_prio(s.drop_last(), order)) by {
            assert forall|i: int, j: int|
                0 <= i < j < s.drop_last().len() implies spec_prio_le(
                s.drop_last()[i],
                s.drop_last()[j],
                order,
            ) by {
                assert(s.drop_last()[i] == s[i]);
                assert(s.drop_last()[j] == s[j]);
            }
        }
        lemma_greedy_maximal(s.drop_last(), order);
        lemma_greedy_props(s.drop_last());
        let pre = greedy_spec(s.drop_last());
        let g = greedy_spec(s);
        let dropped_last = exists|i: int|
            0 <= i < pre.len() && spec_overlap(pre[i].span, s.last().span);
        assert forall|k: int| 0 <= k < s.len() implies g.contains(s[k]) || exists|i: int|
            0 <= i < g.len() && spec_overlap(g[i].span, s[k].span) && spec_prio_le(
                g[i],
                s[k],
                order,
            ) by {
            if k < s.len() - 1 {
                assert(s.drop_last()[k] == s[k]);
                if pre.contains(s[k]) {
                    let m = choose|m: int| 0 <= m < pre.len() && pre[m] == s[k];
                    assert(g[m] == s[k]);
                    assert(g.contains(s[k]));
                } else {
                    let i = choose|i: int|
                        0 <= i < pre.len() && spec_overlap(pre[i].span, s[k].span) && spec_prio_le(
                            pre[i],
                            s[k],
                            order,
                        );
                    assert(g[i] == pre[i]);
                }
            } else {
                if dropped_last {
                    let i = choose|i: int|
                        0 <= i < pre.len() && spec_overlap(pre[i].span, s.last().span);
                    assert(pre.contains(pre[i]));
                    assert(s.drop_last().contains(pre[i]));
                    let m = choose|m: int|
                        0 <= m < s.drop_last().len() && s.drop_last()[m] == pre[i];
                    assert(s[m] == pre[i]);
                    assert(spec_prio_le(s[m], s[k], order)) by {
                        if m < k {
                        } else {
                            lemma_prio_le_total(s[m], s[k], order);
                        }
                    }
                    assert(g[i] == pre[i]);
                    assert(spec_overlap(g[i].span, s[k].span) && spec_prio_le(g[i], s[k], order));
                } else {
                    assert(g[g.len() - 1] == s[k]);
                    assert(g.contains(s[k]));
                }
            }
        }
    }
}

/// A candidate conflicts with the committed set when a committed candidate
/// of a strictly earlier kind claims an intersecting or enclosing span.
pub open spec fn spec_blocked(c: Candidate, com: Seq<Candidate>, order: Seq<OutputKind>) -> bool {
    exists|i: int|
        0 <= i < com.len() && spec_rank_of(com[i], order) < spec_rank_of(c, order) && (spec_overlap(
            com[i].span,
            c.span,
        ) || spec_span_contains(com[i].span, c.span))
}

/// Exhaustive tagging over the sorted eligible candidates: keep everything
/// that no strictly-higher-priority committed span blocks, and mark every
/// kept candidate latent except the committed top one per span.
pub open spec fn exhaustive_spec(
    s: Seq<Candidate>,
    com: Seq<Candidate>,
    order: Seq<OutputKind>,
) -> Seq<Candidate>
    decreases s.len(),
{
    if s.len() == 0 {
        Seq::empty()
    } else {
        let pre = exhaustive_spec(s.drop_last(), com, order);
        let c = s.last();
        if spec_blocked(c, com, order) {
            pre
        } else {
            pre.push(Candidate { latent: c.latent || !com.contains(c), ..c })
        }
    }
}

/// The whole exhaustive tagging pass as one function of its inputs.
pub open spec fn tag_exhaustive_spec(forest: Seq<Candidate>, order: Seq<OutputKind>) -> Seq<
    Candidate,
> {
    let sorted = sort_spec(filter_spec(forest, order), order);
    exhaustive_spec(sorted, greedy_spec(sorted), order)
}

pub proof fn lemma_exhaustive_eligible(s: Seq<Candidate>, com: Seq<Candidate>, order: Seq<OutputKind>)
    requires
        forall|i: int| 0 <= i < s.len() ==> spec_eligible(s[i], order),
    ensures
        forall|i: int|
            0 <= i < exhaustive_spec(s, com, order).len() ==> spec_eligible(
                exhaustive_spec(s, com, order)[i],
                order,
            ),
    decreases s.len(),
{
    if s.len() > 0 {
        assert forall|i: int| 0 <= i < s.drop_last().len() implies spec_eligible(
            s.drop_last()[i],
            order,
        ) by {
            assert(s.drop_last()[i] == s[i]);
        }
        lemma_exhaustive_eligible(s.drop_last(), com, order);
        let pre = exhaustive_spec(s.drop_last(), com, order);
        let g = exhaustive_spec(s, com, order);
        assert forall|i: int| 0 <= i < g.len() implies spec_eligible(g[i], order) by {
            if !spec_blocked(s.last(), com, order) && i == pre.len() {
                assert(s[s.len() - 1] == s.last());
                assert(g[i].dimension == s.last().dimension);
            }
        }
    }
}

/// A candidate of the sorted list that the committed set holds and that
/// nothing blocks is kept by the exhaustive pass, with its latent flag
/// unchanged.
pub proof fn lemma_exhaustive_keeps(
    s: Seq<Candidate>,
    com: Seq<Candidate>,
    order: Seq<OutputKind>,
    c: Candidate,
)
    requires
        s.contains(c),
        com.contains(c),
        !spec_blocked(c, com, order),
    ensures
        exhaustive_spec(s, com, order).contains(c),
    decreases s.len(),
{
    lemma_drop_last_contains(s, c);
    let pre = exhaustive_spec(s.drop_last(), com, order);
    if s.drop_last().contains(c) {
        lemma_exhaustive_keeps(s.drop_last(), com, order, c);
        if spec_blocked(s.last(), com, order) {
        } else {
            lemma_push_contains(
                pre,
                Candidate { latent: s.last().latent || !com.contains(s.last()), ..s.last() },
                c,
            );
        }
    } else {
        assert(c == s.last());
        assert(Candidate { latent: c.latent || !com.contains(c), ..c } == c);
        lemma_push_contains(pre, Candidate { latent: c.latent || !com.contains(c), ..c }, c);
    }
}

fn rank_of_exec(c: &Candidate, order: &Vec<OutputKind>) -> (r: usize)
    requires
        spec_eligible(*c, order@),
    ensures
        r as int == spec_rank_of(*c, order@),
{
    let k = kind_of_dimension(&c.dimension).unwrap();
    position_of(order, k).unwrap()
}

fn is_blocked(c: &Candidate, com: &Vec<Candidate>, order: &Vec<OutputKind>) -> (b: bool)
    requires
        spec_eligible(*c, order@),
        forall|i: int| 0 <= i < com@.len() ==> spec_eligible(com@[i], order@),
    ensures
        b == spec_blocked(*c, com@, order@),
{
    let rc = rank_of_exec(c, order);
    let mut i: usize = 0;
    while i < com.len()
        invariant
            0 <= i <= com@.len(),
            spec_eligible(*c, order@),
            forall|m: int| 0 <= m < com@.len() ==> spec_eligible(com@[m], order@),
            rc as int == spec_rank_of(*c, order@),
            forall|m: int|
                0 <= m < i ==> !(spec_rank_of(com@[m], order@) < spec_rank_of(*c, order@) && (
                spec_overlap(com@[m].span, c.span) || spec_span_contains(com@[m].span, c.span))),
        decreases com@.len() - i,
    {
        let e = com[i];
        let re = rank_of_exec(&e, order);
        if re < rc && (crate::span::spans_overlap(&e.span, &c.span) || crate::span::span_contains(
            &e.span,
            &c.span,
        )) {
            return true;
        }
        i += 1;
    }
    false
}

fn contains_candidate(com: &Vec<Candidate>, c: &Candidate) -> (b: bool)
    ensures
        b == com@.contains(*c),
{
    let mut i: usize = 0;
    while i < com.len()
        invariant
            0 <= i <= com@.len(),
            forall|m: int| 0 <= m < i ==> com@[m] != *c,
        decreases com@.len() - i,
    {
        if com[i] == *c {
            assert(com@.contains(*c));
            return true;
        }
        i += 1;
    }
    false
}

fn filter_eligible(forest: &Vec<Candidate>, order: &Vec<OutputKind>) -> (r: Vec<Candidate>)
    ensures
        r@ == filter_spec(forest@, order@),
{
    let mut r: Vec<Candidate> = Vec::new();
    let mut i: usize = 0;
    while i < forest.len()
        invariant
            0 <= i <= forest@.len(),
            r@ == filter_spec(forest@.take(i as int), order@),
        decreases forest@.len() - i,
    {
        let c = forest[i];
        proof {
            assert(forest@.take(i + 1).drop_last() =~= forest@.take(i as int));
            assert(forest@.take(i + 1).last() == forest@[i as int]);
        }
        if is_eligible(&c, order) {
            r.push(c);
        }
        i += 1;
    }
    proof {
        assert(forest@.take(forest@.len() as int) =~= forest@);
    }
    r
}

pub proof fn lemma_insert_sorted_at(
    s: Seq<Candidate>,
    x: Candidate,
    j: int,
    order: Seq<OutputKind>,
)
    requires
        0 <= j <= s.len(),
        forall|m: int| 0 <= m < j ==> spec_prio_le(s[m], x, order),
        j == s.len() || !spec_prio_le(s[j], x, order),
    ensures
        insert_sorted(s, x, order) == s.insert(j, x),
    decreases j,
{
    if s.len() == 0 {
        assert(insert_sorted(s, x, order) =~= s.insert(0, x));
    } else if j == 0 {
        assert(insert_sorted(s, x, order) =~= s.insert(0, x));
    } else {
        lemma_insert_sorted_at(s.drop_first(), x, j - 1, order);
        assert(spec_prio_le(s[0], x, order));
        assert(insert_sorted(s, x, order) == seq![s[0]] + insert_sorted(
            s.drop_first(),
            x,
            order,
        ));
        assert(seq![s[0]] + s.drop_first().insert(j - 1, x) =~= s.insert(j, x));
    }
}

fn sort_by_priority(v: &Vec<Candidate>, order: &Vec<OutputKind>) -> (r: Vec<Candidate>)
    requires
        forall|i: int| 0 <= i < v@.len() ==> spec_eligible(v@[i], order@),
    ensures
        r@ == sort_spec(v@, order@),
{
    let mut r: Vec<Candidate> = Vec::new();
    let mut i: usize = 0;
    while i < v.len()
        invariant
            0 <= i <= v@.len(),
            forall|m: int| 0 <= m < v@.len() ==> spec_eligible(v@[m], order@),
            r@ == sort_spec(v@.take(i as int), order@),
        decreases v@.len() - i,
    {
        let c = v[i];
        proof {
            lemma_sort_props(v@.take(i as int), order@);
            assert forall|m: int| 0 <= m < r@.len() implies spec_eligible(r@[m], order@) by {
                assert(r@.contains(r@[m]));
                assert(v@.take(i as int).contains(r@[m]));
                let q = choose|q: int|
                    0 <= q < v@.take(i as int).len() && v@.take(i as int)[q] == r@[m];
                assert(v@[q] == r@[m]);
            }
        }
        let ghost r_snap = r@;
        let mut j: usize = 0;
        while j < r.len() && prio_le_exec(&r[j], &c, order)
            invariant
                0 <= j <= r@.len(),
                r@ == r_snap,
                spec_eligible(c, order@),
                forall|m: int| 0 <= m < r@.len() ==> spec_eligible(r@[m], order@),
                forall|m: int| 0 <= m < j ==> spec_prio_le(r@[m], c, order@),
            decreases r@.len() - j,
        {
            j += 1;
        }
        proof {
            lemma_insert_sorted_at(r@, c, j as int, order@);
            assert(v@.take(i + 1).drop_last() =~= v@.take(i as int));
            assert(v@.take(i + 1).last() == v@[i as int]);
        }
        r.insert(j, c);
        i += 1;
    }
    proof {
        assert(v@.take(v@.len() as int) =~= v@);
    }
    r
}

fn overlaps_any(r: &Vec<Candidate>, c: &Candidate) -> (b: bool)
    ensures
        b == exists|i: int| 0 <= i < r@.len() && spec_overlap(r@[i].span, c.span),
{
    let mut i: usize = 0;
    while i < r.len()
        invariant
            0 <= i <= r@.len(),
            forall|m: int| 0 <= m < i ==> !spec_overlap(r@[m].span, c.span),
        decreases r@.len() - i,
    {
        if crate::span::spans_overlap(&r[i].span, &c.span) {
            return true;
        }
        i += 1;
    }
    false
}

fn select_non_overlapping(v: &Vec<Candidate>) -> (r: Vec<Candidate>)
    ensures
        r@ == greedy_spec(v@),
{
    let mut r: Vec<Candidate> = Vec::new();
    let mut i: usize = 0;
    while i < v.len()
        invariant
            0 <= i <= v@.len(),
            r@ == greedy_spec(v@.take(i as int)),
        decreases v@.len() - i,
    {
        let c = v[i];
        proof {
            assert(v@.take(i + 1).drop_last() =~= v@.take(i as int));
            assert(v@.take(i + 1).last() == v@[i as int]);
        }
        if !overlaps_any(&r, &c) {
            r.push(c);
        }
        i += 1;
    }
    proof {
        assert(v@.take(v@.len() as int) =~= v@);
    }
    r
}

/// Best-only tagging: keep, per stretch of text, the single strongest
/// candidate of the earliest requested kind.
///
/// The contract pins the exact result and states the selection laws: the
/// result is a subset of the forest restricted to requested kinds, no two
/// kept byte ranges intersect, and every eligible candidate that is not
/// kept overlaps a kept one that precedes it in the selection order (in
/// particular, one whose kind comes no later in `order`).
pub fn tag_best(forest: &Vec<Candidate>, order: &Vec<OutputKind>) -> (r: Vec<Candidate>)
    ensures
        r@ == tag_best_spec(forest@, order@),
        forall|i: int|
            0 <= i < r@.len() ==> forest@.contains(r@[i]) && spec_eligible(r@[i], order@),
        forall|i: int, j: int|
            0 <= i < r@.len() && 0 <= j < r@.len() && i != j ==> !spec_overlap(
                r@[i].span,
                r@[j].span,
            ),
        forall|k: int|
            0 <= k < forest@.len() && spec_eligible(forest@[k], order@) ==> r@.contains(
                forest@[k],
            ) || exists|i: int|
                0 <= i < r@.len() && spec_overlap(r@[i].span, forest@[k].span) && spec_prio_le(
                    r@[i],
                    forest@[k],
                    order@,
                ),
{
    let f = filter_eligible(forest, order);
    proof {
        lemma_filter_props(forest@, order@);
    }
    let s = sort_by_priority(&f, order);
    let g = select_non_overlapping(&s);
    proof {
        lemma_sort_props(f@, order@);
        lemma_sort_sorted(f@, order@);
        lemma_greedy_props(s@);
        lemma_greedy_maximal(s@, order@);
        assert forall|i: int| 0 <= i < g@.len() implies forest@.contains(g@[i]) && spec_eligible(
            g@[i],
            order@,
        ) by {
            assert(g@.contains(g@[i]));
            assert(s@.contains(g@[i]));
            assert(f@.contains(g@[i]));
        }
        assert forall|k: int|
            0 <= k < forest@.len() && spec_eligible(forest@[k], order@) implies g@.contains(
            forest@[k],
        ) || exists|i: int|
            0 <= i < g@.len() && spec_overlap(g@[i].span, forest@[k].span) && spec_prio_le(
                g@[i],
                forest@[k],
                order@,
            ) by {
            assert(forest@.contains(forest@[k]));
            assert(f@.contains(forest@[k]));
            assert(s@.contains(forest@[k]));
            let m = choose|m: int| 0 <= m < s@.len() && s@[m] == forest@[k];
            assert(g@.contains(s@[m]) || exists|i: int|
                0 <= i < g@.len() && spec_overlap(g@[i].span, s@[m].span) && spec_prio_le(
                    g@[i],
                    s@[m],
                    order@,
                ));
        }
    }
    g
}

/// Exhaustive tagging: keep every requested-kind candidate that no
/// committed span of a strictly earlier kind intersects or encloses, so
/// overlapping alternatives of one kind survive side by side; each kept
/// candidate that is not the committed top one for its stretch of text is
/// marked latent.
pub fn tag_exhaustive(forest: &Vec<Candidate>, order: &Vec<OutputKind>) -> (r: Vec<Candidate>)
    ensures
        r@ == tag_exhaustive_spec(forest@, order@),
        forall|i: int| 0 <= i < r@.len() ==> spec_eligible(r@[i], order@),
{
    let f = filter_eligible(forest, order);
    proof {
        lemma_filter_props(forest@, order@);
    }
    let s = sort_by_priority(&f, order);
    let com = select_non_overlapping(&s);
    proof {
        lemma_sort_props(f@, order@);
        lemma_greedy_props(s@);
        assert forall|i: int| 0 <= i < s@.len() implies spec_eligible(s@[i], order@) by {
            assert(s@.contains(s@[i]));
            assert(f@.contains(s@[i]));
        }
        assert forall|i: int| 0 <= i < com@.len() implies spec_eligible(com@[i], order@) by {
            assert(com@.contains(com@[i]));
            assert(s@.contains(com@[i]));
            assert(f@.contains(com@[i]));
        }
        lemma_exhaustive_eligible(s@, com@, order@);
    }
    let mut r: Vec<Candidate> = Vec::new();
    let mut i: usize = 0;
    while i < s.len()
        invariant
            0 <= i <= s@.len(),
            forall|m: int| 0 <= m < s@.len() ==> spec_eligible(s@[m], order@),
            forall|m: int| 0 <= m < com@.len() ==> spec_eligible(com@[m], order@),
            r@ == exhaustive_spec(s@.take(i as int), com@, order@),
        decreases s@.len() - i,
    {
        let c = s[i];
        proof {
            assert(s@.take(i + 1).drop_last() =~= s@.take(i as int));
            assert(s@.take(i + 1).last() == s@[i as int]);
        }
        if !is_blocked(&c, &com, order) {
            let top = contains_candidate(&com, &c);
            r.push(Candidate { latent: c.latent || !top, ..c });
        }
        i += 1;
    }
    proof {
        assert(s@.take(s@.len() as int) =~= s@);
    }
    r
}

/// The tagging policy handed to one parse run: the ordered kind filter and
/// the choice between one clean answer per location and every surviving
/// alternative.  The resolution context is passed through the pipeline
/// around the tagger; the tagger itself never inspects it.
#[derive(Clone, Debug, PartialEq, Eq)]
pub struct CandidateTagger {
    pub output_kind_filter: Vec<OutputKind>,
    pub resolve_all_candidates: bool,
}

impl CandidateTagger {
    /// Prune a parse forest to the candidate set the resolver should see.
    pub fn tag(&self, forest: &Vec<Candidate>) -> (r: Vec<Candidate>)
        ensures
            self.resolve_all_candidates ==> r@ == tag_exhaustive_spec(
                forest@,
                self.output_kind_filter@,
            ),
            !self.resolve_all_candidates ==> r@ == tag_best_spec(
                forest@,
                self.output_kind_filter@,
            ),
            forall|i: int| 0 <= i < r@.len() ==> spec_eligible(r@[i], self.output_kind_filter@),
    {
        if self.resolve_all_candidates {
            tag_exhaustive(forest, &self.output_kind_filter)
        } else {
            tag_best(forest, &self.output_kind_filter)
        }
    }
}

} // verus!
