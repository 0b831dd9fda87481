use vstd::prelude::*;

use crate::kinds::{spec_output_kind, OutputKind};
use crate::parser::{
    lemma_resolve_matches_kinds, lemma_resolve_matches_pairwise, lemma_sort_by_start_pairwise,
    lemma_sort_by_start_props, pairwise_no_overlap_m, pipeline_spec, resolve_matches_spec,
};
use crate::resolve::ResolverContext;
use crate::span::spec_overlap;
use crate::tagger::{
    filter_spec, greedy_spec, lemma_filter_props, lemma_greedy_maximal, lemma_greedy_props,
    lemma_sort_props, lemma_sort_sorted, sort_spec, spec_eligible, spec_position, spec_prio_le,
    spec_rank_of, tag_best_spec, Candidate,
};

verus! {

/// Non-overlap: whatever the forest, the context and the requested kind
/// order, no two matches one parse call returns claim intersecting byte
/// ranges.
pub proof fn lemma_non_overlap(
    forest: Seq<Candidate>,
    ctx: ResolverContext,
    order: Seq<OutputKind>,
)
    ensures
        pairwise_no_overlap_m(pipeline_spec(forest, ctx, order)),
{
    let f = filter_spec(forest, order);
    let s = sort_spec(f, order);
    let t = greedy_spec(s);
    lemma_greedy_props(s);
    lemma_resolve_matches_pairwise(t, ctx);
    lemma_sort_by_start_pairwise(resolve_matches_spec(t, ctx));
}

/// Priority respect: an eligible candidate that best-only tagging drops is
/// always displaced by a kept candidate whose span overlaps it and whose
/// kind comes no later in the requested order (with ties arbitrated by the
/// weight order within one kind).
pub proof fn lemma_priority_respect(forest: Seq<Candidate>, order: Seq<OutputKind>, k: int)
    requires
        0 <= k < forest.len(),
        spec_eligible(forest[k], order),
        !tag_best_spec(forest, order).contains(forest[k]),
    ensures
        exists|i: int|
            0 <= i < tag_best_spec(forest, order).len() && spec_overlap(
                (#[trigger] tag_best_spec(forest, order)[i]).span,
                forest[k].span,
            ) && spec_prio_le(tag_best_spec(forest, order)[i], forest[k], order)
                && spec_rank_of(tag_best_spec(forest, order)[i], order) <= spec_rank_of(
                forest[k],
                order,
            ),
{
    let f = filter_spec(forest, order);
    let s = sort_spec(f, order);
    let g = greedy_spec(s);
    lemma_filter_props(forest, order);
    lemma_sort_props(f, order);
    lemma_sort_sorted(f, order);
    lemma_greedy_props(s);
    lemma_greedy_maximal(s, order);
    assert(forest.contains(forest[k]));
    assert(f.contains(forest[k]));
    assert(s.contains(forest[k]));
    let m = choose|m: int| 0 <= m < s.len() && s[m] == forest[k];
    assert(g.contains(s[m]) || exists|i: int|
        0 <= i < g.len() && spec_overlap(g[i].span, s[m].span) && spec_prio_le(g[i], s[m], order));
    let i = choose|i: int|
        0 <= i < g.len() && spec_overlap(g[i].span, s[m].span) && spec_prio_le(g[i], s[m], order);
    assert(spec_overlap((tag_best_spec(forest, order)[i]).span, forest[k].span));
}

/// Priority respect, stated for one overlapping pair: when a forest holds
/// exactly two eligible candidates whose byte ranges intersect and whose
/// kinds differ, best-only tagging keeps the one whose kind comes earlier
/// in the requested order and drops the other.
pub proof fn lemma_priority_respect_pair(a: Candidate, b: Candidate, order: Seq<OutputKind>)
    requires
        spec_eligible(a, order),
        spec_eligible(b, order),
        spec_rank_of(a, order) < spec_rank_of(b, order),
        spec_overlap(a.span, b.span),
    ensures
        tag_best_spec(seq![a, b], order) == seq![a],
{
    let s2 = seq![a, b];
    let e = Seq::<Candidate>::empty();
    assert(s2.drop_last() =~= seq![a]);
    assert(seq![a].drop_last() =~= e);
    assert(filter_spec(e, order) =~= e);
    assert(filter_spec(seq![a], order) =~= seq![a]) by {
        assert(seq![a].last() == a);
        assert(e.push(a) =~= seq![a]);
    }
    assert(filter_spec(s2, order) =~= s2) by {
        assert(seq![a].push(b) =~= s2);
    }
    assert(sort_spec(e, order) =~= e);
    assert(sort_spec(seq![a], order) =~= seq![a]) by {
        assert(crate::tagger::insert_sorted(e, a, order) =~= seq![a]);
    }
    assert(crate::tagger::insert_sorted(seq![a], b, order) =~= s2) by {
        assert(spec_prio_le(a, b, order));
        assert(seq![a].drop_first() =~= Seq::<Candidate>::empty());
        assert(crate::tagger::insert_sorted(Seq::<Candidate>::empty(), b, order) =~= seq![b]);
        assert(seq![a] + seq![b] =~= s2);
    }
    assert(sort_spec(s2, order) =~= s2);
    assert(greedy_spec(e) =~= e);
    assert(greedy_spec(seq![a]) =~= seq![a]) by {
        assert(!(exists|i: int| 0 <= i < e.len() && spec_overlap(e[i].span, a.span)));
        assert(e.push(a) =~= seq![a]);
    }
    assert(greedy_spec(s2) =~= seq![a]) by {
        assert(greedy_spec(s2.drop_last()) == seq![a]);
        assert(seq![a][0] == a);
        assert(spec_overlap(seq![a][0].span, s2.last().span));
    }
}

/// Idempotence: one parse call's result is a function of the forest, the
/// context and the order alone — `parse_with_kind_order` ensures its
/// result equals `pipeline_spec` of its inputs, so any two calls on
/// identical inputs return identical ordered match lists.
pub proof fn lemma_parse_idempotent(
    r1: Seq<crate::parser::ParserMatch>,
    r2: Seq<crate::parser::ParserMatch>,
    forest: Seq<Candidate>,
    ctx: ResolverContext,
    order: Seq<OutputKind>,
)
    requires
        r1 == pipeline_spec(forest, ctx, order),
        r2 == pipeline_spec(forest, ctx, order),
    ensures
        r1 == r2,
{
}

/// Determinism under the order: a kind omitted from the requested order is
/// never the kind of a returned match.
pub proof fn lemma_kind_omitted(
    forest: Seq<Candidate>,
    ctx: ResolverContext,
    order: Seq<OutputKind>,
    k: OutputKind,
)
    requires
        spec_position(order, k) == -1,
    ensures
        forall|i: int|
            0 <= i < pipeline_spec(forest, ctx, order).len() ==> spec_output_kind(
                (#[trigger] pipeline_spec(forest, ctx, order)[i]).value,
            ) != k,
{
    let f = filter_spec(forest, order);
    let s = sort_spec(f, order);
    let t = greedy_spec(s);
    let rm = resolve_matches_spec(t, ctx);
    lemma_filter_props(forest, order);
    lemma_sort_props(f, order);
    lemma_greedy_props(s);
    assert forall|i: int| 0 <= i < t.len() implies spec_eligible(t[i], order) by {
        assert(t.contains(t[i]));
        assert(s.contains(t[i]));
        assert(f.contains(t[i]));
    }
    lemma_resolve_matches_kinds(t, ctx, order);
    lemma_sort_by_start_props(rm);
    assert forall|i: int| 0 <= i < pipeline_spec(forest, ctx, order).len() implies spec_output_kind(
        (#[trigger] pipeline_spec(forest, ctx, order)[i]).value,
    ) != k by {
        let p = pipeline_spec(forest, ctx, order);
        assert(p.contains(p[i]));
        assert(rm.contains(p[i]));
        let m = choose|m: int| 0 <= m < rm.len() && rm[m] == p[i];
        assert(spec_position(order, spec_output_kind(rm[m].value)) >= 0);
    }
}

/// The exhaustive mode extends the best-only mode: every candidate that
/// best-only tagging keeps — with a span that covers at least one byte —
/// also stands in the exhaustive answer, with its latent flag unchanged.
pub proof fn lemma_exhaustive_extends_best(
    forest: Seq<Candidate>,
    order: Seq<OutputKind>,
    c: Candidate,
)
    requires
        tag_best_spec(forest, order).contains(c),
        c.span.byte_start < c.span.byte_end,
    ensures
        crate::tagger::tag_exhaustive_spec(forest, order).contains(c),
{
    let f = filter_spec(forest, order);
    let s = sort_spec(f, order);
    let com = greedy_spec(s);
    lemma_greedy_props(s);
    assert(s.contains(c));
    assert(!crate::tagger::spec_blocked(c, com, order)) by {
        if crate::tagger::spec_blocked(c, com, order) {
            let i = choose|i: int|
                0 <= i < com.len() && spec_rank_of(com[i], order) < spec_rank_of(c, order) && (
                spec_overlap(com[i].span, c.span) || crate::span::spec_span_contains(
                    com[i].span,
                    c.span,
                ));
            let j = choose|j: int| 0 <= j < com.len() && com[j] == c;
            assert(com[i] != c);
            assert(i != j);
            assert(!spec_overlap(com[i].span, com[j].span));
            assert(spec_overlap(com[i].span, c.span));
        }
    }
    crate::tagger::lemma_exhaustive_keeps(s, com, order, c);
}

/// Coercion soundness: whenever resolution succeeds, the typed output it
/// returns belongs to exactly the kind the candidate was classified under.
pub proof fn lemma_coercion_sound(
    d: crate::kinds::Dimension,
    k: OutputKind,
    ctx: ResolverContext,
)
    ensures
        crate::resolve::spec_resolve(d, k, ctx) is Ok ==> spec_output_kind(
            crate::resolve::spec_resolve(d, k, ctx).unwrap(),
        ) == k,
{
}

} // verus!
