use vstd::prelude::*;

use crate::grammar::{examples, rules, spec_rules, Example, Lang, RuleSetInfo};
use crate::kinds::{
    spec_kind_of_dimension, spec_output_kind, OntologyError, Output, OutputKind,
};
use crate::resolve::{resolve, spec_resolve, ResolverContext};
use crate::seqs::{lemma_cons_contains, lemma_drop_last_contains};
use crate::span::{spec_overlap, Span};
use crate::tagger::{
    spec_eligible, spec_position, tag_best, tag_best_spec, Candidate,
};

verus! {

/// One match returned to the caller: the matched span, the shape of the
/// winning parse tree, the resolved typed value, the statistical score and
/// the latent flag of the candidate it came from.
#[derive(Copy, Clone, Debug, PartialEq, Eq, Structural)]
pub struct ParserMatch {
    pub span: Span,
    pub parsing_tree_height: u32,
    pub parsing_tree_num_nodes: u32,
    pub value: Output,
    pub probalog: i64,
    pub latent: bool,
}

/// The aggregate report of one evaluation run over a corpus: one parse
/// pipeline run per example, counting the examples that produced at least
/// one match.
#[derive(Copy, Clone, Debug, PartialEq, Eq, Structural)]
pub struct ParsingAnalysis {
    pub num_examples: usize,
    pub examples_with_match: usize,
}

pub open spec fn spec_match_of(c: Candidate, o: Output) -> ParserMatch {
    ParserMatch {
        span: c.span,
        parsing_tree_height: c.tree_height,
        parsing_tree_num_nodes: c.tree_num_nodes,
        value: o,
        probalog: c.probalog,
        latent: c.latent,
    }
}

/// Resolution over a pruned candidate list: each candidate is resolved
/// under the kind of its own dimension tag; a candidate whose resolution
/// fails is dropped alone and its siblings still resolve.
pub open spec fn resolve_matches_spec(s: Seq<Candidate>, ctx: ResolverContext) -> Seq<ParserMatch>
    decreases s.len(),
{
    if s.len() == 0 {
        Seq::empty()
    } else {
        let pre = resolve_matches_spec(s.drop_last(), ctx);
        let c = s.last();
        match spec_kind_of_dimension(c.dimension) {
            Some(k) => match spec_resolve(c.dimension, k, ctx) {
                Ok(o) => pre.push(spec_match_of(c, o)),
                Err(_) => pre,
            },
            None => pre,
        }
    }
}

pub open spec fn start_le(a: ParserMatch, b: ParserMatch) -> bool {
    a.span.byte_start <= b.span.byte_start
}

pub open spec fn insert_by_start(s: Seq<ParserMatch>, x: ParserMatch) -> Seq<ParserMatch>
    decreases s.len(),
{
    if s.len() == 0 {
        seq![x]
    } else if start_le(s[0], x) {
        seq![s[0]] + insert_by_start(s.drop_first(), x)
    } else {
        seq![x] + s
    }
}

/// Stable sort of the matches by ascending span start.
pub open spec fn sort_by_start_spec(s: Seq<ParserMatch>) -> Seq<ParserMatch>
    decreases s.len(),
{
    if s.len() == 0 {
        Seq::empty()
    } else {
        insert_by_start(sort_by_start_spec(s.drop_last()), s.last())
    }
}

/// The whole parse pipeline as one function of its inputs: best-only
/// tagging, per-candidate resolution with local failure recovery, and the
/// final ordering by span start.
pub open spec fn pipeline_spec(
    forest: Seq<Candidate>,
    ctx: ResolverContext,
    order: Seq<OutputKind>,
) -> Seq<ParserMatch> {
    sort_by_start_spec(resolve_matches_spec(tag_best_spec(forest, order), ctx))
}

/// No two of the matches claim intersecting byte ranges.
pub open spec fn pairwise_no_overlap_m(s: Seq<ParserMatch>) -> bool {
    forall|i: int, j: int|
        0 <= i < s.len() && 0 <= j < s.len() && i != j ==> !spec_overlap(s[i].span, s[j].span)
}

proof fn lemma_resolve_matches_spans(s: Seq<Candidate>, ctx: ResolverContext)
    ensures
        forall|i: int|
            0 <= i < resolve_matches_spec(s, ctx).len() ==> exists|j: int|
                0 <= j < s.len() && (#[trigger] resolve_matches_spec(s, ctx)[i]).span == (
                #[trigger] s[j]).span,
    decreases s.len(),
{
    if s.len() > 0 {
        lemma_resolve_matches_spans(s.drop_last(), ctx);
        let pre = resolve_matches_spec(s.drop_last(), ctx);
        let rm = resolve_matches_spec(s, ctx);
        assert forall|i: int| 0 <= i < rm.len() implies exists|j: int|
            0 <= j < s.len() && (#[trigger] rm[i]).span == (#[trigger] s[j]).span by {
            if i < pre.len() {
                let j = choose|j: int|
                    0 <= j < s.drop_last().len() && (#[trigger] pre[i]).span == (
                    #[trigger] s.drop_last()[j]).span;
                assert(rm[i].span == s[j].span);
            } else {
                assert(rm[i].span == s[s.len() - 1].span);
            }
        }
    }
}

pub proof fn lemma_resolve_matches_pairwise(s: Seq<Candidate>, ctx: ResolverContext)
    requires
        forall|i: int, j: int|
            0 <= i < s.len() && 0 <= j < s.len() && i != j ==> !spec_overlap(s[i].span, s[j].span),
    ensures
        pairwise_no_overlap_m(resolve_matches_spec(s, ctx)),
    decreases s.len(),
{
    if s.len() > 0 {
        assert forall|i: int, j: int|
            0 <= i < s.drop_last().len() && 0 <= j < s.drop_last().len() && i
                != j implies !spec_overlap(s.drop_last()[i].span, s.drop_last()[j].span) by {
            assert(s.drop_last()[i] == s[i]);
            assert(s.drop_last()[j] == s[j]);
        }
        lemma_resolve_matches_pairwise(s.drop_last(), ctx);
        lemma_resolve_matches_spans(s.drop_last(), ctx);
        let pre = resolve_matches_spec(s.drop_last(), ctx);
        let rm = resolve_matches_spec(s, ctx);
        assert forall|i: int, j: int|
            0 <= i < rm.len() && 0 <= j < rm.len() && i != j implies !spec_overlap(
            rm[i].span,
            rm[j].span,
        ) by {
            if i == pre.len() && j < pre.len() {
                let m = choose|m: int|
                    0 <= m < s.drop_last().len() && pre[j].span == (#[trigger] s.drop_last()[m]).span;
                assert(!spec_overlap(s[s.len() - 1].span, s[m].span));
            } else if j == pre.len() && i < pre.len() {
                let m = choose|m: int|
                    0 <= m < s.drop_last().len() && pre[i].span == (#[trigger] s.drop_last()[m]).span;
                assert(!spec_overlap(s[m].span, s[s.len() - 1].span));
            }
        }
    }
}

proof fn lemma_spec_resolve_kind(d: crate::kinds::Dimension, k: OutputKind, ctx: ResolverContext)
    ensures
        spec_resolve(d, k, ctx) is Ok ==> spec_output_kind(spec_resolve(d, k, ctx).unwrap()) == k,
{
}

pub proof fn lemma_resolve_matches_kinds(
    s: Seq<Candidate>,
    ctx: ResolverContext,
    order: Seq<OutputKind>,
)
    requires
        forall|i: int| 0 <= i < s.len() ==> spec_eligible(s[i], order),
    ensures
        forall|i: int|
            0 <= i < resolve_matches_spec(s, ctx).len() ==> spec_position(
                order,
                spec_output_kind(resolve_matches_spec(s, ctx)[i].value),
            ) >= 0,
    decreases s.len(),
{
    if s.len() > 0 {
        assert forall|i: int| 0 <= i < s.drop_last().len() implies spec_eligible(
            s.drop_last()[i],
            order,
        ) by {
            assert(s.drop_last()[i] == s[i]);
        }
        lemma_resolve_matches_kinds(s.drop_last(), ctx, order);
        let pre = resolve_matches_spec(s.drop_last(), ctx);
        let rm = resolve_matches_spec(s, ctx);
        let c = s.last();
        assert(spec_eligible(s[s.len() - 1], order));
        assert forall|i: int| 0 <= i < rm.len() implies spec_position(
            order,
            spec_output_kind(rm[i].value),
        ) >= 0 by {
            if i >= pre.len() {
                let k = spec_kind_of_dimension(c.dimension).unwrap();
                lemma_spec_resolve_kind(c.dimension, k, ctx);
            }
        }
    }
}

proof fn lemma_insert_by_start_props(s: Seq<ParserMatch>, x: ParserMatch)
    ensures
        insert_by_start(s, x).len() == s.len() + 1,
        forall|y: ParserMatch| insert_by_start(s, x).contains(y) <==> s.contains(y) || y == x,
    decreases s.len(),
{
    if s.len() == 0 {
        assert forall|y: ParserMatch|
            insert_by_start(s, x).contains(y) <==> s.contains(y) || y == x by {
            if insert_by_start(s, x).contains(y) {
                let j = choose|j: int|
                    0 <= j < insert_by_start(s, x).len() && insert_by_start(s, x)[j] == y;
                assert(j == 0);
            }
            if y == x {
                assert(insert_by_start(s, x)[0] == x);
            }
        }
    } else if start_le(s[0], x) {
        lemma_insert_by_start_props(s.drop_first(), x);
        assert forall|y: ParserMatch|
            insert_by_start(s, x).contains(y) <==> s.contains(y) || y == x by {
            lemma_cons_contains(s[0], insert_by_start(s.drop_first(), x), y);
            assert(s =~= seq![s[0]] + s.drop_first());
            lemma_cons_contains(s[0], s.drop_first(), y);
        }
    } else {
        assert forall|y: ParserMatch|
            insert_by_start(s, x).contains(y) <==> s.contains(y) || y == x by {
            lemma_cons_contains(x, s, y);
        }
    }
}

pub open spec fn sorted_by_start(s: Seq<ParserMatch>) -> bool {
    forall|i: int, j: int| 0 <= i < j < s.len() ==> start_le(s[i], s[j])
}

proof fn lemma_insert_by_start_sorted(s: Seq<ParserMatch>, x: ParserMatch)
    requires
        sorted_by_start(s),
    ensures
        sorted_by_start(insert_by_start(s, x)),
    decreases s.len(),
{
    lemma_insert_by_start_props(s, x);
    let r = insert_by_start(s, x);
    if s.len() == 0 {
    } else if start_le(s[0], x) {
        lemma_insert_by_start_props(s.drop_first(), x);
        assert(sorted_by_start(s.drop_first())) by {
            assert forall|i: int, j: int| 0 <= i < j < s.drop_first().len() implies start_le(
                s.drop_first()[i],
                s.drop_first()[j],
            ) by {
                assert(s.drop_first()[i] == s[i + 1]);
                assert(s.drop_first()[j] == s[j + 1]);
            }
        }
        lemma_insert_by_start_sorted(s.drop_first(), x);
        let tail = insert_by_start(s.drop_first(), x);
        assert forall|i: int, j: int| 0 <= i < j < r.len() implies start_le(r[i], r[j]) by {
            if i == 0 {
                assert(r[0] == s[0]);
                assert(tail[j - 1] == r[j]);
                assert(tail.contains(tail[j - 1]));
                if s.drop_first().contains(tail[j - 1]) {
                    let m = choose|m: int|
                        0 <= m < s.drop_first().len() && s.drop_first()[m] == tail[j - 1];
                    assert(s[m + 1] == tail[j - 1]);
                    assert(start_le(s[0], s[m + 1]));
                } else {
                    assert(tail[j - 1] == x);
                }
            } else {
                assert(r[i] == tail[i - 1]);
                assert(r[j] == tail[j - 1]);
            }
        }
    } else {
        assert forall|i: int, j: int| 0 <= i < j < r.len() implies start_le(r[i], r[j]) by {
            if i == 0 {
                assert(r[0] == x);
                assert(r[j] == s[j - 1]);
                if j - 1 > 0 {
                    assert(start_le(s[0], s[j - 1]));
                }
            } else {
                assert(r[i] == s[i - 1]);
                assert(r[j] == s[j - 1]);
            }
        }
    }
}

pub proof fn lemma_sort_by_start_props(s: Seq<ParserMatch>)
    ensures
        sort_by_start_spec(s).len() == s.len(),
        forall|y: ParserMatch| sort_by_start_spec(s).contains(y) <==> s.contains(y),
        sorted_by_start(sort_by_start_spec(s)),
    decreases s.len(),
{
    if s.len() > 0 {
        lemma_sort_by_start_props(s.drop_last());
        lemma_insert_by_start_props(sort_by_start_spec(s.drop_last()), s.last());
        lemma_insert_by_start_sorted(sort_by_start_spec(s.drop_last()), s.last());
        assert forall|y: ParserMatch| sort_by_start_spec(s).contains(y) <==> s.contains(y) by {
            lemma_drop_last_contains(s, y);
        }
    }
}

proof fn lemma_insert_by_start_pairwise(s: Seq<ParserMatch>, x: ParserMatch)
    requires
        pairwise_no_overlap_m(s),
        forall|i: int| 0 <= i < s.len() ==> !spec_overlap(s[i].span, x.span),
    ensures
        pairwise_no_overlap_m(insert_by_start(s, x)),
    decreases s.len(),
{
    let r = insert_by_start(s, x);
    if s.len() == 0 {
    } else if start_le(s[0], x) {
        lemma_insert_by_start_props(s.drop_first(), x);
        assert(pairwise_no_overlap_m(s.drop_first())) by {
            assert forall|i: int, j: int|
                0 <= i < s.drop_first().len() && 0 <= j < s.drop_first().len() && i
                    != j implies !spec_overlap(s.drop_first()[i].span, s.drop_first()[j].span) by {
                assert(s.drop_first()[i] == s[i + 1]);
                assert(s.drop_first()[j] == s[j + 1]);
            }
        }
        assert forall|i: int| 0 <= i < s.drop_first().len() implies !spec_overlap(
            s.drop_first()[i].span,
            x.span,
        ) by {
            assert(s.drop_first()[i] == s[i + 1]);
        }
        lemma_insert_by_start_pairwise(s.drop_first(), x);
        let tail = insert_by_start(s.drop_first(), x);
        assert forall|i: int, j: int|
            0 <= i < r.len() && 0 <= j < r.len() && i != j implies !spec_overlap(
            r[i].span,
            r[j].span,
        ) by {
            if i == 0 || j == 0 {
                let o = if i == 0 { j } else { i };
                assert(r[0] == s[0]);
                assert(r[o] == tail[o - 1]);
                assert(tail.contains(tail[o - 1]));
                if s.drop_first().contains(tail[o - 1]) {
                    let m = choose|m: int|
                        0 <= m < s.drop_first().len() && s.drop_first()[m] == tail[o - 1];
                    assert(s[m + 1] == tail[o - 1]);
                    assert(!spec_overlap(s[0].span, s[m + 1].span));
                } else {
                    assert(tail[o - 1] == x);
                }
            } else {
                assert(r[i] == tail[i - 1]);
                assert(r[j] == tail[j - 1]);
            }
        }
    } else {
        assert forall|i: int, j: int|
            0 <= i < r.len() && 0 <= j < r.len() && i != j implies !spec_overlap(
            r[i].span,
            r[j].span,
        ) by {
            if i == 0 || j == 0 {
                let o = if i == 0 { j } else { i };
                assert(r[0] == x);
                assert(r[o] == s[o - 1]);
            } else {
                assert(r[i] == s[i - 1]);
                assert(r[j] == s[j - 1]);
            }
        }
    }
}

pub proof fn lemma_sort_by_start_pairwise(s: Seq<ParserMatch>)
    requires
        pairwise_no_overlap_m(s),
    ensures
        pairwise_no_overlap_m(sort_by_start_spec(s)),
    decreases s.len(),
{
    if s.len() > 0 {
        assert(pairwise_no_overlap_m(s.drop_last())) by {
            assert forall|i: int, j: int|
                0 <= i < s.drop_last().len() && 0 <= j < s.drop_last().len() && i
                    != j implies !spec_overlap(s.drop_last()[i].span, s.drop_last()[j].span) by {
                assert(s.drop_last()[i] == s[i]);
                assert(s.drop_last()[j] == s[j]);
            }
        }
        lemma_sort_by_start_pairwise(s.drop_last());
        lemma_sort_by_start_props(s.drop_last());
        let pre = sort_by_start_spec(s.drop_last());
        assert forall|i: int| 0 <= i < pre.len() implies !spec_overlap(
            pre[i].span,
            s.last().span,
        ) by {
            assert(pre.contains(pre[i]));
            assert(s.drop_last().contains(pre[i]));
            let m = choose|m: int| 0 <= m < s.drop_last().len() && s.drop_last()[m] == pre[i];
            assert(s[m] == pre[i]);
            assert(!spec_overlap(s[m].span, s[s.len() - 1].span));
        }
        lemma_insert_by_start_pairwise(pre, s.last());
    }
}

fn start_le_exec(a: &ParserMatch, b: &ParserMatch) -> (r: bool)
    ensures
        r == start_le(*a, *b),
{
    a.span.byte_start <= b.span.byte_start
}

proof fn lemma_insert_by_start_at(s: Seq<ParserMatch>, x: ParserMatch, j: int)
    requires
        0 <= j <= s.len(),
        forall|m: int| 0 <= m < j ==> start_le(s[m], x),
        j == s.len() || !start_le(s[j], x),
    ensures
        insert_by_start(s, x) == s.insert(j, x),
    decreases j,
{
    if s.len() == 0 {
        assert(insert_by_start(s, x) =~= s.insert(0, x));
    } else if j == 0 {
        assert(insert_by_start(s, x) =~= s.insert(0, x));
    } else {
        lemma_insert_by_start_at(s.drop_first(), x, j - 1);
        assert(start_le(s[0], x));
        assert(insert_by_start(s, x) == seq![s[0]] + insert_by_start(s.drop_first(), x));
        assert(seq![s[0]] + s.drop_first().insert(j - 1, x) =~= s.insert(j, x));
    }
}

fn sort_by_start(v: &Vec<ParserMatch>) -> (r: Vec<ParserMatch>)
    ensures
        r@ == sort_by_start_spec(v@),
{
    let mut r: Vec<ParserMatch> = Vec::new();
    let mut i: usize = 0;
    while i < v.len()
        invariant
            0 <= i <= v@.len(),
            r@ == sort_by_start_spec(v@.take(i as int)),
        decreases v@.len() - i,
    {
        let c = v[i];
        let ghost r_snap = r@;
        let mut j: usize = 0;
        while j < r.len() && start_le_exec(&r[j], &c)
            invariant
                0 <= j <= r@.len(),
                r@ == r_snap,
                forall|m: int| 0 <= m < j ==> start_le(r@[m], c),
            decreases r@.len() - j,
        {
            j += 1;
        }
        proof {
            lemma_insert_by_start_at(r@, c, j as int);
            assert(v@.take(i + 1).drop_last() =~= v@.take(i as int));
            assert(v@.take(i + 1).last() == v@[i as int]);
        }
        r.insert(j, c);
        i += 1;
    }
    proof {
        assert(v@.take(v@.len() as int) =~= v@);
    }
    r
}

/// What a parser holds once built for a language: the language and its
/// registered rule-set sizes.  The scorer model itself lives with the
/// external engine; both construction paths register the same resources,
/// so a trained parser and a loaded one are the same value.
#[derive(Copy, Clone, Debug, PartialEq, Eq, Structural)]
pub struct RawParser {
    pub lang: Lang,
    pub rules: RuleSetInfo,
}

pub open spec fn spec_raw_parser(lang: Lang) -> RawParser {
    RawParser { lang, rules: spec_rules(lang) }
}

/// The parser facade callers use at runtime.
#[derive(Copy, Clone, Debug, PartialEq, Eq, Structural)]
pub struct Parser(pub RawParser);

impl Parser {
    /// One end-to-end parse under a caller-chosen kind priority order.
    ///
    /// The scored forest for the input text comes from the external rule
    /// matching engine.  The result is exactly the pipeline applied to it:
    /// no two returned byte ranges intersect, every returned value's kind
    /// is one the order requests, and the matches come back sorted by
    /// ascending span start.
    pub fn parse_with_kind_order(
        &self,
        forest: &Vec<Candidate>,
        context: &ResolverContext,
        order: &Vec<OutputKind>,
    ) -> (r: Result<Vec<ParserMatch>, OntologyError>)
        ensures
            r is Ok,
            r.unwrap()@ == pipeline_spec(forest@, *context, order@),
            pairwise_no_overlap_m(r.unwrap()@),
            forall|i: int|
                0 <= i < r.unwrap()@.len() ==> spec_position(
                    order@,
                    spec_output_kind(r.unwrap()@[i].value),
                ) >= 0,
            sorted_by_start(r.unwrap()@),
    {
        let tagged = tag_best(forest, order);
        let mut ms: Vec<ParserMatch> = Vec::new();
        let mut i: usize = 0;
        while i < tagged.len()
            invariant
                0 <= i <= tagged@.len(),
                ms@ == resolve_matches_spec(tagged@.take(i as int), *context),
            decreases tagged@.len() - i,
        {
            let c = tagged[i];
            proof {
                assert(tagged@.take(i + 1).drop_last() =~= tagged@.take(i as int));
                assert(tagged@.take(i + 1).last() == tagged@[i as int]);
            }
            match crate::kinds::kind_of_dimension(&c.dimension) {
                Some(k) => {
                    match resolve(&c.dimension, k, context) {
                        Ok(o) => {
                            ms.push(
                                ParserMatch {
                                    span: c.span,
                                    parsing_tree_height: c.tree_height,
                                    parsing_tree_num_nodes: c.tree_num_nodes,
                                    value: o,
                                    probalog: c.probalog,
                                    latent: c.latent,
                                },
                            );
                        },
                        Err(_) => {},
                    }
                },
                None => {},
            }
            i += 1;
        }
        proof {
            assert(tagged@.take(tagged@.len() as int) =~= tagged@);
        }
        let sorted = sort_by_start(&ms);
        proof {
            lemma_resolve_matches_pairwise(tagged@, *context);
            lemma_resolve_matches_kinds(tagged@, *context, order@);
            lemma_sort_by_start_pairwise(ms@);
            lemma_sort_by_start_props(ms@);
            assert forall|i2: int| 0 <= i2 < sorted@.len() implies spec_position(
                order@,
                spec_output_kind(sorted@[i2].value),
            ) >= 0 by {
                assert(sorted@.contains(sorted@[i2]));
                assert(ms@.contains(sorted@[i2]));
                let m = choose|m: int| 0 <= m < ms@.len() && ms@[m] == sorted@[i2];
                assert(spec_position(order@, spec_output_kind(ms@[m].value)) >= 0);
            }
        }
        Ok(sorted)
    }

    /// One end-to-end parse under the canonical full kind order.
    pub fn parse(&self, forest: &Vec<Candidate>, context: &ResolverContext) -> (r: Result<
        Vec<ParserMatch>,
        OntologyError,
    >)
        ensures
            r is Ok,
            r.unwrap()@ == pipeline_spec(forest@, *context, crate::kinds::all_kinds()),
            pairwise_no_overlap_m(r.unwrap()@),
            sorted_by_start(r.unwrap()@),
    {
        let all_output = OutputKind::all();
        self.parse_with_kind_order(forest, context, &all_output)
    }

    /// Evaluate a corpus: one pipeline run per example forest, counting
    /// the examples that produced at least one match.
    pub fn analyse_with_kind_order(
        &self,
        forests: &Vec<Vec<Candidate>>,
        context: &ResolverContext,
        order: &Vec<OutputKind>,
    ) -> (r: Result<ParsingAnalysis, OntologyError>)
        ensures
            r is Ok,
            r.unwrap().num_examples == forests@.len(),
            r.unwrap().examples_with_match as int == spec_examples_with_match(
                forests_views(forests@),
                *context,
                order@,
            ),
    {
        let mut count: usize = 0;
        let mut i: usize = 0;
        while i < forests.len()
            invariant
                0 <= i <= forests@.len(),
                count <= i,
                count as int == spec_examples_with_match(
                    forests_views(forests@.take(i as int)),
                    *context,
                    order@,
                ),
        decreases forests@.len() - i,
        {
            let result = self.parse_with_kind_order(&forests[i], context, order);
            proof {
                assert(forests_views(forests@.take(i + 1)).drop_last() =~= forests_views(
                    forests@.take(i as int),
                ));
                assert(forests_views(forests@.take(i + 1)).last() == forests@[i as int]@);
            }
            match result {
                Ok(ms) => {
                    if ms.len() > 0 {
                        count += 1;
                    }
                },
                Err(_) => {},
            }
            i += 1;
        }
        proof {
            assert(forests@.take(forests@.len() as int) =~= forests@);
        }
        Ok(ParsingAnalysis { num_examples: forests.len(), examples_with_match: count })
    }

    /// Evaluate a corpus under the canonical full kind order.
    pub fn analyse(&self, forests: &Vec<Vec<Candidate>>, context: &ResolverContext) -> (r: Result<
        ParsingAnalysis,
        OntologyError,
    >)
        ensures
            r is Ok,
            r.unwrap().num_examples == forests@.len(),
            r.unwrap().examples_with_match as int == spec_examples_with_match(
                forests_views(forests@),
                *context,
                crate::kinds::all_kinds(),
            ),
    {
        let all_kind = OutputKind::all();
        self.analyse_with_kind_order(forests, context, &all_kind)
    }

    /// How many rules the language's registered rule set holds.
    pub fn num_rules(&self) -> (r: usize)
        ensures
            r == self.0.rules.num_rules,
    {
        self.0.rules.num_rules
    }

    /// How many distinct text patterns the registered rules match.
    pub fn num_text_patterns(&self) -> (r: usize)
        ensures
            r == self.0.rules.num_text_patterns,
    {
        self.0.rules.num_text_patterns
    }
}

pub open spec fn forests_views(fs: Seq<Vec<Candidate>>) -> Seq<Seq<Candidate>> {
    fs.map_values(|v: Vec<Candidate>| v@)
}

/// How many of the example forests yield at least one match.
pub open spec fn spec_examples_with_match(
    fs: Seq<Seq<Candidate>>,
    ctx: ResolverContext,
    order: Seq<OutputKind>,
) -> int
    decreases fs.len(),
{
    if fs.len() == 0 {
        0
    } else {
        spec_examples_with_match(fs.drop_last(), ctx, order) + if pipeline_spec(
            fs.last(),
            ctx,
            order,
        ).len() > 0 {
            1int
        } else {
            0int
        }
    }
}

/// Obtain a parser for a given language, loading its registered resources.
pub fn build_parser(lang: Lang) -> (r: Result<Parser, OntologyError>)
    ensures
        r == Ok::<Parser, OntologyError>(Parser(spec_raw_parser(lang))),
{
    match build_raw_parser(lang) {
        Ok(raw) => Ok(Parser(raw)),
        Err(e) => Err(e),
    }
}

/// Obtain the underlying raw parser for a given language.
pub fn build_raw_parser(lang: Lang) -> (r: Result<RawParser, OntologyError>)
    ensures
        r == Ok::<RawParser, OntologyError>(spec_raw_parser(lang)),
{
    match rules(lang) {
        Ok(info) => Ok(RawParser { lang, rules: info }),
        Err(e) => Err(e),
    }
}

/// Obtain a parser for a given language by training over its registered
/// example corpus instead of loading a persisted model.  Training is a
/// drop-in substitute data source for the scorer: the parser it yields is
/// the same value `build_parser` yields, so the rest of the pipeline
/// cannot tell the two construction paths apart.
pub fn train_parser(lang: Lang) -> (r: Result<Parser, OntologyError>)
    ensures
        r == Ok::<Parser, OntologyError>(Parser(spec_raw_parser(lang))),
{
    // The external training procedure fits the scorer to `examples(lang)`;
    // the core only needs the language's registered resources, so both
    // construction paths build the same parser value.
    let _corpus: Vec<Example> = examples(lang);
    build_parser(lang)
}

} // verus!
