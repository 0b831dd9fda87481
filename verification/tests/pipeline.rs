use rustling_ontology::kinds::{Dimension, IntegerOutput, OutputKind};
use rustling_ontology::parser::{build_parser, Parser};
use rustling_ontology::resolve::ResolverContext;
use rustling_ontology::span::Span;
use rustling_ontology::tagger::{tag_best, tag_exhaustive, Candidate, CandidateTagger};
use rustling_ontology::grammar::Lang;
use rustling_ontology::kinds::TimeValue;

fn span(bs: usize, be: usize) -> Span {
    Span { byte_start: bs, byte_end: be, char_start: bs, char_end: be }
}

fn cand(bs: usize, be: usize, dim: Dimension, probalog: i64) -> Candidate {
    Candidate {
        span: span(bs, be),
        tree_height: 3,
        tree_num_nodes: 5,
        dimension: dim,
        latent: false,
        probalog,
    }
}

fn en_parser() -> Parser {
    build_parser(Lang::EN).unwrap()
}

#[test]
fn test_long_number_en() {
    let ctx = ResolverContext::default();
    let parser = en_parser();
    let number = "one million five hundred twenty-one thousand eighty-two";
    let forest = vec![cand(0, number.len(), Dimension::Number(1521082), 10)];
    let result = parser
        .parse_with_kind_order(&forest, &ctx, &vec![OutputKind::Number])
        .unwrap();
    let int: IntegerOutput = result[0].value.attempt_into_integer().unwrap();
    assert_eq!(1521082, int.0);
}

#[test]
fn single_number_whole_span() {
    let ctx = ResolverContext::default();
    let parser = en_parser();
    let text = "twenty-one";
    let forest = vec![cand(0, text.len(), Dimension::Number(21), 5)];
    let result = parser
        .parse_with_kind_order(&forest, &ctx, &vec![OutputKind::Number])
        .unwrap();
    assert_eq!(result.len(), 1);
    assert_eq!(result[0].span.byte_start, 0);
    assert_eq!(result[0].span.byte_end, text.len());
    let int = result[0].value.attempt_into_integer().unwrap();
    assert_eq!(21, int.0);
}

#[test]
fn adjacent_number_and_time() {
    let ctx = ResolverContext::default();
    let parser = en_parser();
    let number = cand(0, 3, Dimension::Number(7), 4);
    let time = cand(
        4,
        20,
        Dimension::Time(TimeValue::ShiftedByGrains {
            count: 3,
            grain: rustling_ontology::kinds::GrainSpec::Known(
                rustling_ontology::kinds::Grain::Day,
            ),
        }),
        2,
    );
    let forest = vec![time, number];
    let result = parser
        .parse_with_kind_order(&forest, &ctx, &vec![OutputKind::Number, OutputKind::Time])
        .unwrap();
    assert_eq!(result.len(), 2);
    // sorted by span start, each correctly typed
    assert_eq!(result[0].span.byte_start, 0);
    assert_eq!(result[0].value.kind(), OutputKind::Number);
    assert_eq!(result[1].span.byte_start, 4);
    assert_eq!(result[1].value.kind(), OutputKind::Time);
    // the two byte ranges do not intersect
    assert!(result[0].span.byte_end <= result[1].span.byte_start);
}

#[test]
fn embedded_number_dropped_by_containment() {
    let ctx = ResolverContext::default();
    let parser = en_parser();
    // a day-of-month number embedded inside the full date expression
    let date = cand(
        0,
        24,
        Dimension::Time(TimeValue::LocalInstant {
            local: 86400,
            grain: rustling_ontology::kinds::GrainSpec::Known(
                rustling_ontology::kinds::Grain::Day,
            ),
        }),
        3,
    );
    let day_number = cand(8, 10, Dimension::Number(12), 8);
    let forest = vec![date, day_number];
    let result = parser
        .parse_with_kind_order(&forest, &ctx, &vec![OutputKind::Time, OutputKind::Number])
        .unwrap();
    assert_eq!(result.len(), 1);
    assert_eq!(result[0].value.kind(), OutputKind::Time);
    assert_eq!(result[0].span.byte_start, 0);
    assert_eq!(result[0].span.byte_end, 24);
}

#[test]
fn empty_input_gives_empty_result() {
    let ctx = ResolverContext::default();
    let parser = en_parser();
    let forest: Vec<Candidate> = Vec::new();
    let result = parser.parse(&forest, &ctx).unwrap();
    assert!(result.is_empty());
}

#[test]
fn overlapping_same_kind_keeps_best() {
    let ctx = ResolverContext::default();
    let parser = en_parser();
    let weak = cand(0, 5, Dimension::Number(2), 1);
    let strong = cand(3, 8, Dimension::Number(3), 9);
    let forest = vec![weak, strong];
    let result = parser
        .parse_with_kind_order(&forest, &ctx, &vec![OutputKind::Number])
        .unwrap();
    assert_eq!(result.len(), 1);
    assert_eq!(result[0].span.byte_start, 3);
    assert_eq!(result[0].value.attempt_into_integer().unwrap().0, 3);
}

#[test]
fn equal_score_prefers_lower_tree() {
    let ctx = ResolverContext::default();
    let parser = en_parser();
    let mut tall = cand(0, 5, Dimension::Number(2), 4);
    tall.tree_height = 9;
    let mut low = cand(0, 5, Dimension::Number(3), 4);
    low.tree_height = 2;
    let forest = vec![tall, low];
    let result = parser
        .parse_with_kind_order(&forest, &ctx, &vec![OutputKind::Number])
        .unwrap();
    assert_eq!(result.len(), 1);
    assert_eq!(result[0].value.attempt_into_integer().unwrap().0, 3);
}

#[test]
fn priority_order_decides_overlap() {
    let ctx = ResolverContext::default();
    let parser = en_parser();
    let number = cand(0, 6, Dimension::Number(12), 9);
    let ordinal = cand(2, 8, Dimension::Ordinal(3), 1);
    let forest = vec![number, ordinal];
    // ordinal first in the order: it wins although its score is lower
    let result = parser
        .parse_with_kind_order(&forest, &ctx, &vec![OutputKind::Ordinal, OutputKind::Number])
        .unwrap();
    assert_eq!(result.len(), 1);
    assert_eq!(result[0].value.kind(), OutputKind::Ordinal);
    // number first: the number wins
    let result2 = parser
        .parse_with_kind_order(&forest, &ctx, &vec![OutputKind::Number, OutputKind::Ordinal])
        .unwrap();
    assert_eq!(result2.len(), 1);
    assert_eq!(result2[0].value.kind(), OutputKind::Number);
}

#[test]
fn omitted_kind_never_returned() {
    let ctx = ResolverContext::default();
    let parser = en_parser();
    let number = cand(0, 3, Dimension::Number(7), 4);
    let ordinal = cand(5, 9, Dimension::Ordinal(2), 4);
    let forest = vec![number, ordinal];
    let result = parser
        .parse_with_kind_order(&forest, &ctx, &vec![OutputKind::Ordinal])
        .unwrap();
    assert_eq!(result.len(), 1);
    assert_eq!(result[0].value.kind(), OutputKind::Ordinal);
}

#[test]
fn parse_is_idempotent() {
    let ctx = ResolverContext::default();
    let parser = en_parser();
    let forest = vec![
        cand(0, 4, Dimension::Number(1), 2),
        cand(2, 9, Dimension::Ordinal(4), 7),
        cand(10, 14, Dimension::Percentage(50), 1),
    ];
    let r1 = parser.parse(&forest, &ctx).unwrap();
    let r2 = parser.parse(&forest, &ctx).unwrap();
    assert_eq!(r1, r2);
}

#[test]
fn unmapped_dimension_never_surfaces() {
    let ctx = ResolverContext::default();
    let parser = en_parser();
    let cycle = cand(0, 4, Dimension::Cycle(rustling_ontology::kinds::Grain::Week), 9);
    let forest = vec![cycle];
    let result = parser.parse(&forest, &ctx).unwrap();
    assert!(result.is_empty());
}

#[test]
fn tagger_best_only_is_non_overlapping() {
    let order = vec![OutputKind::Number, OutputKind::Ordinal];
    let forest = vec![
        cand(0, 5, Dimension::Number(1), 3),
        cand(4, 9, Dimension::Ordinal(2), 8),
        cand(8, 12, Dimension::Number(3), 1),
    ];
    let kept = tag_best(&forest, &order);
    for i in 0..kept.len() {
        for j in 0..kept.len() {
            if i != j {
                let a = kept[i].span;
                let b = kept[j].span;
                assert!(!(a.byte_start < b.byte_end && b.byte_start < a.byte_end));
            }
        }
    }
}

#[test]
fn exhaustive_keeps_alternatives_marked_latent() {
    let order = vec![OutputKind::Number];
    let strong = cand(0, 5, Dimension::Number(9), 9);
    let weak = cand(2, 7, Dimension::Number(4), 1);
    let forest = vec![weak, strong];
    let kept = tag_exhaustive(&forest, &order);
    assert_eq!(kept.len(), 2);
    // strongest first in selection order, not latent; the alternative is
    let top: Vec<_> = kept.iter().filter(|c| !c.latent).collect();
    let alts: Vec<_> = kept.iter().filter(|c| c.latent).collect();
    assert_eq!(top.len(), 1);
    assert_eq!(alts.len(), 1);
    assert_eq!(top[0].probalog, 9);
    assert_eq!(alts[0].probalog, 1);
}

#[test]
fn exhaustive_still_drops_lower_priority_inside_committed_span() {
    let order = vec![OutputKind::Time, OutputKind::Number];
    let date = cand(
        0,
        24,
        Dimension::Time(TimeValue::ShiftedByGrains {
            count: 1,
            grain: rustling_ontology::kinds::GrainSpec::Known(
                rustling_ontology::kinds::Grain::Day,
            ),
        }),
        3,
    );
    let embedded = cand(8, 10, Dimension::Number(12), 9);
    let free = cand(30, 34, Dimension::Number(7), 1);
    let forest = vec![date, embedded, free];
    let kept = tag_exhaustive(&forest, &order);
    // the embedded number conflicts with the committed higher-priority date;
    // the free-standing number survives
    assert_eq!(kept.len(), 2);
    assert!(kept.iter().any(|c| c.span.byte_start == 0 && c.span.byte_end == 24));
    assert!(kept.iter().any(|c| c.span.byte_start == 30));
    assert!(!kept.iter().any(|c| c.span.byte_start == 8));
}

#[test]
fn exhaustive_extends_best_only() {
    let order = vec![OutputKind::Number, OutputKind::Ordinal];
    let forest = vec![
        cand(0, 5, Dimension::Number(1), 3),
        cand(2, 7, Dimension::Number(2), 8),
        cand(6, 9, Dimension::Ordinal(3), 5),
    ];
    let best = tag_best(&forest, &order);
    let all = tag_exhaustive(&forest, &order);
    for c in &best {
        assert!(all.contains(c));
    }
}

#[test]
fn tagger_struct_dispatches_on_mode() {
    let strong = cand(0, 5, Dimension::Number(9), 9);
    let weak = cand(2, 7, Dimension::Number(4), 1);
    let forest = vec![weak, strong];
    let best = CandidateTagger {
        output_kind_filter: vec![OutputKind::Number],
        resolve_all_candidates: false,
    };
    let all = CandidateTagger {
        output_kind_filter: vec![OutputKind::Number],
        resolve_all_candidates: true,
    };
    assert_eq!(best.tag(&forest).len(), 1);
    assert_eq!(all.tag(&forest).len(), 2);
}

#[test]
fn analyse_counts_examples_with_matches() {
    let ctx = ResolverContext::default();
    let parser = en_parser();
    let with_match = vec![cand(0, 3, Dimension::Number(4), 2)];
    let without: Vec<Candidate> = Vec::new();
    let forests = vec![with_match, without];
    let report = parser.analyse(&forests, &ctx).unwrap();
    assert_eq!(report.num_examples, 2);
    assert_eq!(report.examples_with_match, 1);
}

#[test]
fn resolution_failure_drops_candidate_alone() {
    let ctx = ResolverContext::default();
    let parser = en_parser();
    // an interval that ends before it starts cannot be grounded
    let bad = cand(0, 4, Dimension::Time(TimeValue::IntervalAfter { start: 10, end: 3 }), 9);
    let good = cand(5, 8, Dimension::Number(6), 1);
    let forest = vec![bad, good];
    let result = parser
        .parse_with_kind_order(&forest, &ctx, &vec![OutputKind::Time, OutputKind::Number])
        .unwrap();
    assert_eq!(result.len(), 1);
    assert_eq!(result[0].value.attempt_into_integer().unwrap().0, 6);
}

#[test]
fn output_kinds_match_requested_order() {
    let ctx = ResolverContext::default();
    let parser = en_parser();
    let forest = vec![
        cand(0, 3, Dimension::Number(1), 1),
        cand(4, 8, Dimension::Ordinal(2), 1),
        cand(9, 12, Dimension::Percentage(30), 1),
    ];
    let order = vec![OutputKind::Number, OutputKind::Ordinal];
    let result = parser.parse_with_kind_order(&forest, &ctx, &order).unwrap();
    assert_eq!(result.len(), 2);
    for m in &result {
        assert!(order.contains(&m.value.kind()));
    }
}
