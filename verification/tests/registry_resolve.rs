use rustling_ontology::grammar::{dims, examples, rules, Lang};
use rustling_ontology::kinds::{
    Currency, Dimension, DurationValue, Grain, GrainSpec, MoneyValue, OntologyError, Output,
    OutputKind, TempUnit, TemperatureValue, TimeValue,
};
use rustling_ontology::parser::{build_parser, build_raw_parser, train_parser};
use rustling_ontology::resolve::{resolve, ResolverContext};

#[test]
fn unknown_language_is_a_configuration_error() {
    assert_eq!(Lang::from_ident("xx"), Err(OntologyError::UnknownLanguage));
    assert_eq!(Lang::from_ident(""), Err(OntologyError::UnknownLanguage));
    assert_eq!(Lang::from_ident("eng"), Err(OntologyError::UnknownLanguage));
}

#[test]
fn language_lookup_is_case_insensitive() {
    assert_eq!(Lang::from_ident("en"), Ok(Lang::EN));
    assert_eq!(Lang::from_ident("EN"), Ok(Lang::EN));
    assert_eq!(Lang::from_ident("eN"), Ok(Lang::EN));
    assert_eq!(Lang::from_ident("En"), Ok(Lang::EN));
}

#[test]
fn registry_lists_languages_and_resources() {
    assert_eq!(Lang::all(), vec![Lang::EN]);
    assert_eq!(Lang::EN.ident(), "EN");
    let info = rules(Lang::EN).unwrap();
    assert!(info.num_rules > 0);
    assert!(info.num_text_patterns > 0);
    assert_eq!(dims(Lang::EN), OutputKind::all());
    let corpus = examples(Lang::EN);
    assert_eq!(corpus.len(), 2);
    assert_eq!(corpus[0].text, "twenty-one");
    assert_eq!(corpus[0].expected_kind, OutputKind::Number);
    assert_eq!(corpus[1].text, "in three days");
    assert_eq!(corpus[1].expected_kind, OutputKind::Time);
}

#[test]
fn diagnostics_pass_through_rule_set_sizes() {
    let parser = build_parser(Lang::EN).unwrap();
    let info = rules(Lang::EN).unwrap();
    assert_eq!(parser.num_rules(), info.num_rules);
    assert_eq!(parser.num_text_patterns(), info.num_text_patterns);
    let raw = build_raw_parser(Lang::EN).unwrap();
    assert_eq!(raw.rules, info);
    assert_eq!(raw.lang, Lang::EN);
}

#[test]
fn training_yields_the_same_parser_as_loading() {
    let trained = train_parser(Lang::EN).unwrap();
    let loaded = build_parser(Lang::EN).unwrap();
    assert_eq!(trained, loaded);
}

#[test]
fn context_free_dimensions_coerce_structurally() {
    let ctx = ResolverContext::default();
    assert_eq!(
        resolve(&Dimension::Number(21), OutputKind::Number, &ctx)
            .unwrap()
            .attempt_into_integer()
            .unwrap()
            .0,
        21
    );
    assert_eq!(
        resolve(&Dimension::Ordinal(3), OutputKind::Ordinal, &ctx)
            .unwrap()
            .attempt_into_ordinal()
            .unwrap()
            .0,
        3
    );
    let temp = resolve(
        &Dimension::Temperature(TemperatureValue { degrees: 70, unit: TempUnit::Fahrenheit }),
        OutputKind::Temperature,
        &ctx,
    )
    .unwrap();
    match temp {
        Output::Temperature(t) => {
            assert_eq!(t.degrees, 70);
            assert_eq!(t.unit, TempUnit::Fahrenheit);
        }
        _ => panic!("wrong output variant"),
    }
    let dur = resolve(
        &Dimension::Duration(DurationValue { quantity: 2, grain: Grain::Hour }),
        OutputKind::Duration,
        &ctx,
    )
    .unwrap();
    match dur {
        Output::Duration(d) => {
            assert_eq!(d.quantity, 2);
            assert_eq!(d.grain, Grain::Hour);
        }
        _ => panic!("wrong output variant"),
    }
    let money = resolve(
        &Dimension::AmountOfMoney(MoneyValue { cents: 250, currency: Currency::Eur }),
        OutputKind::AmountOfMoney,
        &ctx,
    )
    .unwrap();
    match money {
        Output::AmountOfMoney(m) => {
            assert_eq!(m.cents, 250);
            assert_eq!(m.currency, Currency::Eur);
        }
        _ => panic!("wrong output variant"),
    }
}

#[test]
fn kind_mismatch_is_a_coercion_error() {
    let ctx = ResolverContext::default();
    assert_eq!(
        resolve(&Dimension::Number(5), OutputKind::Time, &ctx),
        Err(OntologyError::CoercionError)
    );
    assert_eq!(
        resolve(&Dimension::Cycle(Grain::Week), OutputKind::Duration, &ctx),
        Err(OntologyError::CoercionError)
    );
    let out = resolve(&Dimension::Number(5), OutputKind::Number, &ctx).unwrap();
    assert_eq!(out.attempt_into_ordinal(), Err(OntologyError::CoercionError));
    assert_eq!(out.attempt_into_datetime(), Err(OntologyError::CoercionError));
}

#[test]
fn relative_time_grounds_against_reference_instant() {
    let ctx = ResolverContext {
        reference_instant: 1000,
        timezone_offset: 0,
        default_grain: Grain::Second,
    };
    // "in three days"
    let out = resolve(
        &Dimension::Time(TimeValue::ShiftedByGrains {
            count: 3,
            grain: GrainSpec::Known(Grain::Day),
        }),
        OutputKind::Time,
        &ctx,
    )
    .unwrap();
    let dt = out.attempt_into_datetime().unwrap();
    assert_eq!(dt.instant, 1000 + 3 * 86400);
    assert_eq!(dt.grain, Grain::Day);
}

#[test]
fn under_specified_grain_takes_context_default() {
    let ctx = ResolverContext {
        reference_instant: 0,
        timezone_offset: 0,
        default_grain: Grain::Hour,
    };
    let out = resolve(
        &Dimension::Time(TimeValue::ShiftedByGrains { count: 2, grain: GrainSpec::Unspecified }),
        OutputKind::Time,
        &ctx,
    )
    .unwrap();
    let dt = out.attempt_into_datetime().unwrap();
    assert_eq!(dt.instant, 2 * 3600);
    assert_eq!(dt.grain, Grain::Hour);
}

#[test]
fn local_instant_is_grounded_through_the_time_zone() {
    let ctx = ResolverContext {
        reference_instant: 0,
        timezone_offset: 3600,
        default_grain: Grain::Second,
    };
    let out = resolve(
        &Dimension::Time(TimeValue::LocalInstant { local: 3600, grain: GrainSpec::Unspecified }),
        OutputKind::Time,
        &ctx,
    )
    .unwrap();
    let dt = out.attempt_into_datetime().unwrap();
    assert_eq!(dt.instant, 0);
}

#[test]
fn inconsistent_interval_is_a_resolution_error() {
    let ctx = ResolverContext::default();
    assert_eq!(
        resolve(
            &Dimension::Time(TimeValue::IntervalAfter { start: 10, end: 3 }),
            OutputKind::Time,
            &ctx
        ),
        Err(OntologyError::ResolutionError)
    );
    let ok = resolve(
        &Dimension::Time(TimeValue::IntervalAfter { start: 3, end: 10 }),
        OutputKind::Time,
        &ctx,
    )
    .unwrap();
    match ok {
        Output::DatetimeInterval(iv) => {
            assert_eq!(iv.start, 3);
            assert_eq!(iv.end, 10);
        }
        _ => panic!("wrong output variant"),
    }
}

#[test]
fn ungroundable_instant_is_a_resolution_error() {
    let ctx = ResolverContext {
        reference_instant: i64::MAX,
        timezone_offset: 0,
        default_grain: Grain::Second,
    };
    assert_eq!(
        resolve(
            &Dimension::Time(TimeValue::ShiftedByGrains {
                count: 2,
                grain: GrainSpec::Known(Grain::Year)
            }),
            OutputKind::Time,
            &ctx
        ),
        Err(OntologyError::ResolutionError)
    );
}
