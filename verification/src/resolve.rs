use vstd::prelude::*;

use crate::kinds::{
    spec_kind_of_dimension, spec_output_kind, AmountOfMoneyOutput, DatetimeIntervalOutput,
    DatetimeOutput, Dimension, DurationOutput, Grain, GrainSpec, IntegerOutput, OntologyError,
    OrdinalOutput, Output, OutputKind, PercentageOutput, TemperatureOutput,
};

verus! {

/// Everything context-dependent resolution may consult: the reference
/// instant ("now", in seconds since the epoch), the time zone as an offset
/// east of UTC in seconds, and the grain to assume when a temporal
/// expression under-specifies its own.  Immutable for a resolution pass.
#[derive(Copy, Clone, Debug, PartialEq, Eq, Structural)]
pub struct ResolverContext {
    pub reference_instant: i64,
    pub timezone_offset: i64,
    pub default_grain: Grain,
}

impl Default for ResolverContext {
    /// The neutral context: the epoch as "now", UTC, second grain.
    fn default() -> (r: Self)
        ensures
            r.reference_instant == 0,
            r.timezone_offset == 0,
            r.default_grain == Grain::Second,
    {
        ResolverContext { reference_instant: 0, timezone_offset: 0, default_grain: Grain::Second }
    }
}

/// Nominal length of one grain in seconds (a month as the mean Gregorian
/// month, a year as twelve of them).
pub open spec fn spec_grain_seconds(g: Grain) -> int {
    match g {
        Grain::Year => 31557600,
        Grain::Quarter => 7889400,
        Grain::Month => 2629800,
        Grain::Week => 604800,
        Grain::Day => 86400,
        Grain::Hour => 3600,
        Grain::Minute => 60,
        Grain::Second => 1,
    }
}

pub fn grain_seconds(g: Grain) -> (r: i64)
    ensures
        r as int == spec_grain_seconds(g),
        1 <= r <= 31557600,
{
    match g {
        Grain::Year => 31557600,
        Grain::Quarter => 7889400,
        Grain::Month => 2629800,
        Grain::Week => 604800,
        Grain::Day => 86400,
        Grain::Hour => 3600,
        Grain::Minute => 60,
        Grain::Second => 1,
    }
}

/// The grain an expression carries, or the context's default where the
/// expression leaves it open.
pub open spec fn spec_grain_or_default(g: GrainSpec, ctx: ResolverContext) -> Grain {
    match g {
        GrainSpec::Known(k) => k,
        GrainSpec::Unspecified => ctx.default_grain,
    }
}

fn grain_or_default(g: GrainSpec, ctx: &ResolverContext) -> (r: Grain)
    ensures
        r == spec_grain_or_default(g, *ctx),
{
    match g {
        GrainSpec::Known(k) => k,
        GrainSpec::Unspecified => ctx.default_grain,
    }
}

pub open spec fn in_i64(v: int) -> bool {
    i64::MIN <= v <= i64::MAX
}

/// What resolving one candidate returns, for every dimension, requested
/// kind and context.
///
/// A dimension whose kind is not the one the candidate was classified
/// under is a coercion error.  Context-free dimensions coerce structurally
/// and never fail.  Temporal expressions are grounded against the context;
/// they fail exactly when they are internally inconsistent (an interval
/// that ends before it starts) or when the grounded instant leaves the
/// representable range.
pub open spec fn spec_resolve(d: Dimension, kind: OutputKind, ctx: ResolverContext) -> Result<
    Output,
    OntologyError,
> {
    if spec_kind_of_dimension(d) != Some(kind) {
        Err(OntologyError::CoercionError)
    } else {
        match d {
            Dimension::Number(n) => Ok(Output::Integer(IntegerOutput(n))),
            Dimension::Ordinal(n) => Ok(Output::Ordinal(OrdinalOutput(n))),
            Dimension::Temperature(t) => Ok(
                Output::Temperature(TemperatureOutput { degrees: t.degrees, unit: t.unit }),
            ),
            Dimension::Duration(dv) => Ok(
                Output::Duration(DurationOutput { quantity: dv.quantity, grain: dv.grain }),
            ),
            Dimension::AmountOfMoney(m) => Ok(
                Output::AmountOfMoney(AmountOfMoneyOutput { cents: m.cents, currency: m.currency }),
            ),
            Dimension::Percentage(p) => Ok(Output::Percentage(PercentageOutput(p))),
            Dimension::Cycle(_) => Err(OntologyError::CoercionError),
            Dimension::Time(tv) => spec_resolve_time(tv, ctx),
        }
    }
}

pub open spec fn spec_resolve_time(tv: crate::kinds::TimeValue, ctx: ResolverContext) -> Result<
    Output,
    OntologyError,
> {
    match tv {
        crate::kinds::TimeValue::LocalInstant { local, grain } => {
            let v = local - ctx.timezone_offset;
            if in_i64(v) {
                Ok(
                    Output::Datetime(
                        DatetimeOutput {
                            instant: v as i64,
                            grain: spec_grain_or_default(grain, ctx),
                        },
                    ),
                )
            } else {
                Err(OntologyError::ResolutionError)
            }
        },
        crate::kinds::TimeValue::ShiftedByGrains { count, grain } => {
            let g = spec_grain_or_default(grain, ctx);
            let v = ctx.reference_instant + count * spec_grain_seconds(g);
            if in_i64(v) {
                Ok(Output::Datetime(DatetimeOutput { instant: v as i64, grain: g }))
            } else {
                Err(OntologyError::ResolutionError)
            }
        },
        crate::kinds::TimeValue::IntervalAfter { start, end } => {
            if end < start {
                Err(OntologyError::ResolutionError)
            } else {
                let a = ctx.reference_instant + start;
                let b = ctx.reference_instant + end;
                if in_i64(a) && in_i64(b) {
                    Ok(
                        Output::DatetimeInterval(
                            DatetimeIntervalOutput { start: a as i64, end: b as i64 },
                        ),
                    )
                } else {
                    Err(OntologyError::ResolutionError)
                }
            }
        },
    }
}

/// Resolve one candidate's intermediate value into the typed output of the
/// kind it was classified under.
///
/// The result is exactly `spec_resolve`; in particular a kind mismatch is
/// reported as a coercion error and nothing else is, a successful output
/// always has the requested kind, and every context-free dimension of the
/// right kind resolves.
pub fn resolve(d: &Dimension, kind: OutputKind, ctx: &ResolverContext) -> (r: Result<
    Output,
    OntologyError,
>)
    ensures
        r == spec_resolve(*d, kind, *ctx),
        r is Ok ==> spec_output_kind(r.unwrap()) == kind,
        r == Err::<Output, OntologyError>(OntologyError::CoercionError) <==> spec_kind_of_dimension(
            *d,
        ) != Some(kind),
        spec_kind_of_dimension(*d) == Some(kind) && !(*d is Time) ==> r is Ok,
{
    let dk = crate::kinds::kind_of_dimension(d);
    if dk != Some(kind) {
        return Err(OntologyError::CoercionError);
    }
    match *d {
        Dimension::Number(n) => Ok(Output::Integer(IntegerOutput(n))),
        Dimension::Ordinal(n) => Ok(Output::Ordinal(OrdinalOutput(n))),
        Dimension::Temperature(t) => Ok(
            Output::Temperature(TemperatureOutput { degrees: t.degrees, unit: t.unit }),
        ),
        Dimension::Duration(dv) => Ok(
            Output::Duration(DurationOutput { quantity: dv.quantity, grain: dv.grain }),
        ),
        Dimension::AmountOfMoney(m) => Ok(
            Output::AmountOfMoney(AmountOfMoneyOutput { cents: m.cents, currency: m.currency }),
        ),
        Dimension::Percentage(p) => Ok(Output::Percentage(PercentageOutput(p))),
        Dimension::Cycle(_) => Err(OntologyError::CoercionError),
        Dimension::Time(tv) => resolve_time(&tv, ctx),
    }
}

fn resolve_time(tv: &crate::kinds::TimeValue, ctx: &ResolverContext) -> (r: Result<
    Output,
    OntologyError,
>)
    ensures
        r == spec_resolve_time(*tv, *ctx),
{
    match *tv {
        crate::kinds::TimeValue::LocalInstant { local, grain } => {
            let v: i128 = (local as i128) - (ctx.timezone_offset as i128);
            if i64::MIN as i128 <= v && v <= i64::MAX as i128 {
                Ok(
                    Output::Datetime(
                        DatetimeOutput { instant: v as i64, grain: grain_or_default(grain, ctx) },
                    ),
                )
            } else {
                Err(OntologyError::ResolutionError)
            }
        },
        crate::kinds::TimeValue::ShiftedByGrains { count, grain } => {
            let g = grain_or_default(grain, ctx);
            let secs = grain_seconds(g);
            proof {
                assert((count as int) * (secs as int) <= 0x7fff_ffff_ffff_ffff_ffff_ffffi128
                    && (count as int) * (secs as int)
                    >= -0x7fff_ffff_ffff_ffff_ffff_ffffi128) by (nonlinear_arith)
                    requires
                        -0x8000_0000_0000_0000 <= count as int <= 0x7fff_ffff_ffff_ffff,
                        1 <= secs as int <= 31557600,
                ;
            }
            let p: i128 = (count as i128) * (secs as i128);
            let v: i128 = (ctx.reference_instant as i128) + p;
            if i64::MIN as i128 <= v && v <= i64::MAX as i128 {
                Ok(Output::Datetime(DatetimeOutput { instant: v as i64, grain: g }))
            } else {
                Err(OntologyError::ResolutionError)
            }
        },
        crate::kinds::TimeValue::IntervalAfter { start, end } => {
            if end < start {
                Err(OntologyError::ResolutionError)
            } else {
                let a: i128 = (ctx.reference_instant as i128) + (start as i128);
                let b: i128 = (ctx.reference_instant as i128) + (end as i128);
                if i64::MIN as i128 <= a && a <= i64::MAX as i128 && i64::MIN as i128 <= b && b
                    <= i64::MAX as i128 {
                    Ok(
                        Output::DatetimeInterval(
                            DatetimeIntervalOutput { start: a as i64, end: b as i64 },
                        ),
                    )
                } else {
                    Err(OntologyError::ResolutionError)
                }
            }
        },
    }
}

} // verus!
