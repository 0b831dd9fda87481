use vstd::prelude::*;

verus! {

/// The closed set of semantic categories a candidate can resolve into.
/// A caller-supplied ordered sequence of kinds defines priority: earlier
/// entries win when candidates of different kinds overlap.
#[derive(Copy, Clone, Debug, PartialEq, Eq, Structural)]
pub enum OutputKind {
    Number,
    Ordinal,
    Temperature,
    Duration,
    Time,
    AmountOfMoney,
    Percentage,
}

/// The canonical full priority order over all output kinds, used by `parse`
/// when the caller supplies no order of its own.
pub open spec fn all_kinds() -> Seq<OutputKind> {
    seq![
        OutputKind::Number,
        OutputKind::Ordinal,
        OutputKind::Temperature,
        OutputKind::Duration,
        OutputKind::Time,
        OutputKind::AmountOfMoney,
        OutputKind::Percentage,
    ]
}

impl OutputKind {
    /// Every output kind, in the canonical default priority order.
    pub fn all() -> (r: Vec<OutputKind>)
        ensures
            r@ == all_kinds(),
    {
        let r: Vec<OutputKind> = vec![
            OutputKind::Number,
            OutputKind::Ordinal,
            OutputKind::Temperature,
            OutputKind::Duration,
            OutputKind::Time,
            OutputKind::AmountOfMoney,
            OutputKind::Percentage,
        ];
        proof {
            assert(r@ =~= all_kinds());
        }
        r
    }
}

/// Temporal granularity of a resolved date/time value.
#[derive(Copy, Clone, Debug, PartialEq, Eq, Structural)]
pub enum Grain {
    Year,
    Quarter,
    Month,
    Week,
    Day,
    Hour,
    Minute,
    Second,
}

/// A grain as carried by an intermediate temporal value: either written out
/// in the text, or left for the resolution context's default to fill in.
#[derive(Copy, Clone, Debug, PartialEq, Eq, Structural)]
pub enum GrainSpec {
    Known(Grain),
    Unspecified,
}

/// Unit of a temperature expression; `Unspecified` when the text names none.
#[derive(Copy, Clone, Debug, PartialEq, Eq, Structural)]
pub enum TempUnit {
    Celsius,
    Fahrenheit,
    Kelvin,
    Unspecified,
}

/// Currency of a money amount.
#[derive(Copy, Clone, Debug, PartialEq, Eq, Structural)]
pub enum Currency {
    Usd,
    Eur,
    Gbp,
    Unknown,
}

/// An un-resolved temperature: degrees as written, with the unit if any.
#[derive(Copy, Clone, Debug, PartialEq, Eq, Structural)]
pub struct TemperatureValue {
    pub degrees: i64,
    pub unit: TempUnit,
}

/// An un-resolved duration: a quantity of grains.
#[derive(Copy, Clone, Debug, PartialEq, Eq, Structural)]
pub struct DurationValue {
    pub quantity: i64,
    pub grain: Grain,
}

/// An un-resolved money amount in hundredths of the currency unit.
#[derive(Copy, Clone, Debug, PartialEq, Eq, Structural)]
pub struct MoneyValue {
    pub cents: i64,
    pub currency: Currency,
}

/// An un-resolved temporal expression.  Grounding it into an absolute
/// instant needs the resolution context's reference instant, time zone
/// offset and default grain.
#[derive(Copy, Clone, Debug, PartialEq, Eq, Structural)]
pub enum TimeValue {
    /// A wall-clock instant in the context's local time zone, in seconds.
    LocalInstant { local: i64, grain: GrainSpec },
    /// A shift of `count` grains away from the reference instant
    /// ("in three days").
    ShiftedByGrains { count: i64, grain: GrainSpec },
    /// A half-open interval of seconds relative to the reference instant.
    /// Internally inconsistent when `end < start`.
    IntervalAfter { start: i64, end: i64 },
}

/// The dimension-tagged intermediate value a parse node carries before
/// resolution.  `Cycle` is grammar-internal and maps to no output kind, so
/// the tagger never surfaces it.
#[derive(Copy, Clone, Debug, PartialEq, Eq, Structural)]
pub enum Dimension {
    Number(i64),
    Ordinal(i64),
    Temperature(TemperatureValue),
    Duration(DurationValue),
    Time(TimeValue),
    AmountOfMoney(MoneyValue),
    Percentage(i64),
    Cycle(Grain),
}

/// The output kind a dimension tag resolves into, if any.
pub open spec fn spec_kind_of_dimension(d: Dimension) -> Option<OutputKind> {
    match d {
        Dimension::Number(_) => Some(OutputKind::Number),
        Dimension::Ordinal(_) => Some(OutputKind::Ordinal),
        Dimension::Temperature(_) => Some(OutputKind::Temperature),
        Dimension::Duration(_) => Some(OutputKind::Duration),
        Dimension::Time(_) => Some(OutputKind::Time),
        Dimension::AmountOfMoney(_) => Some(OutputKind::AmountOfMoney),
        Dimension::Percentage(_) => Some(OutputKind::Percentage),
        Dimension::Cycle(_) => None,
    }
}

pub fn kind_of_dimension(d: &Dimension) -> (r: Option<OutputKind>)
    ensures
        r == spec_kind_of_dimension(*d),
{
    match d {
        Dimension::Number(_) => Some(OutputKind::Number),
        Dimension::Ordinal(_) => Some(OutputKind::Ordinal),
        Dimension::Temperature(_) => Some(OutputKind::Temperature),
        Dimension::Duration(_) => Some(OutputKind::Duration),
        Dimension::Time(_) => Some(OutputKind::Time),
        Dimension::AmountOfMoney(_) => Some(OutputKind::AmountOfMoney),
        Dimension::Percentage(_) => Some(OutputKind::Percentage),
        Dimension::Cycle(_) => None,
    }
}

/// A resolved integer.
#[derive(Copy, Clone, Debug, PartialEq, Eq, Structural)]
pub struct IntegerOutput(pub i64);

/// A resolved ordinal.
#[derive(Copy, Clone, Debug, PartialEq, Eq, Structural)]
pub struct OrdinalOutput(pub i64);

/// A resolved temperature.
#[derive(Copy, Clone, Debug, PartialEq, Eq, Structural)]
pub struct TemperatureOutput {
    pub degrees: i64,
    pub unit: TempUnit,
}

/// A resolved duration.
#[derive(Copy, Clone, Debug, PartialEq, Eq, Structural)]
pub struct DurationOutput {
    pub quantity: i64,
    pub grain: Grain,
}

/// A resolved absolute instant, in seconds since the epoch.
#[derive(Copy, Clone, Debug, PartialEq, Eq, Structural)]
pub struct DatetimeOutput {
    pub instant: i64,
    pub grain: Grain,
}

/// A resolved half-open absolute interval, in seconds since the epoch.
#[derive(Copy, Clone, Debug, PartialEq, Eq, Structural)]
pub struct DatetimeIntervalOutput {
    pub start: i64,
    pub end: i64,
}

/// A resolved money amount in hundredths of the currency unit.
#[derive(Copy, Clone, Debug, PartialEq, Eq, Structural)]
pub struct AmountOfMoneyOutput {
    pub cents: i64,
    pub currency: Currency,
}

/// A resolved percentage.
#[derive(Copy, Clone, Debug, PartialEq, Eq, Structural)]
pub struct PercentageOutput(pub i64);

/// The strongly typed result of resolving one candidate.  Each variant
/// belongs to exactly one `OutputKind`.
#[derive(Copy, Clone, Debug, PartialEq, Eq, Structural)]
pub enum Output {
    Integer(IntegerOutput),
    Ordinal(OrdinalOutput),
    Temperature(TemperatureOutput),
    Duration(DurationOutput),
    Datetime(DatetimeOutput),
    DatetimeInterval(DatetimeIntervalOutput),
    AmountOfMoney(AmountOfMoneyOutput),
    Percentage(PercentageOutput),
}

/// The output kind an output value belongs to.
pub open spec fn spec_output_kind(o: Output) -> OutputKind {
    match o {
        Output::Integer(_) => OutputKind::Number,
        Output::Ordinal(_) => OutputKind::Ordinal,
        Output::Temperature(_) => OutputKind::Temperature,
        Output::Duration(_) => OutputKind::Duration,
        Output::Datetime(_) => OutputKind::Time,
        Output::DatetimeInterval(_) => OutputKind::Time,
        Output::AmountOfMoney(_) => OutputKind::AmountOfMoney,
        Output::Percentage(_) => OutputKind::Percentage,
    }
}

/// One uniform error type for the whole pipeline.
#[derive(Copy, Clone, Debug, PartialEq, Eq, Structural)]
pub enum OntologyError {
    /// A language identifier that the registry does not know.
    UnknownLanguage,
    /// A candidate's dimension tag does not match the kind it was
    /// classified under, or an output was coerced into the wrong variant.
    CoercionError,
    /// Context-dependent grounding failed: the expression is internally
    /// inconsistent or the grounded instant falls outside the
    /// representable range.
    ResolutionError,
}

impl Output {
    /// The kind this output belongs to.
    pub fn kind(&self) -> (r: OutputKind)
        ensures
            r == spec_output_kind(*self),
    {
        match self {
            Output::Integer(_) => OutputKind::Number,
            Output::Ordinal(_) => OutputKind::Ordinal,
            Output::Temperature(_) => OutputKind::Temperature,
            Output::Duration(_) => OutputKind::Duration,
            Output::Datetime(_) => OutputKind::Time,
            Output::DatetimeInterval(_) => OutputKind::Time,
            Output::AmountOfMoney(_) => OutputKind::AmountOfMoney,
            Output::Percentage(_) => OutputKind::Percentage,
        }
    }

    /// Fallible coercion into an integer output: succeeds exactly on the
    /// `Integer` variant, with the carried value, and never guesses.
    pub fn attempt_into_integer(self) -> (r: Result<IntegerOutput, OntologyError>)
        ensures
            r is Ok <==> self is Integer,
            self is Integer ==> r == Ok::<IntegerOutput, OntologyError>(self->Integer_0),
            r is Err ==> r == Err::<IntegerOutput, OntologyError>(OntologyError::CoercionError),
    {
        match self {
            Output::Integer(v) => Ok(v),
            _ => Err(OntologyError::CoercionError),
        }
    }

    /// Fallible coercion into an ordinal output.
    pub fn attempt_into_ordinal(self) -> (r: Result<OrdinalOutput, OntologyError>)
        ensures
            r is Ok <==> self is Ordinal,
            self is Ordinal ==> r == Ok::<OrdinalOutput, OntologyError>(self->Ordinal_0),
            r is Err ==> r == Err::<OrdinalOutput, OntologyError>(OntologyError::CoercionError),
    {
        match self {
            Output::Ordinal(v) => Ok(v),
            _ => Err(OntologyError::CoercionError),
        }
    }

    /// Fallible coercion into an absolute-instant output.
    pub fn attempt_into_datetime(self) -> (r: Result<DatetimeOutput, OntologyError>)
        ensures
            r is Ok <==> self is Datetime,
            self is Datetime ==> r == Ok::<DatetimeOutput, OntologyError>(self->Datetime_0),
            r is Err ==> r == Err::<DatetimeOutput, OntologyError>(OntologyError::CoercionError),
    {
        match self {
            Output::Datetime(v) => Ok(v),
            _ => Err(OntologyError::CoercionError),
        }
    }
}

} // verus!
