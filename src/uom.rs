use vstd::prelude::*;
use crate::error::UnitOfMeasureError;
use crate::text::str_eq;

verus! {

/// The physical quantity that a unit measures.
#[derive(Clone, Copy, Debug, PartialEq, Eq, Structural)]
pub enum Dimension {
    Unitless,
    Force,
    Time,
    Length,
    Velocity,
}

/// The units of measure that a numeric dimension may be expressed in.
#[derive(Clone, Copy, Debug, PartialEq, Eq, Structural)]
pub enum UnitKind {
    Ratio,
    Kilometer,
    Meter,
    Millimeter,
    Second,
    Millisecond,
    Microsecond,
    Nanosecond,
    KilometerPerHour,
    MeterPerSecond,
    Newton,
}

/// The quantity measured by a unit.
pub open spec fn quantity_of(k: UnitKind) -> Dimension {
    match k {
        UnitKind::Ratio => Dimension::Unitless,
        UnitKind::Kilometer | UnitKind::Meter | UnitKind::Millimeter => Dimension::Length,
        UnitKind::Second | UnitKind::Millisecond | UnitKind::Microsecond
        | UnitKind::Nanosecond => Dimension::Time,
        UnitKind::KilometerPerHour | UnitKind::MeterPerSecond => Dimension::Velocity,
        UnitKind::Newton => Dimension::Force,
    }
}

/// Numerator of the factor that converts a value in this unit to the base
/// unit of its quantity (meter, second, meter per second, newton).
pub open spec fn factor_num(k: UnitKind) -> int {
    match k {
        UnitKind::Kilometer => 1000,
        UnitKind::KilometerPerHour => 5,
        _ => 1,
    }
}

/// Denominator of the conversion factor to the base unit.
pub open spec fn factor_den(k: UnitKind) -> int {
    match k {
        UnitKind::Millimeter | UnitKind::Millisecond => 1000,
        UnitKind::Microsecond => 1000000,
        UnitKind::Nanosecond => 1000000000,
        UnitKind::KilometerPerHour => 18,
        _ => 1,
    }
}

/// The upper bound on the numerator and the denominator of every factor.
pub const FACTOR_BOUND: u64 = 1000000000;

pub proof fn lemma_factor_bounds(k: UnitKind)
    ensures
        0 < factor_num(k) <= FACTOR_BOUND,
        0 < factor_den(k) <= FACTOR_BOUND,
{
}

/// The names of a unit.
#[derive(Debug, PartialEq, Eq, PartialOrd, Ord)]
pub struct Unit {
    pub abbreviation: String,
    pub singular: String,
    pub plural: String,
}

/// A unit of measure: its kind, from which quantity and conversion factor
/// follow, and its names.
#[derive(Debug)]
pub struct UnitOfMeasure {
    kind: UnitKind,
    unit: Unit,
}

fn unit_names(abbreviation: &str, singular: &str, plural: &str) -> (r: Unit)
    ensures
        r.abbreviation@ == abbreviation@,
        r.singular@ == singular@,
        r.plural@ == plural@,
{
    Unit {
        abbreviation: abbreviation.to_owned(),
        singular: singular.to_owned(),
        plural: plural.to_owned(),
    }
}

/// The abbreviation, singular name and plural name of a unit.
pub open spec fn unit_names_of(k: UnitKind) -> (Seq<char>, Seq<char>, Seq<char>) {
    match k {
        UnitKind::Ratio => (""@, "ratio"@, "ratios"@),
        UnitKind::Kilometer => ("km"@, "kilometer"@, "kilometers"@),
        UnitKind::Meter => ("m"@, "meter"@, "meters"@),
        UnitKind::Millimeter => ("mm"@, "millimeter"@, "millimeters"@),
        UnitKind::Second => ("s"@, "second"@, "seconds"@),
        UnitKind::Millisecond => ("ms"@, "millisecond"@, "milliseconds"@),
        UnitKind::Microsecond => ("µs"@, "microsecond"@, "microseconds"@),
        UnitKind::Nanosecond => ("ns"@, "nanosecond"@, "nanoseconds"@),
        UnitKind::KilometerPerHour => ("km/h"@, "kilometer per hour"@, "kilometers per hour"@),
        UnitKind::MeterPerSecond => ("m/s"@, "meter per second"@, "meters per second"@),
        UnitKind::Newton => ("N"@, "newton"@, "newtons"@),
    }
}

/// The unit that a textual symbol or name denotes, if it is supported.
pub open spec fn unit_kind_of(s: Seq<char>) -> Option<UnitKind> {
    if s == ""@ {
        Some(UnitKind::Ratio)
    } else if s == "kilometer"@ || s == "km"@ {
        Some(UnitKind::Kilometer)
    } else if s == "meter"@ || s == "m"@ {
        Some(UnitKind::Meter)
    } else if s == "millimeter"@ || s == "mm"@ {
        Some(UnitKind::Millimeter)
    } else if s == "second"@ || s == "s"@ {
        Some(UnitKind::Second)
    } else if s == "millisecond"@ || s == "ms"@ {
        Some(UnitKind::Millisecond)
    } else if s == "microsecond"@ || s == "us"@ {
        Some(UnitKind::Microsecond)
    } else if s == "nanosecond"@ || s == "ns"@ {
        Some(UnitKind::Nanosecond)
    } else if s == "kilometer_per_hour"@ || s == "km/h"@ {
        Some(UnitKind::KilometerPerHour)
    } else if s == "meter_per_second"@ || s == "m/s"@ {
        Some(UnitKind::MeterPerSecond)
    } else if s == "newton"@ || s == "N"@ {
        Some(UnitKind::Newton)
    } else {
        None
    }
}

fn either(s: &str, a: &str, b: &str) -> (r: bool)
    ensures
        r == (s@ == a@ || s@ == b@),
{
    str_eq(s, a) || str_eq(s, b)
}

impl UnitOfMeasure {
    /// The kind of this unit.
    pub closed spec fn spec_kind(&self) -> UnitKind {
        self.kind
    }

    /// The names of this unit.
    pub closed spec fn spec_unit(&self) -> Unit {
        self.unit
    }

    /// Reads a unit from its symbol or its name.
    pub fn new(uom: &str) -> (r: Result<UnitOfMeasure, UnitOfMeasureError>)
        ensures
            match unit_kind_of(uom@) {
                Some(k) => r is Ok && r->Ok_0.spec_kind() == k && (
                    r->Ok_0.spec_unit().abbreviation@,
                    r->Ok_0.spec_unit().singular@,
                    r->Ok_0.spec_unit().plural@,
                ) == unit_names_of(k),
                None => r matches Err(UnitOfMeasureError::UnsupportedUnit(s)) && s@ == uom@,
            },
    {
        let (kind, unit) = if str_eq(uom, "") {
            (UnitKind::Ratio, unit_names("", "ratio", "ratios"))
        } else if either(uom, "kilometer", "km") {
            (UnitKind::Kilometer, unit_names("km", "kilometer", "kilometers"))
        } else if either(uom, "meter", "m") {
            (UnitKind::Meter, unit_names("m", "meter", "meters"))
        } else if either(uom, "millimeter", "mm") {
            (UnitKind::Millimeter, unit_names("mm", "millimeter", "millimeters"))
        } else if either(uom, "second", "s") {
            (UnitKind::Second, unit_names("s", "second", "seconds"))
        } else if either(uom, "millisecond", "ms") {
            (UnitKind::Millisecond, unit_names("ms", "millisecond", "milliseconds"))
        } else if either(uom, "microsecond", "us") {
            (UnitKind::Microsecond, unit_names("µs", "microsecond", "microseconds"))
        } else if either(uom, "nanosecond", "ns") {
            (UnitKind::Nanosecond, unit_names("ns", "nanosecond", "nanoseconds"))
        } else if either(uom, "kilometer_per_hour", "km/h") {
            (
                UnitKind::KilometerPerHour,
                unit_names("km/h", "kilometer per hour", "kilometers per hour"),
            )
        } else if either(uom, "meter_per_second", "m/s") {
            (UnitKind::MeterPerSecond, unit_names("m/s", "meter per second", "meters per second"))
        } else if either(uom, "newton", "N") {
            (UnitKind::Newton, unit_names("N", "newton", "newtons"))
        } else {
            return Err(UnitOfMeasureError::UnsupportedUnit(uom.to_owned()));
        };
        Ok(UnitOfMeasure { kind, unit })
    }

    /// The kind of this unit.
    pub fn kind(&self) -> (r: UnitKind)
        ensures
            r == self.spec_kind(),
    {
        self.kind
    }

    /// The quantity this unit measures.
    pub fn dimension(&self) -> (r: Dimension)
        ensures
            r == quantity_of(self.spec_kind()),
    {
        match self.kind {
            UnitKind::Ratio => Dimension::Unitless,
            UnitKind::Kilometer | UnitKind::Meter | UnitKind::Millimeter => Dimension::Length,
            UnitKind::Second | UnitKind::Millisecond | UnitKind::Microsecond
            | UnitKind::Nanosecond => Dimension::Time,
            UnitKind::KilometerPerHour | UnitKind::MeterPerSecond => Dimension::Velocity,
            UnitKind::Newton => Dimension::Force,
        }
    }

    /// The factor (numerator, denominator) that converts a value in this unit
    /// to the base unit of its quantity.
    pub fn factor(&self) -> (r: (u64, u64))
        ensures
            r.0 == factor_num(self.spec_kind()),
            r.1 == factor_den(self.spec_kind()),
    {
        match self.kind {
            UnitKind::Kilometer => (1000, 1),
            UnitKind::KilometerPerHour => (5, 18),
            UnitKind::Millimeter | UnitKind::Millisecond => (1, 1000),
            UnitKind::Microsecond => (1, 1000000),
            UnitKind::Nanosecond => (1, 1000000000),
            _ => (1, 1),
        }
    }

    /// Two units are compatible when they measure the same quantity.
    pub fn compatible(&self, other: &UnitOfMeasure) -> (r: Result<bool, UnitOfMeasureError>)
        ensures
            quantity_of(self.spec_kind()) == quantity_of(other.spec_kind()) ==> r == Ok::<
                bool,
                UnitOfMeasureError,
            >(true),
            quantity_of(self.spec_kind()) != quantity_of(other.spec_kind()) ==> r
                is Err && r->Err_0 == UnitOfMeasureError::Incompatible,
    {
        if self.dimension() == other.dimension() {
            Ok(true)
        } else {
            Err(UnitOfMeasureError::Incompatible)
        }
    }

    pub fn get_unit_ab(&self) -> (r: &str)
        ensures
            r@ == self.spec_unit().abbreviation@,
    {
        self.unit.abbreviation.as_str()
    }

    pub fn get_unit_singular(&self) -> (r: &str)
        ensures
            r@ == self.spec_unit().singular@,
    {
        self.unit.singular.as_str()
    }

    pub fn get_unit_plural(&self) -> (r: &str)
        ensures
            r@ == self.spec_unit().plural@,
    {
        self.unit.plural.as_str()
    }

    /// The name of the quantity this unit measures, in lower case.
    pub fn quantity(&self) -> (r: String)
        ensures
            r@ == quantity_name(quantity_of(self.spec_kind())),
    {
        let name = match self.dimension() {
            Dimension::Unitless => "ratio",
            Dimension::Force => "force",
            Dimension::Length => "length",
            Dimension::Time => "time",
            Dimension::Velocity => "velocity",
        };
        name.to_owned()
    }

    /// The singular name of this unit.
    pub fn measurement_unit(&self) -> (r: String)
        ensures
            r@ == self.spec_unit().singular@,
    {
        self.unit.singular.clone()
    }
}

/// The lower-case name of a quantity.
pub open spec fn quantity_name(d: Dimension) -> Seq<char> {
    match d {
        Dimension::Unitless => "ratio"@,
        Dimension::Force => "force"@,
        Dimension::Length => "length"@,
        Dimension::Time => "time"@,
        Dimension::Velocity => "velocity"@,
    }
}


/// Relies on `inflector::cases::titlecase::to_title_case`: the result
/// depends on the characters alone.
pub uninterp spec fn title_case_of(s: Seq<char>) -> Seq<char>;

/// Relies on `inflector::cases::titlecase::to_title_case` to turn a name
/// into Title Case.
#[verifier::external_body]
fn title_case(s: &str) -> (r: String)
    ensures
        r@ == title_case_of(s@),
{
    inflector::cases::titlecase::to_title_case(s)
}

impl UnitOfMeasure {
    /// The name of the quantity this unit measures, in Title Case.
    #[allow(non_snake_case)]
    pub fn Quantity(&self) -> (r: String)
        ensures
            r@ == title_case_of(quantity_name(quantity_of(self.spec_kind()))),
    {
        title_case(self.quantity().as_str())
    }
}


impl UnitOfMeasure {
    /// A copy of this unit.
    pub fn copy(&self) -> (r: UnitOfMeasure)
        ensures
            r == *self,
    {
        UnitOfMeasure {
            kind: self.kind,
            unit: Unit {
                abbreviation: self.unit.abbreviation.clone(),
                singular: self.unit.singular.clone(),
                plural: self.unit.plural.clone(),
            },
        }
    }
}

} // verus!
