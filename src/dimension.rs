use vstd::prelude::*;
use crate::error::{ParsingError, UnitOfMeasureError};
use crate::text::str_eq;
use crate::uom::{FACTOR_BOUND, factor_den, factor_num, lemma_factor_bounds, quantity_of, UnitOfMeasure};

verus! {

/// The value one in the fixed-point notation of numeric bounds and
/// measurements: a bound of 1.5 units is written `1_500_000`.
pub const FIXED_POINT_ONE: i64 = 1000000;

/// Which side of a guarantee/demand pair must be the subset.
#[derive(Clone, Copy, Debug, Eq, PartialEq, Structural)]
pub enum SubsetRelationship {
    Guarantee,
    Demand,
}

/// The outcome of comparing two dimensions.
#[derive(Clone, Copy, Debug, Eq, PartialEq, Structural)]
pub enum SubsetResult {
    True,
    False,
    Incompatible,
}

/// An interval of values in fixed-point notation (see [`FIXED_POINT_ONE`]).
/// `Inclusive(lo, hi)` is the closed interval `[lo, hi]`; `Exclusive(lo, hi)`
/// is the half-open interval `[lo, hi)`, as a Rust range `lo..hi`.
/// Containment between ranges is containment of these sets of reals.
#[derive(Clone, Copy, Debug, PartialEq, Eq, Structural)]
pub enum NumericRange {
    Exclusive(i64, i64),
    Inclusive(i64, i64),
}

/// A conversion factor to a base unit, as (numerator, denominator).
pub type Factor = (int, int);

/// The conversion factor of an optional unit; no unit counts as factor one.
pub open spec fn factor_of(u: Option<UnitOfMeasure>) -> Factor {
    match u {
        Some(u) => (factor_num(u.spec_kind()), factor_den(u.spec_kind())),
        None => (1, 1),
    }
}

pub open spec fn positive_factor(f: Factor) -> bool {
    f.0 > 0 && f.1 > 0
}

/// `x` in a unit of factor `fx` is at most `y` in a unit of factor `fy`,
/// both converted to the base unit.
pub open spec fn scaled_le(x: int, fx: Factor, y: int, fy: Factor) -> bool {
    x * fx.0 * fy.1 <= y * fy.0 * fx.1
}

/// `x` (factor `fx`) is less than `y` (factor `fy`) in the base unit.
pub open spec fn scaled_lt(x: int, fx: Factor, y: int, fy: Factor) -> bool {
    x * fx.0 * fy.1 < y * fy.0 * fx.1
}

impl NumericRange {
    pub open spec fn lo(self) -> int {
        match self {
            NumericRange::Exclusive(lo, _) => lo as int,
            NumericRange::Inclusive(lo, _) => lo as int,
        }
    }

    pub open spec fn hi(self) -> int {
        match self {
            NumericRange::Exclusive(_, hi) => hi as int,
            NumericRange::Inclusive(_, hi) => hi as int,
        }
    }

    /// The range holds no value.
    pub open spec fn is_empty(self) -> bool {
        match self {
            NumericRange::Exclusive(lo, hi) => hi <= lo,
            NumericRange::Inclusive(lo, hi) => hi < lo,
        }
    }

    /// The value `v` (fixed point, factor `fv`) lies in the range (factor `f`).
    pub open spec fn holds(self, f: Factor, v: int, fv: Factor) -> bool {
        match self {
            NumericRange::Exclusive(lo, hi) => scaled_le(lo as int, f, v, fv) && scaled_lt(
                v,
                fv,
                hi as int,
                f,
            ),
            NumericRange::Inclusive(lo, hi) => scaled_le(lo as int, f, v, fv) && scaled_le(
                v,
                fv,
                hi as int,
                f,
            ),
        }
    }

    /// The range (factor `f`) is a subset of `other` (factor `fo`), both
    /// converted to the base unit.
    pub open spec fn within(self, f: Factor, other: NumericRange, fo: Factor) -> bool {
        ||| self.is_empty()
        ||| {
            &&& scaled_le(other.lo(), fo, self.lo(), f)
            &&& match (self, other) {
                (NumericRange::Inclusive(_, hi), NumericRange::Exclusive(_, ohi)) => scaled_lt(
                    hi as int,
                    f,
                    ohi as int,
                    fo,
                ),
                _ => scaled_le(self.hi(), f, other.hi(), fo),
            }
        }
    }

    /// The range for a comparison operator and threshold: `<=` and
    /// `bound to` give `[0, t]`, `>=` gives `[t, max]`, `<` gives `[0, t)`
    /// and `>` gives `[t, max)`.
    pub fn from(operator: &str, threshold: i64) -> (r: Result<NumericRange, ParsingError>)
        ensures
            (operator@ == "<="@ || operator@ == "bound to"@) ==> r == Ok::<
                NumericRange,
                ParsingError,
            >(NumericRange::Inclusive(0, threshold)),
            operator@ == ">="@ ==> r == Ok::<NumericRange, ParsingError>(
                NumericRange::Inclusive(threshold, i64::MAX),
            ),
            operator@ == "<"@ ==> r == Ok::<NumericRange, ParsingError>(
                NumericRange::Exclusive(0, threshold),
            ),
            operator@ == ">"@ ==> r == Ok::<NumericRange, ParsingError>(
                NumericRange::Exclusive(threshold, i64::MAX),
            ),
            !(operator@ == "<="@ || operator@ == "bound to"@ || operator@ == ">="@ || operator@
                == "<"@ || operator@ == ">"@) ==> (r matches Err(
                ParsingError::UnsupportedOperator(s),
            ) && s@ == operator@),
    {
        proof {
            reveal_strlit("<=");
            reveal_strlit("bound to");
            reveal_strlit(">=");
            reveal_strlit("<");
            reveal_strlit(">");
            assert(">="@[0] != "<="@[0] && ">="@.len() != "bound to"@.len());
            assert("<"@.len() != "<="@.len() && "<"@.len() != "bound to"@.len() && "<"@.len()
                != ">="@.len());
            assert(">"@.len() != "<="@.len() && ">"@.len() != "bound to"@.len() && ">"@.len()
                != ">="@.len() && ">"@[0] != "<"@[0]);
        }
        if str_eq(operator, "<=") || str_eq(operator, "bound to") {
            Ok(NumericRange::Inclusive(0, threshold))
        } else if str_eq(operator, ">=") {
            Ok(NumericRange::Inclusive(threshold, i64::MAX))
        } else if str_eq(operator, "<") {
            Ok(NumericRange::Exclusive(0, threshold))
        } else if str_eq(operator, ">") {
            Ok(NumericRange::Exclusive(threshold, i64::MAX))
        } else {
            Err(ParsingError::UnsupportedOperator(operator.to_owned()))
        }
    }

    /// Containment of two ranges given in the same unit.
    pub fn included_in(&self, other: &NumericRange) -> (r: bool)
        ensures
            r == self.within((1, 1), *other, (1, 1)),
    {
        self.included_in_scaled((1, 1), other, (1, 1))
    }

    /// Containment of two ranges, each in its own unit of factor
    /// (numerator, denominator).
    pub fn included_in_scaled(&self, f: (u64, u64), other: &NumericRange, fo: (u64, u64)) -> (r:
        bool)
        requires
            0 < f.0 <= FACTOR_BOUND,
            0 < f.1 <= FACTOR_BOUND,
            0 < fo.0 <= FACTOR_BOUND,
            0 < fo.1 <= FACTOR_BOUND,
        ensures
            r == self.within(
                (f.0 as int, f.1 as int),
                *other,
                (fo.0 as int, fo.1 as int),
            ),
    {
        let empty = match *self {
            NumericRange::Exclusive(lo, hi) => hi <= lo,
            NumericRange::Inclusive(lo, hi) => hi < lo,
        };
        if empty {
            return true;
        }
        let (lo, hi) = match *self {
            NumericRange::Exclusive(lo, hi) => (lo, hi),
            NumericRange::Inclusive(lo, hi) => (lo, hi),
        };
        let (olo, ohi) = match *other {
            NumericRange::Exclusive(lo, hi) => (lo, hi),
            NumericRange::Inclusive(lo, hi) => (lo, hi),
        };
        let lower = cmp_scaled(olo, fo, lo, f) <= 0;
        let upper = match (*self, *other) {
            (NumericRange::Inclusive(_, _), NumericRange::Exclusive(_, _)) => cmp_scaled(
                hi,
                f,
                ohi,
                fo,
            ) < 0,
            _ => cmp_scaled(hi, f, ohi, fo) <= 0,
        };
        lower && upper
    }
}

/// Compares `x` (factor `fx`) with `y` (factor `fy`) in the base unit:
/// negative, zero or positive.
pub(crate) fn cmp_scaled(x: i64, fx: (u64, u64), y: i64, fy: (u64, u64)) -> (r: i8)
    requires
        0 < fx.0 <= FACTOR_BOUND,
        0 < fx.1 <= FACTOR_BOUND,
        0 < fy.0 <= FACTOR_BOUND,
        0 < fy.1 <= FACTOR_BOUND,
    ensures
        (r < 0) == scaled_lt(x as int, (fx.0 as int, fx.1 as int), y as int, (fy.0 as int, fy.1 as int)),
        (r <= 0) == scaled_le(x as int, (fx.0 as int, fx.1 as int), y as int, (fy.0 as int, fy.1 as int)),
{
    assert(0 < fx.0 * fy.1 <= 1000000000000000000) by (nonlinear_arith)
        requires
            0 < fx.0 <= 1000000000,
            0 < fy.1 <= 1000000000,
    ;
    assert(0 < fy.0 * fx.1 <= 1000000000000000000) by (nonlinear_arith)
        requires
            0 < fy.0 <= 1000000000,
            0 < fx.1 <= 1000000000,
    ;
    let mx = (fx.0 as i128) * (fy.1 as i128);
    let my = (fy.0 as i128) * (fx.1 as i128);
    let xi = x as i128;
    let yi = y as i128;
    assert(-0x8000_0000_0000_0000 * 1000000000000000000 <= xi * mx <= 0x7fff_ffff_ffff_ffff
        * 1000000000000000000) by (nonlinear_arith)
        requires
            -0x8000_0000_0000_0000 <= xi <= 0x7fff_ffff_ffff_ffff,
            0 < mx <= 1000000000000000000,
    ;
    assert(-0x8000_0000_0000_0000 * 1000000000000000000 <= yi * my <= 0x7fff_ffff_ffff_ffff
        * 1000000000000000000) by (nonlinear_arith)
        requires
            -0x8000_0000_0000_0000 <= yi <= 0x7fff_ffff_ffff_ffff,
            0 < my <= 1000000000000000000,
    ;
    let a = xi * mx;
    let b = yi * my;
    assert(a == x * fx.0 * fy.1) by (nonlinear_arith)
        requires
            a == xi * mx,
            mx == fx.0 * fy.1,
            xi == x,
    ;
    assert(b == y * fy.0 * fx.1) by (nonlinear_arith)
        requires
            b == yi * my,
            my == fy.0 * fx.1,
            yi == y,
    ;
    if a < b {
        -1
    } else if a == b {
        0
    } else {
        1
    }
}

} // verus!

verus! {

/// A named, typed property of a component: a boolean, a category drawn from
/// a set, or a number in a union of intervals with an optional unit.
#[derive(Debug)]
#[allow(inconsistent_fields)]
pub enum Dimension {
    Binary { property_type: String },
    Categorical { property_type: String, covered: Vec<String>, subset: SubsetRelationship },
    Numeric {
        property_type: String,
        covered: Vec<NumericRange>,
        subset: SubsetRelationship,
        uom: Option<UnitOfMeasure>,
    },
}

/// The set of categories that a list of names stands for.
pub open spec fn categories(c: Seq<String>) -> Set<Seq<char>> {
    names(c).to_set()
}

/// The character sequences of a list of strings.
pub open spec fn names(c: Seq<String>) -> Seq<Seq<char>> {
    c.map_values(|s: String| s@)
}

/// Two optional units can be compared: both absent, or both present and
/// measuring the same quantity.
pub open spec fn units_compatible(u: Option<UnitOfMeasure>, o: Option<UnitOfMeasure>) -> bool {
    match (u, o) {
        (None, None) => true,
        (Some(u), Some(o)) => quantity_of(u.spec_kind()) == quantity_of(o.spec_kind()),
        _ => false,
    }
}

/// Every range of `c` (factor `f`) lies in some range of `o` (factor `fo`).
pub open spec fn ranges_within(c: Seq<NumericRange>, f: Factor, o: Seq<NumericRange>, fo: Factor) -> bool {
    forall|i: int| 0 <= i < c.len() ==> #[trigger] range_covered(c[i], f, o, fo)
}

/// The range `r` (factor `f`) lies in some range of `o` (factor `fo`).
pub open spec fn range_covered(r: NumericRange, f: Factor, o: Seq<NumericRange>, fo: Factor) -> bool {
    exists|j: int| 0 <= j < o.len() && #[trigger] r.within(f, o[j], fo)
}

/// Whether dimension `a` is a subset of dimension `b`.
pub open spec fn subset_of_spec(a: Dimension, b: Dimension) -> SubsetResult {
    match (a, b) {
        (Dimension::Binary { property_type: t }, Dimension::Binary { property_type: o }) => {
            if t@ == o@ {
                SubsetResult::True
            } else {
                SubsetResult::Incompatible
            }
        },
        (
            Dimension::Categorical { property_type: t, covered: c, .. },
            Dimension::Categorical { property_type: o, covered: oc, .. },
        ) => {
            if t@ != o@ {
                SubsetResult::Incompatible
            } else if categories(c@).subset_of(categories(oc@)) {
                SubsetResult::True
            } else {
                SubsetResult::False
            }
        },
        (
            Dimension::Numeric { property_type: t, covered: c, uom: u, .. },
            Dimension::Numeric { property_type: o, covered: oc, uom: ou, .. },
        ) => {
            if t@ != o@ || !units_compatible(u, ou) {
                SubsetResult::Incompatible
            } else if ranges_within(c@, factor_of(u), oc@, factor_of(ou)) {
                SubsetResult::True
            } else {
                SubsetResult::False
            }
        },
        _ => SubsetResult::Incompatible,
    }
}

/// The covering direction of a dimension; binary dimensions have none.
pub open spec fn subset_spec(d: Dimension) -> Option<SubsetRelationship> {
    match d {
        Dimension::Binary { .. } => None,
        Dimension::Categorical { subset, .. } => Some(subset),
        Dimension::Numeric { subset, .. } => Some(subset),
    }
}

pub(crate) fn contains_string(v: &Vec<String>, s: &String) -> (r: bool)
    ensures
        r == categories(v@).contains(s@),
{
    let mut i: usize = 0;
    while i < v.len()
        invariant
            i <= v.len(),
            forall|k: int| 0 <= k < i ==> v@[k]@ != s@,
        decreases v.len() - i,
    {
        if v[i] == *s {
            proof {
                assert(names(v@)[i as int] == s@);
            }
            return true;
        }
        i = i + 1;
    }
    proof {
        if categories(v@).contains(s@) {
            let k = choose|k: int| 0 <= k < v@.len() && #[trigger] names(v@)[k] == s@;
            assert(v@[k]@ == s@);
        }
    }
    false
}

pub(crate) fn unit_factor(u: &Option<UnitOfMeasure>) -> (r: (u64, u64))
    ensures
        r.0 as int == factor_of(*u).0,
        r.1 as int == factor_of(*u).1,
        0 < r.0 <= FACTOR_BOUND,
        0 < r.1 <= FACTOR_BOUND,
{
    match u {
        Some(u) => {
            proof {
                lemma_factor_bounds(u.spec_kind());
            }
            u.factor()
        },
        None => (1, 1),
    }
}

impl Dimension {
    /// The covering direction of this dimension; binary dimensions have none.
    pub fn subset(&self) -> (r: Option<SubsetRelationship>)
        ensures
            r == subset_spec(*self),
    {
        match self {
            Dimension::Binary { .. } => None,
            Dimension::Categorical { subset, .. } => Some(*subset),
            Dimension::Numeric { subset, .. } => Some(*subset),
        }
    }

    /// Whether this dimension is a subset of `other`; numeric ranges are
    /// compared after conversion to the base unit of their quantity.
    pub fn subset_of(&self, other: &Dimension) -> (r: SubsetResult)
        ensures
            r == subset_of_spec(*self, *other),
    {
        match (self, other) {
            (Dimension::Binary { property_type: t }, Dimension::Binary { property_type: o }) => {
                if *t == *o {
                    SubsetResult::True
                } else {
                    SubsetResult::Incompatible
                }
            },
            (
                Dimension::Categorical { property_type: t, covered: c, .. },
                Dimension::Categorical { property_type: o, covered: oc, .. },
            ) => {
                if !(*t == *o) {
                    return SubsetResult::Incompatible;
                }
                let mut i: usize = 0;
                while i < c.len()
                    invariant
                        i <= c.len(),
                        forall|k: int| 0 <= k < i ==> categories(oc@).contains(#[trigger] c@[k]@),
                        subset_of_spec(*self, *other) == (if categories(c@).subset_of(
                            categories(oc@),
                        ) {
                            SubsetResult::True
                        } else {
                            SubsetResult::False
                        }),
                    decreases c.len() - i,
                {
                    if !contains_string(oc, &c[i]) {
                        proof {
                            assert(categories(c@).contains(c@[i as int]@)) by {
                                assert(names(c@)[i as int] == c@[i as int]@);
                                assert(names(c@).contains(c@[i as int]@));
                            }
                            assert(!categories(c@).subset_of(categories(oc@)));
                        }
                        return SubsetResult::False;
                    }
                    i = i + 1;
                }
                proof {
                    assert forall|s: Seq<char>| categories(c@).contains(s) implies categories(
                        oc@,
                    ).contains(s) by {
                        let k = choose|k: int|
                            0 <= k < c@.len() && #[trigger] names(c@)[k] == s;
                        assert(c@[k]@ == s);
                    }
                }
                SubsetResult::True
            },
            (
                Dimension::Numeric { property_type: t, covered: c, uom: u, .. },
                Dimension::Numeric { property_type: o, covered: oc, uom: ou, .. },
            ) => {
                if !(*t == *o) {
                    return SubsetResult::Incompatible;
                }
                match Dimension::compatible(u, ou) {
                    Ok(true) => {},
                    _ => {
                        return SubsetResult::Incompatible;
                    },
                }
                let f = unit_factor(u);
                let fo = unit_factor(ou);
                let ghost sf = factor_of(*u);
                let ghost sfo = factor_of(*ou);
                let mut i: usize = 0;
                while i < c.len()
                    invariant
                        i <= c.len(),
                        subset_of_spec(*self, *other) == (if ranges_within(c@, sf, oc@, sfo) {
                            SubsetResult::True
                        } else {
                            SubsetResult::False
                        }),
                        f.0 as int == sf.0,
                        f.1 as int == sf.1,
                        fo.0 as int == sfo.0,
                        fo.1 as int == sfo.1,
                        0 < f.0 <= FACTOR_BOUND,
                        0 < f.1 <= FACTOR_BOUND,
                        0 < fo.0 <= FACTOR_BOUND,
                        0 < fo.1 <= FACTOR_BOUND,
                        forall|k: int| 0 <= k < i ==> #[trigger] range_covered(c@[k], sf, oc@, sfo),
                    decreases c.len() - i,
                {
                    let mut found = false;
                    let mut j: usize = 0;
                    while j < oc.len()
                        invariant
                            i < c.len(),
                            j <= oc.len(),
                            f.0 as int == sf.0,
                            f.1 as int == sf.1,
                            fo.0 as int == sfo.0,
                            fo.1 as int == sfo.1,
                            0 < f.0 <= FACTOR_BOUND,
                            0 < f.1 <= FACTOR_BOUND,
                            0 < fo.0 <= FACTOR_BOUND,
                            0 < fo.1 <= FACTOR_BOUND,
                            found == exists|k: int|
                                0 <= k < j && #[trigger] c@[i as int].within(sf, oc@[k], sfo),
                        decreases oc.len() - j,
                    {
                        if c[i].included_in_scaled(f, &oc[j], fo) {
                            found = true;
                        }
                        j = j + 1;
                    }
                    if !found {
                        proof {
                            assert(!range_covered(c@[i as int], sf, oc@, sfo));
                            assert(!ranges_within(c@, sf, oc@, sfo));
                        }
                        return SubsetResult::False;
                    }
                    i = i + 1;
                }
                SubsetResult::True
            },
            _ => SubsetResult::Incompatible,
        }
    }

    /// Whether two optional units can be compared; a missing unit on one
    /// side only is an error, as are units of different quantities.
    pub fn compatible(uom: &Option<UnitOfMeasure>, o_uom: &Option<UnitOfMeasure>) -> (r: Result<
        bool,
        UnitOfMeasureError,
    >)
        ensures
            units_compatible(*uom, *o_uom) ==> r == Ok::<bool, UnitOfMeasureError>(true),
            !units_compatible(*uom, *o_uom) ==> r == Err::<bool, UnitOfMeasureError>(
                UnitOfMeasureError::Incompatible,
            ),
    {
        match (uom, o_uom) {
            (None, None) => Ok(true),
            (Some(u), Some(o)) => u.compatible(o),
            _ => Err(UnitOfMeasureError::Incompatible),
        }
    }
}

} // verus!

verus! {

impl Dimension {
    /// A well-formed dimension covers something: its list of categories or
    /// of ranges is non-empty, and each range has `lo <= hi`.
    pub open spec fn wf(self) -> bool {
        match self {
            Dimension::Binary { .. } => true,
            Dimension::Categorical { covered, .. } => covered@.len() > 0,
            Dimension::Numeric { covered, .. } => {
                &&& covered@.len() > 0
                &&& forall|i: int| 0 <= i < covered@.len() ==> #[trigger] covered@[i].lo() <= covered@[i].hi()
            },
        }
    }

    /// A categorical dimension; an empty list of categories is rejected.
    pub fn categorical(property_type: String, covered: Vec<String>, subset: SubsetRelationship) -> (r:
        Result<Dimension, ParsingError>)
        ensures
            covered@.len() == 0 ==> r == Err::<Dimension, ParsingError>(ParsingError::EmptyCovered),
            covered@.len() > 0 ==> r == Ok::<Dimension, ParsingError>(
                Dimension::Categorical { property_type, covered, subset },
            ),
    {
        if covered.len() == 0 {
            Err(ParsingError::EmptyCovered)
        } else {
            Ok(Dimension::Categorical { property_type, covered, subset })
        }
    }

    /// A numeric dimension; an empty list of ranges, or a range whose lower
    /// bound exceeds its upper bound, is rejected.
    pub fn numeric(
        property_type: String,
        covered: Vec<NumericRange>,
        subset: SubsetRelationship,
        uom: Option<UnitOfMeasure>,
    ) -> (r: Result<Dimension, ParsingError>)
        ensures
            r is Ok <==> (covered@.len() > 0 && forall|i: int|
                0 <= i < covered@.len() ==> #[trigger] covered@[i].lo() <= covered@[i].hi()),
            covered@.len() == 0 ==> r == Err::<Dimension, ParsingError>(ParsingError::EmptyCovered),
            covered@.len() > 0 && r is Err ==> r == Err::<Dimension, ParsingError>(
                ParsingError::InvalidRange,
            ),
            r is Ok ==> r == Ok::<Dimension, ParsingError>(
                Dimension::Numeric { property_type, covered, subset, uom },
            ),
    {
        if covered.len() == 0 {
            return Err(ParsingError::EmptyCovered);
        }
        let mut i: usize = 0;
        while i < covered.len()
            invariant
                i <= covered.len(),
                forall|k: int| 0 <= k < i ==> #[trigger] covered@[k].lo() <= covered@[k].hi(),
            decreases covered.len() - i,
        {
            let ok = match covered[i] {
                NumericRange::Exclusive(lo, hi) => lo <= hi,
                NumericRange::Inclusive(lo, hi) => lo <= hi,
            };
            if !ok {
                proof {
                    assert(!(covered@[i as int].lo() <= covered@[i as int].hi()));
                }
                return Err(ParsingError::InvalidRange);
            }
            i = i + 1;
        }
        Ok(Dimension::Numeric { property_type, covered, subset, uom })
    }
}

proof fn lemma_mul_pos(a: int, b: int, c: int)
    requires
        c > 0,
    ensures
        (a <= b) == (a * c <= b * c),
        (a < b) == (a * c < b * c),
{
    assert((a <= b) == (a * c <= b * c)) by (nonlinear_arith)
        requires
            c > 0,
    ;
    assert((a < b) == (a * c < b * c)) by (nonlinear_arith)
        requires
            c > 0,
    ;
}

proof fn lemma_swap(p: int, a: int, b: int)
    ensures
        p * a * b == p * b * a,
{
    assert(p * a * b == p * b * a) by (nonlinear_arith);
}

/// Comparisons in the base unit chain like comparisons of numbers.
pub proof fn lemma_scaled_trans(x: int, fx: Factor, y: int, fy: Factor, z: int, fz: Factor)
    requires
        positive_factor(fx),
        positive_factor(fy),
        positive_factor(fz),
    ensures
        scaled_le(x, fx, y, fy) && scaled_le(y, fy, z, fz) ==> scaled_le(x, fx, z, fz),
        scaled_lt(x, fx, y, fy) && scaled_le(y, fy, z, fz) ==> scaled_lt(x, fx, z, fz),
        scaled_le(x, fx, y, fy) && scaled_lt(y, fy, z, fz) ==> scaled_lt(x, fx, z, fz),
{
    let p = x * fx.0;
    let q = y * fy.0;
    let r = z * fz.0;
    lemma_mul_pos(p * fy.1, q * fx.1, fz.1);
    lemma_mul_pos(q * fz.1, r * fy.1, fx.1);
    lemma_mul_pos(p * fz.1, r * fx.1, fy.1);
    lemma_swap(p, fy.1, fz.1);
    lemma_swap(q, fx.1, fz.1);
    lemma_swap(r, fy.1, fx.1);
}

/// In one unit, comparisons in the base unit are comparisons of the values.
pub proof fn lemma_scaled_same(x: int, y: int, f: Factor)
    requires
        positive_factor(f),
    ensures
        scaled_le(x, f, y, f) == (x <= y),
        scaled_lt(x, f, y, f) == (x < y),
{
    lemma_mul_pos(x, y, f.0);
    lemma_mul_pos(x * f.0, y * f.0, f.1);
}

/// Containment of ranges across units is transitive.
pub proof fn lemma_within_trans(
    a: NumericRange,
    fa: Factor,
    b: NumericRange,
    fb: Factor,
    c: NumericRange,
    fc: Factor,
)
    requires
        positive_factor(fa),
        positive_factor(fb),
        positive_factor(fc),
        a.within(fa, b, fb),
        b.within(fb, c, fc),
    ensures
        a.within(fa, c, fc),
{
    if !a.is_empty() {
        lemma_scaled_same(a.lo(), a.hi(), fa);
        lemma_scaled_same(b.lo(), b.hi(), fb);
        lemma_scaled_trans(b.lo(), fb, a.lo(), fa, a.hi(), fa);
        lemma_scaled_trans(b.lo(), fb, a.hi(), fa, b.hi(), fb);
        lemma_scaled_trans(c.lo(), fc, b.lo(), fb, a.lo(), fa);
        lemma_scaled_trans(a.hi(), fa, b.hi(), fb, c.hi(), fc);
    }
}

proof fn lemma_factor_positive(u: Option<UnitOfMeasure>)
    ensures
        positive_factor(factor_of(u)),
{
    if let Some(u) = u {
        lemma_factor_bounds(u.spec_kind());
    }
}

/// Reflexivity and transitivity of `subset_of` on numeric dimensions: a
/// numeric dimension is a subset of itself, and when `a` is a subset of `b`
/// and `b` of `c`, `a` is a subset of `c`.
pub proof fn lemma_numeric_subset_preorder(a: Dimension, b: Dimension, c: Dimension)
    requires
        a is Numeric,
        b is Numeric,
        c is Numeric,
    ensures
        units_compatible(a->Numeric_uom, a->Numeric_uom) ==> subset_of_spec(a, a)
            == SubsetResult::True,
        subset_of_spec(a, b) == SubsetResult::True && subset_of_spec(b, c) == SubsetResult::True
            ==> subset_of_spec(a, c) == SubsetResult::True,
{
    let ca = a->Numeric_covered@;
    let cb = b->Numeric_covered@;
    let cc = c->Numeric_covered@;
    let fa = factor_of(a->Numeric_uom);
    let fb = factor_of(b->Numeric_uom);
    let fc = factor_of(c->Numeric_uom);
    lemma_factor_positive(a->Numeric_uom);
    lemma_factor_positive(b->Numeric_uom);
    lemma_factor_positive(c->Numeric_uom);
    assert forall|i: int| 0 <= i < ca.len() implies #[trigger] range_covered(ca[i], fa, ca, fa) by {
        lemma_scaled_same(ca[i].lo(), ca[i].lo(), fa);
        lemma_scaled_same(ca[i].hi(), ca[i].hi(), fa);
        assert(ca[i].within(fa, ca[i], fa));
    }
    if subset_of_spec(a, b) == SubsetResult::True && subset_of_spec(b, c) == SubsetResult::True {
        assert forall|i: int| 0 <= i < ca.len() implies #[trigger] range_covered(
            ca[i],
            fa,
            cc,
            fc,
        ) by {
            assert(range_covered(ca[i], fa, cb, fb));
            let j = choose|j: int| 0 <= j < cb.len() && #[trigger] ca[i].within(fa, cb[j], fb);
            assert(range_covered(cb[j], fb, cc, fc));
            let k = choose|k: int| 0 <= k < cc.len() && #[trigger] cb[j].within(fb, cc[k], fc);
            lemma_within_trans(ca[i], fa, cb[j], fb, cc[k], fc);
        }
    }
}

/// For categorical dimensions of the same type, `subset_of` is `True`
/// exactly when the categories covered by the first are all covered by the
/// second.
pub proof fn lemma_categorical_subset(a: Dimension, b: Dimension)
    requires
        a is Categorical,
        b is Categorical,
        a->Categorical_property_type@ == b->Categorical_property_type@,
    ensures
        (subset_of_spec(a, b) == SubsetResult::True) <==> categories(
            a->Categorical_covered@,
        ).subset_of(categories(b->Categorical_covered@)),
{
}

/// Two lists of ranges denote the same intervals once converted to the base
/// unit: same length, same kind of range at each place, equal bounds.
pub open spec fn ranges_equivalent(c: Seq<NumericRange>, f: Factor, o: Seq<NumericRange>, fo: Factor) -> bool {
    &&& c.len() == o.len()
    &&& forall|i: int|
        0 <= i < c.len() ==> {
            &&& (#[trigger] c[i] is Inclusive) == (o[i] is Inclusive)
            &&& scaled_le(c[i].lo(), f, o[i].lo(), fo) && scaled_le(o[i].lo(), fo, c[i].lo(), f)
            &&& scaled_le(c[i].hi(), f, o[i].hi(), fo) && scaled_le(o[i].hi(), fo, c[i].hi(), f)
        }
}

/// Numeric dimensions of the same type, in compatible units, whose ranges
/// are the same once converted (a range in millimeters and the range with
/// bounds a thousand times smaller in meters) are subsets of each other.
pub proof fn lemma_unit_normalization(a: Dimension, b: Dimension)
    requires
        a is Numeric,
        b is Numeric,
        a->Numeric_property_type@ == b->Numeric_property_type@,
        units_compatible(a->Numeric_uom, b->Numeric_uom),
        ranges_equivalent(
            a->Numeric_covered@,
            factor_of(a->Numeric_uom),
            b->Numeric_covered@,
            factor_of(b->Numeric_uom),
        ),
    ensures
        subset_of_spec(a, b) == SubsetResult::True,
        subset_of_spec(b, a) == SubsetResult::True,
{
    let ca = a->Numeric_covered@;
    let cb = b->Numeric_covered@;
    let fa = factor_of(a->Numeric_uom);
    let fb = factor_of(b->Numeric_uom);
    assert forall|i: int| 0 <= i < ca.len() implies #[trigger] range_covered(ca[i], fa, cb, fb) by {
        assert(ca[i].within(fa, cb[i], fb));
    }
    assert forall|i: int| 0 <= i < cb.len() implies #[trigger] range_covered(cb[i], fb, ca, fa) by {
        assert(cb[i].within(fb, ca[i], fa));
    }
}

} // verus!

verus! {

/// Adding a string to a list adds its text to the categories of the list.
pub proof fn lemma_categories_push(prev: Seq<String>, s: String)
    ensures
        categories(prev.push(s)) == categories(prev).insert(s@),
{
    let next = prev.push(s);
    assert(names(next) =~= names(prev).push(s@));
    assert forall|x: Seq<char>| categories(next).contains(x) == categories(prev).insert(
        s@,
    ).contains(x) by {
        if names(prev).contains(x) {
            let k = choose|k: int| 0 <= k < names(prev).len() && names(prev)[k] == x;
            assert(names(next)[k] == x);
        }
        if x == s@ {
            assert(names(next)[prev.len() as int] == x);
        }
        if names(next).contains(x) {
            let k = choose|k: int| 0 <= k < names(next).len() && names(next)[k] == x;
            if k < prev.len() {
                assert(names(prev)[k] == x);
            }
        }
    }
    assert(categories(next) =~= categories(prev).insert(s@));
}


/// A dimension as values: its lists as sequences.
pub enum DimensionView {
    Binary(Seq<char>),
    Categorical(Seq<char>, Seq<String>, SubsetRelationship),
    Numeric(Seq<char>, Seq<NumericRange>, SubsetRelationship, Option<UnitOfMeasure>),
}

pub open spec fn dimension_view(d: Dimension) -> DimensionView {
    match d {
        Dimension::Binary { property_type } => DimensionView::Binary(property_type@),
        Dimension::Categorical { property_type, covered, subset } => DimensionView::Categorical(
            property_type@,
            covered@,
            subset,
        ),
        Dimension::Numeric { property_type, covered, subset, uom } => DimensionView::Numeric(
            property_type@,
            covered@,
            subset,
            uom,
        ),
    }
}

pub open spec fn dimension_views(s: Seq<Dimension>) -> Seq<DimensionView> {
    s.map_values(|d: Dimension| dimension_view(d))
}

/// A copy of a list of strings.
pub fn copy_strings(v: &Vec<String>) -> (r: Vec<String>)
    ensures
        r@ == v@,
{
    let mut r: Vec<String> = Vec::new();
    let mut i: usize = 0;
    while i < v.len()
        invariant
            i <= v@.len(),
            r@ == v@.subrange(0, i as int),
        decreases v@.len() - i,
    {
        r.push(v[i].clone());
        assert(r@ =~= v@.subrange(0, i as int + 1));
        i = i + 1;
    }
    assert(v@.subrange(0, v@.len() as int) =~= v@);
    r
}

fn copy_ranges(v: &Vec<NumericRange>) -> (r: Vec<NumericRange>)
    ensures
        r@ == v@,
{
    let mut r: Vec<NumericRange> = Vec::new();
    let mut i: usize = 0;
    while i < v.len()
        invariant
            i <= v@.len(),
            r@ == v@.subrange(0, i as int),
        decreases v@.len() - i,
    {
        r.push(v[i]);
        assert(r@ =~= v@.subrange(0, i as int + 1));
        i = i + 1;
    }
    assert(v@.subrange(0, v@.len() as int) =~= v@);
    r
}

impl Dimension {
    /// A copy of this dimension.
    pub fn copy(&self) -> (r: Dimension)
        ensures
            dimension_view(r) == dimension_view(*self),
    {
        match self {
            Dimension::Binary { property_type } => Dimension::Binary {
                property_type: property_type.clone(),
            },
            Dimension::Categorical { property_type, covered, subset } => Dimension::Categorical {
                property_type: property_type.clone(),
                covered: copy_strings(covered),
                subset: *subset,
            },
            Dimension::Numeric { property_type, covered, subset, uom } => Dimension::Numeric {
                property_type: property_type.clone(),
                covered: copy_ranges(covered),
                subset: *subset,
                uom: match uom {
                    Some(u) => Some(u.copy()),
                    None => None,
                },
            },
        }
    }
}

/// A copy of a list of dimensions.
pub fn copy_dimensions(v: &Vec<Dimension>) -> (r: Vec<Dimension>)
    ensures
        dimension_views(r@) == dimension_views(v@),
{
    let mut r: Vec<Dimension> = Vec::new();
    let mut i: usize = 0;
    while i < v.len()
        invariant
            i <= v@.len(),
            dimension_views(r@) == dimension_views(v@.subrange(0, i as int)),
        decreases v@.len() - i,
    {
        let ghost prev = r@;
        let d = v[i].copy();
        r.push(d);
        assert(dimension_views(r@) =~= dimension_views(prev).push(dimension_view(d)));
        assert(v@.subrange(0, i as int + 1) =~= v@.subrange(0, i as int).push(v@[i as int]));
        assert(dimension_views(v@.subrange(0, i as int + 1)) =~= dimension_views(
            v@.subrange(0, i as int),
        ).push(dimension_view(v@[i as int])));
        i = i + 1;
    }
    assert(v@.subrange(0, v@.len() as int) =~= v@);
    r
}

} // verus!
