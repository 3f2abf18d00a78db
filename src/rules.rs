//! The rule table: for every ordered pair of particle types, how strongly and
//! how far the source type pulls on (or pushes away) the target type.
use crate::draw::{draw, drawn_from};
use crate::fixed::{MAX_RADIUS, MAX_STRENGTH};
use crate::kinds::{type_index, ParticleType, NUM_TYPES};
use vstd::prelude::*;

verus! {

/// Number of entries of a rule table: one per ordered pair of types.
pub const NUM_RULES: usize = 16;

/// The force one type exerts on another: positive strength attracts, negative
/// strength repels, and only particles closer than `radius` interact. Both in
/// fixed-point units.
#[derive(Clone, Copy, Debug, PartialEq, Eq, Structural)]
pub struct RuleEntry {
    pub strength: i64,
    pub radius: i64,
}

#[derive(Clone, Copy, Debug, PartialEq, Eq, Structural)]
pub enum RuleError {
    /// The table does not hold one entry per ordered pair of types.
    WrongSize,
    /// A strength, or the strength limit, lies outside `[-MAX_STRENGTH, MAX_STRENGTH]`.
    StrengthOutOfRange,
    /// A radius, or a radius bound, lies outside `[0, MAX_RADIUS]`, or the
    /// lower radius bound exceeds the upper one.
    RadiusOutOfRange,
}

pub open spec fn strength_ok(e: RuleEntry) -> bool {
    -MAX_STRENGTH <= e.strength <= MAX_STRENGTH
}

pub open spec fn radius_ok(e: RuleEntry) -> bool {
    0 <= e.radius <= MAX_RADIUS
}

pub open spec fn rule_ok(e: RuleEntry) -> bool {
    strength_ok(e) && radius_ok(e)
}

/// A complete table whose every entry is in range.
pub open spec fn table_ok(t: Seq<RuleEntry>) -> bool {
    &&& t.len() == NUM_RULES
    &&& forall|i: int| 0 <= i < t.len() ==> #[trigger] rule_ok(t[i])
}

/// Where the rule for `source` acting on `target` sits in a table.
pub open spec fn rule_slot(source: int, target: int) -> int {
    source * NUM_TYPES + target
}

/// The rule under which the group at `source` acts on the group at `target`.
pub open spec fn rule_at(t: Seq<RuleEntry>, source: int, target: int) -> RuleEntry {
    t[rule_slot(source, target)]
}

/// The error `RuleTable::from_entries` reports for a list of entries, if any.
pub open spec fn entries_error(t: Seq<RuleEntry>) -> Option<RuleError> {
    if t.len() != NUM_RULES {
        Some(RuleError::WrongSize)
    } else if exists|i: int| 0 <= i < t.len() && !#[trigger] strength_ok(t[i]) {
        Some(RuleError::StrengthOutOfRange)
    } else if exists|i: int| 0 <= i < t.len() && !#[trigger] radius_ok(t[i]) {
        Some(RuleError::RadiusOutOfRange)
    } else {
        None
    }
}

/// The error `RuleTable::randomise` reports for its bounds, if any.
pub open spec fn bounds_error(strength_limit: int, radius_lower: int, radius_upper: int) -> Option<
    RuleError,
> {
    if !(0 <= strength_limit <= MAX_STRENGTH) {
        Some(RuleError::StrengthOutOfRange)
    } else if !(0 <= radius_lower <= radius_upper <= MAX_RADIUS) {
        Some(RuleError::RadiusOutOfRange)
    } else {
        None
    }
}

/// A table whose entries are possible draws within the given bounds.
pub open spec fn drawn_within(
    t: Seq<RuleEntry>,
    strength_limit: int,
    radius_lower: int,
    radius_upper: int,
) -> bool {
    forall|i: int|
        0 <= i < t.len() ==> {
            &&& drawn_from(#[trigger] t[i].strength as int, -strength_limit, strength_limit)
            &&& drawn_from(t[i].radius as int, radius_lower, radius_upper)
        }
}

/// An immutable table of sixteen rules, one for each ordered pair of types.
#[derive(Debug)]
pub struct RuleTable {
    entries: Vec<RuleEntry>,
}

impl RuleTable {
    /// The entries, the rule for `source` acting on `target` at
    /// `rule_slot(source, target)`.
    pub closed spec fn view(&self) -> Seq<RuleEntry> {
        self.entries@
    }

    #[verifier::type_invariant]
    pub closed spec fn inv(&self) -> bool {
        table_ok(self.entries@)
    }

    /// Builds a table from its entries, listed source type by source type and,
    /// within one source, target type by target type.
    pub fn from_entries(entries: Vec<RuleEntry>) -> (r: Result<RuleTable, RuleError>)
        ensures
            match r {
                Ok(t) => entries_error(entries@) is None && table_ok(t.view()) && t.view() == entries@,
                Err(e) => entries_error(entries@) == Some(e),
            },
    {
        if entries.len() != NUM_RULES {
            return Err(RuleError::WrongSize);
        }
        let mut i: usize = 0;
        while i < entries.len()
            invariant
                i <= entries@.len(),
                entries@.len() == NUM_RULES,
                forall|j: int| 0 <= j < i ==> #[trigger] strength_ok(entries@[j]),
            decreases entries@.len() - i,
        {
            let s = entries[i].strength;
            if s < -MAX_STRENGTH || s > MAX_STRENGTH {
                assert(!strength_ok(entries@[i as int]));
                return Err(RuleError::StrengthOutOfRange);
            }
            i = i + 1;
        }
        let mut i: usize = 0;
        while i < entries.len()
            invariant
                i <= entries@.len(),
                entries@.len() == NUM_RULES,
                forall|j: int| 0 <= j < entries@.len() ==> #[trigger] strength_ok(entries@[j]),
                forall|j: int| 0 <= j < i ==> #[trigger] radius_ok(entries@[j]),
            decreases entries@.len() - i,
        {
            let d = entries[i].radius;
            if d < 0 || d > MAX_RADIUS {
                assert(!radius_ok(entries@[i as int]));
                return Err(RuleError::RadiusOutOfRange);
            }
            i = i + 1;
        }
        Ok(RuleTable { entries })
    }

    /// Draws every strength uniformly from `[-strength_limit, strength_limit)`
    /// and every radius from `[radius_lower, radius_upper)`, each entry on its
    /// own.
    pub fn randomise(strength_limit: i64, radius_lower: i64, radius_upper: i64) -> (r: Result<
        RuleTable,
        RuleError,
    >)
        ensures
            match r {
                Ok(t) => {
                    &&& bounds_error(
                        strength_limit as int,
                        radius_lower as int,
                        radius_upper as int,
                    ) is None
                    &&& table_ok(t.view())
                    &&& drawn_within(
                        t.view(),
                        strength_limit as int,
                        radius_lower as int,
                        radius_upper as int,
                    )
                },
                Err(e) => bounds_error(
                    strength_limit as int,
                    radius_lower as int,
                    radius_upper as int,
                ) == Some(e),
            },
    {
        if strength_limit < 0 || strength_limit > MAX_STRENGTH {
            return Err(RuleError::StrengthOutOfRange);
        }
        if radius_lower < 0 || radius_lower > radius_upper || radius_upper > MAX_RADIUS {
            return Err(RuleError::RadiusOutOfRange);
        }
        let mut entries: Vec<RuleEntry> = Vec::new();
        let mut i: usize = 0;
        while i < NUM_RULES
            invariant
                i <= NUM_RULES,
                entries@.len() == i,
                0 <= strength_limit <= MAX_STRENGTH,
                0 <= radius_lower <= radius_upper <= MAX_RADIUS,
                forall|j: int| 0 <= j < i ==> #[trigger] rule_ok(entries@[j]),
                drawn_within(entries@, strength_limit as int, radius_lower as int, radius_upper as int),
            decreases NUM_RULES - i,
        {
            let strength = draw(-strength_limit, strength_limit);
            let radius = draw(radius_lower, radius_upper);
            entries.push(RuleEntry { strength, radius });
            assert(rule_ok(entries@[i as int]));
            i = i + 1;
        }
        Ok(RuleTable { entries })
    }

    /// The rule under which particles of type `source` act on particles of
    /// type `target`.
    pub fn lookup(&self, source: ParticleType, target: ParticleType) -> (r: RuleEntry)
        ensures
            r == rule_at(self.view(), type_index(source), type_index(target)),
            rule_ok(r),
    {
        self.entry(source.index(), target.index())
    }

    /// The rule under which the group at `source` acts on the group at
    /// `target`.
    pub fn entry(&self, source: usize, target: usize) -> (r: RuleEntry)
        requires
            source < NUM_TYPES,
            target < NUM_TYPES,
        ensures
            r == rule_at(self.view(), source as int, target as int),
            rule_ok(r),
    {
        proof {
            use_type_invariant(self);
        }
        self.entries[source * NUM_TYPES + target]
    }
}

} // verus!
