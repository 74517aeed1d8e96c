//! Stream priority levels.

use std::cmp::Ordering;

use vstd::prelude::*;
use vstd::std_specs::cmp::PartialOrdIs;

verus! {

/// Lowest level of the strict tier.
pub const STRICT_MIN: i8 = 64;

/// Scheduling credit per round for a strict stream.
pub const STRICT_QUANTUM: u32 = 65536;

/// Scheduling credit per round for a bulk stream that has just been added.
pub const BULK_QUANTUM: u32 = 8192;

/// Stream priority: a higher level is served before a lower one.
///
/// Levels from [`STRICT_MIN`] up are drained strictly before anything below
/// them; lower levels share what is left.
#[derive(Debug, Clone, Copy, PartialEq, Eq, Ord, Hash, Structural)]
pub struct Priority(pub i8);

/// Priorities are ordered by their levels.
impl PartialOrd for Priority {
    fn partial_cmp(&self, other: &Self) -> (r: Option<Ordering>) {
        if self.0 < other.0 {
            Some(Ordering::Less)
        } else if self.0 == other.0 {
            Some(Ordering::Equal)
        } else {
            Some(Ordering::Greater)
        }
    }
}

impl vstd::std_specs::cmp::PartialOrdSpecImpl for Priority {
    open spec fn obeys_partial_cmp_spec() -> bool {
        true
    }

    open spec fn partial_cmp_spec(&self, other: &Self) -> Option<Ordering> {
        if self.0 < other.0 {
            Some(Ordering::Less)
        } else if self.0 == other.0 {
            Some(Ordering::Equal)
        } else {
            Some(Ordering::Greater)
        }
    }
}

impl Priority {
    /// Whether a level belongs to the strict tier.
    pub open spec fn strict(self) -> bool {
        self.0 >= STRICT_MIN
    }

    /// The priority with the given level.
    pub fn from_i8(level: i8) -> (r: Self)
        ensures
            r == Priority(level),
    {
        Priority(level)
    }

    /// The level as a signed byte.
    pub fn as_i8(self) -> (r: i8)
        ensures
            r == self.0,
    {
        self.0
    }

    /// The lowest priority of the strict (command and control) tier.
    pub fn c2i_priority_min() -> (r: Self)
        ensures
            r == Priority(STRICT_MIN),
            r.strict(),
            forall|l: i8| #[trigger] Priority(l).strict() ==> r.0 <= l,
    {
        Priority(STRICT_MIN)
    }

    /// The lowest priority of the bulk tier.
    pub fn bulk_priority_min() -> (r: Self)
        ensures
            r == Priority(0),
            !r.strict(),
    {
        Priority(0)
    }

    /// Whether this priority is served strictly before all bulk streams.
    pub fn is_strict(self) -> (r: bool)
        ensures
            r == self.strict(),
    {
        self.0 >= STRICT_MIN
    }

    /// Credit per round of a stream of this priority when it is added.
    pub fn initial_quantum(self) -> (r: u32)
        ensures
            r == (if self.strict() { STRICT_QUANTUM } else { BULK_QUANTUM }),
    {
        if self.is_strict() {
            STRICT_QUANTUM
        } else {
            BULK_QUANTUM
        }
    }

    /// Credit per round of a bulk stream when it is added.
    pub fn bulk_quantum() -> (r: u32)
        ensures
            r == BULK_QUANTUM,
    {
        BULK_QUANTUM
    }
}

/// Every level gives a priority of its own, and priorities stand in the order of their
/// levels.
pub proof fn law_order_follows_the_level(v: i8, w: i8)
    ensures
        Priority(v).0 == v,
        Priority(v) == Priority(w) <==> v == w,
        Priority(v).is_lt(&Priority(w)) <==> v < w,
        Priority(v).is_le(&Priority(w)) <==> v <= w,
        Priority(v).is_gt(&Priority(w)) <==> v > w,
        Priority(v).is_ge(&Priority(w)) <==> v >= w,
{
}

/// The strict priorities are those from level sixty-four up, which is itself the least
/// of them.
pub proof fn law_strict_tier_has_a_least_priority(p: Priority)
    ensures
        STRICT_MIN == 64,
        Priority(STRICT_MIN).strict(),
        p.strict() <==> p.is_ge(&Priority(STRICT_MIN)),
{
}

} // verus!
