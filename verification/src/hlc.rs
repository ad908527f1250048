//! The hybrid logical clock that orders causally related events.

use core::cmp::Ordering;
use vstd::prelude::*;
use vstd::std_specs::cmp::PartialOrdSpecImpl;

verus! {

/// A hybrid logical clock reading: wall-clock milliseconds and a counter that
/// separates events of one millisecond. Readings are ordered by the pair.
#[derive(Clone, Copy, Debug, PartialEq, Eq, Structural, Ord)]
pub struct HybridLogicalClock {
    /// Physical timestamp in milliseconds.
    pub physical_ms: u64,
    /// Counter for events at the same physical time.
    pub logical: u32,
}

impl HybridLogicalClock {
    /// The order of readings: by milliseconds first, by counter second.
    pub open spec fn lt(self, other: HybridLogicalClock) -> bool {
        self.physical_ms < other.physical_ms || (self.physical_ms == other.physical_ms
            && self.logical < other.logical)
    }

    /// How two readings compare under the order of the pair.
    pub open spec fn compare(self, other: HybridLogicalClock) -> Ordering {
        if self.lt(other) {
            Ordering::Less
        } else if other.lt(self) {
            Ordering::Greater
        } else {
            Ordering::Equal
        }
    }
}

impl PartialOrd for HybridLogicalClock {
    fn partial_cmp(&self, other: &HybridLogicalClock) -> (r: Option<Ordering>) {
        if self.physical_ms < other.physical_ms {
            Some(Ordering::Less)
        } else if self.physical_ms > other.physical_ms {
            Some(Ordering::Greater)
        } else if self.logical < other.logical {
            Some(Ordering::Less)
        } else if self.logical > other.logical {
            Some(Ordering::Greater)
        } else {
            Some(Ordering::Equal)
        }
    }
}

impl PartialOrdSpecImpl for HybridLogicalClock {
    open spec fn obeys_partial_cmp_spec() -> bool {
        true
    }

    open spec fn partial_cmp_spec(&self, other: &HybridLogicalClock) -> Option<Ordering> {
        Some(self.compare(*other))
    }
}

/// The suggested bound on how far ahead of a node's clock an event may be: one
/// minute.
pub const SUGGESTED_MAX_SKEW_MS: u64 = 60_000;

impl HybridLogicalClock {
    /// Whether the reading is no more than `max_skew_ms` ahead of the node's
    /// clock.
    pub open spec fn within_skew(self, node_time: u64, max_skew_ms: u64) -> bool {
        self.physical_ms <= node_time + max_skew_ms
    }

    /// Whether the reading is no more than `max_skew_ms` ahead of the node's
    /// clock. A node that bounds the skew turns down events for which this
    /// does not hold; the bound is the node's to choose.
    pub fn is_within_skew(&self, node_time: u64, max_skew_ms: u64) -> (within: bool)
        ensures
            within == self.within_skew(node_time, max_skew_ms),
    {
        self.physical_ms <= node_time || self.physical_ms - node_time <= max_skew_ms
    }
}

/// The largest physical time among the parents, 0 where there is none.
pub open spec fn max_physical(parents: Seq<HybridLogicalClock>) -> u64
    decreases parents.len(),
{
    if parents.len() == 0 {
        0
    } else {
        let rest = max_physical(parents.drop_last());
        if parents.last().physical_ms > rest {
            parents.last().physical_ms
        } else {
            rest
        }
    }
}

/// The largest counter among the parents whose physical time is `physical`,
/// 0 where there is none.
pub open spec fn max_logical_at(parents: Seq<HybridLogicalClock>, physical: u64) -> u32
    decreases parents.len(),
{
    if parents.len() == 0 {
        0
    } else {
        let rest = max_logical_at(parents.drop_last(), physical);
        if parents.last().physical_ms == physical && parents.last().logical > rest {
            parents.last().logical
        } else {
            rest
        }
    }
}

/// The physical time of a new event: the later of the node's clock and the
/// parents' latest.
pub open spec fn merged_physical(node_time: u64, parents: Seq<HybridLogicalClock>) -> u64 {
    if node_time > max_physical(parents) {
        node_time
    } else {
        max_physical(parents)
    }
}

/// Whether the merge rule needs a counter beyond the largest one.
pub open spec fn merge_overflows(node_time: u64, parents: Seq<HybridLogicalClock>) -> bool {
    merged_physical(node_time, parents) == max_physical(parents) && max_logical_at(
        parents,
        max_physical(parents),
    ) == u32::MAX
}

/// The reading that the merge rule gives a new event.
pub open spec fn merged_clock(
    node_time: u64,
    parents: Seq<HybridLogicalClock>,
) -> HybridLogicalClock {
    let physical = merged_physical(node_time, parents);
    HybridLogicalClock {
        physical_ms: physical,
        logical: if physical == max_physical(parents) {
            (max_logical_at(parents, physical) + 1) as u32
        } else {
            0
        },
    }
}

/// Every parent is at or below the largest physical time, and those at a given
/// physical time are at or below the largest counter there.
pub proof fn lemma_maxima_bound(parents: Seq<HybridLogicalClock>, physical: u64, i: int)
    requires
        0 <= i < parents.len(),
    ensures
        parents[i].physical_ms <= max_physical(parents),
        parents[i].physical_ms == physical ==> parents[i].logical <= max_logical_at(
            parents,
            physical,
        ),
    decreases parents.len(),
{
    if i < parents.len() - 1 {
        lemma_maxima_bound(parents.drop_last(), physical, i);
    }
}

/// The merged reading is strictly above every parent's.
pub proof fn lemma_merged_clock_above_parents(
    node_time: u64,
    parents: Seq<HybridLogicalClock>,
    i: int,
)
    requires
        0 <= i < parents.len(),
        !merge_overflows(node_time, parents),
    ensures
        parents[i].lt(merged_clock(node_time, parents)),
{
    lemma_maxima_bound(parents, merged_physical(node_time, parents), i);
}

impl HybridLogicalClock {
    /// The reading of a new event, from the node's wall clock and the
    /// readings of its parents.
    pub fn new_event(node_time: u64, parent_times: &[HybridLogicalClock]) -> (clock:
        HybridLogicalClock)
        requires
            !merge_overflows(node_time, parent_times@),
        ensures
            clock == merged_clock(node_time, parent_times@),
            forall|i: int| 0 <= i < parent_times@.len() ==> (#[trigger] parent_times@[i]).lt(clock),
    {
        let mut max_parent_physical: u64 = 0;
        let mut i: usize = 0;
        while i < parent_times.len()
            invariant
                i <= parent_times@.len(),
                max_parent_physical == max_physical(parent_times@.take(i as int)),
            decreases parent_times@.len() - i,
        {
            assert(parent_times@.take(i + 1).drop_last() =~= parent_times@.take(i as int));
            if parent_times[i].physical_ms > max_parent_physical {
                max_parent_physical = parent_times[i].physical_ms;
            }
            i += 1;
        }
        assert(parent_times@.take(i as int) =~= parent_times@);
        let physical_ms: u64 = if node_time > max_parent_physical {
            node_time
        } else {
            max_parent_physical
        };
        let logical: u32 = if physical_ms == max_parent_physical {
            let mut max_logical: u32 = 0;
            let mut j: usize = 0;
            while j < parent_times.len()
                invariant
                    j <= parent_times@.len(),
                    max_logical == max_logical_at(parent_times@.take(j as int), physical_ms),
                decreases parent_times@.len() - j,
            {
                assert(parent_times@.take(j + 1).drop_last() =~= parent_times@.take(j as int));
                if parent_times[j].physical_ms == physical_ms && parent_times[j].logical
                    > max_logical {
                    max_logical = parent_times[j].logical;
                }
                j += 1;
            }
            assert(parent_times@.take(j as int) =~= parent_times@);
            max_logical + 1
        } else {
            0
        };
        let clock = HybridLogicalClock { physical_ms, logical };
        proof {
            assert forall|k: int| 0 <= k < parent_times@.len() implies (#[trigger] parent_times@[k]).lt(
                clock,
            ) by {
                lemma_merged_clock_above_parents(node_time, parent_times@, k);
            }
        }
        clock
    }
}

} // verus!
