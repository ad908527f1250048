//! The append pipeline: an event is validated in full before it is stored.

use crate::crypto::{
    ed25519_accepts, event_signing_preimage, verify_signature, Blake3Hash,
};
use crate::event::{compute_event_id, envelope_id, LedgerEvent, LedgerEventView};
use crate::hlc::HybridLogicalClock;
use crate::key::{KeyError, KeyVault};
use crate::store::{DagStore, StoreError};
use vstd::prelude::*;
use vstd::std_specs::convert::FromSpecImpl;

verus! {

/// Why an event was not appended.
#[derive(Debug)]
pub enum AppendError {
    /// The store failed.
    Store(StoreError),
    /// A parent is not in the store.
    ParentNotFound(Blake3Hash),
    /// The signature does not verify, or the author's key could not be had.
    InvalidSignature,
    /// The event's clock is not above a parent's.
    CausalityViolation(HybridLogicalClock),
    /// The id is not the id of the envelope.
    CryptoError,
}

impl From<StoreError> for AppendError {
    fn from(e: StoreError) -> (r: AppendError) {
        AppendError::Store(e)
    }
}

impl FromSpecImpl<StoreError> for AppendError {
    open spec fn obeys_from_spec() -> bool {
        true
    }

    open spec fn from_spec(e: StoreError) -> AppendError {
        AppendError::Store(e)
    }
}

/// What the store said of parent `i`: its clock, or nothing where it is not
/// there or was not asked for.
pub open spec fn parent_time(
    parent_times: Seq<Option<HybridLogicalClock>>,
    i: int,
) -> Option<HybridLogicalClock> {
    if 0 <= i < parent_times.len() {
        parent_times[i]
    } else {
        None
    }
}

/// The first parent from `from` on that the store does not have.
pub open spec fn first_missing(
    parent_times: Seq<Option<HybridLogicalClock>>,
    count: nat,
    from: nat,
) -> Option<nat>
    decreases count - from,
{
    if from >= count {
        None
    } else if parent_time(parent_times, from as int) is None {
        Some(from)
    } else {
        first_missing(parent_times, count, from + 1)
    }
}

/// Whether `clock` is above the clock of every parent from `from` on.
pub open spec fn above_parents(
    parent_times: Seq<Option<HybridLogicalClock>>,
    clock: HybridLogicalClock,
    count: nat,
    from: nat,
) -> bool
    decreases count - from,
{
    if from >= count {
        true
    } else {
        match parent_time(parent_times, from as int) {
            Some(parent) => parent.lt(clock) && above_parents(parent_times, clock, count, from + 1),
            None => false,
        }
    }
}

/// The verdict on an event, from what the store said of its parents and what
/// the identity fabric said of its author's key. The checks go in order and
/// the first failure wins: a missing parent; a clock not above a parent's; an
/// id that is not the envelope's; a key that could not be had or a signature
/// that does not verify under it.
pub open spec fn verdict(
    event: LedgerEventView,
    parent_times: Seq<Option<HybridLogicalClock>>,
    key: Result<[u8; 32], KeyError>,
) -> Result<(), AppendError> {
    let count = event.envelope.parents.len();
    let clock = event.envelope.logical_time;
    if let Some(i) = first_missing(parent_times, count, 0) {
        Err(AppendError::ParentNotFound(event.envelope.parents[i as int]))
    } else if !above_parents(parent_times, clock, count, 0) {
        Err(AppendError::CausalityViolation(clock))
    } else if event.event_id != envelope_id(event.envelope) {
        Err(AppendError::CryptoError)
    } else {
        match key {
            Ok(public) => if ed25519_accepts(
                public@,
                event_signing_preimage(event.event_id),
                event.signature,
            ) {
                Ok(())
            } else {
                Err(AppendError::InvalidSignature)
            },
            Err(_) => Err(AppendError::InvalidSignature),
        }
    }
}

/// Validates an event against what the store said of its parents, in their
/// order, and what the identity fabric said of its author's key. Nothing is
/// changed.
pub fn validate_event(
    event: &LedgerEvent,
    parent_times: &Vec<Option<HybridLogicalClock>>,
    key: &Result<[u8; 32], KeyError>,
) -> (res: Result<(), AppendError>)
    ensures
        res == verdict(event@, parent_times@, *key),
{
    let count: usize = event.envelope.parents.len();
    let clock = event.envelope.logical_time;
    let mut i: usize = 0;
    while i < count
        invariant
            i <= count,
            count == event.envelope.parents@.len(),
            first_missing(parent_times@, count as nat, 0) == first_missing(
                parent_times@,
                count as nat,
                i as nat,
            ),
        decreases count - i,
    {
        if i >= parent_times.len() || parent_times[i].is_none() {
            return Err(AppendError::ParentNotFound(event.envelope.parents[i]));
        }
        i += 1;
    }
    let mut j: usize = 0;
    while j < count
        invariant
            j <= count,
            count == event.envelope.parents@.len(),
            clock == event.envelope.logical_time,
            first_missing(parent_times@, count as nat, 0) is None,
            above_parents(parent_times@, clock, count as nat, 0) == above_parents(
                parent_times@,
                clock,
                count as nat,
                j as nat,
            ),
        decreases count - j,
    {
        let above = if j < parent_times.len() {
            match parent_times[j] {
                Some(parent) => parent.physical_ms < clock.physical_ms || (parent.physical_ms
                    == clock.physical_ms && parent.logical < clock.logical),
                None => false,
            }
        } else {
            false
        };
        assert(above_parents(parent_times@, clock, count as nat, j as nat) == (above
            && above_parents(parent_times@, clock, count as nat, (j + 1) as nat)));
        if !above {
            return Err(AppendError::CausalityViolation(clock));
        }
        j += 1;
    }
    match compute_event_id(&event.envelope) {
        Ok(id) => {
            if id != event.event_id {
                return Err(AppendError::CryptoError);
            }
        },
        Err(_) => {
            return Err(AppendError::CryptoError);
        },
    }
    match key {
        Ok(public) => match verify_signature(public, &event.event_id, &event.signature) {
            Ok(_) => Ok(()),
            Err(_) => Err(AppendError::InvalidSignature),
        },
        Err(_) => Err(AppendError::InvalidSignature),
    }
}

/// Every stored event is kept under its own id, its id is the id of its
/// envelope, its parents are stored too, and its clock is above theirs.
pub open spec fn well_linked(events: Map<Blake3Hash, LedgerEventView>) -> bool {
    forall|id: Blake3Hash| #[trigger]
        events.contains_key(id) ==> {
            &&& events[id].event_id == id
            &&& envelope_id(events[id].envelope) == id
            &&& forall|k: int|
                0 <= k < events[id].envelope.parents.len() ==> {
                    &&& events.contains_key(#[trigger] events[id].envelope.parents[k])
                    &&& events[events[id].envelope.parents[k]].envelope.logical_time.lt(
                        events[id].envelope.logical_time,
                    )
                }
        }
}

/// Every parent of the event is in the store.
pub open spec fn parents_present(
    events: Map<Blake3Hash, LedgerEventView>,
    event: LedgerEventView,
) -> bool {
    forall|k: int|
        0 <= k < event.envelope.parents.len() ==> events.contains_key(
            #[trigger] event.envelope.parents[k],
        )
}

/// The clock of the event is above the clock of each of its parents.
pub open spec fn parents_below(events: Map<Blake3Hash, LedgerEventView>, event: LedgerEventView) -> bool {
    forall|k: int|
        0 <= k < event.envelope.parents.len() ==> events[#[trigger] event.envelope.parents[k]].envelope.logical_time.lt(
            event.envelope.logical_time,
        )
}

/// Whether the store may take the event: its parents are there, its clock is
/// above theirs, and its id is the id of its envelope.
pub open spec fn admissible(events: Map<Blake3Hash, LedgerEventView>, event: LedgerEventView) -> bool {
    &&& parents_present(events, event)
    &&& parents_below(events, event)
    &&& envelope_id(event.envelope) == event.event_id
}

/// The signature of the event verifies under the key that the vault holds for
/// its author at its key version.
pub open spec fn signed_under(keys: Map<(Seq<char>, u64), [u8; 32]>, event: LedgerEventView) -> bool {
    let at = (event.envelope.author, event.envelope.key_version);
    keys.contains_key(at) && ed25519_accepts(
        keys[at]@,
        event_signing_preimage(event.event_id),
        event.signature,
    )
}

/// Every stored event is signed under the key of its author.
pub open spec fn well_signed(
    events: Map<Blake3Hash, LedgerEventView>,
    keys: Map<(Seq<char>, u64), [u8; 32]>,
) -> bool {
    forall|id: Blake3Hash| #[trigger] events.contains_key(id) ==> signed_under(keys, events[id])
}

/// A well-linked store stays well-linked when it takes an admissible event
/// under an id that is free or already holds that event.
pub proof fn lemma_insert_keeps_well_linked(
    events: Map<Blake3Hash, LedgerEventView>,
    event: LedgerEventView,
)
    requires
        well_linked(events),
        admissible(events, event),
        events.contains_key(event.event_id) ==> events[event.event_id] == event,
    ensures
        well_linked(events.insert(event.event_id, event)),
{
    let after = events.insert(event.event_id, event);
    assert forall|id: Blake3Hash| #[trigger] after.contains_key(id) implies {
        &&& after[id].event_id == id
        &&& envelope_id(after[id].envelope) == id
        &&& forall|k: int|
            0 <= k < after[id].envelope.parents.len() ==> {
                &&& after.contains_key(#[trigger] after[id].envelope.parents[k])
                &&& after[after[id].envelope.parents[k]].envelope.logical_time.lt(
                    after[id].envelope.logical_time,
                )
            }
    } by {
        if id != event.event_id {
            assert(events.contains_key(id));
        }
        assert forall|k: int| 0 <= k < after[id].envelope.parents.len() implies {
            &&& after.contains_key(#[trigger] after[id].envelope.parents[k])
            &&& after[after[id].envelope.parents[k]].envelope.logical_time.lt(
                after[id].envelope.logical_time,
            )
        } by {
            let parent = after[id].envelope.parents[k];
            if id != event.event_id {
                assert(events.contains_key(events[id].envelope.parents[k]));
            } else {
                assert(events.contains_key(event.envelope.parents[k]));
                assert(events[event.envelope.parents[k]].envelope.logical_time.lt(
                    event.envelope.logical_time,
                ));
            }
            assert(after[parent] == events[parent]);
        }
    }
}

/// Every parent up to `count` has its clock in the list, and the clock is the
/// one that the store holds for it.
spec fn lookups_done(
    events: Map<Blake3Hash, LedgerEventView>,
    parents: Seq<Blake3Hash>,
    parent_times: Seq<Option<HybridLogicalClock>>,
    count: int,
) -> bool {
    &&& parent_times.len() == count
    &&& forall|k: int|
        0 <= k < count ==> #[trigger] parent_times[k] == (if events.contains_key(parents[k]) {
            Some(events[parents[k]].envelope.logical_time)
        } else {
            None
        })
}

/// A verdict without complaint about the parents means that they are all
/// there with clocks below the event's.
proof fn lemma_parents_pass(
    events: Map<Blake3Hash, LedgerEventView>,
    event: LedgerEventView,
    parent_times: Seq<Option<HybridLogicalClock>>,
    from: nat,
)
    requires
        lookups_done(events, event.envelope.parents, parent_times, event.envelope.parents.len() as int),
        first_missing(parent_times, event.envelope.parents.len(), from) is None,
        above_parents(parent_times, event.envelope.logical_time, event.envelope.parents.len(), from),
    ensures
        forall|k: int|
            from <= k < event.envelope.parents.len() ==> {
                &&& events.contains_key(#[trigger] event.envelope.parents[k])
                &&& events[event.envelope.parents[k]].envelope.logical_time.lt(
                    event.envelope.logical_time,
                )
            },
    decreases event.envelope.parents.len() - from,
{
    if from < event.envelope.parents.len() {
        assert(parent_times[from as int] is Some);
        lemma_parents_pass(events, event, parent_times, from + 1);
    }
}

/// Where no parent is missing and a clock check fails, some parent's clock is
/// not below the event's.
proof fn lemma_parents_fail(
    events: Map<Blake3Hash, LedgerEventView>,
    event: LedgerEventView,
    parent_times: Seq<Option<HybridLogicalClock>>,
    from: nat,
)
    requires
        lookups_done(events, event.envelope.parents, parent_times, event.envelope.parents.len() as int),
        first_missing(parent_times, event.envelope.parents.len(), from) is None,
        !above_parents(parent_times, event.envelope.logical_time, event.envelope.parents.len(), from),
    ensures
        !parents_below(events, event),
        forall|k: int|
            from <= k < event.envelope.parents.len() ==> events.contains_key(
                #[trigger] event.envelope.parents[k],
            ),
    decreases event.envelope.parents.len() - from,
{
    if from < event.envelope.parents.len() {
        assert(parent_times[from as int] is Some);
        let parent = parent_times[from as int]->0;
        assert(events.contains_key(event.envelope.parents[from as int]));
        if parent.lt(event.envelope.logical_time) {
            lemma_parents_fail(events, event, parent_times, from + 1);
        } else {
            assert(!events[event.envelope.parents[from as int]].envelope.logical_time.lt(
                event.envelope.logical_time,
            ));
            lemma_all_present(events, event, parent_times, from);
        }
    }
}

/// Where no parent is missing, all are in the store.
proof fn lemma_all_present(
    events: Map<Blake3Hash, LedgerEventView>,
    event: LedgerEventView,
    parent_times: Seq<Option<HybridLogicalClock>>,
    from: nat,
)
    requires
        lookups_done(events, event.envelope.parents, parent_times, event.envelope.parents.len() as int),
        first_missing(parent_times, event.envelope.parents.len(), from) is None,
    ensures
        forall|k: int|
            from <= k < event.envelope.parents.len() ==> events.contains_key(
                #[trigger] event.envelope.parents[k],
            ),
    decreases event.envelope.parents.len() - from,
{
    if from < event.envelope.parents.len() {
        assert(parent_times[from as int] is Some);
        lemma_all_present(events, event, parent_times, from + 1);
    }
}

/// Parent `k` is the first that the store does not have: it is absent, and
/// every parent before it is there.
pub open spec fn is_first_absent(
    events: Map<Blake3Hash, LedgerEventView>,
    parents: Seq<Blake3Hash>,
    k: int,
) -> bool {
    &&& 0 <= k < parents.len()
    &&& !events.contains_key(parents[k])
    &&& forall|j: int| 0 <= j < k ==> events.contains_key(#[trigger] parents[j])
}

/// The first missing parent is a parent that the store does not have, and the
/// store has every parent between `from` and it.
proof fn lemma_first_missing(
    events: Map<Blake3Hash, LedgerEventView>,
    parents: Seq<Blake3Hash>,
    parent_times: Seq<Option<HybridLogicalClock>>,
    from: nat,
)
    requires
        lookups_done(events, parents, parent_times, parents.len() as int),
        first_missing(parent_times, parents.len(), from) is Some,
    ensures
        from <= first_missing(parent_times, parents.len(), from)->0 < parents.len(),
        !events.contains_key(parents[first_missing(parent_times, parents.len(), from)->0 as int]),
        forall|j: int|
            from <= j < first_missing(parent_times, parents.len(), from)->0
                ==> events.contains_key(#[trigger] parents[j]),
    decreases parents.len() - from,
{
    if from < parents.len() && parent_time(parent_times, from as int) is Some {
        assert(parent_times[from as int] is Some);
        assert(events.contains_key(parents[from as int]));
        lemma_first_missing(events, parents, parent_times, from + 1);
    } else if from < parents.len() {
        assert(parent_times[from as int] is None);
    }
}

/// What the pipeline makes of the store's reply to the question for a
/// parent: the parent's clock where it is there, nothing where the store does
/// not have it, and the store's own failure as it came.
pub fn parent_clock(reply: Result<LedgerEvent, StoreError>) -> (res: Result<
    Option<HybridLogicalClock>,
    AppendError,
>)
    ensures
        res == (match reply {
            Ok(parent) => Ok::<Option<HybridLogicalClock>, AppendError>(
                Some(parent.envelope.logical_time),
            ),
            Err(StoreError::EventNotFound(_)) => Ok(None),
            Err(StoreError::IoError(message)) => Err(
                AppendError::Store(StoreError::IoError(message)),
            ),
        }),
{
    match reply {
        Ok(parent) => Ok(Some(parent.envelope.logical_time)),
        Err(StoreError::EventNotFound(_)) => Ok(None),
        Err(StoreError::IoError(message)) => Err(AppendError::Store(StoreError::IoError(message))),
    }
}

/// Asks the store for the clock of each parent, in order, and stops at the
/// first that it does not have or cannot be asked about.
fn lookup_parents<S: DagStore>(store: &S, event: &LedgerEvent) -> (res: Result<
    Vec<Option<HybridLogicalClock>>,
    AppendError,
>)
    ensures
        match res {
            Ok(parent_times) => {
                &&& lookups_done(
                    store.events(),
                    event.envelope.parents@,
                    parent_times@,
                    event.envelope.parents@.len() as int,
                )
                &&& parents_present(store.events(), event@)
            },
            Err(AppendError::ParentNotFound(id)) => exists|k: int|
                is_first_absent(store.events(), event.envelope.parents@, k)
                    && event.envelope.parents@[k] == id,
            Err(AppendError::Store(e)) => e is IoError && event.envelope.parents@.len() > 0
                && !store.never_fails(),
            Err(_) => false,
        },
{
    let count: usize = event.envelope.parents.len();
    let mut parent_times: Vec<Option<HybridLogicalClock>> = Vec::with_capacity(count);
    let mut i: usize = 0;
    while i < count
        invariant
            i <= count,
            count == event.envelope.parents@.len(),
            lookups_done(store.events(), event.envelope.parents@, parent_times@, i as int),
            forall|j: int|
                0 <= j < i ==> store.events().contains_key(#[trigger] event.envelope.parents@[j]),
        decreases count - i,
    {
        match parent_clock(store.get_event(&event.envelope.parents[i])) {
            Ok(Some(clock)) => {
                parent_times.push(Some(clock));
            },
            Ok(None) => {
                assert(is_first_absent(store.events(), event.envelope.parents@, i as int));
                return Err(AppendError::ParentNotFound(event.envelope.parents[i]));
            },
            Err(e) => {
                return Err(e);
            },
        }
        i += 1;
    }
    Ok(parent_times)
}

/// What a verdict tells of the store that the parents were looked up in.
proof fn lemma_verdict_meaning(
    events: Map<Blake3Hash, LedgerEventView>,
    event: LedgerEventView,
    parent_times: Seq<Option<HybridLogicalClock>>,
    key: Result<[u8; 32], KeyError>,
)
    requires
        lookups_done(events, event.envelope.parents, parent_times, event.envelope.parents.len() as int),
    ensures
        turned_down_rightly(events, event, verdict(event, parent_times, key)),
        verdict(event, parent_times, key) is Ok ==> key is Ok && ed25519_accepts(
            key->Ok_0@,
            event_signing_preimage(event.event_id),
            event.signature,
        ),
        verdict(event, parent_times, key) matches Err(AppendError::InvalidSignature) ==> !(key is Ok
            && ed25519_accepts(
            key->Ok_0@,
            event_signing_preimage(event.event_id),
            event.signature,
        )),
{
    let count = event.envelope.parents.len();
    if first_missing(parent_times, count, 0) is Some {
        lemma_first_missing(events, event.envelope.parents, parent_times, 0);
        assert(is_first_absent(
            events,
            event.envelope.parents,
            first_missing(parent_times, count, 0)->0 as int,
        ));
    } else if above_parents(parent_times, event.envelope.logical_time, count, 0) {
        lemma_parents_pass(events, event, parent_times, 0);
        if event.event_id == envelope_id(event.envelope) {
            if let Ok(public) = key {
                if ed25519_accepts(public@, event_signing_preimage(event.event_id), event.signature) {
                    assert(admissible(events, event));
                }
            }
        }
    } else {
        lemma_parents_fail(events, event, parent_times, 0);
    }
}

/// Whether an outcome of the pipeline fits the store and the event: an event
/// goes in only where it is admissible, and each complaint names the first
/// check that failed. A missing parent is named by the first in the list that
/// the store does not have; of the store's own errors only a failure comes
/// through, never its answer that an event is not there.
pub open spec fn turned_down_rightly(
    events: Map<Blake3Hash, LedgerEventView>,
    event: LedgerEventView,
    outcome: Result<(), AppendError>,
) -> bool {
    match outcome {
        Ok(_) => admissible(events, event),
        Err(AppendError::ParentNotFound(id)) => exists|k: int|
            is_first_absent(events, event.envelope.parents, k) && event.envelope.parents[k] == id,
        Err(AppendError::CausalityViolation(clock)) => clock == event.envelope.logical_time
            && parents_present(events, event) && !parents_below(events, event),
        Err(AppendError::CryptoError) => parents_present(events, event) && parents_below(
            events,
            event,
        ) && event.event_id != envelope_id(event.envelope),
        Err(AppendError::InvalidSignature) => admissible(events, event),
        Err(AppendError::Store(e)) => e is IoError,
    }
}

/// The ruling on an event, from what the store and the vault hold. The checks
/// go in order and the first failure wins: a parent that the store does not
/// have, named by the first such in the list; a clock not above a parent's;
/// an id that is not the envelope's; a signature that does not verify under
/// the key that the vault holds for the author.
pub open spec fn ruling(
    events: Map<Blake3Hash, LedgerEventView>,
    keys: Map<(Seq<char>, u64), [u8; 32]>,
    event: LedgerEventView,
) -> Result<(), AppendError> {
    let parents = event.envelope.parents;
    if exists|k: int| is_first_absent(events, parents, k) {
        Err(AppendError::ParentNotFound(parents[choose|k: int| is_first_absent(events, parents, k)]))
    } else if !parents_below(events, event) {
        Err(AppendError::CausalityViolation(event.envelope.logical_time))
    } else if event.event_id != envelope_id(event.envelope) {
        Err(AppendError::CryptoError)
    } else if !signed_under(keys, event) {
        Err(AppendError::InvalidSignature)
    } else {
        Ok(())
    }
}

/// The store may take the event: the id is free, or holds this very event.
pub open spec fn id_is_free(events: Map<Blake3Hash, LedgerEventView>, event: LedgerEventView) -> bool {
    events.contains_key(event.event_id) ==> events[event.event_id] == event
}

/// There is one first absent parent at most.
proof fn lemma_first_absent_unique(
    events: Map<Blake3Hash, LedgerEventView>,
    parents: Seq<Blake3Hash>,
    a: int,
    b: int,
)
    requires
        is_first_absent(events, parents, a),
        is_first_absent(events, parents, b),
    ensures
        a == b,
{
    if a < b {
        assert(events.contains_key(parents[a]));
    }
    if b < a {
        assert(events.contains_key(parents[b]));
    }
}

/// An outcome that names the first failed check is the ruling, where the
/// store did not fail and the signature was judged under the vault's key.
proof fn lemma_outcome_is_ruling(
    events: Map<Blake3Hash, LedgerEventView>,
    keys: Map<(Seq<char>, u64), [u8; 32]>,
    event: LedgerEventView,
    outcome: Result<(), AppendError>,
)
    requires
        turned_down_rightly(events, event, outcome),
        !(outcome matches Err(AppendError::Store(_))),
        outcome is Ok ==> signed_under(keys, event),
        outcome matches Err(AppendError::InvalidSignature) ==> !signed_under(keys, event),
    ensures
        match outcome {
            Ok(_) => ruling(events, keys, event) is Ok,
            Err(e) => ruling(events, keys, event) == Err::<(), AppendError>(e),
        },
{
    let parents = event.envelope.parents;
    match outcome {
        Err(AppendError::ParentNotFound(id)) => {
            let k = choose|k: int| is_first_absent(events, parents, k) && parents[k] == id;
            let c = choose|k: int| is_first_absent(events, parents, k);
            lemma_first_absent_unique(events, parents, k, c);
        },
        _ => {
            assert(parents_present(events, event));
            assert forall|k: int| !is_first_absent(events, parents, k) by {
                if 0 <= k < parents.len() {
                    assert(events.contains_key(parents[k]));
                }
            }
        },
    }
}

/// Appends an event to the store after validating it in full: its parents
/// are looked up, its author's key is resolved, the verdict is taken, and only
/// an event that passes is handed to the store. The store is unchanged where
/// the event is turned down.
pub fn append_event<S: DagStore, V: KeyVault>(store: &mut S, vault: &V, event: LedgerEvent) -> (res:
    Result<(), AppendError>)
    ensures
        turned_down_rightly(old(store).events(), event@, res),
        match res {
            Ok(_) => {
                &&& signed_under(vault.keys(), event@)
                &&& final(store).events() == old(store).events().insert(event.event_id, event@)
            },
            Err(_) => final(store).events() == old(store).events(),
        },
        well_linked(old(store).events()) ==> well_linked(final(store).events()),
        well_signed(old(store).events(), vault.keys()) ==> well_signed(
            final(store).events(),
            vault.keys(),
        ),
        res matches Err(AppendError::Store(_)) ==> event@.envelope.parents.len() > 0 || (
        admissible(old(store).events(), event@) && signed_under(vault.keys(), event@)),
        old(store).never_fails() && vault.never_fails() ==> (match ruling(
            old(store).events(),
            vault.keys(),
            event@,
        ) {
            Err(e) => res == Err::<(), AppendError>(e),
            Ok(_) => res is Ok <==> id_is_free(old(store).events(), event@),
        }),
        final(store).never_fails() == old(store).never_fails(),
{
    let ghost events = store.events();
    let ghost keys = vault.keys();
    let parent_times = match lookup_parents(&*store, &event) {
        Ok(parent_times) => parent_times,
        Err(e) => {
            proof {
                if let AppendError::ParentNotFound(id) = e {
                    let k = choose|k: int|
                        is_first_absent(events, event.envelope.parents@, k)
                            && event.envelope.parents@[k] == id;
                    assert(is_first_absent(events, event@.envelope.parents, k));
                    lemma_outcome_is_ruling(events, keys, event@, Err(e));
                }
            }
            return Err(e);
        },
    };
    let key = vault.get_key(&event.envelope.author, event.envelope.key_version);
    let checked = validate_event(&event, &parent_times, &key);
    proof {
        lemma_verdict_meaning(events, event@, parent_times@, key);
        if old(store).never_fails() && vault.never_fails() {
            lemma_outcome_is_ruling(events, keys, event@, checked);
        }
    }
    match checked {
        Ok(_) => {},
        Err(e) => {
            return Err(e);
        },
    }
    let ghost offered = event@;
    match store.insert_event(event) {
        Ok(_) => {
            proof {
                if well_linked(events) {
                    lemma_insert_keeps_well_linked(events, offered);
                }
            }
            Ok(())
        },
        Err(e) => Err(AppendError::from(e)),
    }
}

/// Whether an event stands, from what the store said of its parents: each
/// parent was asked about and found, and the id is the id of the envelope.
pub open spec fn stands(event: LedgerEventView, found: Seq<bool>) -> bool {
    &&& found.len() == event.envelope.parents.len()
    &&& forall|k: int| 0 <= k < found.len() ==> #[trigger] found[k]
    &&& envelope_id(event.envelope) == event.event_id
}

/// Decides whether an event stands, from the store's answers to whether it
/// has each parent, in their order.
pub fn integrity_verdict(event: &LedgerEvent, found: &Vec<bool>) -> (intact: bool)
    ensures
        intact == stands(event@, found@),
{
    if found.len() != event.envelope.parents.len() {
        return false;
    }
    let mut i: usize = 0;
    while i < found.len()
        invariant
            i <= found@.len(),
            forall|k: int| 0 <= k < i ==> #[trigger] found@[k],
        decreases found@.len() - i,
    {
        if !found[i] {
            return false;
        }
        i += 1;
    }
    match compute_event_id(&event.envelope) {
        Ok(recomputed) => recomputed == event.event_id,
        Err(_) => false,
    }
}

/// Whether a stored event still stands: its parents are in the store and its
/// id is the id of its envelope. The parents are asked about in order, up to
/// the first that is not there.
pub fn verify_integrity<S: DagStore>(store: &S, event_id: &Blake3Hash) -> (res: Result<
    bool,
    AppendError,
>)
    ensures
        match res {
            Ok(intact) => {
                &&& store.events().contains_key(*event_id)
                &&& intact == {
                    let event = store.events()[*event_id];
                    &&& forall|k: int|
                        0 <= k < event.envelope.parents.len() ==> store.events().contains_key(
                            #[trigger] event.envelope.parents[k],
                        )
                    &&& envelope_id(event.envelope) == event.event_id
                }
            },
            Err(AppendError::Store(StoreError::EventNotFound(id))) => id == *event_id
                && !store.events().contains_key(*event_id),
            Err(AppendError::Store(StoreError::IoError(_))) => !store.never_fails(),
            Err(_) => false,
        },
{
    let event = match store.get_event(event_id) {
        Ok(event) => event,
        Err(e) => {
            return Err(AppendError::from(e));
        },
    };
    let count: usize = event.envelope.parents.len();
    let mut found: Vec<bool> = Vec::with_capacity(count);
    let mut i: usize = 0;
    let mut all_found = true;
    while i < count && all_found
        invariant
            i <= count,
            count == event.envelope.parents@.len(),
            found@.len() == i,
            store.events().contains_key(*event_id),
            event@ == store.events()[*event_id],
            forall|k: int|
                0 <= k < i ==> #[trigger] found@[k] == store.events().contains_key(
                    event.envelope.parents@[k],
                ),
            all_found <==> forall|k: int| 0 <= k < i ==> #[trigger] found@[k],
        decreases count - i,
    {
        match store.contains_event(&event.envelope.parents[i]) {
            Ok(there) => {
                let ghost before = found@;
                found.push(there);
                all_found = there;
                assert(found@[i as int] == there);
                assert(forall|k: int| 0 <= k < i ==> found@[k] == before[k]);
            },
            Err(e) => {
                return Err(AppendError::from(e));
            },
        }
        i += 1;
    }
    let intact = integrity_verdict(&event, &found);
    proof {
        let stored = store.events()[*event_id];
        if all_found {
            assert forall|k: int| 0 <= k < stored.envelope.parents.len() implies store.events().contains_key(
                #[trigger] stored.envelope.parents[k],
            ) by {
                assert(found@[k]);
            }
        } else {
            let k = choose|k: int| 0 <= k < i && !#[trigger] found@[k];
            assert(!store.events().contains_key(stored.envelope.parents[k]));
        }
    }
    Ok(intact)
}

} // verus!
