//! The event store: events by their id, and the in-memory reference store.

use crate::crypto::Blake3Hash;
use crate::event::{LedgerEvent, LedgerEventView};
use vstd::prelude::*;

verus! {

/// Why a store could not answer.
#[derive(Debug)]
pub enum StoreError {
    /// No event has this id.
    EventNotFound(Blake3Hash),
    /// The store itself failed.
    IoError(String),
}

/// A store of events by their id. It validates nothing: what is offered is
/// kept. Inserting is idempotent, and an id keeps the event it first got.
pub trait DagStore {
    /// The events in the store, by id.
    spec fn events(&self) -> Map<Blake3Hash, LedgerEventView>;

    /// Whether the store never fails of its own: it answers every question,
    /// and turns an event down only where the id holds a different one. A
    /// store in memory is such a store; one on a disk or behind a network
    /// need not be.
    spec fn never_fails(&self) -> bool;

    /// The event with this id.
    fn get_event(&self, id: &Blake3Hash) -> (res: Result<LedgerEvent, StoreError>)
        ensures
            match res {
                Ok(event) => self.events().contains_key(*id) && event@ == self.events()[*id],
                Err(StoreError::EventNotFound(missing)) => missing == *id
                    && !self.events().contains_key(*id),
                Err(StoreError::IoError(_)) => !self.never_fails(),
            },
    ;

    /// Whether an event has this id.
    fn contains_event(&self, id: &Blake3Hash) -> (res: Result<bool, StoreError>)
        ensures
            match res {
                Ok(found) => found == self.events().contains_key(*id),
                Err(StoreError::EventNotFound(_)) => false,
                Err(StoreError::IoError(_)) => !self.never_fails(),
            },
    ;

    /// Keeps the event under its id. Nothing changes where the store fails, or
    /// where the id already holds a different event.
    fn insert_event(&mut self, event: LedgerEvent) -> (res: Result<(), StoreError>)
        ensures
            match res {
                Ok(_) => {
                    &&& old(self).events().contains_key(event.event_id) ==> old(self).events()[event.event_id]
                        == event@
                    &&& final(self).events() == old(self).events().insert(event.event_id, event@)
                },
                Err(StoreError::EventNotFound(_)) => false,
                Err(StoreError::IoError(_)) => final(self).events() == old(self).events(),
            },
            old(self).never_fails() ==> (res is Ok <==> (old(self).events().contains_key(
                event.event_id,
            ) ==> old(self).events()[event.event_id] == event@)),
            final(self).never_fails() == old(self).never_fails(),
    ;
}

/// No two of the events have one id.
pub open spec fn distinct_ids(events: Seq<LedgerEvent>) -> bool {
    forall|i: int, j: int|
        0 <= i < j < events.len() ==> (#[trigger] events[i]).event_id != (
        #[trigger] events[j]).event_id
}

/// The map that a sequence of events stands for.
pub open spec fn events_by_id(events: Seq<LedgerEvent>) -> Map<Blake3Hash, LedgerEventView> {
    Map::new(
        |id: Blake3Hash| exists|i: int| 0 <= i < events.len() && (#[trigger] events[i]).event_id == id,
        |id: Blake3Hash|
            events[choose|i: int| 0 <= i < events.len() && (#[trigger] events[i]).event_id == id]@,
    )
}

/// Among events of distinct ids the map gives each id its event.
pub proof fn lemma_event_at(events: Seq<LedgerEvent>, i: int)
    requires
        distinct_ids(events),
        0 <= i < events.len(),
    ensures
        events_by_id(events).contains_key(events[i].event_id),
        events_by_id(events)[events[i].event_id] == events[i]@,
{
    let id = events[i].event_id;
    let j = choose|j: int| 0 <= j < events.len() && (#[trigger] events[j]).event_id == id;
    assert(j == i);
}

/// One more event under a new id is one more pair of the map.
proof fn lemma_event_pushed(events: Seq<LedgerEvent>, event: LedgerEvent)
    requires
        distinct_ids(events),
        !events_by_id(events).contains_key(event.event_id),
    ensures
        distinct_ids(events.push(event)),
        events_by_id(events.push(event)) == events_by_id(events).insert(event.event_id, event@),
{
    let more = events.push(event);
    assert forall|i: int, j: int| 0 <= i < j < more.len() implies (#[trigger] more[i]).event_id != (
    #[trigger] more[j]).event_id by {
        if j == events.len() {
            assert(events[i].event_id != event.event_id);
        } else {
            assert(more[i] == events[i] && more[j] == events[j]);
        }
    }
    let m = events_by_id(events).insert(event.event_id, event@);
    let n = events_by_id(more);
    assert forall|id: Blake3Hash| n.contains_key(id) <==> m.contains_key(id) by {
        if n.contains_key(id) {
            let i = choose|i: int| 0 <= i < more.len() && (#[trigger] more[i]).event_id == id;
            if i < events.len() {
                assert(events[i].event_id == id);
            }
        }
        if m.contains_key(id) && id != event.event_id {
            let i = choose|i: int| 0 <= i < events.len() && (#[trigger] events[i]).event_id == id;
            assert(more[i].event_id == id);
        }
        if id == event.event_id {
            assert(more[events.len() as int].event_id == id);
        }
    }
    assert forall|id: Blake3Hash| n.contains_key(id) implies #[trigger] n[id] == m[id] by {
        let i = choose|i: int| 0 <= i < more.len() && (#[trigger] more[i]).event_id == id;
        lemma_event_at(more, i);
        if i < events.len() {
            assert(more[i] == events[i]);
            lemma_event_at(events, i);
        }
    }
    assert(n =~= m);
}

/// The reference store: events in memory, in the order they came.
#[derive(Debug)]
pub struct MemoryStore {
    events: Vec<LedgerEvent>,
}

impl Default for MemoryStore {
    fn default() -> (store: MemoryStore)
        ensures
            store.events() == Map::<Blake3Hash, LedgerEventView>::empty(),
    {
        MemoryStore::new()
    }
}

impl MemoryStore {
    #[verifier::type_invariant]
    spec fn ids_distinct(&self) -> bool {
        distinct_ids(self.events@)
    }

    /// The empty store.
    pub fn new() -> (store: MemoryStore)
        ensures
            store.events() == Map::<Blake3Hash, LedgerEventView>::empty(),
    {
        let store = MemoryStore { events: Vec::new() };
        assert(store.events() =~= Map::<Blake3Hash, LedgerEventView>::empty());
        store
    }

    /// The place of the event with this id.
    fn position(&self, id: &Blake3Hash) -> (place: Option<usize>)
        ensures
            match place {
                Some(i) => i < self.events@.len() && self.events@[i as int].event_id == *id,
                None => !self.events().contains_key(*id),
            },
    {
        let mut i: usize = 0;
        while i < self.events.len()
            invariant
                i <= self.events@.len(),
                forall|j: int| 0 <= j < i ==> (#[trigger] self.events@[j]).event_id != *id,
            decreases self.events@.len() - i,
        {
            if self.events[i].event_id == *id {
                return Some(i);
            }
            i += 1;
        }
        None
    }
}

impl DagStore for MemoryStore {
    closed spec fn events(&self) -> Map<Blake3Hash, LedgerEventView> {
        events_by_id(self.events@)
    }

    open spec fn never_fails(&self) -> bool {
        true
    }

    fn get_event(&self, id: &Blake3Hash) -> (res: Result<LedgerEvent, StoreError>)
        ensures
            res is Ok <==> self.events().contains_key(*id),
            res matches Err(e) ==> e == StoreError::EventNotFound(*id),
    {
        proof {
            use_type_invariant(self);
        }
        match self.position(id) {
            Some(i) => {
                proof {
                    lemma_event_at(self.events@, i as int);
                }
                Ok(self.events[i].duplicate())
            },
            None => Err(StoreError::EventNotFound(*id)),
        }
    }

    fn contains_event(&self, id: &Blake3Hash) -> (res: Result<bool, StoreError>)
        ensures
            res == Ok::<bool, StoreError>(self.events().contains_key(*id)),
    {
        proof {
            use_type_invariant(self);
        }
        match self.position(id) {
            Some(i) => {
                proof {
                    lemma_event_at(self.events@, i as int);
                }
                Ok(true)
            },
            None => Ok(false),
        }
    }

    fn insert_event(&mut self, event: LedgerEvent) -> (res: Result<(), StoreError>)
        ensures
            res is Ok <==> (old(self).events().contains_key(event.event_id) ==> old(
                self,
            ).events()[event.event_id] == event@),
            res matches Err(e) ==> e is IoError,
    {
        proof {
            use_type_invariant(&*self);
        }
        match self.position(&event.event_id) {
            Some(i) => {
                proof {
                    lemma_event_at(self.events@, i as int);
                }
                if self.events[i].same_as(&event) {
                    assert(self.events() =~= self.events().insert(event.event_id, event@));
                    Ok(())
                } else {
                    Err(StoreError::IoError("event id holds a different event".to_owned()))
                }
            },
            None => {
                let ghost before = self.events@;
                let mut taken = MemoryStore::new();
                core::mem::swap(self, &mut taken);
                let MemoryStore { events } = taken;
                let mut events = events;
                proof {
                    lemma_event_pushed(before, event);
                }
                events.push(event);
                *self = MemoryStore { events };
                Ok(())
            },
        }
    }
}

} // verus!
