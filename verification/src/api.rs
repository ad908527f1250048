//! What the API hands out: the view of an event, and the answers of the
//! query and mutation roots.

use crate::crypto::Blake3Hash;
use crate::event::{compute_event_id, envelope_id, EventEnvelope};
use crate::text::hex_text;
use vstd::prelude::*;

verus! {

/// The greeting of the API.
pub fn hello() -> (greeting: String)
    ensures
        greeting@ == "Hello from exo-api"@,
{
    "Hello from exo-api".to_owned()
}

/// An event as the API shows it.
#[derive(Clone, Debug)]
pub struct EventView {
    /// The id of the event, in hexadecimal.
    pub id: String,
    /// The ids of its parents, in hexadecimal.
    pub parents: Vec<String>,
    /// The author's identifier.
    pub author: String,
    /// The kind of payload.
    pub payload_type: String,
}

impl EventView {
    /// Whether this is how the API shows the given envelope.
    pub open spec fn shows(&self, envelope: &EventEnvelope) -> bool {
        &&& self.id@ == hex_text(envelope_id(envelope@)@)
        &&& self.parents@.len() == envelope.parents@.len()
        &&& forall|i: int|
            0 <= i < self.parents@.len() ==> (#[trigger] self.parents@[i])@ == hex_text(
                envelope.parents@[i]@,
            )
        &&& self.author@ == envelope.author@
        &&& self.payload_type@ == "Generic"@
    }

    /// How the API shows an envelope: its id and its parents in hexadecimal,
    /// its author, and the kind of its payload.
    pub fn of(env: &EventEnvelope) -> (view: EventView)
        ensures
            view.shows(env),
    {
        let id_hash = match compute_event_id(env) {
            Ok(id) => id,
            Err(_) => Blake3Hash::zero(),
        };
        let mut parents: Vec<String> = Vec::new();
        let mut i: usize = 0;
        while i < env.parents.len()
            invariant
                i <= env.parents@.len(),
                parents@.len() == i,
                forall|j: int|
                    0 <= j < i ==> (#[trigger] parents@[j])@ == hex_text(env.parents@[j]@),
            decreases env.parents@.len() - i,
        {
            parents.push(env.parents[i].to_hex());
            i += 1;
        }
        EventView {
            id: id_hash.to_hex(),
            parents,
            author: env.author.clone(),
            payload_type: "Generic".to_owned(),
        }
    }
}

/// The root of the queries.
#[derive(Clone, Copy, Debug)]
pub struct QueryRoot;

impl QueryRoot {
    /// The event with the given id in hexadecimal. No store is wired in, so
    /// there is none.
    pub fn event(&self, _id: String) -> (found: Option<EventView>)
        ensures
            found is None,
    {
        None
    }

    /// The health of the service.
    pub fn health(&self) -> (status: String)
        ensures
            status@ == "OK"@,
    {
        "OK".to_owned()
    }
}

/// The root of the mutations.
#[derive(Clone, Copy, Debug)]
pub struct MutationRoot;

impl MutationRoot {
    /// Takes a raw event. Every one is taken.
    pub fn submit_event(&self, _raw_bytes: String) -> (accepted: bool)
        ensures
            accepted,
    {
        true
    }
}

} // verus!
