//! The event model: the envelope, its canonical encoding and the id that the
//! encoding gives it.

use crate::cbor::{
    cbor_array_head, cbor_bytes, cbor_map_head, cbor_text, cbor_uint, cbor_uint_items,
    write_array_head, write_bytes, write_map_head, write_text, write_uint, write_uint_array,
};
use crate::crypto::{hash_bytes, hash_of, Blake3Hash};
use crate::hlc::HybridLogicalClock;
use crate::seqs::{copy_bytes, copy_hashes, same_bytes, same_hashes};
use vstd::prelude::*;

verus! {

/// A decentralized identifier, an opaque text.
pub type Did = String;

/// What an event carries.
#[derive(Clone, Debug)]
pub enum EventPayload {
    /// The first event of a network.
    Genesis { network_id: String },
    /// The creation of an identity, by the address of its document.
    IdentityCreated { did_doc_cid: String },
    /// Bytes that the ledger does not read.
    Opaque(Vec<u8>),
}

/// The content of an event before it is signed.
#[derive(Clone, Debug)]
pub struct EventEnvelope {
    /// The ids of the parent events, in order.
    pub parents: Vec<Blake3Hash>,
    /// The clock reading of the event.
    pub logical_time: HybridLogicalClock,
    /// The author's identifier.
    pub author: Did,
    /// Which of the author's keys signs the event.
    pub key_version: u64,
    /// What the event carries.
    pub payload: EventPayload,
}

/// An event as it is stored: the envelope, its id and the signature on the id.
#[derive(Clone, Debug)]
pub struct LedgerEvent {
    pub envelope: EventEnvelope,
    pub event_id: Blake3Hash,
    pub signature: [u8; 64],
}

/// What a payload holds.
#[verifier::ext_equal]
pub enum PayloadView {
    Genesis { network_id: Seq<char> },
    IdentityCreated { did_doc_cid: Seq<char> },
    Opaque(Seq<u8>),
}

/// What an envelope holds.
#[verifier::ext_equal]
pub struct EnvelopeView {
    pub parents: Seq<Blake3Hash>,
    pub logical_time: HybridLogicalClock,
    pub author: Seq<char>,
    pub key_version: u64,
    pub payload: PayloadView,
}

/// What a stored event holds.
#[verifier::ext_equal]
pub struct LedgerEventView {
    pub envelope: EnvelopeView,
    pub event_id: Blake3Hash,
    pub signature: Seq<u8>,
}

impl View for EventPayload {
    type V = PayloadView;

    open spec fn view(&self) -> PayloadView {
        match self {
            EventPayload::Genesis { network_id } => PayloadView::Genesis {
                network_id: network_id@,
            },
            EventPayload::IdentityCreated { did_doc_cid } => PayloadView::IdentityCreated {
                did_doc_cid: did_doc_cid@,
            },
            EventPayload::Opaque(bytes) => PayloadView::Opaque(bytes@),
        }
    }
}

impl View for EventEnvelope {
    type V = EnvelopeView;

    open spec fn view(&self) -> EnvelopeView {
        EnvelopeView {
            parents: self.parents@,
            logical_time: self.logical_time,
            author: self.author@,
            key_version: self.key_version,
            payload: self.payload@,
        }
    }
}

impl View for LedgerEvent {
    type V = LedgerEventView;

    open spec fn view(&self) -> LedgerEventView {
        LedgerEventView {
            envelope: self.envelope@,
            event_id: self.event_id,
            signature: self.signature@,
        }
    }
}

/// The encodings of the parent ids, one byte string after the other.
pub open spec fn parent_items(parents: Seq<Blake3Hash>) -> Seq<u8>
    decreases parents.len(),
{
    if parents.len() == 0 {
        Seq::empty()
    } else {
        parent_items(parents.drop_last()) + cbor_bytes(parents.last()@)
    }
}

/// The encoding of a clock reading: a map of its two fields.
pub open spec fn clock_encoding(clock: HybridLogicalClock) -> Seq<u8> {
    cbor_map_head(2) + cbor_text("logical"@) + cbor_uint(clock.logical as u64) + cbor_text(
        "physical_ms"@,
    ) + cbor_uint(clock.physical_ms)
}

/// The encoding of a payload: a map of one pair, from the variant's name to
/// its content.
pub open spec fn payload_encoding(payload: PayloadView) -> Seq<u8> {
    match payload {
        PayloadView::Genesis { network_id } => cbor_map_head(1) + cbor_text("Genesis"@)
            + cbor_map_head(1) + cbor_text("network_id"@) + cbor_text(network_id),
        PayloadView::IdentityCreated { did_doc_cid } => cbor_map_head(1) + cbor_text(
            "IdentityCreated"@,
        ) + cbor_map_head(1) + cbor_text("did_doc_cid"@) + cbor_text(did_doc_cid),
        PayloadView::Opaque(bytes) => cbor_map_head(1) + cbor_text("Opaque"@) + cbor_array_head(
            bytes.len(),
        ) + cbor_uint_items(bytes),
    }
}

/// The canonical encoding of an envelope: a map of its five fields, the keys
/// in canonical order (the shorter first, then by their bytes).
pub open spec fn envelope_encoding(envelope: EnvelopeView) -> Seq<u8> {
    cbor_map_head(5) + cbor_text("author"@) + cbor_text(envelope.author) + cbor_text("parents"@)
        + cbor_array_head(envelope.parents.len()) + parent_items(envelope.parents) + cbor_text(
        "payload"@,
    ) + payload_encoding(envelope.payload) + cbor_text("key_version"@) + cbor_uint(
        envelope.key_version,
    ) + cbor_text("logical_time"@) + clock_encoding(envelope.logical_time)
}

/// The id of an envelope: the hash of its canonical encoding.
pub open spec fn envelope_id(envelope: EnvelopeView) -> Blake3Hash {
    hash_of(envelope_encoding(envelope))
}

impl EventPayload {
    /// A copy of the payload.
    pub fn duplicate(&self) -> (copy: EventPayload)
        ensures
            copy@ == self@,
    {
        match self {
            EventPayload::Genesis { network_id } => EventPayload::Genesis {
                network_id: network_id.clone(),
            },
            EventPayload::IdentityCreated { did_doc_cid } => EventPayload::IdentityCreated {
                did_doc_cid: did_doc_cid.clone(),
            },
            EventPayload::Opaque(bytes) => EventPayload::Opaque(copy_bytes(bytes)),
        }
    }

    /// Whether two payloads hold the same.
    pub fn same_as(&self, other: &EventPayload) -> (same: bool)
        ensures
            same == (self@ == other@),
    {
        match (self, other) {
            (
                EventPayload::Genesis { network_id: a },
                EventPayload::Genesis { network_id: b },
            ) => *a == *b,
            (
                EventPayload::IdentityCreated { did_doc_cid: a },
                EventPayload::IdentityCreated { did_doc_cid: b },
            ) => *a == *b,
            (EventPayload::Opaque(a), EventPayload::Opaque(b)) => same_bytes(
                a.as_slice(),
                b.as_slice(),
            ),
            _ => false,
        }
    }

    /// Appends the encoding of the payload.
    pub fn encode(&self, out: &mut Vec<u8>)
        ensures
            final(out)@ == old(out)@ + payload_encoding(self@),
    {
        write_map_head(out, 1);
        match self {
            EventPayload::Genesis { network_id } => {
                write_text(out, "Genesis");
                write_map_head(out, 1);
                write_text(out, "network_id");
                write_text(out, network_id.as_str());
            },
            EventPayload::IdentityCreated { did_doc_cid } => {
                write_text(out, "IdentityCreated");
                write_map_head(out, 1);
                write_text(out, "did_doc_cid");
                write_text(out, did_doc_cid.as_str());
            },
            EventPayload::Opaque(bytes) => {
                write_text(out, "Opaque");
                write_uint_array(out, bytes.as_slice());
            },
        }
        assert(out@ =~= old(out)@ + payload_encoding(self@));
    }
}

impl EventEnvelope {
    /// A copy of the envelope.
    pub fn duplicate(&self) -> (copy: EventEnvelope)
        ensures
            copy@ == self@,
    {
        EventEnvelope {
            parents: copy_hashes(&self.parents),
            logical_time: self.logical_time,
            author: self.author.clone(),
            key_version: self.key_version,
            payload: self.payload.duplicate(),
        }
    }

    /// Whether two envelopes hold the same.
    pub fn same_as(&self, other: &EventEnvelope) -> (same: bool)
        ensures
            same == (self@ == other@),
    {
        same_hashes(&self.parents, &other.parents) && self.logical_time == other.logical_time
            && self.author == other.author && self.key_version == other.key_version
            && self.payload.same_as(&other.payload)
    }

    /// The canonical encoding of the envelope.
    pub fn encode(&self) -> (out: Vec<u8>)
        ensures
            out@ == envelope_encoding(self@),
    {
        let mut out: Vec<u8> = Vec::new();
        write_map_head(&mut out, 5);
        write_text(&mut out, "author");
        write_text(&mut out, self.author.as_str());
        write_text(&mut out, "parents");
        write_array_head(&mut out, self.parents.len());
        let ghost start = out@;
        let mut i: usize = 0;
        assert(self.parents@.take(0) =~= Seq::empty());
        assert(out@ =~= start + parent_items(self.parents@.take(0)));
        while i < self.parents.len()
            invariant
                i <= self.parents@.len(),
                out@ == start + parent_items(self.parents@.take(i as int)),
            decreases self.parents@.len() - i,
        {
            assert(self.parents@.take(i + 1).drop_last() =~= self.parents@.take(i as int));
            write_bytes(&mut out, self.parents[i].as_bytes());
            assert(out@ =~= start + parent_items(self.parents@.take(i + 1)));
            i += 1;
        }
        assert(self.parents@.take(i as int) =~= self.parents@);
        write_text(&mut out, "payload");
        self.payload.encode(&mut out);
        write_text(&mut out, "key_version");
        write_uint(&mut out, self.key_version);
        write_text(&mut out, "logical_time");
        write_map_head(&mut out, 2);
        write_text(&mut out, "logical");
        write_uint(&mut out, self.logical_time.logical as u64);
        write_text(&mut out, "physical_ms");
        write_uint(&mut out, self.logical_time.physical_ms);
        assert(out@ =~= envelope_encoding(self@));
        out
    }
}

impl LedgerEvent {
    /// A copy of the event.
    pub fn duplicate(&self) -> (copy: LedgerEvent)
        ensures
            copy@ == self@,
    {
        LedgerEvent {
            envelope: self.envelope.duplicate(),
            event_id: self.event_id,
            signature: self.signature,
        }
    }

    /// Whether two events hold the same.
    pub fn same_as(&self, other: &LedgerEvent) -> (same: bool)
        ensures
            same == (self@ == other@),
    {
        self.envelope.same_as(&other.envelope) && self.event_id == other.event_id && same_bytes(
            self.signature.as_slice(),
            other.signature.as_slice(),
        )
    }
}

/// Why an envelope could not be encoded. Every envelope that fits in memory
/// has an encoding, so none of the functions here returns it.
#[derive(Clone, Copy, Debug, PartialEq, Eq, Structural)]
pub enum EncodingError {
    /// A length that the encoding cannot hold.
    LengthOverflow,
}

/// Computes the canonical id of an envelope.
pub fn compute_event_id(envelope: &EventEnvelope) -> (res: Result<Blake3Hash, EncodingError>)
    ensures
        res == Ok::<Blake3Hash, EncodingError>(envelope_id(envelope@)),
{
    let canonical_bytes = envelope.encode();
    Ok(hash_bytes(canonical_bytes.as_slice()))
}

} // verus!
