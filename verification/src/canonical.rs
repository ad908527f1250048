//! The canonical encoding binds the envelope: the bytes can be read back in
//! one way only, so two envelopes with one encoding are one envelope.

use crate::cbor::{
    cbor_array_head, cbor_bytes, cbor_map_head, cbor_text, cbor_uint, cbor_uint_items,
    lemma_bytes_unique, lemma_concat_assoc, lemma_head_unique, lemma_prefix_cancel,
    lemma_text_unique, lemma_uint_items_unique, lemma_uint_unique, MAJOR_ARRAY,
};
use crate::crypto::{lemma_hash_by_bytes, Blake3Hash};
use crate::event::{
    clock_encoding, envelope_encoding, parent_items, payload_encoding, EnvelopeView, PayloadView,
};
use crate::hlc::HybridLogicalClock;
use vstd::prelude::*;
use vstd::utf8::encode_utf8;

verus! {

/// The texts and lists of a payload are short enough for their lengths to be
/// written down, as those of every payload in memory are.
pub open spec fn payload_fits(payload: PayloadView) -> bool {
    match payload {
        PayloadView::Genesis { network_id } => encode_utf8(network_id).len() <= u64::MAX,
        PayloadView::IdentityCreated { did_doc_cid } => encode_utf8(did_doc_cid).len() <= u64::MAX,
        PayloadView::Opaque(bytes) => bytes.len() <= u64::MAX,
    }
}

/// The texts and lists of an envelope are short enough for their lengths to
/// be written down, as those of every envelope in memory are.
pub open spec fn envelope_fits(envelope: EnvelopeView) -> bool {
    &&& encode_utf8(envelope.author).len() <= u64::MAX
    &&& envelope.parents.len() <= u64::MAX
    &&& payload_fits(envelope.payload)
}

/// The encodings of the parent ids, told from the first.
proof fn lemma_parent_items_front(parents: Seq<Blake3Hash>)
    requires
        parents.len() > 0,
    ensures
        parent_items(parents) == cbor_bytes(parents[0]@) + parent_items(parents.drop_first()),
    decreases parents.len(),
{
    if parents.len() == 1 {
        assert(parents.drop_last() =~= Seq::empty());
        assert(parents.drop_first() =~= Seq::empty());
        assert(parent_items(parents) =~= cbor_bytes(parents[0]@) + parent_items(
            parents.drop_first(),
        ));
    } else {
        let front = parents.drop_last();
        lemma_parent_items_front(front);
        assert(front.drop_first() =~= parents.drop_first().drop_last());
        lemma_concat_assoc(
            cbor_bytes(parents[0]@),
            parent_items(front.drop_first()),
            cbor_bytes(parents.last()@),
        );
    }
}

/// A list of parent ids can be read back in one way only, once it is known
/// how many there are.
proof fn lemma_parent_items_unique(
    a: Seq<Blake3Hash>,
    after_a: Seq<u8>,
    b: Seq<Blake3Hash>,
    after_b: Seq<u8>,
)
    requires
        a.len() == b.len(),
        parent_items(a) + after_a == parent_items(b) + after_b,
    ensures
        a == b,
        after_a == after_b,
    decreases a.len(),
{
    if a.len() == 0 {
        assert(a =~= b);
        assert(parent_items(a) + after_a =~= after_a);
        assert(parent_items(b) + after_b =~= after_b);
    } else {
        lemma_parent_items_front(a);
        lemma_parent_items_front(b);
        let ra = parent_items(a.drop_first());
        let rb = parent_items(b.drop_first());
        lemma_concat_assoc(cbor_bytes(a[0]@), ra, after_a);
        lemma_concat_assoc(cbor_bytes(b[0]@), rb, after_b);
        lemma_bytes_unique(a[0]@, ra + after_a, b[0]@, rb + after_b);
        lemma_hash_by_bytes(a[0], b[0]);
        lemma_parent_items_unique(a.drop_first(), after_a, b.drop_first(), after_b);
        assert(a =~= seq![a[0]] + a.drop_first());
        assert(b =~= seq![b[0]] + b.drop_first());
    }
}

/// A clock reading can be read back in one way only.
proof fn lemma_clock_unique(
    a: HybridLogicalClock,
    after_a: Seq<u8>,
    b: HybridLogicalClock,
    after_b: Seq<u8>,
)
    requires
        clock_encoding(a) + after_a == clock_encoding(b) + after_b,
    ensures
        a == b,
        after_a == after_b,
{
    let lead = cbor_map_head(2) + cbor_text("logical"@);
    let key = cbor_text("physical_ms"@);
    let la = cbor_uint(a.logical as u64);
    let lb = cbor_uint(b.logical as u64);
    let pa = cbor_uint(a.physical_ms);
    let pb = cbor_uint(b.physical_ms);
    lemma_concat_assoc((lead + la) + key, pa, after_a);
    lemma_concat_assoc(lead + la, key, pa + after_a);
    lemma_concat_assoc(lead, la, key + (pa + after_a));
    lemma_concat_assoc((lead + lb) + key, pb, after_b);
    lemma_concat_assoc(lead + lb, key, pb + after_b);
    lemma_concat_assoc(lead, lb, key + (pb + after_b));
    lemma_prefix_cancel(lead, la + (key + (pa + after_a)), lb + (key + (pb + after_b)));
    lemma_uint_unique(a.logical as u64, key + (pa + after_a), b.logical as u64, key + (pb + after_b));
    lemma_prefix_cancel(key, pa + after_a, pb + after_b);
    lemma_uint_unique(a.physical_ms, after_a, b.physical_ms, after_b);
}

/// The content of a payload behind the name of its variant.
spec fn payload_content(payload: PayloadView) -> Seq<u8> {
    match payload {
        PayloadView::Genesis { network_id } => cbor_map_head(1) + (cbor_text("network_id"@)
            + cbor_text(network_id)),
        PayloadView::IdentityCreated { did_doc_cid } => cbor_map_head(1) + (cbor_text(
            "did_doc_cid"@,
        ) + cbor_text(did_doc_cid)),
        PayloadView::Opaque(bytes) => cbor_array_head(bytes.len()) + cbor_uint_items(bytes),
    }
}

/// The name of the variant of a payload.
spec fn payload_name(payload: PayloadView) -> Seq<char> {
    match payload {
        PayloadView::Genesis { .. } => "Genesis"@,
        PayloadView::IdentityCreated { .. } => "IdentityCreated"@,
        PayloadView::Opaque(_) => "Opaque"@,
    }
}

/// The encoding of a payload is the head of a map of one pair, the name of
/// the variant, and the content.
proof fn lemma_payload_parts(payload: PayloadView)
    ensures
        payload_encoding(payload) == cbor_map_head(1) + (cbor_text(payload_name(payload))
            + payload_content(payload)),
{
    let h = cbor_map_head(1);
    match payload {
        PayloadView::Genesis { network_id } => {
            let n = cbor_text("Genesis"@);
            let k = cbor_text("network_id"@);
            let v = cbor_text(network_id);
            lemma_concat_assoc(((h + n) + h) + k, Seq::empty(), v);
            lemma_concat_assoc((h + n) + h, k, v);
            lemma_concat_assoc(h + n, h, k + v);
            lemma_concat_assoc(h, n, h + (k + v));
        },
        PayloadView::IdentityCreated { did_doc_cid } => {
            let n = cbor_text("IdentityCreated"@);
            let k = cbor_text("did_doc_cid"@);
            let v = cbor_text(did_doc_cid);
            lemma_concat_assoc((h + n) + h, k, v);
            lemma_concat_assoc(h + n, h, k + v);
            lemma_concat_assoc(h, n, h + (k + v));
        },
        PayloadView::Opaque(bytes) => {
            let n = cbor_text("Opaque"@);
            let c = cbor_array_head(bytes.len());
            let v = cbor_uint_items(bytes);
            lemma_concat_assoc(h + n, c, v);
            lemma_concat_assoc(h, n, c + v);
        },
    }
}

/// The names of the variants are three different texts of fewer than 24 bytes.
proof fn lemma_payload_names(payload: PayloadView)
    ensures
        encode_utf8(payload_name(payload)).len() <= u64::MAX,
        payload_name(payload).len() == (match payload {
            PayloadView::Genesis { .. } => 7nat,
            PayloadView::IdentityCreated { .. } => 15nat,
            PayloadView::Opaque(_) => 6nat,
        }),
{
    reveal_strlit("Genesis");
    reveal_strlit("IdentityCreated");
    reveal_strlit("Opaque");
    lemma_utf8_length(payload_name(payload));
}

/// The UTF-8 form of a text has at most four bytes for each character.
proof fn lemma_utf8_length(text: Seq<char>)
    ensures
        encode_utf8(text).len() <= 4 * text.len(),
    decreases text.len(),
{
    if text.len() > 0 {
        lemma_utf8_length(text.drop_first());
    }
}

/// A payload can be read back in one way only.
proof fn lemma_payload_unique(a: PayloadView, after_a: Seq<u8>, b: PayloadView, after_b: Seq<u8>)
    requires
        payload_fits(a),
        payload_fits(b),
        payload_encoding(a) + after_a == payload_encoding(b) + after_b,
    ensures
        a == b,
        after_a == after_b,
{
    let h = cbor_map_head(1);
    let ca = payload_content(a);
    let cb = payload_content(b);
    let na = cbor_text(payload_name(a));
    let nb = cbor_text(payload_name(b));
    lemma_payload_parts(a);
    lemma_payload_parts(b);
    lemma_payload_names(a);
    lemma_payload_names(b);
    lemma_concat_assoc(h, na + ca, after_a);
    lemma_concat_assoc(h, nb + cb, after_b);
    lemma_prefix_cancel(h, (na + ca) + after_a, (nb + cb) + after_b);
    lemma_concat_assoc(na, ca, after_a);
    lemma_concat_assoc(nb, cb, after_b);
    lemma_text_unique(payload_name(a), ca + after_a, payload_name(b), cb + after_b);
    match (a, b) {
        (PayloadView::Genesis { network_id: x }, PayloadView::Genesis { network_id: y }) => {
            let k = cbor_text("network_id"@);
            lemma_concat_assoc(h, k + cbor_text(x), after_a);
            lemma_concat_assoc(h, k + cbor_text(y), after_b);
            lemma_prefix_cancel(h, (k + cbor_text(x)) + after_a, (k + cbor_text(y)) + after_b);
            lemma_concat_assoc(k, cbor_text(x), after_a);
            lemma_concat_assoc(k, cbor_text(y), after_b);
            lemma_prefix_cancel(k, cbor_text(x) + after_a, cbor_text(y) + after_b);
            lemma_text_unique(x, after_a, y, after_b);
        },
        (
            PayloadView::IdentityCreated { did_doc_cid: x },
            PayloadView::IdentityCreated { did_doc_cid: y },
        ) => {
            let k = cbor_text("did_doc_cid"@);
            lemma_concat_assoc(h, k + cbor_text(x), after_a);
            lemma_concat_assoc(h, k + cbor_text(y), after_b);
            lemma_prefix_cancel(h, (k + cbor_text(x)) + after_a, (k + cbor_text(y)) + after_b);
            lemma_concat_assoc(k, cbor_text(x), after_a);
            lemma_concat_assoc(k, cbor_text(y), after_b);
            lemma_prefix_cancel(k, cbor_text(x) + after_a, cbor_text(y) + after_b);
            lemma_text_unique(x, after_a, y, after_b);
        },
        (PayloadView::Opaque(x), PayloadView::Opaque(y)) => {
            lemma_concat_assoc(cbor_array_head(x.len()), cbor_uint_items(x), after_a);
            lemma_concat_assoc(cbor_array_head(y.len()), cbor_uint_items(y), after_b);
            lemma_head_unique(
                MAJOR_ARRAY,
                x.len() as u64,
                cbor_uint_items(x) + after_a,
                y.len() as u64,
                cbor_uint_items(y) + after_b,
            );
            lemma_uint_items_unique(x, after_a, y, after_b);
        },
        _ => {
            assert(payload_name(a).len() != payload_name(b).len());
        },
    }
}

/// The canonical encoding binds the envelope: two envelopes with the same
/// encoding hold the same parents, clock, author, key version and payload.
pub proof fn lemma_encoding_binds_envelope(a: EnvelopeView, b: EnvelopeView)
    requires
        envelope_fits(a),
        envelope_fits(b),
        envelope_encoding(a) == envelope_encoding(b),
    ensures
        a == b,
{
    let k1 = cbor_map_head(5) + cbor_text("author"@);
    let k2 = cbor_text("parents"@);
    let k3 = cbor_text("payload"@);
    let k4 = cbor_text("key_version"@);
    let k5 = cbor_text("logical_time"@);
    lemma_envelope_parts(a);
    lemma_envelope_parts(b);
    let a5 = clock_encoding(a.logical_time);
    let b5 = clock_encoding(b.logical_time);
    let a4 = cbor_uint(a.key_version) + (k5 + a5);
    let b4 = cbor_uint(b.key_version) + (k5 + b5);
    let a3 = payload_encoding(a.payload) + (k4 + a4);
    let b3 = payload_encoding(b.payload) + (k4 + b4);
    let a2 = parent_items(a.parents) + (k3 + a3);
    let b2 = parent_items(b.parents) + (k3 + b3);
    let a1 = cbor_array_head(a.parents.len()) + a2;
    let b1 = cbor_array_head(b.parents.len()) + b2;
    let a0 = cbor_text(a.author) + (k2 + a1);
    let b0 = cbor_text(b.author) + (k2 + b1);
    lemma_prefix_cancel(k1, a0, b0);
    lemma_text_unique(a.author, k2 + a1, b.author, k2 + b1);
    lemma_prefix_cancel(k2, a1, b1);
    lemma_head_unique(MAJOR_ARRAY, a.parents.len() as u64, a2, b.parents.len() as u64, b2);
    lemma_parent_items_unique(a.parents, k3 + a3, b.parents, k3 + b3);
    lemma_prefix_cancel(k3, a3, b3);
    lemma_payload_unique(a.payload, k4 + a4, b.payload, k4 + b4);
    lemma_prefix_cancel(k4, a4, b4);
    lemma_uint_unique(a.key_version, k5 + a5, b.key_version, k5 + b5);
    lemma_prefix_cancel(k5, a5, b5);
    assert(a5 + Seq::<u8>::empty() =~= a5);
    assert(b5 + Seq::<u8>::empty() =~= b5);
    lemma_clock_unique(a.logical_time, Seq::empty(), b.logical_time, Seq::empty());
    assert(a =~= b);
}

/// The encoding of an envelope, item by item from the first.
proof fn lemma_envelope_parts(e: EnvelopeView)
    ensures
        envelope_encoding(e) == (cbor_map_head(5) + cbor_text("author"@)) + (cbor_text(e.author) + (
        cbor_text("parents"@) + (cbor_array_head(e.parents.len()) + (parent_items(e.parents) + (
        cbor_text("payload"@) + (payload_encoding(e.payload) + (cbor_text("key_version"@) + (
        cbor_uint(e.key_version) + (cbor_text("logical_time"@) + clock_encoding(
            e.logical_time,
        )))))))))),
{
    let k1 = cbor_map_head(5) + cbor_text("author"@);
    let t1 = cbor_text(e.author);
    let k2 = cbor_text("parents"@);
    let t2 = cbor_array_head(e.parents.len());
    let t3 = parent_items(e.parents);
    let k3 = cbor_text("payload"@);
    let t4 = payload_encoding(e.payload);
    let k4 = cbor_text("key_version"@);
    let t5 = cbor_uint(e.key_version);
    let k5 = cbor_text("logical_time"@);
    let t6 = clock_encoding(e.logical_time);
    let x1 = k1 + t1;
    let x2 = x1 + k2;
    let x3 = x2 + t2;
    let x4 = x3 + t3;
    let x5 = x4 + k3;
    let x6 = x5 + t4;
    let x7 = x6 + k4;
    let x8 = x7 + t5;
    let x9 = x8 + k5;
    lemma_concat_assoc(x8, k5, t6);
    lemma_concat_assoc(x7, t5, k5 + t6);
    lemma_concat_assoc(x6, k4, t5 + (k5 + t6));
    lemma_concat_assoc(x5, t4, k4 + (t5 + (k5 + t6)));
    lemma_concat_assoc(x4, k3, t4 + (k4 + (t5 + (k5 + t6))));
    lemma_concat_assoc(x3, t3, k3 + (t4 + (k4 + (t5 + (k5 + t6)))));
    lemma_concat_assoc(x2, t2, t3 + (k3 + (t4 + (k4 + (t5 + (k5 + t6))))));
    lemma_concat_assoc(x1, k2, t2 + (t3 + (k3 + (t4 + (k4 + (t5 + (k5 + t6)))))));
    lemma_concat_assoc(k1, t1, k2 + (t2 + (t3 + (k3 + (t4 + (k4 + (t5 + (k5 + t6))))))));
}

} // verus!
