//! The risk attestation: a signed, audience-bound, expiring score.

use crate::cbor::{
    cbor_array_head, cbor_bytes, cbor_text, cbor_uint, lemma_bytes_unique, lemma_concat_assoc,
    lemma_text_unique,
    lemma_uint_unique, write_array_head, write_bytes, write_text, write_uint,
};
use crate::crypto::{
    ed25519_accepts, ed25519_public_key, ed25519_sign, ed25519_signature, ed25519_verify,
    lemma_hash_by_bytes, Blake3Hash,
};
use crate::event::Did;
use vstd::prelude::*;
use vstd::string::StringSliceAdditionalSpecFns;
use vstd::utf8::encode_utf8;

verus! {

/// The highest score.
pub const MAX_SCORE: u8 = 100;

/// The highest confidence, in basis points.
pub const MAX_CONFIDENCE_BPS: u16 = 10000;

/// A score that an issuer attests of a subject, for one audience and until a
/// given time.
#[derive(Clone, Debug)]
pub struct RiskAttestation {
    /// Who is scored.
    pub subject: Did,
    /// The verifier that the attestation is meant for.
    pub audience: Did,
    /// The score, 0 to 100; the higher, the more trusted.
    pub score: u8,
    /// The confidence in the score, 0 to 10000 basis points.
    pub confidence_bps: u16,
    /// The hash of the factors behind the score.
    pub factors_hash: Blake3Hash,
    /// The hash of the request's context.
    pub context_hash: Blake3Hash,
    /// A number used once, against replay.
    pub nonce: u64,
    /// When the attestation was issued, in milliseconds.
    pub issued_at: u64,
    /// When it expires.
    pub expires_at: u64,
    /// Who issued it.
    pub issuer: Did,
    /// The issuer's signature on the preimage.
    pub signature: [u8; 64],
}

/// The ASCII tag that opens every risk attestation preimage.
pub open spec fn risk_domain() -> Seq<u8> {
    "EXOCHAIN-RISK-v1".spec_bytes()
}

/// The ten signed fields, one item after the other.
pub open spec fn risk_fields(
    subject: Seq<char>,
    audience: Seq<char>,
    score: u8,
    confidence_bps: u16,
    factors_hash: Blake3Hash,
    context_hash: Blake3Hash,
    nonce: u64,
    issued_at: u64,
    expires_at: u64,
    issuer: Seq<char>,
) -> Seq<u8> {
    cbor_text(subject) + (cbor_text(audience) + (cbor_uint(score as u64) + (cbor_uint(
        confidence_bps as u64,
    ) + (cbor_bytes(factors_hash@) + (cbor_bytes(context_hash@) + (cbor_uint(nonce) + (cbor_uint(
        issued_at,
    ) + (cbor_uint(expires_at) + cbor_text(issuer)))))))))
}

/// What is signed for an attestation: the domain tag, then the ten signed
/// fields as one array in canonical encoding.
pub open spec fn risk_preimage(
    subject: Seq<char>,
    audience: Seq<char>,
    score: u8,
    confidence_bps: u16,
    factors_hash: Blake3Hash,
    context_hash: Blake3Hash,
    nonce: u64,
    issued_at: u64,
    expires_at: u64,
    issuer: Seq<char>,
) -> Seq<u8> {
    (risk_domain() + cbor_array_head(10)) + risk_fields(
        subject,
        audience,
        score,
        confidence_bps,
        factors_hash,
        context_hash,
        nonce,
        issued_at,
        expires_at,
        issuer,
    )
}

impl RiskAttestation {
    /// What is signed for this attestation.
    pub open spec fn preimage(&self) -> Seq<u8> {
        risk_preimage(
            self.subject@,
            self.audience@,
            self.score,
            self.confidence_bps,
            self.factors_hash,
            self.context_hash,
            self.nonce,
            self.issued_at,
            self.expires_at,
            self.issuer@,
        )
    }

    /// Whether the attestation has expired at a time: it is good up to and at
    /// `expires_at`, and expired after.
    pub open spec fn expired_at(&self, time: u64) -> bool {
        time > self.expires_at
    }

    /// The score and the confidence are within their ranges.
    pub open spec fn in_range(&self) -> bool {
        self.score <= MAX_SCORE && self.confidence_bps <= MAX_CONFIDENCE_BPS
    }

    /// Whether the score and the confidence are within their ranges. An
    /// attestation is made and verified whatever they are; a consumer that
    /// holds to the ranges asks here.
    pub fn is_in_range(&self) -> (within: bool)
        ensures
            within == self.in_range(),
    {
        self.score <= MAX_SCORE && self.confidence_bps <= MAX_CONFIDENCE_BPS
    }

    /// Creates and signs an attestation that expires `duration_ms` after it
    /// was issued.
    pub fn new(
        subject: Did,
        audience: Did,
        score: u8,
        confidence_bps: u16,
        factors_hash: Blake3Hash,
        context_hash: Blake3Hash,
        nonce: u64,
        issued_at: u64,
        duration_ms: u64,
        issuer: Did,
        signing_key: &[u8; 32],
    ) -> (attestation: RiskAttestation)
        requires
            issued_at + duration_ms <= u64::MAX,
        ensures
            attestation.subject == subject,
            attestation.audience == audience,
            attestation.score == score,
            attestation.confidence_bps == confidence_bps,
            attestation.factors_hash == factors_hash,
            attestation.context_hash == context_hash,
            attestation.nonce == nonce,
            attestation.issued_at == issued_at,
            attestation.expires_at == issued_at + duration_ms,
            attestation.issuer == issuer,
            attestation.signature == ed25519_signature(signing_key@, attestation.preimage()),
            ed25519_accepts(
                ed25519_public_key(signing_key@)@,
                attestation.preimage(),
                attestation.signature@,
            ),
    {
        let expires_at: u64 = issued_at + duration_ms;
        let mut attestation = RiskAttestation {
            subject,
            audience,
            score,
            confidence_bps,
            factors_hash,
            context_hash,
            nonce,
            issued_at,
            expires_at,
            issuer,
            signature: [0u8; 64],
        };
        let preimage = attestation.compute_preimage();
        attestation.signature = ed25519_sign(signing_key, preimage.as_slice());
        attestation
    }

    /// Computes the signing preimage.
    pub fn compute_preimage(&self) -> (preimage: Vec<u8>)
        ensures
            preimage@ == self.preimage(),
    {
        let mut preimage: Vec<u8> = Vec::new();
        preimage.extend_from_slice("EXOCHAIN-RISK-v1".as_bytes());
        write_array_head(&mut preimage, 10);
        let ghost x0 = preimage@;
        assert(x0 =~= risk_domain() + cbor_array_head(10));
        write_text(&mut preimage, self.subject.as_str());
        let ghost x1 = preimage@;
        write_text(&mut preimage, self.audience.as_str());
        let ghost x2 = preimage@;
        write_uint(&mut preimage, self.score as u64);
        let ghost x3 = preimage@;
        write_uint(&mut preimage, self.confidence_bps as u64);
        let ghost x4 = preimage@;
        write_bytes(&mut preimage, self.factors_hash.as_bytes());
        let ghost x5 = preimage@;
        write_bytes(&mut preimage, self.context_hash.as_bytes());
        let ghost x6 = preimage@;
        write_uint(&mut preimage, self.nonce);
        let ghost x7 = preimage@;
        write_uint(&mut preimage, self.issued_at);
        let ghost x8 = preimage@;
        write_uint(&mut preimage, self.expires_at);
        let ghost x9 = preimage@;
        write_text(&mut preimage, self.issuer.as_str());
        proof {
            let t9 = cbor_text(self.issuer@);
            let t8 = cbor_uint(self.expires_at) + t9;
            lemma_concat_assoc(x8, cbor_uint(self.expires_at), t9);
            let t7 = cbor_uint(self.issued_at) + t8;
            lemma_concat_assoc(x7, cbor_uint(self.issued_at), t8);
            let t6 = cbor_uint(self.nonce) + t7;
            lemma_concat_assoc(x6, cbor_uint(self.nonce), t7);
            let t5 = cbor_bytes(self.context_hash@) + t6;
            lemma_concat_assoc(x5, cbor_bytes(self.context_hash@), t6);
            let t4 = cbor_bytes(self.factors_hash@) + t5;
            lemma_concat_assoc(x4, cbor_bytes(self.factors_hash@), t5);
            let t3 = cbor_uint(self.confidence_bps as u64) + t4;
            lemma_concat_assoc(x3, cbor_uint(self.confidence_bps as u64), t4);
            let t2 = cbor_uint(self.score as u64) + t3;
            lemma_concat_assoc(x2, cbor_uint(self.score as u64), t3);
            let t1 = cbor_text(self.audience@) + t2;
            lemma_concat_assoc(x1, cbor_text(self.audience@), t2);
            let t0 = cbor_text(self.subject@) + t1;
            lemma_concat_assoc(x0, cbor_text(self.subject@), t1);
            assert(preimage@ == x0 + t0);
        }
        preimage
    }

    /// Verifies the signature under the issuer's public key.
    pub fn verify(&self, verification_key: &[u8; 32]) -> (res: Result<
        (),
        ed25519_dalek::SignatureError,
    >)
        ensures
            res.is_ok() == ed25519_accepts(verification_key@, self.preimage(), self.signature@),
    {
        let preimage = self.compute_preimage();
        ed25519_verify(verification_key, preimage.as_slice(), &self.signature)
    }

    /// Whether the attestation has expired at `current_time`.
    pub fn is_expired(&self, current_time: u64) -> (expired: bool)
        ensures
            expired == self.expired_at(current_time),
    {
        current_time > self.expires_at
    }
}

/// The signed fields of two attestations are the same.
pub open spec fn same_signed_fields(a: RiskAttestation, b: RiskAttestation) -> bool {
    &&& a.subject@ == b.subject@
    &&& a.audience@ == b.audience@
    &&& a.score == b.score
    &&& a.confidence_bps == b.confidence_bps
    &&& a.factors_hash == b.factors_hash
    &&& a.context_hash == b.context_hash
    &&& a.nonce == b.nonce
    &&& a.issued_at == b.issued_at
    &&& a.expires_at == b.expires_at
    &&& a.issuer@ == b.issuer@
}

/// The texts of an attestation are short enough for their lengths to be
/// written down, as the texts of every attestation in memory are.
pub open spec fn texts_fit(a: RiskAttestation) -> bool {
    &&& encode_utf8(a.subject@).len() <= u64::MAX
    &&& encode_utf8(a.audience@).len() <= u64::MAX
    &&& encode_utf8(a.issuer@).len() <= u64::MAX
}

/// Where the last five signed fields of two attestations are encoded alike,
/// they are alike.
proof fn lemma_tail_fields_bound(a: RiskAttestation, b: RiskAttestation)
    requires
        texts_fit(a),
        texts_fit(b),
        cbor_bytes(a.context_hash@) + (cbor_uint(a.nonce) + (cbor_uint(a.issued_at) + (cbor_uint(
            a.expires_at,
        ) + cbor_text(a.issuer@)))) == cbor_bytes(b.context_hash@) + (cbor_uint(b.nonce) + (cbor_uint(
            b.issued_at,
        ) + (cbor_uint(b.expires_at) + cbor_text(b.issuer@)))),
    ensures
        a.context_hash == b.context_hash,
        a.nonce == b.nonce,
        a.issued_at == b.issued_at,
        a.expires_at == b.expires_at,
        a.issuer@ == b.issuer@,
{
    let a9 = cbor_text(a.issuer@);
    let b9 = cbor_text(b.issuer@);
    let a8 = cbor_uint(a.expires_at) + a9;
    let b8 = cbor_uint(b.expires_at) + b9;
    let a7 = cbor_uint(a.issued_at) + a8;
    let b7 = cbor_uint(b.issued_at) + b8;
    let a6 = cbor_uint(a.nonce) + a7;
    let b6 = cbor_uint(b.nonce) + b7;
    lemma_bytes_unique(a.context_hash@, a6, b.context_hash@, b6);
    lemma_uint_unique(a.nonce, a7, b.nonce, b7);
    lemma_uint_unique(a.issued_at, a8, b.issued_at, b8);
    lemma_uint_unique(a.expires_at, a9, b.expires_at, b9);
    assert(a9 + Seq::<u8>::empty() =~= a9);
    assert(b9 + Seq::<u8>::empty() =~= b9);
    lemma_text_unique(a.issuer@, Seq::empty(), b.issuer@, Seq::empty());
    lemma_hash_by_bytes(a.context_hash, b.context_hash);
}

/// The preimage binds every signed field: a change to any of them changes
/// what is signed, so a signature on one attestation is a signature on no
/// other.
pub proof fn lemma_preimage_binds_fields(a: RiskAttestation, b: RiskAttestation)
    requires
        texts_fit(a),
        texts_fit(b),
    ensures
        a.preimage() == b.preimage() <==> same_signed_fields(a, b),
{
    if a.preimage() == b.preimage() {
        let a5 = cbor_bytes(a.context_hash@) + (cbor_uint(a.nonce) + (cbor_uint(a.issued_at) + (
        cbor_uint(a.expires_at) + cbor_text(a.issuer@))));
        let b5 = cbor_bytes(b.context_hash@) + (cbor_uint(b.nonce) + (cbor_uint(b.issued_at) + (
        cbor_uint(b.expires_at) + cbor_text(b.issuer@))));
        let a4 = cbor_bytes(a.factors_hash@) + a5;
        let b4 = cbor_bytes(b.factors_hash@) + b5;
        let a3 = cbor_uint(a.confidence_bps as u64) + a4;
        let b3 = cbor_uint(b.confidence_bps as u64) + b4;
        let a2 = cbor_uint(a.score as u64) + a3;
        let b2 = cbor_uint(b.score as u64) + b3;
        let a1 = cbor_text(a.audience@) + a2;
        let b1 = cbor_text(b.audience@) + b2;
        let a0 = cbor_text(a.subject@) + a1;
        let b0 = cbor_text(b.subject@) + b1;
        let lead = risk_domain() + cbor_array_head(10);
        assert(a.preimage() == lead + a0);
        assert(b.preimage() == lead + b0);
        assert(a0 =~= (lead + a0).skip(lead.len() as int));
        assert(b0 =~= (lead + b0).skip(lead.len() as int));
        lemma_text_unique(a.subject@, a1, b.subject@, b1);
        lemma_text_unique(a.audience@, a2, b.audience@, b2);
        lemma_uint_unique(a.score as u64, a3, b.score as u64, b3);
        lemma_uint_unique(a.confidence_bps as u64, a4, b.confidence_bps as u64, b4);
        lemma_bytes_unique(a.factors_hash@, a5, b.factors_hash@, b5);
        lemma_tail_fields_bound(a, b);
        lemma_hash_by_bytes(a.factors_hash, b.factors_hash);
    }
}

/// An attestation is still good at the very time it expires, and expired one
/// millisecond later.
pub proof fn lemma_expiry_edge(attestation: RiskAttestation)
    ensures
        !attestation.expired_at(attestation.expires_at),
        attestation.expires_at < u64::MAX ==> attestation.expired_at(
            (attestation.expires_at + 1) as u64,
        ),
{
}

} // verus!
