//! Core of an append-only ledger whose state is a hash-linked graph of signed
//! events: the event model and its canonical encoding, the hybrid logical
//! clock, domain-separated signatures, the event store and the append
//! pipeline, the Merkle mountain range with its inclusion proofs, the sorted
//! Merkle map behind the state root, checkpoints and risk attestations.

pub mod api;
pub mod append;
pub mod bailment;
pub mod canonical;
pub mod cbor;
pub mod checkpoint;
pub mod consensus;
pub mod crypto;
pub mod did;
pub mod event;
pub mod gatekeeper;
pub mod hlc;
pub mod identity;
pub mod inclusion;
pub mod key;
pub mod mmr;
pub mod policy;
pub mod risk;
pub mod seqs;
pub mod smt;
pub mod store;
pub mod text;
