//! A private tally of encrypted ballots.
//!
//! Members of a domain vote by submitting ballots that are sealed to their
//! own public keys. The engine derives every key from one master secret,
//! opens the ballots, counts each voter once, and discloses the counts only
//! where enough voters were counted. Whatever the counts, it commits to
//! every ballot that was submitted by the root of a hash tree, and hands
//! each ballot a proof of its inclusion.
//!
//! - [`crypto`]: key derivation and the cipher.
//! - [`tally`]: reading and counting ballots, the quorum, the attestation.
//! - [`merkle`]: the hash tree and its inclusion proofs.
//! - [`votes_hash`]: a digest over a set of ballots.
//! - [`request`]: the two requests that the engine serves.
//! - [`ledger`]: the rules of the ledger that collects the ballots.
//! - [`hashing`]: SHA-256 and hexadecimal text.

pub mod crypto;
pub mod hashing;
pub mod ledger;
pub mod merkle;
pub mod request;
pub mod tally;
pub mod votes_hash;
