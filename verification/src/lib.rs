//! A small polynomial-divisibility proof system over BLS12-381.
//!
//! A prover who knows a polynomial `p(x)` convinces a verifier that `p` is
//! divisible by a public target polynomial `t(x)`, without showing `p`. The
//! crate holds the plain-integer form of the protocol and the pairing-based
//! form, in which the verifier publishes powers of a secret scalar hidden in
//! G1 and checks the prover's answer with two pairing equations.
//!
//! It is a teaching construction and is not meant for production use.

pub mod algebra;
pub mod encrypted_zksnark;
pub mod error;
pub mod field;
pub mod group;
pub mod polynomial;
pub mod unencrypted_zksnark;

pub use crate::encrypted_zksnark::{ProverTranscript, VerifierTranscript};
pub use crate::error::Error;
pub use crate::polynomial::{Polynomial, Root, SimpleRoot, UnencryptedPolynomial};
pub use crate::unencrypted_zksnark::UnencryptedChallengeResponse;
