//! Pointcheval-Sanders short randomizable signatures over the BLS12-381
//! Type-3 pairing, with multi-signature aggregation and a Schnorr-style
//! proof of knowledge of a signature with selective disclosure.
//!
//! Group configuration: signatures live in G1, verification keys in G2,
//! so the first argument of each pairing is already in G1.
#![allow(non_snake_case)]

use vstd::prelude::*;

pub use crate::backend::ate_2_pairing;

pub mod algebra;
pub mod backend;
pub mod keys;
pub mod signature;
pub mod signature_2018;
pub mod multi_signature;
pub mod pok_vc;
pub mod pok_sig;
pub mod pok_sig_2018;
pub mod errors;

verus! {

/// The group that carries signatures.
pub type SignatureGroup = amcl_wrapper::group_elem_g1::G1;

/// The group that carries verification keys.
pub type VerkeyGroup = amcl_wrapper::group_elem_g2::G2;

} // verus!
