//! The policy labels that the authority knows by name. A seal accepts any
//! other string as well and hands it on untouched.

use vstd::prelude::*;

verus! {

/// Only the very program that sealed the data may open it.
pub const TAO_SEAL_POLICY_DEFAULT: &'static str = "self";

/// A small trusted set of programs may open the data.
pub const TAO_SEAL_POLICY_CONSERVATIVE: &'static str = "few";

/// Broad access to the data.
pub const TAO_SEAL_POLICY_LIBERAL: &'static str = "any";

/// The context string under which the authority signs attestations.
pub const TAO_SEAL_POLICY_ATTESTATION_SIGNING_CONTEXT: &'static str = "tao::Attestation Version 1";

} // verus!
