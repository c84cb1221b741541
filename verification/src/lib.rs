//! Client side of the Tao: a typed request/response protocol spoken to a
//! remote attestation and sealed-storage authority, and the alignment of the
//! process arguments with the authority's view of them.

pub mod arguments;
pub mod channel;
pub mod client;
pub mod hex;
pub mod policy;

pub use arguments::{
    checked_pointer_difference, initialize_app, is_valid_selection, pointer_difference,
    reorder_arguments, surviving_slots, InitializeReply,
};
pub use channel::{FDMessageChannel, MessageChannel, Reply, Request};
pub use client::{adopt_buffer, adopt_unsealed, call_succeeded, Tao, TaoRPC};
pub use hex::hexencode;
pub use policy::{
    TAO_SEAL_POLICY_ATTESTATION_SIGNING_CONTEXT, TAO_SEAL_POLICY_CONSERVATIVE,
    TAO_SEAL_POLICY_DEFAULT, TAO_SEAL_POLICY_LIBERAL,
};
