//! A cross-chain token bridge controller: asset and chain registries, the
//! 96-byte wire payload, and the decisions taken when tokens are sent out to a
//! remote chain or received from one.
pub mod amount;
pub mod assets;
pub mod bridge;
mod bytes;
pub mod chains;
pub mod codec;
pub mod error;
