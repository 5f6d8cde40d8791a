//! The ways in which a bridge operation is refused.
use vstd::prelude::*;

verus! {

/// Why an operation was refused. Every refusal is terminal for the call that
/// raised it, and nothing that call did takes effect.
#[derive(PartialEq, Eq, Structural, Debug, Clone, Copy)]
pub enum BridgeError {
    /// The caller is not the administrator.
    Unauthorized,
    /// No chain is linked under the given name or address.
    UnknownChain,
    /// No asset is registered under the given key.
    UnknownAsset,
    /// The deposited asset is not the one registered under the key.
    AssetMismatch,
    /// The amount is zero.
    InvalidAmount,
    /// The amount does not fit in 32 big-endian bytes.
    AmountOverflow,
    /// The payload is shorter than 96 bytes.
    MalformedPayload,
    /// The gateway did not confirm that the message is authentic.
    NotValidated,
    /// The gateway rejected or failed a request.
    GatewayFault,
}

} // verus!
