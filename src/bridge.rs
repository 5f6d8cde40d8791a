//! The bridge controller: administration of the registries, and the
//! decisions taken when tokens are sent out or received.
use vstd::prelude::*;
use vstd::slice::slice_to_vec;

use crate::amount::{be_value, Amount};
use crate::assets::{AssetEntry, AssetRegistry, CustodyMode, KnownAsset};
use crate::bytes::{copy_bytes, same_bytes};
use crate::chains::ChainRegistry;
use crate::codec::{decode, encode, fits_field, lemma_round_trip, wire};
use crate::error::BridgeError;

verus! {

/// What happens to the units of an asset at this end of a transfer.
#[derive(PartialEq, Eq, Structural, Debug, Clone, Copy)]
pub enum CustodyAction {
    /// Destroy the deposited units.
    Burn,
    /// Keep the deposited units in escrow.
    Hold,
    /// Create the units before delivering them.
    Mint,
    /// Deliver units out of escrow.
    Release,
}

/// The custody step of a send for an asset of mode `mode`.
pub open spec fn send_action(mode: CustodyMode) -> CustodyAction {
    match mode {
        CustodyMode::MintBurn => CustodyAction::Burn,
        CustodyMode::LockUnlock => CustodyAction::Hold,
    }
}

/// The custody step of an execute for an asset of mode `mode`.
pub open spec fn receive_action(mode: CustodyMode) -> CustodyAction {
    match mode {
        CustodyMode::MintBurn => CustodyAction::Mint,
        CustodyMode::LockUnlock => CustodyAction::Release,
    }
}

/// The asset and amount a caller attached to a send.
pub struct Deposit {
    pub token: Vec<u8>,
    pub amount: Amount,
}

/// Notification that tokens left for a remote chain.
pub struct TokenSent {
    pub sender: Vec<u8>,
    pub destination_chain: Vec<u8>,
    pub receiver_address: [u8; 32],
    pub asset_key: [u8; 32],
    pub local_identifier: Vec<u8>,
    pub amount: Amount,
}

/// Notification that tokens arrived from a remote chain.
pub struct TokenReceived {
    pub receiver: [u8; 32],
    pub source_chain: Vec<u8>,
    pub asset_key: [u8; 32],
    pub local_identifier: Vec<u8>,
    pub amount: Amount,
}

/// What an accepted send does: the custody step on `amount` units of
/// `token`, the notification, and the payload handed to the gateway for the
/// destination chain's contract.
pub struct SendPlan {
    pub action: CustodyAction,
    pub token: Vec<u8>,
    pub amount: Amount,
    pub destination_chain: Vec<u8>,
    pub destination_address: Vec<u8>,
    pub payload: Vec<u8>,
    pub event: TokenSent,
}

/// What an accepted execute does: the custody step on `amount` units of
/// `token`, the notification, and the delivery to `receiver`.
pub struct ExecutePlan {
    pub action: CustodyAction,
    pub token: Vec<u8>,
    pub amount: Amount,
    pub receiver: [u8; 32],
    pub event: TokenReceived,
}

/// The bridge's persistent state: the administrator, the gateway, and the
/// two registries.
pub struct Bridge {
    owner: Vec<u8>,
    gateway: Vec<u8>,
    assets: AssetRegistry,
    chains: ChainRegistry,
}

/// The first check that a send fails, if any: the destination chain, the
/// asset key, the amount, the deposited asset, the amount's size.
pub open spec fn send_error(
    b: Bridge,
    token: Seq<u8>,
    amount: nat,
    chain: Seq<u8>,
    key: Seq<u8>,
) -> Option<BridgeError> {
    if !b.chain_addresses().contains_key(chain) {
        Some(BridgeError::UnknownChain)
    } else if !b.assets().contains_key(key) {
        Some(BridgeError::UnknownAsset)
    } else if amount == 0 {
        Some(BridgeError::InvalidAmount)
    } else if b.assets()[key].local_identifier != token {
        Some(BridgeError::AssetMismatch)
    } else if !fits_field(amount) {
        Some(BridgeError::AmountOverflow)
    } else {
        None
    }
}

/// The first check that an execute fails, if any: the source address, the
/// gateway's verdict, the payload's length, the asset key, the amount.
pub open spec fn execute_error(
    b: Bridge,
    source_address: Seq<u8>,
    payload: Seq<u8>,
    validated: bool,
) -> Option<BridgeError> {
    if !b.chain_names().contains_key(source_address) {
        Some(BridgeError::UnknownChain)
    } else if !validated {
        Some(BridgeError::NotValidated)
    } else if payload.len() < 96 {
        Some(BridgeError::MalformedPayload)
    } else if !b.assets().contains_key(payload.subrange(0, 32)) {
        Some(BridgeError::UnknownAsset)
    } else if be_value(payload.subrange(32, 64)) == 0 {
        Some(BridgeError::InvalidAmount)
    } else {
        None
    }
}

impl Bridge {
    /// The administrator's address.
    pub closed spec fn owner(&self) -> Seq<u8> {
        self.owner@
    }

    /// The gateway's address.
    pub closed spec fn gateway_address(&self) -> Seq<u8> {
        self.gateway@
    }

    /// The registered assets by key.
    pub closed spec fn assets(&self) -> Map<Seq<u8>, AssetEntry> {
        self.assets@
    }

    /// The linked address of each chain name.
    pub closed spec fn chain_addresses(&self) -> Map<Seq<u8>, Seq<u8>> {
        self.chains.addresses()
    }

    /// The linked chain name of each address.
    pub closed spec fn chain_names(&self) -> Map<Seq<u8>, Seq<u8>> {
        self.chains.names()
    }

    /// A bridge administered by `owner` that talks to `gateway`, with no
    /// assets and no chains.
    pub fn init(owner: &[u8], gateway: &[u8]) -> (r: Bridge)
        ensures
            r.owner() == owner@,
            r.gateway_address() == gateway@,
            r.assets() == Map::<Seq<u8>, AssetEntry>::empty(),
            r.chain_addresses() == Map::<Seq<u8>, Seq<u8>>::empty(),
            r.chain_names() == Map::<Seq<u8>, Seq<u8>>::empty(),
    {
        Bridge {
            owner: slice_to_vec(owner),
            gateway: slice_to_vec(gateway),
            assets: AssetRegistry::new(),
            chains: ChainRegistry::new(),
        }
    }

    /// The gateway's address.
    pub fn gateway(&self) -> (r: Vec<u8>)
        ensures
            r@ == self.gateway_address(),
    {
        copy_bytes(&self.gateway)
    }

    /// The asset registered under `key`, or `UnknownAsset`.
    pub fn known_token(&self, key: &[u8; 32]) -> (r: Result<KnownAsset, BridgeError>)
        ensures
            r is Ok <==> self.assets().contains_key(key@),
            r matches Ok(a) ==> a@ == self.assets()[key@],
            r matches Err(e) ==> e == BridgeError::UnknownAsset,
    {
        self.assets.resolve(key)
    }

    /// The address linked to the chain `name`, or `UnknownChain`.
    pub fn known_chain_address(&self, name: &[u8]) -> (r: Result<Vec<u8>, BridgeError>)
        ensures
            r is Ok <==> self.chain_addresses().contains_key(name@),
            r matches Ok(a) ==> a@ == self.chain_addresses()[name@],
            r matches Err(e) ==> e == BridgeError::UnknownChain,
    {
        self.chains.address_of(name)
    }

    /// The chain name linked to `address`, or `UnknownChain`.
    pub fn known_chain_name(&self, address: &[u8]) -> (r: Result<Vec<u8>, BridgeError>)
        ensures
            r is Ok <==> self.chain_names().contains_key(address@),
            r matches Ok(n) ==> n@ == self.chain_names()[address@],
            r matches Err(e) ==> e == BridgeError::UnknownChain,
    {
        self.chains.name_of(address)
    }

    fn authorize(&self, caller: &[u8]) -> (r: Result<(), BridgeError>)
        ensures
            r is Ok <==> caller@ == self.owner(),
            r matches Err(e) ==> e == BridgeError::Unauthorized,
    {
        if same_bytes(caller, self.owner.as_slice()) {
            Ok(())
        } else {
            Err(BridgeError::Unauthorized)
        }
    }

    /// Registers `local_identifier` with custody `mode` under `key`, replacing
    /// any earlier entry. Only the administrator may do so.
    pub fn add_known_token(
        &mut self,
        caller: &[u8],
        key: &[u8; 32],
        local_identifier: &[u8],
        mode: CustodyMode,
    ) -> (r: Result<(), BridgeError>)
        ensures
            r is Ok <==> caller@ == old(self).owner(),
            r matches Err(e) ==> e == BridgeError::Unauthorized,
            final(self).assets() == if r is Ok {
                old(self).assets().insert(
                    key@,
                    AssetEntry { local_identifier: local_identifier@, mode },
                )
            } else {
                old(self).assets()
            },
            final(self).owner() == old(self).owner(),
            final(self).gateway_address() == old(self).gateway_address(),
            final(self).chain_addresses() == old(self).chain_addresses(),
            final(self).chain_names() == old(self).chain_names(),
    {
        self.authorize(caller)?;
        let asset = KnownAsset { local_identifier: slice_to_vec(local_identifier), mode };
        self.assets.register(key, asset);
        Ok(())
    }

    /// Removes the entry under `key`, if any. Only the administrator may do so.
    pub fn remove_known_token(&mut self, caller: &[u8], key: &[u8; 32]) -> (r: Result<
        (),
        BridgeError,
    >)
        ensures
            r is Ok <==> caller@ == old(self).owner(),
            r matches Err(e) ==> e == BridgeError::Unauthorized,
            final(self).assets() == if r is Ok {
                old(self).assets().remove(key@)
            } else {
                old(self).assets()
            },
            final(self).owner() == old(self).owner(),
            final(self).gateway_address() == old(self).gateway_address(),
            final(self).chain_addresses() == old(self).chain_addresses(),
            final(self).chain_names() == old(self).chain_names(),
    {
        self.authorize(caller)?;
        self.assets.unregister(key);
        Ok(())
    }

    /// Links the chain `name` and its contract `address` in both directions.
    /// Only the administrator may do so.
    pub fn add_known_chain(&mut self, caller: &[u8], name: &[u8], address: &[u8]) -> (r: Result<
        (),
        BridgeError,
    >)
        ensures
            r is Ok <==> caller@ == old(self).owner(),
            r matches Err(e) ==> e == BridgeError::Unauthorized,
            final(self).chain_addresses() == if r is Ok {
                old(self).chain_addresses().insert(name@, address@)
            } else {
                old(self).chain_addresses()
            },
            final(self).chain_names() == if r is Ok {
                old(self).chain_names().insert(address@, name@)
            } else {
                old(self).chain_names()
            },
            final(self).owner() == old(self).owner(),
            final(self).gateway_address() == old(self).gateway_address(),
            final(self).assets() == old(self).assets(),
    {
        self.authorize(caller)?;
        self.chains.link(name, address);
        Ok(())
    }

    /// Removes the link of the chain `name` in both directions, if it has one.
    /// Only the administrator may do so.
    pub fn remove_known_chain(&mut self, caller: &[u8], name: &[u8]) -> (r: Result<
        (),
        BridgeError,
    >)
        ensures
            r is Ok <==> caller@ == old(self).owner(),
            r matches Err(e) ==> e == BridgeError::Unauthorized,
            final(self).chain_addresses() == if r is Ok {
                old(self).chain_addresses().remove(name@)
            } else {
                old(self).chain_addresses()
            },
            final(self).chain_names() == if r is Ok && old(self).chain_addresses().contains_key(
                name@,
            ) {
                old(self).chain_names().remove(old(self).chain_addresses()[name@])
            } else {
                old(self).chain_names()
            },
            final(self).owner() == old(self).owner(),
            final(self).gateway_address() == old(self).gateway_address(),
            final(self).assets() == old(self).assets(),
    {
        self.authorize(caller)?;
        self.chains.unlink(name);
        Ok(())
    }
    /// Decides a send of `deposit` to `receiver` on the chain
    /// `destination_chain` under the asset key `asset_key`. On success the
    /// plan holds the custody step (burn for a mint-burn asset, hold for a
    /// lock-unlock one), the notification, and the payload for the gateway.
    /// A refusal carries no plan, so nothing is burnt, held or dispatched.
    pub fn send_token(
        &self,
        caller: &[u8],
        deposit: &Deposit,
        destination_chain: &[u8],
        asset_key: &[u8; 32],
        receiver: &[u8; 32],
    ) -> (r: Result<SendPlan, BridgeError>)
        ensures
            r is Err <==> send_error(
                *self,
                deposit.token@,
                deposit.amount@,
                destination_chain@,
                asset_key@,
            ) is Some,
            r matches Err(e) ==> send_error(
                *self,
                deposit.token@,
                deposit.amount@,
                destination_chain@,
                asset_key@,
            ) == Some(e),
            r matches Ok(p) ==> {
                let entry = self.assets()[asset_key@];
                &&& p.action == send_action(entry.mode)
                &&& p.token@ == entry.local_identifier
                &&& p.amount@ == deposit.amount@
                &&& p.destination_chain@ == destination_chain@
                &&& p.destination_address@ == self.chain_addresses()[destination_chain@]
                &&& p.payload@ == wire(asset_key@, deposit.amount@, receiver@)
                &&& p.event.sender@ == caller@
                &&& p.event.destination_chain@ == destination_chain@
                &&& p.event.receiver_address@ == receiver@
                &&& p.event.asset_key@ == asset_key@
                &&& p.event.local_identifier@ == entry.local_identifier
                &&& p.event.amount@ == deposit.amount@
            },
    {
        let destination_address = self.chains.address_of(destination_chain)?;
        let asset = self.assets.resolve(asset_key)?;
        if deposit.amount.is_zero() {
            return Err(BridgeError::InvalidAmount);
        }
        if !same_bytes(asset.local_identifier.as_slice(), deposit.token.as_slice()) {
            return Err(BridgeError::AssetMismatch);
        }
        let payload = encode(asset_key, &deposit.amount, receiver)?;
        let action = match asset.mode {
            CustodyMode::MintBurn => CustodyAction::Burn,
            CustodyMode::LockUnlock => CustodyAction::Hold,
        };
        let event = TokenSent {
            sender: slice_to_vec(caller),
            destination_chain: slice_to_vec(destination_chain),
            receiver_address: *receiver,
            asset_key: *asset_key,
            local_identifier: copy_bytes(&asset.local_identifier),
            amount: deposit.amount.duplicate(),
        };
        Ok(SendPlan {
            action,
            token: asset.local_identifier,
            amount: deposit.amount.duplicate(),
            destination_chain: slice_to_vec(destination_chain),
            destination_address,
            payload,
            event,
        })
    }

    /// Decides an execute of `payload`, which the relayer says comes from the
    /// contract at `source_address` on `source_chain`; `validated` is the
    /// gateway's verdict on the message. Only the address is checked against
    /// the registry. On success the plan holds the custody step (mint for a
    /// mint-burn asset, release for a lock-unlock one), the notification, and
    /// the delivery to the decoded receiver. A refusal carries no plan, so
    /// nothing is minted, released or delivered.
    pub fn execute(
        &self,
        source_chain: &[u8],
        source_address: &[u8],
        payload: &[u8],
        validated: bool,
    ) -> (r: Result<ExecutePlan, BridgeError>)
        ensures
            r is Err <==> execute_error(*self, source_address@, payload@, validated) is Some,
            r matches Err(e) ==> execute_error(*self, source_address@, payload@, validated)
                == Some(e),
            r matches Ok(p) ==> {
                let key = payload@.subrange(0, 32);
                let entry = self.assets()[key];
                &&& p.action == receive_action(entry.mode)
                &&& p.token@ == entry.local_identifier
                &&& p.amount@ == be_value(payload@.subrange(32, 64))
                &&& p.receiver@ == payload@.subrange(64, 96)
                &&& p.event.receiver@ == payload@.subrange(64, 96)
                &&& p.event.source_chain@ == source_chain@
                &&& p.event.asset_key@ == key
                &&& p.event.local_identifier@ == entry.local_identifier
                &&& p.event.amount@ == be_value(payload@.subrange(32, 64))
            },
    {
        let _ = self.chains.name_of(source_address)?;
        if !validated {
            return Err(BridgeError::NotValidated);
        }
        let decoded = decode(payload)?;
        let asset = self.assets.resolve(&decoded.asset_key)?;
        if decoded.amount.is_zero() {
            return Err(BridgeError::InvalidAmount);
        }
        let action = match asset.mode {
            CustodyMode::MintBurn => CustodyAction::Mint,
            CustodyMode::LockUnlock => CustodyAction::Release,
        };
        let event = TokenReceived {
            receiver: decoded.receiver,
            source_chain: slice_to_vec(source_chain),
            asset_key: decoded.asset_key,
            local_identifier: copy_bytes(&asset.local_identifier),
            amount: decoded.amount.duplicate(),
        };
        Ok(ExecutePlan {
            action,
            token: asset.local_identifier,
            amount: decoded.amount,
            receiver: decoded.receiver,
            event,
        })
    }
}

/// One transfer: what a sender deposits and where it goes, and the address
/// the message arrives from at the other end.
pub struct Transfer {
    pub token: Seq<u8>,
    pub amount: nat,
    pub chain: Seq<u8>,
    pub key: Seq<u8>,
    pub receiver: Seq<u8>,
    pub source_address: Seq<u8>,
}

/// The units that sending `t` out of `origin` destroys.
pub open spec fn burned(origin: Bridge, t: Transfer) -> nat {
    if send_error(origin, t.token, t.amount, t.chain, t.key) is None && origin.assets()[t.key].mode
        == CustodyMode::MintBurn {
        t.amount
    } else {
        0
    }
}

/// The units that executing the payload of `t` at `dest` creates.
pub open spec fn minted(dest: Bridge, t: Transfer) -> nat {
    let p = wire(t.key, t.amount, t.receiver);
    if execute_error(dest, t.source_address, p, true) is None && dest.assets()[p.subrange(
        0,
        32,
    )].mode == CustodyMode::MintBurn {
        be_value(p.subrange(32, 64))
    } else {
        0
    }
}

/// The units destroyed by sending all of `ts` out of `origin`.
pub open spec fn total_burned(origin: Bridge, ts: Seq<Transfer>) -> nat
    decreases ts.len(),
{
    if ts.len() == 0 {
        0
    } else {
        total_burned(origin, ts.drop_last()) + burned(origin, ts.last())
    }
}

/// The units created by executing the payloads of all of `ts` at `dest`.
pub open spec fn total_minted(dest: Bridge, ts: Seq<Transfer>) -> nat
    decreases ts.len(),
{
    if ts.len() == 0 {
        0
    } else {
        total_minted(dest, ts.drop_last()) + minted(dest, ts.last())
    }
}

/// Supply is conserved for a mint-burn asset: when every transfer sent out
/// of `origin` has been executed at `dest`, with the asset in mint-burn
/// custody at both ends, the units created at `dest` equal the units
/// destroyed at `origin`.
pub proof fn lemma_supply_conserved(origin: Bridge, dest: Bridge, ts: Seq<Transfer>)
    requires
        forall|i: int|
            0 <= i < ts.len() ==> {
                let t = #[trigger] ts[i];
                &&& t.key.len() == 32
                &&& t.receiver.len() == 32
                &&& send_error(origin, t.token, t.amount, t.chain, t.key) is None
                &&& execute_error(dest, t.source_address, wire(t.key, t.amount, t.receiver), true)
                    is None
                &&& origin.assets()[t.key].mode == CustodyMode::MintBurn
                &&& dest.assets()[t.key].mode == CustodyMode::MintBurn
            },
    ensures
        total_minted(dest, ts) == total_burned(origin, ts),
    decreases ts.len(),
{
    if ts.len() > 0 {
        let rest = ts.drop_last();
        assert forall|i: int| 0 <= i < rest.len() implies {
            let t = #[trigger] rest[i];
            &&& t.key.len() == 32
            &&& t.receiver.len() == 32
            &&& send_error(origin, t.token, t.amount, t.chain, t.key) is None
            &&& execute_error(dest, t.source_address, wire(t.key, t.amount, t.receiver), true)
                is None
            &&& origin.assets()[t.key].mode == CustodyMode::MintBurn
            &&& dest.assets()[t.key].mode == CustodyMode::MintBurn
        } by {
            assert(rest[i] == ts[i]);
        }
        lemma_supply_conserved(origin, dest, rest);
        let t = ts.last();
        assert(t == ts[ts.len() - 1]);
        lemma_round_trip(t.key, t.amount, t.receiver);
    }
}

/// A send is refused when the destination chain is not linked, when the
/// asset key is not registered, or when the deposit is zero; a refusal
/// carries no plan, so nothing is burnt, held or dispatched.
pub proof fn lemma_send_fails_closed(
    b: Bridge,
    token: Seq<u8>,
    amount: nat,
    chain: Seq<u8>,
    key: Seq<u8>,
)
    requires
        !b.chain_addresses().contains_key(chain) || !b.assets().contains_key(key) || amount == 0,
    ensures
        send_error(b, token, amount, chain, key) is Some,
{
}

/// An execute that the gateway did not validate is refused, so nothing is
/// minted, released, delivered or notified.
pub proof fn lemma_unvalidated_execute_refused(b: Bridge, source_address: Seq<u8>, payload: Seq<u8>)
    ensures
        execute_error(b, source_address, payload, false) is Some,
{
}

} // verus!
