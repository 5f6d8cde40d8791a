//! The 96-byte wire payload: asset key, amount, receiver.
use vstd::prelude::*;

use crate::amount::{
    be_fixed, be_value, canonical, lemma_be_fixed_of_value, lemma_be_value_of_fixed,
    lemma_be_value_zero_prefix, lemma_canonical_fits, pow256, Amount,
};
use crate::error::BridgeError;

verus! {

/// Length of a wire payload in bytes.
pub const PAYLOAD_LEN: usize = 96;

/// Length of each of the payload's three fields in bytes.
pub const FIELD_LEN: usize = 32;

/// The largest amount a payload carries is `2^256 - 1`, i.e. below `256^32`.
pub open spec fn fits_field(v: nat) -> bool {
    v < pow256(32)
}

/// The field bound `256^32` is `2^256`.
pub proof fn lemma_field_bound()
    ensures
        pow256(32) == 115792089237316195423570985008687907853269984665640564039457584007913129639936nat,
{
    reveal_with_fuel(pow256, 33);
}

/// The payload for `key`, amount `v` and `receiver`: the key, then `v` as 32
/// big-endian bytes with zeros on the high-order side, then the receiver.
pub open spec fn wire(key: Seq<u8>, v: nat, receiver: Seq<u8>) -> Seq<u8> {
    key + be_fixed(v, 32) + receiver
}

/// The fields read back from a payload.
pub struct Payload {
    pub asset_key: [u8; 32],
    pub amount: Amount,
    pub receiver: [u8; 32],
}

/// The amount as exactly 32 big-endian bytes, zero-filled on the left, or
/// `AmountOverflow` when it needs more than 32 bytes.
pub fn pad_amount(amount: &Amount) -> (r: Result<[u8; 32], BridgeError>)
    ensures
        r is Ok <==> fits_field(amount@),
        r matches Ok(b) ==> b@ == be_fixed(amount@, 32),
        r matches Err(e) ==> e == BridgeError::AmountOverflow,
{
    let bytes = amount.to_be_bytes();
    proof {
        lemma_canonical_fits(bytes@, 32);
    }
    if bytes.len() > FIELD_LEN {
        return Err(BridgeError::AmountOverflow);
    }
    let start: usize = FIELD_LEN - bytes.len();
    let mut padded: [u8; 32] = [0u8; 32];
    let mut i: usize = 0;
    while i < bytes.len()
        invariant
            bytes@.len() <= 32,
            start == 32 - bytes@.len(),
            i <= bytes@.len(),
            padded@.len() == 32,
            forall|j: int| 0 <= j < start ==> padded@[j] == 0,
            forall|j: int| 0 <= j < i ==> padded@[start + j] == bytes@[j],
        decreases bytes.len() - i,
    {
        padded[start + i] = bytes[i];
        i = i + 1;
    }
    proof {
        let z = padded@.subrange(0, start as int);
        assert(padded@ =~= z + bytes@);
        lemma_be_value_zero_prefix(z, bytes@);
        lemma_be_fixed_of_value(padded@);
    }
    Ok(padded)
}

/// The payload for `asset_key`, `amount` and `receiver`, or `AmountOverflow`
/// when the amount does not fit in 32 bytes.
pub fn encode(asset_key: &[u8; 32], amount: &Amount, receiver: &[u8; 32]) -> (r: Result<
    Vec<u8>,
    BridgeError,
>)
    ensures
        r is Ok <==> fits_field(amount@),
        r matches Ok(p) ==> p@ == wire(asset_key@, amount@, receiver@),
        r matches Err(e) ==> e == BridgeError::AmountOverflow,
{
    let padded = pad_amount(amount)?;
    let mut out: Vec<u8> = Vec::new();
    append_field(&mut out, asset_key);
    append_field(&mut out, &padded);
    append_field(&mut out, receiver);
    assert(out@ =~= wire(asset_key@, amount@, receiver@));
    Ok(out)
}

fn append_field(out: &mut Vec<u8>, field: &[u8; 32])
    ensures
        final(out)@ == old(out)@ + field@,
{
    let mut i: usize = 0;
    while i < FIELD_LEN
        invariant
            i <= 32,
            field@.len() == 32,
            out@ == old(out)@ + field@.subrange(0, i as int),
        decreases 32 - i,
    {
        out.push(field[i]);
        i = i + 1;
        assert(out@ =~= old(out)@ + field@.subrange(0, i as int));
    }
    assert(field@.subrange(0, 32) =~= field@);
}

fn read_field(payload: &[u8], at: usize) -> (r: [u8; 32])
    requires
        at + 32 <= payload@.len(),
    ensures
        r@ == payload@.subrange(at as int, at + 32),
{
    let n: usize = payload.len();
    let mut field: [u8; 32] = [0u8; 32];
    let mut i: usize = 0;
    while i < FIELD_LEN
        invariant
            i <= 32,
            n == payload@.len(),
            at + 32 <= payload@.len(),
            field@.len() == 32,
            forall|j: int| 0 <= j < i ==> field@[j] == payload@[at + j],
        decreases 32 - i,
    {
        field[i] = payload[at + i];
        i = i + 1;
    }
    assert(field@ =~= payload@.subrange(at as int, at + 32));
    field
}

/// The asset key, amount and receiver that `payload` carries, or
/// `MalformedPayload` when it is shorter than 96 bytes. Bytes past the
/// 96th are ignored.
pub fn decode(payload: &[u8]) -> (r: Result<Payload, BridgeError>)
    ensures
        r is Ok <==> payload@.len() >= 96,
        r matches Ok(d) ==> {
            &&& d.asset_key@ == payload@.subrange(0, 32)
            &&& d.amount@ == be_value(payload@.subrange(32, 64))
            &&& d.receiver@ == payload@.subrange(64, 96)
        },
        r matches Err(e) ==> e == BridgeError::MalformedPayload,
{
    if payload.len() < PAYLOAD_LEN {
        return Err(BridgeError::MalformedPayload);
    }
    let asset_key = read_field(payload, 0);
    let amount_field = read_field(payload, 32);
    let amount = Amount::from_be_bytes(&amount_field);
    let receiver = read_field(payload, 64);
    Ok(Payload { asset_key, amount, receiver })
}

/// Decoding an encoded payload gives back the key, the amount and the
/// receiver, for every amount that fits in 32 bytes.
pub proof fn lemma_round_trip(key: Seq<u8>, v: nat, receiver: Seq<u8>)
    requires
        key.len() == 32,
        receiver.len() == 32,
        fits_field(v),
    ensures
        wire(key, v, receiver).len() == 96,
        wire(key, v, receiver).subrange(0, 32) == key,
        be_value(wire(key, v, receiver).subrange(32, 64)) == v,
        wire(key, v, receiver).subrange(64, 96) == receiver,
{
    lemma_be_value_of_fixed(v, 32);
    let w = wire(key, v, receiver);
    assert(w.subrange(0, 32) =~= key);
    assert(w.subrange(32, 64) =~= be_fixed(v, 32));
    assert(w.subrange(64, 96) =~= receiver);
}

} // verus!
