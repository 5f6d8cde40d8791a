use token_bridge::amount::Amount;
use token_bridge::assets::CustodyMode;
use token_bridge::bridge::{Bridge, CustodyAction, Deposit};
use token_bridge::error::BridgeError;

const OWNER: &[u8] = b"owner";
const USER: &[u8] = b"user";
const GATEWAY: &[u8] = b"gateway";
const TOKEN: &[u8] = b"TKN-123456";
const CHAIN: &[u8] = b"X";

fn chain_address() -> Vec<u8> {
    vec![0xCC; 20]
}

fn bridge_with(mode: CustodyMode) -> Bridge {
    let mut b = Bridge::init(OWNER, GATEWAY);
    b.add_known_token(OWNER, &[0xA1; 32], TOKEN, mode).unwrap();
    b.add_known_chain(OWNER, CHAIN, &chain_address()).unwrap();
    b
}

fn deposit(token: &[u8], amount: u64) -> Deposit {
    Deposit { token: token.to_vec(), amount: Amount::from_u64(amount) }
}

#[test]
fn send_lock_unlock_holds_and_builds_payload() {
    let b = bridge_with(CustodyMode::LockUnlock);
    let plan = b.send_token(USER, &deposit(TOKEN, 100), CHAIN, &[0xA1; 32], &[0x52; 32]).unwrap();
    assert_eq!(plan.action, CustodyAction::Hold);
    assert_eq!(plan.token, TOKEN.to_vec());
    assert_eq!(plan.amount.to_be_bytes(), vec![100u8]);
    assert_eq!(plan.destination_chain, CHAIN.to_vec());
    assert_eq!(plan.destination_address, chain_address());
    assert_eq!(plan.payload.len(), 96);
    assert_eq!(&plan.payload[0..32], &[0xA1; 32][..]);
    let mut field = [0u8; 32];
    field[31] = 100;
    assert_eq!(&plan.payload[32..64], &field[..]);
    assert_eq!(&plan.payload[64..96], &[0x52; 32][..]);
    assert_eq!(plan.event.sender, USER.to_vec());
    assert_eq!(plan.event.destination_chain, CHAIN.to_vec());
    assert_eq!(plan.event.receiver_address, [0x52; 32]);
    assert_eq!(plan.event.asset_key, [0xA1; 32]);
    assert_eq!(plan.event.local_identifier, TOKEN.to_vec());
    assert_eq!(plan.event.amount.to_be_bytes(), vec![100u8]);
}

#[test]
fn execute_lock_unlock_releases_to_receiver() {
    let b = bridge_with(CustodyMode::LockUnlock);
    let sent = b.send_token(USER, &deposit(TOKEN, 100), CHAIN, &[0xA1; 32], &[0x52; 32]).unwrap();
    let plan = b.execute(CHAIN, &chain_address(), &sent.payload, true).unwrap();
    assert_eq!(plan.action, CustodyAction::Release);
    assert_eq!(plan.receiver, [0x52; 32]);
    assert_eq!(plan.token, TOKEN.to_vec());
    assert_eq!(plan.amount.to_be_bytes(), vec![100u8]);
    assert_eq!(plan.event.receiver, [0x52; 32]);
    assert_eq!(plan.event.source_chain, CHAIN.to_vec());
    assert_eq!(plan.event.asset_key, [0xA1; 32]);
    assert_eq!(plan.event.local_identifier, TOKEN.to_vec());
    assert_eq!(plan.event.amount.to_be_bytes(), vec![100u8]);
}

#[test]
fn mint_burn_burns_on_send_and_mints_on_execute() {
    let b = bridge_with(CustodyMode::MintBurn);
    let sent = b.send_token(USER, &deposit(TOKEN, 5000), CHAIN, &[0xA1; 32], &[1; 32]).unwrap();
    assert_eq!(sent.action, CustodyAction::Burn);
    let got = b.execute(b"Y", &chain_address(), &sent.payload, true).unwrap();
    assert_eq!(got.action, CustodyAction::Mint);
    assert_eq!(got.amount.to_be_bytes(), sent.amount.to_be_bytes());
    assert_eq!(got.event.source_chain, b"Y".to_vec());
}

#[test]
fn send_to_unknown_chain_fails() {
    let b = bridge_with(CustodyMode::LockUnlock);
    let r = b.send_token(USER, &deposit(TOKEN, 1), b"Z", &[0xA1; 32], &[1; 32]);
    assert!(matches!(r, Err(BridgeError::UnknownChain)));
}

#[test]
fn send_with_unknown_asset_fails() {
    let b = bridge_with(CustodyMode::LockUnlock);
    let r = b.send_token(USER, &deposit(TOKEN, 1), CHAIN, &[0xA2; 32], &[1; 32]);
    assert!(matches!(r, Err(BridgeError::UnknownAsset)));
}

#[test]
fn send_of_zero_fails() {
    let b = bridge_with(CustodyMode::MintBurn);
    let r = b.send_token(USER, &deposit(TOKEN, 0), CHAIN, &[0xA1; 32], &[1; 32]);
    assert!(matches!(r, Err(BridgeError::InvalidAmount)));
}

#[test]
fn send_of_other_token_fails() {
    let b = bridge_with(CustodyMode::LockUnlock);
    let r = b.send_token(USER, &deposit(b"OTHER-000000", 10), CHAIN, &[0xA1; 32], &[1; 32]);
    assert!(matches!(r, Err(BridgeError::AssetMismatch)));
}

#[test]
fn send_of_huge_amount_overflows() {
    let b = bridge_with(CustodyMode::LockUnlock);
    let mut bytes = vec![0xffu8; 33];
    bytes[0] = 1;
    let d = Deposit { token: TOKEN.to_vec(), amount: Amount::from_be_bytes(&bytes) };
    let r = b.send_token(USER, &d, CHAIN, &[0xA1; 32], &[1; 32]);
    assert!(matches!(r, Err(BridgeError::AmountOverflow)));
}

fn payload(key: [u8; 32], amount: u8, receiver: [u8; 32]) -> Vec<u8> {
    let mut p = key.to_vec();
    let mut field = [0u8; 32];
    field[31] = amount;
    p.extend_from_slice(&field);
    p.extend_from_slice(&receiver);
    p
}

#[test]
fn execute_from_unknown_address_fails() {
    let b = bridge_with(CustodyMode::LockUnlock);
    let r = b.execute(CHAIN, &[0xDD; 20], &payload([0xA1; 32], 1, [2; 32]), true);
    assert!(matches!(r, Err(BridgeError::UnknownChain)));
}

#[test]
fn execute_not_validated_fails() {
    let b = bridge_with(CustodyMode::MintBurn);
    let r = b.execute(CHAIN, &chain_address(), &payload([0xA1; 32], 1, [2; 32]), false);
    assert!(matches!(r, Err(BridgeError::NotValidated)));
}

#[test]
fn execute_short_payload_fails() {
    let b = bridge_with(CustodyMode::MintBurn);
    let r = b.execute(CHAIN, &chain_address(), &[0xA1; 95], true);
    assert!(matches!(r, Err(BridgeError::MalformedPayload)));
}

#[test]
fn execute_unknown_asset_fails() {
    let b = bridge_with(CustodyMode::MintBurn);
    let r = b.execute(CHAIN, &chain_address(), &payload([0xA3; 32], 1, [2; 32]), true);
    assert!(matches!(r, Err(BridgeError::UnknownAsset)));
}

#[test]
fn execute_zero_amount_fails() {
    let b = bridge_with(CustodyMode::MintBurn);
    let r = b.execute(CHAIN, &chain_address(), &payload([0xA1; 32], 0, [2; 32]), true);
    assert!(matches!(r, Err(BridgeError::InvalidAmount)));
}

#[test]
fn only_owner_administers() {
    let mut b = Bridge::init(OWNER, GATEWAY);
    assert_eq!(b.gateway(), GATEWAY.to_vec());
    assert_eq!(
        b.add_known_token(USER, &[1; 32], TOKEN, CustodyMode::MintBurn),
        Err(BridgeError::Unauthorized)
    );
    assert!(matches!(b.known_token(&[1; 32]), Err(BridgeError::UnknownAsset)));
    assert_eq!(b.add_known_chain(USER, CHAIN, b"addr"), Err(BridgeError::Unauthorized));
    assert!(matches!(b.known_chain_address(CHAIN), Err(BridgeError::UnknownChain)));
    b.add_known_chain(OWNER, CHAIN, b"addr").unwrap();
    assert_eq!(b.remove_known_chain(USER, CHAIN), Err(BridgeError::Unauthorized));
    assert_eq!(b.known_chain_address(CHAIN), Ok(b"addr".to_vec()));
    b.add_known_token(OWNER, &[1; 32], TOKEN, CustodyMode::MintBurn).unwrap();
    assert_eq!(b.remove_known_token(USER, &[1; 32]), Err(BridgeError::Unauthorized));
    assert!(b.known_token(&[1; 32]).is_ok());
}

#[test]
fn token_registration_overwrites_and_removes() {
    let mut b = Bridge::init(OWNER, GATEWAY);
    b.add_known_token(OWNER, &[1; 32], b"A-1", CustodyMode::MintBurn).unwrap();
    b.add_known_token(OWNER, &[2; 32], b"B-2", CustodyMode::LockUnlock).unwrap();
    b.add_known_token(OWNER, &[1; 32], b"C-3", CustodyMode::LockUnlock).unwrap();
    let a = b.known_token(&[1; 32]).unwrap();
    assert_eq!(a.local_identifier, b"C-3".to_vec());
    assert_eq!(a.mode, CustodyMode::LockUnlock);
    b.remove_known_token(OWNER, &[1; 32]).unwrap();
    assert!(matches!(b.known_token(&[1; 32]), Err(BridgeError::UnknownAsset)));
    b.remove_known_token(OWNER, &[1; 32]).unwrap();
    let other = b.known_token(&[2; 32]).unwrap();
    assert_eq!(other.local_identifier, b"B-2".to_vec());
}

#[test]
fn chain_link_is_symmetric_and_unlink_clears_both() {
    let mut b = Bridge::init(OWNER, GATEWAY);
    b.add_known_chain(OWNER, b"ethereum", b"0xabc").unwrap();
    assert_eq!(b.known_chain_address(b"ethereum"), Ok(b"0xabc".to_vec()));
    assert_eq!(b.known_chain_name(b"0xabc"), Ok(b"ethereum".to_vec()));
    b.remove_known_chain(OWNER, b"ethereum").unwrap();
    assert_eq!(b.known_chain_address(b"ethereum"), Err(BridgeError::UnknownChain));
    assert_eq!(b.known_chain_name(b"0xabc"), Err(BridgeError::UnknownChain));
    b.remove_known_chain(OWNER, b"never").unwrap();
}

#[test]
fn relinking_an_address_moves_its_name() {
    let mut b = Bridge::init(OWNER, GATEWAY);
    b.add_known_chain(OWNER, b"a", b"x").unwrap();
    b.add_known_chain(OWNER, b"b", b"x").unwrap();
    assert_eq!(b.known_chain_name(b"x"), Ok(b"b".to_vec()));
    assert_eq!(b.known_chain_address(b"a"), Ok(b"x".to_vec()));
}

#[test]
fn supply_conserved_over_several_transfers() {
    let origin = bridge_with(CustodyMode::MintBurn);
    let dest = bridge_with(CustodyMode::MintBurn);
    let mut burned: u64 = 0;
    let mut minted: u64 = 0;
    for amount in [1u64, 250, 70000, 123456789] {
        let sent = origin.send_token(USER, &deposit(TOKEN, amount), CHAIN, &[0xA1; 32], &[3; 32]).unwrap();
        assert_eq!(sent.action, CustodyAction::Burn);
        burned += amount;
        let got = dest.execute(CHAIN, &chain_address(), &sent.payload, true).unwrap();
        assert_eq!(got.action, CustodyAction::Mint);
        let mut v: u64 = 0;
        for byte in got.amount.to_be_bytes() {
            v = v * 256 + byte as u64;
        }
        minted += v;
    }
    assert_eq!(burned, minted);
}
