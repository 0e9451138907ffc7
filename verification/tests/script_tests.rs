use spell_wallet::WalletError;
use spell_wallet::script::data_script;
use spell_wallet::script::embed;
use spell_wallet::script::extract_payload;

// The x coordinate of the secp256k1 generator point: a valid x-only key.
const KEY_HEX: &str = "79be667ef9dcbbac55a06295ce870b07029bfcdb2dce28d959f2815b16f81798";

fn key() -> Vec<u8> {
    hex::decode(KEY_HEX).unwrap()
}

#[test]
fn embed_then_extract_recovers_payload() {
    let payload: Vec<u8> = b"abc".to_vec();
    let c = embed(&payload, &key()).unwrap();
    assert_eq!(extract_payload(&c.leaf_script), Some(payload));
}

#[test]
fn embed_then_extract_recovers_empty_payload() {
    let payload: Vec<u8> = Vec::new();
    let c = embed(&payload, &key()).unwrap();
    assert_eq!(extract_payload(&c.leaf_script), Some(payload));
}

#[test]
fn embed_then_extract_recovers_chunked_payload() {
    let payload: Vec<u8> = (0..1300u32).map(|i| (i % 251) as u8).collect();
    let c = embed(&payload, &key()).unwrap();
    assert_eq!(extract_payload(&c.leaf_script), Some(payload));
}

#[test]
fn embed_then_extract_recovers_large_payload() {
    let payload: Vec<u8> = (0..70000u32).map(|i| (i % 253) as u8).collect();
    let c = embed(&payload, &key()).unwrap();
    assert_eq!(extract_payload(&c.leaf_script), Some(payload));
}

#[test]
fn oversized_payload_is_rejected_before_building() {
    let payload: Vec<u8> = vec![0u8; 80001];
    let err = embed(&payload, &key()).unwrap_err();
    assert!(matches!(err, WalletError::SpellError(_)));
    assert_eq!(err.message(), "spell payload too large to embed");
}

#[test]
fn invalid_internal_key_is_rejected() {
    // All-ones exceeds the field prime, so it is no x coordinate.
    let bad_key: Vec<u8> = vec![0xff; 32];
    let err = embed(&vec![1, 2, 3], &bad_key).unwrap_err();
    assert!(matches!(err, WalletError::SpellError(_)));
    assert_eq!(err.message(), "invalid internal key");
}

#[test]
fn wrong_key_length_is_rejected() {
    let bad_key: Vec<u8> = vec![2; 31];
    let err = embed(&vec![1], &bad_key).unwrap_err();
    assert!(matches!(err, WalletError::SpellError(_)));
}

#[test]
fn extract_rejects_foreign_scripts() {
    assert_eq!(extract_payload(&vec![0x51]), None);
    assert_eq!(extract_payload(&Vec::new()), None);
    // A well-formed envelope with the closing byte cut off.
    let c = embed(&b"abc".to_vec(), &key()).unwrap();
    let mut truncated = c.leaf_script.clone();
    truncated.pop();
    assert_eq!(extract_payload(&truncated), None);
}

#[test]
fn leaf_script_shape_is_the_documented_envelope() {
    let payload: Vec<u8> = b"abc".to_vec();
    let script = data_script(&key(), &payload);
    let mut expected: Vec<u8> = vec![0x20];
    expected.extend_from_slice(&key());
    expected.extend_from_slice(&[0xac, 0x00, 0x63]);
    expected.extend_from_slice(&[0x05]);
    expected.extend_from_slice(b"spell");
    expected.push(3);
    expected.extend_from_slice(b"abc");
    expected.push(0x68);
    assert_eq!(script, expected);
}

#[test]
fn control_block_verifies_against_leaf_script() {
    let payload: Vec<u8> = b"some spell payload".to_vec();
    let c = embed(&payload, &key()).unwrap();
    let secp = bitcoin::secp256k1::Secp256k1::new();
    let control =
        bitcoin::taproot::ControlBlock::decode(c.control_block.as_slice()).unwrap();
    let script = bitcoin::ScriptBuf::from_bytes(c.leaf_script.clone());
    let output_key = bitcoin::XOnlyPublicKey::from_slice(c.output_key.as_slice()).unwrap();
    let tweaked = bitcoin::key::TweakedPublicKey::dangerous_assume_tweaked(output_key);
    assert!(control.verify_taproot_commitment(&secp, tweaked.to_inner(), &script));
}

#[test]
fn fresh_internal_key_embeds_successfully() {
    let fresh = spell_wallet::crypto::fresh_internal_key();
    assert_eq!(fresh.len(), 32);
    let c = embed(&b"xyz".to_vec(), &fresh).unwrap();
    assert_eq!(extract_payload(&c.leaf_script), Some(b"xyz".to_vec()));
}
