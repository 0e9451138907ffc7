use spell_wallet::transaction::Tx;
use spell_wallet::transaction::TxIn;
use spell_wallet::transaction::TxOut;
use spell_wallet::transaction::compute_txid;
use spell_wallet::transaction::parse_tx;
use spell_wallet::transaction::serialize_tx;
use spell_wallet::transaction::serialize_tx_nonwitness;

fn sample_tx() -> Tx {
    Tx {
        version: 2,
        inputs: vec![
            TxIn {
                txid: vec![0x11; 32],
                vout: 3,
                script_sig: Vec::new(),
                sequence: 0xffffffff,
                witness: Vec::new(),
            },
            TxIn {
                txid: vec![0x22; 32],
                vout: 0,
                script_sig: vec![0x51],
                sequence: 0xfffffffd,
                witness: vec![vec![0xaa, 0xbb], vec![0xcc]],
            },
        ],
        outputs: vec![
            TxOut {
                value: 50_000,
                script_pubkey: vec![0x00, 0x14, 0x75, 0x1e, 0x76, 0xe8, 0x19, 0x91, 0x96, 0xd4,
                    0x54, 0x94, 0x1c, 0x45, 0xd1, 0xb3, 0xa3, 0x23, 0xf1, 0x43, 0x3b, 0xd6],
            },
        ],
        lock_time: 101,
    }
}

fn assert_tx_eq(a: &Tx, b: &Tx) {
    assert_eq!(a.version, b.version);
    assert_eq!(a.lock_time, b.lock_time);
    assert_eq!(a.inputs.len(), b.inputs.len());
    for (x, y) in a.inputs.iter().zip(b.inputs.iter()) {
        assert_eq!(x.txid, y.txid);
        assert_eq!(x.vout, y.vout);
        assert_eq!(x.script_sig, y.script_sig);
        assert_eq!(x.sequence, y.sequence);
        assert_eq!(x.witness, y.witness);
    }
    assert_eq!(a.outputs.len(), b.outputs.len());
    for (x, y) in a.outputs.iter().zip(b.outputs.iter()) {
        assert_eq!(x.value, y.value);
        assert_eq!(x.script_pubkey, y.script_pubkey);
    }
}

#[test]
fn serialize_then_parse_round_trips() {
    let tx = sample_tx();
    let bytes = serialize_tx(&tx);
    let parsed = parse_tx(&bytes).unwrap();
    assert_tx_eq(&tx, &parsed);
}

#[test]
fn serialization_agrees_with_reference_crate() {
    let tx = sample_tx();
    let bytes = serialize_tx(&tx);
    let reference: bitcoin::Transaction =
        bitcoin::consensus::deserialize(bytes.as_slice()).unwrap();
    assert_eq!(reference.version.0, 2);
    assert_eq!(reference.lock_time.to_consensus_u32(), 101);
    assert_eq!(reference.input.len(), 2);
    assert_eq!(reference.output.len(), 1);
    assert_eq!(reference.input[0].previous_output.vout, 3);
    assert_eq!(reference.input[1].witness.len(), 2);
    assert_eq!(reference.output[0].value.to_sat(), 50_000);
    // Re-encoding through the reference crate gives the same bytes.
    let reencoded = bitcoin::consensus::serialize(&reference);
    assert_eq!(bytes, reencoded);
}

#[test]
fn txid_agrees_with_reference_crate() {
    let tx = sample_tx();
    let bytes = serialize_tx(&tx);
    let reference: bitcoin::Transaction =
        bitcoin::consensus::deserialize(bytes.as_slice()).unwrap();
    let mut ours_display = compute_txid(&tx);
    ours_display.reverse();
    assert_eq!(hex::encode(&ours_display), reference.compute_txid().to_string());
}

#[test]
fn legacy_serialization_has_no_witness_data() {
    let tx = sample_tx();
    let legacy = serialize_tx_nonwitness(&tx);
    let wire = serialize_tx(&tx);
    assert!(legacy.len() < wire.len());
    assert_eq!(wire[4], 0x00);
    assert_eq!(wire[5], 0x01);
    assert_ne!(legacy[4], 0x00);
}

#[test]
fn witness_free_tx_serializes_in_legacy_form() {
    let mut tx = sample_tx();
    tx.inputs[1].witness = Vec::new();
    assert_eq!(serialize_tx(&tx), serialize_tx_nonwitness(&tx));
}

#[test]
fn parse_rejects_trailing_bytes() {
    let tx = sample_tx();
    let mut bytes = serialize_tx(&tx);
    bytes.push(0);
    assert!(parse_tx(&bytes).is_none());
}

#[test]
fn parse_rejects_truncated_bytes() {
    let tx = sample_tx();
    let mut bytes = serialize_tx(&tx);
    bytes.pop();
    assert!(parse_tx(&bytes).is_none());
    assert!(parse_tx(&vec![0x02, 0x00]).is_none());
    assert!(parse_tx(&Vec::new()).is_none());
}
