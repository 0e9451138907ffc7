use std::str::FromStr;

use spell_wallet::WalletError;
use spell_wallet::assembler::OutPoint;
use spell_wallet::assembler::SpellProver;
use spell_wallet::assembler::assemble_txs;
use spell_wallet::encoding::hex_encode;
use spell_wallet::spell::DocField;
use spell_wallet::spell::NormalizedSpell;
use spell_wallet::spell::SpellDoc;
use spell_wallet::spell::SpellInput;
use spell_wallet::spell::SpellOutput;
use spell_wallet::spell::normalize;
use spell_wallet::transaction::Tx;
use spell_wallet::transaction::TxIn;
use spell_wallet::transaction::TxOut;
use spell_wallet::transaction::compute_txid;
use spell_wallet::transaction::serialize_tx;

const DEST: &str = "tb1qw508d6qejxtdg4y5r3zarvary0c5xw7kxpjzsx";
const CHANGE: &str = "tb1qrp33g0q5c5txsp9arysrx4k6zdkfs4nce4xj0gdcccefvpysxf3q0sl5k7";
const KEY_HEX: &str = "79be667ef9dcbbac55a06295ce870b07029bfcdb2dce28d959f2815b16f81798";

fn key() -> Vec<u8> {
    hex::decode(KEY_HEX).unwrap()
}

fn funding() -> OutPoint {
    OutPoint {
        txid: vec![0x42; 32],
        vout: 0,
    }
}

fn simple_doc() -> SpellDoc {
    SpellDoc {
        fields: vec![
            DocField::App(String::from("X")),
            DocField::Inputs(Vec::new()),
            DocField::Outputs(vec![SpellOutput {
                dest: String::from(DEST),
                value: None,
                data: vec![b'a', b'b', b'c'],
            }]),
        ],
    }
}

fn simple_spell() -> NormalizedSpell {
    normalize(&simple_doc()).unwrap()
}

fn assemble_simple(funding_value: u64) -> Result<spell_wallet::assembler::AssemblyOutput, WalletError> {
    assemble_txs(
        &simple_spell(),
        &Vec::new(),
        &funding(),
        funding_value,
        CHANGE,
        2,
        &key(),
    )
}

#[test]
fn insufficient_funding_fails_with_invalid_amount() {
    let err = assemble_simple(100).unwrap_err();
    assert!(matches!(err, WalletError::InvalidAmount(_)));
    assert_eq!(err.message(), "insufficient funding value");
}

#[test]
fn funding_threshold_is_exact() {
    // Learn the required total from a comfortably funded run: everything
    // beyond it became the change output.
    let rich = assemble_simple(1_000_000).unwrap();
    assert_eq!(rich.commit_tx.outputs.len(), 2);
    let required = 1_000_000 - rich.commit_tx.outputs[1].value;
    // One unit below the required total: rejected, no transaction.
    let err = assemble_txs(
        &simple_spell(),
        &Vec::new(),
        &funding(),
        required - 1,
        CHANGE,
        2,
        &key(),
    )
    .unwrap_err();
    assert!(matches!(err, WalletError::InvalidAmount(_)));
    // Exactly the required total: accepted, remainder zero, no change.
    let exact = assemble_txs(
        &simple_spell(),
        &Vec::new(),
        &funding(),
        required,
        CHANGE,
        2,
        &key(),
    )
    .unwrap();
    assert_eq!(exact.commit_tx.outputs.len(), 1);
}

#[test]
fn change_is_omitted_below_dust_and_exact_above() {
    let rich = assemble_simple(1_000_000).unwrap();
    let required = 1_000_000 - rich.commit_tx.outputs[1].value;
    // A remainder one below the dust threshold is absorbed into the fee.
    let below = assemble_simple(required + 545).unwrap();
    assert_eq!(below.commit_tx.outputs.len(), 1);
    // A remainder at the threshold becomes a change output of exactly that value.
    let at = assemble_simple(required + 546).unwrap();
    assert_eq!(at.commit_tx.outputs.len(), 2);
    assert_eq!(at.commit_tx.outputs[1].value, 546);
    let change_script = bitcoin::Address::from_str(CHANGE)
        .unwrap()
        .assume_checked()
        .script_pubkey();
    assert_eq!(at.commit_tx.outputs[1].script_pubkey, change_script.as_bytes().to_vec());
}

#[test]
fn end_to_end_assembly() {
    let prover = SpellProver::new();
    let result = prover
        .prove_spell(&simple_doc(), &Vec::new(), &funding(), 100_000, CHANGE, 2, &key())
        .unwrap();
    let commit_bytes = hex::decode(&result.commit_tx).unwrap();
    let spell_bytes_wire = hex::decode(&result.spell_tx).unwrap();
    let commit: bitcoin::Transaction =
        bitcoin::consensus::deserialize(commit_bytes.as_slice()).unwrap();
    let spell: bitcoin::Transaction =
        bitcoin::consensus::deserialize(spell_bytes_wire.as_slice()).unwrap();

    // The spell transaction pays exactly one output, to the destination.
    assert_eq!(spell.output.len(), 1);
    let dest_script = bitcoin::Address::from_str(DEST)
        .unwrap()
        .assume_checked()
        .script_pubkey();
    assert_eq!(spell.output[0].script_pubkey, dest_script);
    assert_eq!(spell.output[0].value.to_sat(), 546);

    // The commit transaction spends the funding UTXO into a taproot output.
    assert_eq!(commit.input.len(), 1);
    assert!(commit.output[0].script_pubkey.is_p2tr());

    // The spell transaction's reveal input spends the commit transaction.
    let reveal = &spell.input[spell.input.len() - 1];
    assert_eq!(reveal.previous_output.txid, commit.compute_txid());
    assert_eq!(reveal.previous_output.vout, 0);

    // The control block verifies the leaf script against the commit output key.
    let secp = bitcoin::secp256k1::Secp256k1::new();
    let control_bytes = hex::decode(&result.control_block).unwrap();
    let control = bitcoin::taproot::ControlBlock::decode(control_bytes.as_slice()).unwrap();
    let script_bytes = hex::decode(&result.taproot_script).unwrap();
    let script = bitcoin::ScriptBuf::from_bytes(script_bytes);
    let spk = commit.output[0].script_pubkey.as_bytes();
    let output_key = bitcoin::XOnlyPublicKey::from_slice(&spk[2..]).unwrap();
    assert!(control.verify_taproot_commitment(&secp, output_key, &script));

    // The reveal witness carries the leaf script and the control block.
    assert_eq!(reveal.witness.len(), 2);
    assert_eq!(reveal.witness.nth(0).unwrap().to_vec(), script.as_bytes().to_vec());
    assert_eq!(reveal.witness.nth(1).unwrap().to_vec(), control_bytes);
}

fn prev_tx(value: u64) -> Tx {
    Tx {
        version: 2,
        inputs: vec![TxIn {
            txid: vec![0x07; 32],
            vout: 0,
            script_sig: Vec::new(),
            sequence: 0xffffffff,
            witness: Vec::new(),
        }],
        outputs: vec![
            TxOut {
                value: 1,
                script_pubkey: vec![0x51],
            },
            TxOut {
                value,
                script_pubkey: vec![0x51],
            },
        ],
        lock_time: 0,
    }
}

fn doc_with_input(prev: &Tx, vout: u32, output_value: u64) -> SpellDoc {
    let mut display = compute_txid(prev);
    display.reverse();
    SpellDoc {
        fields: vec![
            DocField::App(String::from("X")),
            DocField::Inputs(vec![SpellInput {
                txid: hex_encode(&display),
                vout,
                data: Vec::new(),
            }]),
            DocField::Outputs(vec![SpellOutput {
                dest: String::from(DEST),
                value: Some(output_value),
                data: Vec::new(),
            }]),
        ],
    }
}

#[test]
fn deficit_is_funded_through_the_commit_output() {
    let prev = prev_tx(5_000);
    let raw = serialize_tx(&prev);
    // Outputs exceed resolved inputs by 5000: the commit output carries at
    // least that deficit on top of the spell fee.
    let spell = normalize(&doc_with_input(&prev, 1, 10_000)).unwrap();
    let out = assemble_txs(&spell, &vec![raw.clone()], &funding(), 1_000_000, CHANGE, 2, &key())
        .unwrap();
    assert!(out.commit_tx.outputs[0].value > 5_000);
    // Inputs cover the outputs: the commit output only carries the fee.
    let covered = normalize(&doc_with_input(&prev, 1, 4_000)).unwrap();
    let out2 = assemble_txs(&covered, &vec![raw], &funding(), 1_000_000, CHANGE, 2, &key())
        .unwrap();
    assert!(out2.commit_tx.outputs[0].value < out.commit_tx.outputs[0].value);
}

#[test]
fn missing_previous_transaction_is_rejected() {
    let prev = prev_tx(5_000);
    let spell = normalize(&doc_with_input(&prev, 1, 1_000)).unwrap();
    let err = assemble_txs(&spell, &Vec::new(), &funding(), 1_000_000, CHANGE, 2, &key())
        .unwrap_err();
    assert!(matches!(err, WalletError::BitcoinError(_)));
    assert_eq!(err.message(), "previous output not found");
}

#[test]
fn out_of_range_previous_output_is_rejected() {
    let prev = prev_tx(5_000);
    let raw = serialize_tx(&prev);
    let spell = normalize(&doc_with_input(&prev, 9, 1_000)).unwrap();
    let err = assemble_txs(&spell, &vec![raw], &funding(), 1_000_000, CHANGE, 2, &key())
        .unwrap_err();
    assert!(matches!(err, WalletError::BitcoinError(_)));
    assert_eq!(err.message(), "previous output not found");
}

#[test]
fn undecodable_previous_transaction_is_rejected() {
    let prev = prev_tx(5_000);
    let spell = normalize(&doc_with_input(&prev, 1, 1_000)).unwrap();
    let err = assemble_txs(&spell, &vec![vec![1, 2, 3]], &funding(), 1_000_000, CHANGE, 2, &key())
        .unwrap_err();
    assert!(matches!(err, WalletError::BitcoinError(_)));
    assert_eq!(err.message(), "undecodable previous transaction");
}

#[test]
fn invalid_spell_fails_before_any_resolution() {
    // A document without an app identifier fails during validation: the
    // prover never needs previous transactions, a funding value or a key.
    let doc = SpellDoc {
        fields: vec![DocField::Outputs(vec![SpellOutput {
            dest: String::from(DEST),
            value: None,
            data: Vec::new(),
        }])],
    };
    let prover = SpellProver::new();
    let err = prover
        .prove_spell(&doc, &Vec::new(), &funding(), 0, "", 0, &Vec::new())
        .unwrap_err();
    assert!(matches!(err, WalletError::InvalidSpell(_)));
}

#[test]
fn required_txids_lists_the_spell_inputs() {
    let prev = prev_tx(5_000);
    let spell = normalize(&doc_with_input(&prev, 1, 1_000)).unwrap();
    let prover = SpellProver::new();
    let ids = prover.required_txids(&spell);
    assert_eq!(ids.len(), 1);
    assert_eq!(ids[0], compute_txid(&prev));
}
