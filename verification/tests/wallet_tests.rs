use spell_wallet::WalletError;
use spell_wallet::encoding::hex_encode;
use spell_wallet::transaction::Tx;
use spell_wallet::transaction::TxIn;
use spell_wallet::transaction::TxOut;
use spell_wallet::transaction::serialize_tx;
use spell_wallet::wallet::UtxoEntry;
use spell_wallet::wallet::get_change_address;
use spell_wallet::wallet::parse_outpoint;
use spell_wallet::wallet::parse_transaction_hex;
use spell_wallet::wallet::sum_balances;

const TXID_HEX: &str = "aabbccddeeff00112233445566778899aabbccddeeff00112233445566778899";

#[test]
fn parse_outpoint_reverses_the_txid() {
    let outpoint = parse_outpoint(&format!("{}:7", TXID_HEX)).unwrap();
    let mut expected = hex::decode(TXID_HEX).unwrap();
    expected.reverse();
    assert_eq!(outpoint.txid, expected);
    assert_eq!(outpoint.vout, 7);
}

#[test]
fn parse_outpoint_accepts_the_largest_index() {
    let outpoint = parse_outpoint(&format!("{}:4294967295", TXID_HEX)).unwrap();
    assert_eq!(outpoint.vout, u32::MAX);
}

#[test]
fn parse_outpoint_rejects_malformed_strings() {
    let err = parse_outpoint("no colon here").unwrap_err();
    assert!(matches!(err, WalletError::BitcoinError(_)));
    assert_eq!(err.message(), "invalid outpoint: expected txid:vout");
    assert_eq!(
        parse_outpoint("abcd:0").unwrap_err().message(),
        "invalid transaction id in outpoint"
    );
    assert_eq!(
        parse_outpoint(&format!("{}:x", TXID_HEX)).unwrap_err().message(),
        "invalid output index in outpoint"
    );
    assert!(matches!(
        parse_outpoint(&format!("{}:1:2", TXID_HEX)).unwrap_err(),
        WalletError::BitcoinError(_)
    ));
    assert!(matches!(
        parse_outpoint("abcd:0").unwrap_err(),
        WalletError::BitcoinError(_)
    ));
    assert!(matches!(
        parse_outpoint(&format!("{}:x", TXID_HEX)).unwrap_err(),
        WalletError::BitcoinError(_)
    ));
    assert!(matches!(
        parse_outpoint(&format!("{}:", TXID_HEX)).unwrap_err(),
        WalletError::BitcoinError(_)
    ));
    assert!(matches!(
        parse_outpoint(&format!("{}:4294967296", TXID_HEX)).unwrap_err(),
        WalletError::BitcoinError(_)
    ));
}

#[test]
fn change_address_is_validated() {
    let good = "tb1qw508d6qejxtdg4y5r3zarvary0c5xw7kxpjzsx";
    assert_eq!(get_change_address(good).unwrap(), good);
    assert!(matches!(
        get_change_address("certainly not an address").unwrap_err(),
        WalletError::InvalidAddress(_)
    ));
}

#[test]
fn transaction_hex_round_trips() {
    let tx = Tx {
        version: 1,
        inputs: vec![TxIn {
            txid: vec![9; 32],
            vout: 2,
            script_sig: Vec::new(),
            sequence: 0xffffffff,
            witness: Vec::new(),
        }],
        outputs: vec![TxOut {
            value: 1234,
            script_pubkey: vec![0x51],
        }],
        lock_time: 0,
    };
    let bytes = serialize_tx(&tx);
    let parsed = parse_transaction_hex(&hex_encode(&bytes)).unwrap();
    assert_eq!(serialize_tx(&parsed), bytes);
}

#[test]
fn transaction_hex_failures_are_classified() {
    assert!(matches!(
        parse_transaction_hex("zz").unwrap_err(),
        WalletError::BitcoinError(_)
    ));
    assert!(matches!(
        parse_transaction_hex("0102").unwrap_err(),
        WalletError::BitcoinError(_)
    ));
}

#[test]
fn balances_split_by_confirmation() {
    let utxos = vec![
        UtxoEntry { value: 100, confirmed: true },
        UtxoEntry { value: 25, confirmed: false },
        UtxoEntry { value: 7, confirmed: true },
        UtxoEntry { value: 3, confirmed: false },
    ];
    let (confirmed, unconfirmed) = sum_balances(&utxos);
    assert_eq!(confirmed, 107);
    assert_eq!(unconfirmed, 28);
}

#[test]
fn balances_of_nothing_are_zero() {
    let (confirmed, unconfirmed) = sum_balances(&Vec::new());
    assert_eq!(confirmed, 0);
    assert_eq!(unconfirmed, 0);
}
