use spell_wallet::WalletError;
use spell_wallet::payload::spell_bytes;
use spell_wallet::spell::DocField;
use spell_wallet::spell::NormalizedSpell;
use spell_wallet::spell::SpellDoc;
use spell_wallet::spell::SpellInput;
use spell_wallet::spell::SpellOutput;
use spell_wallet::spell::denormalize;
use spell_wallet::spell::normalize;

const DEST: &str = "tb1qw508d6qejxtdg4y5r3zarvary0c5xw7kxpjzsx";
const TXID_HEX: &str = "aabbccddeeff00112233445566778899aabbccddeeff00112233445566778899";

fn sample_doc() -> SpellDoc {
    SpellDoc {
        fields: vec![
            DocField::App(String::from("token-transfer")),
            DocField::Inputs(vec![SpellInput {
                txid: String::from(TXID_HEX),
                vout: 1,
                data: vec![1, 2, 3],
            }]),
            DocField::Outputs(vec![SpellOutput {
                dest: String::from(DEST),
                value: Some(700),
                data: vec![9, 8],
            }]),
        ],
    }
}

fn reordered_doc() -> SpellDoc {
    SpellDoc {
        fields: vec![
            DocField::Outputs(vec![SpellOutput {
                dest: String::from(DEST),
                value: Some(700),
                data: vec![9, 8],
            }]),
            DocField::Inputs(vec![SpellInput {
                txid: String::from(TXID_HEX),
                vout: 1,
                data: vec![1, 2, 3],
            }]),
            DocField::App(String::from("token-transfer")),
        ],
    }
}

fn assert_same_normalized(a: &NormalizedSpell, b: &NormalizedSpell) {
    assert_eq!(a.app, b.app);
    assert_eq!(a.inputs.len(), b.inputs.len());
    for (x, y) in a.inputs.iter().zip(b.inputs.iter()) {
        assert_eq!(x.txid, y.txid);
        assert_eq!(x.vout, y.vout);
        assert_eq!(x.data, y.data);
    }
    assert_eq!(a.outputs.len(), b.outputs.len());
    for (x, y) in a.outputs.iter().zip(b.outputs.iter()) {
        assert_eq!(x.dest, y.dest);
        assert_eq!(x.value, y.value);
        assert_eq!(x.data, y.data);
    }
}

#[test]
fn normalization_is_order_independent() {
    let a = normalize(&sample_doc()).unwrap();
    let b = normalize(&reordered_doc()).unwrap();
    assert_same_normalized(&a, &b);
    assert_eq!(spell_bytes(&a), spell_bytes(&b));
}

#[test]
fn normalization_is_idempotent() {
    let once = normalize(&sample_doc()).unwrap();
    let again = normalize(&denormalize(&once)).unwrap();
    assert_same_normalized(&once, &again);
    assert_eq!(spell_bytes(&once), spell_bytes(&again));
}

#[test]
fn declaration_order_of_inputs_and_outputs_is_preserved() {
    let doc = SpellDoc {
        fields: vec![
            DocField::App(String::from("x")),
            DocField::Outputs(vec![
                SpellOutput {
                    dest: String::from(DEST),
                    value: Some(100),
                    data: vec![1],
                },
                SpellOutput {
                    dest: String::from(DEST),
                    value: Some(200),
                    data: vec![2],
                },
            ]),
        ],
    };
    let spell = normalize(&doc).unwrap();
    assert_eq!(spell.outputs[0].value, 100);
    assert_eq!(spell.outputs[1].value, 200);
}

#[test]
fn txid_is_reversed_into_internal_order() {
    let spell = normalize(&sample_doc()).unwrap();
    let mut expected = hex::decode(TXID_HEX).unwrap();
    expected.reverse();
    assert_eq!(spell.inputs[0].txid, expected);
}

#[test]
fn missing_value_defaults_to_dust_threshold() {
    let doc = SpellDoc {
        fields: vec![
            DocField::App(String::from("x")),
            DocField::Outputs(vec![SpellOutput {
                dest: String::from(DEST),
                value: None,
                data: Vec::new(),
            }]),
        ],
    };
    let spell = normalize(&doc).unwrap();
    assert_eq!(spell.outputs[0].value, 546);
}

#[test]
fn zero_outputs_is_rejected() {
    let doc = SpellDoc {
        fields: vec![
            DocField::App(String::from("x")),
            DocField::Outputs(Vec::new()),
        ],
    };
    let err = normalize(&doc).unwrap_err();
    assert!(matches!(err, WalletError::InvalidSpell(_)));
    assert_eq!(err.message(), "spell declares no outputs");
}

#[test]
fn missing_outputs_field_is_rejected() {
    let doc = SpellDoc {
        fields: vec![DocField::App(String::from("x"))],
    };
    let err = normalize(&doc).unwrap_err();
    assert!(matches!(err, WalletError::InvalidSpell(_)));
    assert_eq!(err.message(), "spell declares no outputs");
}

#[test]
fn missing_app_is_rejected() {
    let doc = SpellDoc {
        fields: vec![DocField::Outputs(vec![SpellOutput {
            dest: String::from(DEST),
            value: None,
            data: Vec::new(),
        }])],
    };
    let err = normalize(&doc).unwrap_err();
    assert!(matches!(err, WalletError::InvalidSpell(_)));
    assert_eq!(err.message(), "missing app identifier");
}

#[test]
fn duplicate_app_is_rejected() {
    let doc = SpellDoc {
        fields: vec![
            DocField::App(String::from("x")),
            DocField::App(String::from("y")),
            DocField::Outputs(vec![SpellOutput {
                dest: String::from(DEST),
                value: None,
                data: Vec::new(),
            }]),
        ],
    };
    let err = normalize(&doc).unwrap_err();
    assert!(matches!(err, WalletError::InvalidSpell(_)));
    assert_eq!(err.message(), "duplicate app field");
}

#[test]
fn malformed_input_txid_is_rejected() {
    let doc = SpellDoc {
        fields: vec![
            DocField::App(String::from("x")),
            DocField::Inputs(vec![SpellInput {
                txid: String::from("not-a-txid"),
                vout: 0,
                data: Vec::new(),
            }]),
            DocField::Outputs(vec![SpellOutput {
                dest: String::from(DEST),
                value: None,
                data: Vec::new(),
            }]),
        ],
    };
    let err = normalize(&doc).unwrap_err();
    assert!(matches!(err, WalletError::InvalidSpell(_)));
    assert_eq!(err.message(), "malformed input transaction id");
}

#[test]
fn malformed_destination_is_rejected() {
    let doc = SpellDoc {
        fields: vec![
            DocField::App(String::from("x")),
            DocField::Outputs(vec![SpellOutput {
                dest: String::from("not an address"),
                value: None,
                data: Vec::new(),
            }]),
        ],
    };
    let err = normalize(&doc).unwrap_err();
    assert!(matches!(err, WalletError::InvalidAddress(_)));
}

#[test]
fn zero_output_value_is_rejected() {
    let doc = SpellDoc {
        fields: vec![
            DocField::App(String::from("x")),
            DocField::Outputs(vec![SpellOutput {
                dest: String::from(DEST),
                value: Some(0),
                data: Vec::new(),
            }]),
        ],
    };
    let err = normalize(&doc).unwrap_err();
    assert!(matches!(err, WalletError::InvalidAmount(_)));
}

#[test]
fn spell_bytes_exact_rendering() {
    let doc = SpellDoc {
        fields: vec![
            DocField::App(String::from("X")),
            DocField::Outputs(vec![SpellOutput {
                dest: String::from(DEST),
                value: None,
                data: vec![b'a', b'b', b'c'],
            }]),
        ],
    };
    let spell = normalize(&doc).unwrap();
    let bytes = spell_bytes(&spell);
    let mut expected: Vec<u8> = vec![1];
    expected.push(1);
    expected.push(b'X');
    expected.push(0);
    expected.push(1);
    expected.push(DEST.len() as u8);
    expected.extend_from_slice(DEST.as_bytes());
    expected.extend_from_slice(&546u64.to_le_bytes());
    expected.push(3);
    expected.extend_from_slice(b"abc");
    assert_eq!(bytes, expected);
}
