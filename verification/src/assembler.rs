//! The assembler: from a normalized spell and a funding UTXO to the pair of
//! chained unsigned transactions.
//!
//! The pipeline is linear: canonical payload, taproot embedding, the spell
//! transaction's shape, fee and funding arithmetic, the commit transaction,
//! and finally the spell transaction spending the commit output by
//! script-path reveal. Every failure is classified and aborts the run; no
//! partial result is ever returned.

use vstd::prelude::*;

use crate::WalletError;
use crate::WalletResult;
use crate::crypto::spec_address_script;
use crate::crypto::spec_taproot_tweak;
use crate::crypto::spec_xonly_key_valid;
use crate::fees::spec_estimated_fee;
use crate::payload::spec_spell_bytes;
use crate::script::MAX_PAYLOAD;
use crate::script::spec_data_script;
use crate::spell::DUST_THRESHOLD;
use crate::spell::InputModel;
use crate::spell::OutputModel;
use crate::spell::SpellModel;
use crate::spell::spell_addresses_valid;
use crate::transaction::TxInModel;
use crate::transaction::TxModel;
use crate::transaction::TxOutModel;
use crate::transaction::spec_parse_tx;
use crate::transaction::spec_txid;

verus! {

/// The sequence number given to every input of the assembled transactions.
pub const INPUT_SEQUENCE: u32 = 0xffffffff;

/// A spendable output: a transaction id in internal byte order and an
/// output index.
#[derive(Debug)]
pub struct OutPoint {
    pub txid: Vec<u8>,
    pub vout: u32,
}

/// Mathematical model of an outpoint.
pub ghost struct OutPointModel {
    pub txid: Seq<u8>,
    pub vout: u32,
}

impl View for OutPoint {
    type V = OutPointModel;

    open spec fn view(&self) -> OutPointModel {
        OutPointModel { txid: self.txid@, vout: self.vout }
    }
}

/// The all-zero transaction id used as a placeholder while the commit
/// transaction, and with it the real id, is not built yet.
pub open spec fn spec_zero_txid() -> Seq<u8> {
    Seq::new(32, |i: int| 0u8)
}

/// The spell transaction's inputs drawn from the spell itself: one per
/// declared input reference, in declaration order, unsigned.
pub open spec fn spec_skeleton_inputs(ins: Seq<InputModel>) -> Seq<TxInModel> {
    Seq::new(
        ins.len(),
        |i: int|
            TxInModel {
                txid: ins[i].txid,
                vout: ins[i].vout,
                script_sig: Seq::<u8>::empty(),
                sequence: INPUT_SEQUENCE,
                witness: Seq::<Seq<u8>>::empty(),
            },
    )
}

/// The spell transaction's outputs: one per declared output descriptor, in
/// declaration order, paying the destination's script.
pub open spec fn spec_skeleton_outputs(outs: Seq<OutputModel>) -> Seq<TxOutModel> {
    Seq::new(
        outs.len(),
        |i: int|
            TxOutModel {
                value: outs[i].value,
                script_pubkey: spec_address_script(outs[i].dest).unwrap(),
            },
    )
}

/// The reveal input: it spends the commit transaction's first output, and
/// its witness carries the leaf script and the control block.
pub open spec fn spec_reveal_input(commit_txid: Seq<u8>, leaf: Seq<u8>, control: Seq<u8>) -> TxInModel {
    TxInModel {
        txid: commit_txid,
        vout: 0,
        script_sig: Seq::<u8>::empty(),
        sequence: INPUT_SEQUENCE,
        witness: seq![leaf, control],
    }
}

/// The spell transaction: the skeleton inputs, the reveal input appended
/// last, and the skeleton outputs.
pub open spec fn spec_spell_tx(
    m: SpellModel,
    commit_txid: Seq<u8>,
    leaf: Seq<u8>,
    control: Seq<u8>,
) -> TxModel {
    TxModel {
        version: 2,
        inputs: spec_skeleton_inputs(m.inputs).push(spec_reveal_input(commit_txid, leaf, control)),
        outputs: spec_skeleton_outputs(m.outputs),
        lock_time: 0,
    }
}

/// The taproot output script locking to the tweaked output key.
pub open spec fn spec_commit_output_script(output_key: Seq<u8>) -> Seq<u8> {
    seq![0x51u8, 0x20u8] + output_key
}

/// The funding UTXO as a transaction input.
pub open spec fn spec_funding_input(f: OutPointModel) -> TxInModel {
    TxInModel {
        txid: f.txid,
        vout: f.vout,
        script_sig: Seq::<u8>::empty(),
        sequence: INPUT_SEQUENCE,
        witness: Seq::<Seq<u8>>::empty(),
    }
}

/// The commit transaction sized for fee purposes: funding input, taproot
/// output and change output, values irrelevant to the size.
pub open spec fn spec_commit_template(
    f: OutPointModel,
    commit_script: Seq<u8>,
    change_script: Seq<u8>,
) -> TxModel {
    TxModel {
        version: 2,
        inputs: seq![spec_funding_input(f)],
        outputs: seq![
            TxOutModel { value: 0, script_pubkey: commit_script },
            TxOutModel { value: 0, script_pubkey: change_script },
        ],
        lock_time: 0,
    }
}

/// The sum of the spell's declared output values.
pub open spec fn spec_sum_outputs(outs: Seq<OutputModel>) -> int
    decreases outs.len(),
{
    if outs.len() == 0 {
        0
    } else {
        outs.first().value + spec_sum_outputs(outs.drop_first())
    }
}

/// Whether every resolved previous transaction parses.
pub open spec fn spec_all_prevs_parse(prevs: Seq<Seq<u8>>) -> bool {
    forall|i: int| 0 <= i < prevs.len() ==> spec_parse_tx(#[trigger] prevs[i]) is Some
}

/// The parsed previous transactions, in the order they were handed over.
pub open spec fn spec_prev_models(prevs: Seq<Seq<u8>>) -> Seq<TxModel> {
    Seq::new(prevs.len(), |i: int| spec_parse_tx(prevs[i]).unwrap())
}

/// The value of the named output of the first previous transaction whose id
/// matches, or `None` when no transaction matches or the index is out of
/// range.
pub open spec fn spec_lookup_value(ts: Seq<TxModel>, txid: Seq<u8>, vout: u32) -> Option<u64>
    decreases ts.len(),
{
    if ts.len() == 0 {
        None
    } else if spec_txid(ts.first()) == txid {
        if vout < ts.first().outputs.len() {
            Some(ts.first().outputs[vout as int].value)
        } else {
            None
        }
    } else {
        spec_lookup_value(ts.drop_first(), txid, vout)
    }
}

/// The total value the spell's input references spend, resolved against the
/// previous transactions; `None` when any reference cannot be resolved.
pub open spec fn spec_sum_inputs(ts: Seq<TxModel>, ins: Seq<InputModel>) -> Option<int>
    decreases ins.len(),
{
    if ins.len() == 0 {
        Some(0)
    } else {
        match spec_lookup_value(ts, ins.first().txid, ins.first().vout) {
            Some(v) => match spec_sum_inputs(ts, ins.drop_first()) {
                Some(rest) => Some(v + rest),
                None => None,
            },
            None => None,
        }
    }
}

/// Why an assembly run failed.
#[derive(Clone, Copy, Debug, PartialEq, Eq, Structural)]
pub enum AssembleFailure {
    PayloadTooLarge,
    BadKey,
    BadAddress,
    BadPrevTx,
    MissingPrevOutput,
    InsufficientFunds,
}

/// The classified error an assembly failure surfaces as.
pub open spec fn assemble_failure_matches(f: AssembleFailure, e: WalletError) -> bool {
    match f {
        AssembleFailure::PayloadTooLarge => e matches WalletError::SpellError(m) && m@
            == "spell payload too large to embed"@,
        AssembleFailure::BadKey => e matches WalletError::SpellError(m) && m@
            == "invalid internal key"@,
        AssembleFailure::BadAddress => e matches WalletError::InvalidAddress(m) && m@
            == "malformed destination or change address"@,
        AssembleFailure::BadPrevTx => e matches WalletError::BitcoinError(m) && m@
            == "undecodable previous transaction"@,
        AssembleFailure::MissingPrevOutput => e matches WalletError::BitcoinError(m) && m@
            == "previous output not found"@,
        AssembleFailure::InsufficientFunds => e matches WalletError::InvalidAmount(m) && m@
            == "insufficient funding value"@,
    }
}

/// The control block bytes for a given parity and internal key.
pub open spec fn spec_control_block(parity: bool, key: Seq<u8>) -> Seq<u8> {
    seq![(if parity { 0xc1u8 } else { 0xc0u8 })] + key
}

/// The leaf script of the assembly.
pub open spec fn spec_leaf(m: SpellModel, key: Seq<u8>) -> Seq<u8> {
    spec_data_script(key, spec_spell_bytes(m))
}

/// The control block of the assembly.
pub open spec fn spec_control(m: SpellModel, key: Seq<u8>) -> Seq<u8> {
    spec_control_block(spec_taproot_tweak(key, spec_leaf(m, key)).1, key)
}

/// The fee the spell transaction is expected to pay.
pub open spec fn spec_spell_fee(m: SpellModel, key: Seq<u8>, fee_rate: u64) -> int {
    spec_estimated_fee(
        spec_spell_tx(m, spec_zero_txid(), spec_leaf(m, key), spec_control(m, key)),
        fee_rate,
    )
}

/// What the spell's outputs need beyond what its inputs spend.
pub open spec fn spec_deficit(m: SpellModel, sum_in: int) -> int {
    if spec_sum_outputs(m.outputs) > sum_in {
        spec_sum_outputs(m.outputs) - sum_in
    } else {
        0
    }
}

/// The value locked in the commit transaction's taproot output: it funds
/// the spell transaction's fee and deficit, and is never below dust.
pub open spec fn spec_commit_value(m: SpellModel, key: Seq<u8>, fee_rate: u64, sum_in: int) -> int {
    let raw = spec_spell_fee(m, key, fee_rate) + spec_deficit(m, sum_in);
    if raw > DUST_THRESHOLD {
        raw
    } else {
        DUST_THRESHOLD as int
    }
}

/// The fee the commit transaction is expected to pay, sized with the change
/// output present.
pub open spec fn spec_commit_fee(
    m: SpellModel,
    key: Seq<u8>,
    f: OutPointModel,
    change: Seq<char>,
    fee_rate: u64,
) -> int {
    spec_estimated_fee(
        spec_commit_template(
            f,
            spec_commit_output_script(spec_taproot_tweak(key, spec_leaf(m, key)).0),
            spec_address_script(change).unwrap(),
        ),
        fee_rate,
    )
}

/// What the funding UTXO must cover: the commit transaction's fee plus its
/// taproot output value.
pub open spec fn spec_required(
    m: SpellModel,
    key: Seq<u8>,
    f: OutPointModel,
    change: Seq<char>,
    fee_rate: u64,
    sum_in: int,
) -> int {
    spec_commit_fee(m, key, f, change, fee_rate) + spec_commit_value(m, key, fee_rate, sum_in)
}

/// The commit transaction of a successful assembly: the funding input, the
/// taproot output, and a change output when the remainder clears the dust
/// threshold.
pub open spec fn spec_final_commit_tx(
    m: SpellModel,
    key: Seq<u8>,
    f: OutPointModel,
    funding_value: u64,
    change: Seq<char>,
    fee_rate: u64,
    sum_in: int,
) -> TxModel {
    let commit_value = spec_commit_value(m, key, fee_rate, sum_in);
    let change_value = funding_value - spec_required(m, key, f, change, fee_rate, sum_in);
    let commit_script = spec_commit_output_script(spec_taproot_tweak(key, spec_leaf(m, key)).0);
    let change_script = spec_address_script(change).unwrap();
    let outputs = if change_value >= DUST_THRESHOLD {
        seq![
            TxOutModel { value: commit_value as u64, script_pubkey: commit_script },
            TxOutModel { value: change_value as u64, script_pubkey: change_script },
        ]
    } else {
        seq![TxOutModel { value: commit_value as u64, script_pubkey: commit_script }]
    };
    TxModel { version: 2, inputs: seq![spec_funding_input(f)], outputs, lock_time: 0 }
}

/// The spell transaction of a successful assembly: it reveals the commit
/// transaction's output.
pub open spec fn spec_final_spell_tx(
    m: SpellModel,
    key: Seq<u8>,
    f: OutPointModel,
    funding_value: u64,
    change: Seq<char>,
    fee_rate: u64,
    sum_in: int,
) -> TxModel {
    spec_spell_tx(
        m,
        spec_txid(spec_final_commit_tx(m, key, f, funding_value, change, fee_rate, sum_in)),
        spec_leaf(m, key),
        spec_control(m, key),
    )
}

/// The whole assembly as a function of its inputs: the commit and spell
/// transaction models, or the first classified failure.
pub open spec fn spec_assemble(
    m: SpellModel,
    prevs: Seq<Seq<u8>>,
    f: OutPointModel,
    funding_value: u64,
    change: Seq<char>,
    fee_rate: u64,
    key: Seq<u8>,
) -> Result<(TxModel, TxModel), AssembleFailure> {
    if spec_spell_bytes(m).len() > MAX_PAYLOAD {
        Err(AssembleFailure::PayloadTooLarge)
    } else if !(key.len() == 32 && spec_xonly_key_valid(key)) {
        Err(AssembleFailure::BadKey)
    } else if !(spell_addresses_valid(m) && spec_address_script(change) is Some) {
        Err(AssembleFailure::BadAddress)
    } else if !spec_all_prevs_parse(prevs) {
        Err(AssembleFailure::BadPrevTx)
    } else {
        match spec_sum_inputs(spec_prev_models(prevs), m.inputs) {
            None => Err(AssembleFailure::MissingPrevOutput),
            Some(sum_in) => {
                if funding_value < spec_required(m, key, f, change, fee_rate, sum_in) {
                    Err(AssembleFailure::InsufficientFunds)
                } else {
                    Ok(
                        (
                            spec_final_commit_tx(m, key, f, funding_value, change, fee_rate, sum_in),
                            spec_final_spell_tx(m, key, f, funding_value, change, fee_rate, sum_in),
                        ),
                    )
                }
            },
        }
    }
}

/// Byte-vector equality.
fn bytes_eq(a: &Vec<u8>, b: &Vec<u8>) -> (r: bool)
    ensures
        r == (a@ == b@),
{
    if a.len() != b.len() {
        proof {
            assert(a@.len() != b@.len());
        }
        return false;
    }
    let n = a.len();
    for i in 0..n
        invariant
            n == a@.len() && n == b@.len(),
            forall|j: int| 0 <= j < i ==> a@[j] == b@[j],
    {
        if a[i] != b[i] {
            return false;
        }
    }
    proof {
        assert(a@ =~= b@);
    }
    true
}

/// Builds the spell transaction with the given reveal transaction id.
fn build_spell_tx(
    spell: &crate::spell::NormalizedSpell,
    scripts: &Vec<Vec<u8>>,
    reveal_txid: Vec<u8>,
    leaf: &Vec<u8>,
    control: &Vec<u8>,
) -> (r: crate::transaction::Tx)
    requires
        scripts@.len() == spell@.outputs.len(),
        forall|i: int|
            0 <= i < scripts@.len() ==> (#[trigger] scripts@[i])@ == spec_address_script(
                spell@.outputs[i].dest,
            ).unwrap(),
    ensures
        r@ == spec_spell_tx(spell@, reveal_txid@, leaf@, control@),
{
    let ghost m = spell@;
    let mut inputs: Vec<crate::transaction::TxIn> = Vec::new();
    let n = spell.inputs.len();
    for i in 0..n
        invariant
            n == spell.inputs@.len(),
            m == spell@,
            m.inputs.len() == n,
            inputs@.map_values(|x: crate::transaction::TxIn| x@) == spec_skeleton_inputs(
                m.inputs,
            ).take(i as int),
    {
        let ghost old_inputs = inputs@;
        let item = crate::transaction::TxIn {
            txid: spell.inputs[i].txid.clone(),
            vout: spell.inputs[i].vout,
            script_sig: Vec::new(),
            sequence: INPUT_SEQUENCE,
            witness: Vec::new(),
        };
        proof {
            assert(m.inputs[i as int] == spell.inputs@[i as int]@);
            assert(item@.witness =~= Seq::<Seq<u8>>::empty());
            assert(item@ == spec_skeleton_inputs(m.inputs)[i as int]);
        }
        inputs.push(item);
        proof {
            assert(inputs@.map_values(|x: crate::transaction::TxIn| x@) =~= old_inputs.map_values(
                |x: crate::transaction::TxIn| x@,
            ) + seq![spec_skeleton_inputs(m.inputs)[i as int]]);
            assert(inputs@.map_values(|x: crate::transaction::TxIn| x@) =~= spec_skeleton_inputs(
                m.inputs,
            ).take(i + 1));
        }
    }
    let mut witness: Vec<Vec<u8>> = Vec::new();
    witness.push(leaf.clone());
    witness.push(control.clone());
    let ghost pre_reveal = inputs@;
    let reveal_item = crate::transaction::TxIn {
        txid: reveal_txid,
        vout: 0,
        script_sig: Vec::new(),
        sequence: INPUT_SEQUENCE,
        witness,
    };
    proof {
        assert(reveal_item@.witness =~= seq![leaf@, control@]);
        assert(reveal_item@ == spec_reveal_input(reveal_item.txid@, leaf@, control@));
    }
    let ghost gtxid = reveal_item.txid@;
    inputs.push(reveal_item);
    proof {
        assert(inputs@.map_values(|x: crate::transaction::TxIn| x@) =~= pre_reveal.map_values(
            |x: crate::transaction::TxIn| x@,
        ).push(spec_reveal_input(gtxid, leaf@, control@)));
    }
    let mut outputs: Vec<crate::transaction::TxOut> = Vec::new();
    let q = spell.outputs.len();
    for i in 0..q
        invariant
            q == spell.outputs@.len(),
            m == spell@,
            m.outputs.len() == q,
            scripts@.len() == q,
            forall|j: int|
                0 <= j < q ==> (#[trigger] scripts@[j])@ == spec_address_script(
                    m.outputs[j].dest,
                ).unwrap(),
            outputs@.map_values(|x: crate::transaction::TxOut| x@) == spec_skeleton_outputs(
                m.outputs,
            ).take(i as int),
    {
        let ghost old_outputs = outputs@;
        let item = crate::transaction::TxOut {
            value: spell.outputs[i].value,
            script_pubkey: scripts[i].clone(),
        };
        proof {
            assert(m.outputs[i as int] == spell.outputs@[i as int]@);
            assert(item@ == spec_skeleton_outputs(m.outputs)[i as int]);
        }
        outputs.push(item);
        proof {
            assert(outputs@.map_values(|x: crate::transaction::TxOut| x@)
                =~= old_outputs.map_values(|x: crate::transaction::TxOut| x@) + seq![
                spec_skeleton_outputs(m.outputs)[i as int],
            ]);
            assert(outputs@.map_values(|x: crate::transaction::TxOut| x@)
                =~= spec_skeleton_outputs(m.outputs).take(i + 1));
        }
    }
    let tx = crate::transaction::Tx { version: 2, inputs, outputs, lock_time: 0 };
    proof {
        assert(spec_skeleton_inputs(m.inputs).take(n as int) =~= spec_skeleton_inputs(m.inputs));
        assert(spec_skeleton_outputs(m.outputs).take(q as int) =~= spec_skeleton_outputs(
            m.outputs,
        ));
        assert(tx@.inputs =~= spec_skeleton_inputs(m.inputs).push(
            spec_reveal_input(gtxid, leaf@, control@),
        ));
        assert(tx@.outputs =~= spec_skeleton_outputs(m.outputs));
    }
    tx
}

/// Resolves every output script the spell pays to. Fails exactly when some
/// destination denotes no script.
fn output_scripts(spell: &crate::spell::NormalizedSpell) -> (r: WalletResult<Vec<Vec<u8>>>)
    ensures
        match r {
            Ok(s) => spell_addresses_valid(spell@) && s@.len() == spell@.outputs.len() && forall|
                i: int,
            |
                0 <= i < s@.len() ==> (#[trigger] s@[i])@ == spec_address_script(
                    spell@.outputs[i].dest,
                ).unwrap(),
            Err(e) => !spell_addresses_valid(spell@) && (e matches WalletError::InvalidAddress(
                msg,
            ) && msg@ == "malformed destination or change address"@),
        },
{
    let ghost m = spell@;
    let mut scripts: Vec<Vec<u8>> = Vec::new();
    let q = spell.outputs.len();
    for i in 0..q
        invariant
            q == spell.outputs@.len(),
            m == spell@,
            m.outputs.len() == q,
            scripts@.len() == i,
            forall|j: int|
                0 <= j < i ==> spec_address_script((#[trigger] m.outputs[j]).dest) is Some,
            forall|j: int|
                0 <= j < i ==> (#[trigger] scripts@[j])@ == spec_address_script(
                    m.outputs[j].dest,
                ).unwrap(),
    {
        proof {
            assert(m.outputs[i as int] == spell.outputs@[i as int]@);
        }
        match crate::crypto::address_to_script(spell.outputs[i].dest.as_str()) {
            Some(s) => {
                scripts.push(s);
            },
            None => {
                proof {
                    assert(spec_address_script(m.outputs[i as int].dest) is None);
                }
                return Err(
                    WalletError::InvalidAddress(
                        String::from_str("malformed destination or change address"),
                    ),
                );
            },
        }
    }
    Ok(scripts)
}

/// Parses every previous transaction. Fails exactly when some entry is no
/// well-formed transaction.
fn parse_prev_txs(prev_txs: &Vec<Vec<u8>>) -> (r: WalletResult<Vec<crate::transaction::Tx>>)
    ensures
        match r {
            Ok(ts) => spec_all_prevs_parse(prev_txs@.map_values(|p: Vec<u8>| p@)) && ts@.map_values(
                |t: crate::transaction::Tx| t@,
            ) == spec_prev_models(prev_txs@.map_values(|p: Vec<u8>| p@)),
            Err(e) => !spec_all_prevs_parse(prev_txs@.map_values(|p: Vec<u8>| p@)) && (e matches
                WalletError::BitcoinError(msg) && msg@ == "undecodable previous transaction"@),
        },
{
    let ghost prevs = prev_txs@.map_values(|p: Vec<u8>| p@);
    let mut parsed: Vec<crate::transaction::Tx> = Vec::new();
    let n = prev_txs.len();
    for i in 0..n
        invariant
            n == prev_txs@.len(),
            prevs == prev_txs@.map_values(|p: Vec<u8>| p@),
            prevs.len() == n,
            parsed@.len() == i,
            forall|j: int| 0 <= j < i ==> spec_parse_tx(#[trigger] prevs[j]) is Some,
            forall|j: int|
                0 <= j < i ==> (#[trigger] parsed@[j])@ == spec_parse_tx(prevs[j]).unwrap(),
    {
        proof {
            assert(prevs[i as int] == prev_txs@[i as int]@);
        }
        match crate::transaction::parse_tx(&prev_txs[i]) {
            Some(t) => {
                parsed.push(t);
            },
            None => {
                proof {
                    assert(spec_parse_tx(prevs[i as int]) is None);
                }
                return Err(
                    WalletError::BitcoinError(
                        String::from_str("undecodable previous transaction"),
                    ),
                );
            },
        }
    }
    proof {
        assert(parsed@.map_values(|t: crate::transaction::Tx| t@) =~= spec_prev_models(prevs));
    }
    Ok(parsed)
}

/// Looks up the value a spell input spends among the parsed previous
/// transactions, first match by transaction id.
fn lookup_value(
    parsed: &Vec<crate::transaction::Tx>,
    prev_ids: &Vec<Vec<u8>>,
    txid: &Vec<u8>,
    vout: u32,
) -> (r: Option<u64>)
    requires
        prev_ids@.len() == parsed@.len(),
        forall|j: int|
            0 <= j < parsed@.len() ==> (#[trigger] prev_ids@[j])@ == spec_txid(parsed@[j]@),
    ensures
        r == spec_lookup_value(
            parsed@.map_values(|t: crate::transaction::Tx| t@),
            txid@,
            vout,
        ),
{
    let ghost ts = parsed@.map_values(|t: crate::transaction::Tx| t@);
    let n = parsed.len();
    proof {
        assert(ts.skip(0) == ts);
    }
    for j in 0..n
        invariant
            n == parsed@.len(),
            prev_ids@.len() == n,
            ts == parsed@.map_values(|t: crate::transaction::Tx| t@),
            ts.len() == n,
            forall|j2: int|
                0 <= j2 < n ==> (#[trigger] prev_ids@[j2])@ == spec_txid(parsed@[j2]@),
            spec_lookup_value(ts, txid@, vout) == spec_lookup_value(
                ts.skip(j as int),
                txid@,
                vout,
            ),
    {
        proof {
            assert(ts.skip(j as int).first() == ts[j as int]);
            assert(ts.skip(j as int).drop_first() =~= ts.skip(j + 1));
        }
        if bytes_eq(&prev_ids[j], txid) {
            assert(spec_txid(ts[j as int]) == txid@);
            let outs = &parsed[j].outputs;
            if (vout as usize) < outs.len() {
                proof {
                    assert(ts[j as int].outputs[vout as int] == parsed@[j as int].outputs@[
                        vout as int
                    ]@);
                }
                return Some(outs[vout as usize].value);
            } else {
                return None;
            }
        }
        proof {
            assert(spec_txid(ts[j as int]) != txid@);
        }
    }
    proof {
        assert(ts.skip(n as int) =~= Seq::<TxModel>::empty());
    }
    None
}

/// Sums the values the spell's input references spend. Fails exactly when
/// a reference resolves to no output among the previous transactions.
fn resolve_input_sum(
    spell: &crate::spell::NormalizedSpell,
    parsed: &Vec<crate::transaction::Tx>,
) -> (r: WalletResult<u128>)
    ensures
        ({
            let ts = parsed@.map_values(|t: crate::transaction::Tx| t@);
            match r {
                Ok(v) => spec_sum_inputs(ts, spell@.inputs) == Some(v as int),
                Err(e) => spec_sum_inputs(ts, spell@.inputs) is None && (e matches
                    WalletError::BitcoinError(msg) && msg@ == "previous output not found"@),
            }
        }),
{
    let ghost ts = parsed@.map_values(|t: crate::transaction::Tx| t@);
    let ghost ins = spell@.inputs;
    let mut prev_ids: Vec<Vec<u8>> = Vec::new();
    let np = parsed.len();
    for j in 0..np
        invariant
            np == parsed@.len(),
            prev_ids@.len() == j,
            forall|j2: int|
                0 <= j2 < j ==> (#[trigger] prev_ids@[j2])@ == spec_txid(parsed@[j2]@),
    {
        let id = crate::transaction::compute_txid(&parsed[j]);
        prev_ids.push(id);
    }
    let mut sum: u128 = 0;
    let k = spell.inputs.len();
    proof {
        assert(ins.skip(0) == ins);
    }
    for i in 0..k
        invariant
            k == spell.inputs@.len(),
            ts == parsed@.map_values(|t: crate::transaction::Tx| t@),
            ins == spell@.inputs,
            ins.len() == k,
            np == parsed@.len(),
            prev_ids@.len() == np,
            forall|j2: int|
                0 <= j2 < np ==> (#[trigger] prev_ids@[j2])@ == spec_txid(parsed@[j2]@),
            sum <= i * (u64::MAX as int),
            match spec_sum_inputs(ts, ins.skip(i as int)) {
                Some(rest) => spec_sum_inputs(ts, ins) == Some(sum + rest),
                None => spec_sum_inputs(ts, ins) is None,
            },
    {
        proof {
            assert(ins.skip(i as int).first() == ins[i as int]);
            assert(ins.skip(i as int).drop_first() =~= ins.skip(i + 1));
            assert(ins[i as int] == spell.inputs@[i as int]@);
        }
        match lookup_value(&parsed, &prev_ids, &spell.inputs[i].txid, spell.inputs[i].vout) {
            Some(v) => {
                proof {
                    assert((i + 1) * (u64::MAX as int) == i * (u64::MAX as int) + u64::MAX);
                }
                sum = sum + v as u128;
            },
            None => {
                return Err(
                    WalletError::BitcoinError(String::from_str("previous output not found")),
                );
            },
        }
    }
    proof {
        assert(ins.skip(k as int) =~= Seq::<InputModel>::empty());
    }
    Ok(sum)
}

/// Sums the spell's declared output values.
fn sum_output_values(spell: &crate::spell::NormalizedSpell) -> (r: u128)
    ensures
        r as int == spec_sum_outputs(spell@.outputs),
{
    let ghost outs = spell@.outputs;
    let mut sum: u128 = 0;
    let q = spell.outputs.len();
    proof {
        assert(outs.skip(0) == outs);
    }
    for i in 0..q
        invariant
            q == spell.outputs@.len(),
            outs == spell@.outputs,
            outs.len() == q,
            sum <= i * (u64::MAX as int),
            spec_sum_outputs(outs) == sum + spec_sum_outputs(outs.skip(i as int)),
    {
        proof {
            assert(outs.skip(i as int).first() == outs[i as int]);
            assert(outs.skip(i as int).drop_first() =~= outs.skip(i + 1));
            assert(outs[i as int] == spell.outputs@[i as int]@);
            assert((i + 1) * (u64::MAX as int) == i * (u64::MAX as int) + u64::MAX);
        }
        sum = sum + spell.outputs[i].value as u128;
    }
    proof {
        assert(outs.skip(q as int) =~= Seq::<OutputModel>::empty());
    }
    sum
}

/// What a successful assembly returns: the two unsigned transactions and
/// the taproot commitment that links them.
#[derive(Debug)]
pub struct AssemblyOutput {
    pub commit_tx: crate::transaction::Tx,
    pub spell_tx: crate::transaction::Tx,
    pub commitment: crate::script::TaprootCommitment,
}

/// Assembles the commit and spell transactions for a normalized spell.
///
/// The commit transaction spends the funding UTXO into a taproot output
/// committing to the spell's canonical bytes (plus a change output when the
/// remainder clears the dust threshold); the spell transaction spends the
/// spell's input references and the commit output via script-path reveal,
/// and pays the spell's declared outputs. Fails with `InvalidAmount`
/// exactly when the funding value is below the required fee plus the commit
/// output's value; no partial result is ever returned.
#[verifier::rlimit(100)]
pub fn assemble_txs(
    spell: &crate::spell::NormalizedSpell,
    prev_txs: &Vec<Vec<u8>>,
    funding_utxo: &OutPoint,
    funding_value: u64,
    change_address: &str,
    fee_rate: u64,
    internal_key: &Vec<u8>,
) -> (r: WalletResult<AssemblyOutput>)
    requires
        crate::spell::spell_wf(spell@),
    ensures
        ({
            let prevs = prev_txs@.map_values(|p: Vec<u8>| p@);
            match r {
                Ok(out) => {
                    &&& spec_assemble(
                        spell@,
                        prevs,
                        funding_utxo@,
                        funding_value,
                        change_address@,
                        fee_rate,
                        internal_key@,
                    ) == Ok::<_, AssembleFailure>((out.commit_tx@, out.spell_tx@))
                    &&& crate::script::commitment_wf(
                        out.commitment,
                        internal_key@,
                        spec_spell_bytes(spell@),
                    )
                },
                Err(e) => spec_assemble(
                    spell@,
                    prevs,
                    funding_utxo@,
                    funding_value,
                    change_address@,
                    fee_rate,
                    internal_key@,
                ) matches Err(f) && assemble_failure_matches(f, e),
            }
        }),
{
    let ghost m = spell@;
    let ghost prevs = prev_txs@.map_values(|p: Vec<u8>| p@);
    let ghost key = internal_key@;
    let payload = crate::payload::spell_bytes(spell);
    let commitment = match crate::script::embed(&payload, internal_key) {
        Ok(c) => c,
        Err(e) => {
            return Err(e);
        },
    };
    let scripts = match output_scripts(spell) {
        Ok(s) => s,
        Err(e) => {
            return Err(e);
        },
    };
    let change_script = match crate::crypto::address_to_script(change_address) {
        Some(s) => s,
        None => {
            return Err(
                WalletError::InvalidAddress(
                    String::from_str("malformed destination or change address"),
                ),
            );
        },
    };
    let parsed = match parse_prev_txs(prev_txs) {
        Ok(ts) => ts,
        Err(e) => {
            return Err(e);
        },
    };
    let sum_in = match resolve_input_sum(spell, &parsed) {
        Ok(v) => v,
        Err(e) => {
            return Err(e);
        },
    };
    finish_assembly(
        spell,
        &scripts,
        commitment,
        change_script,
        funding_utxo,
        funding_value,
        fee_rate,
        internal_key,
        sum_in,
        Ghost(change_address@),
        Ghost(prevs),
    )
}

/// Finishes an assembly whose validation steps have all passed: sizes the
/// fees, checks the funding value, and builds the two transactions.
#[verifier::rlimit(100)]
fn finish_assembly(
    spell: &crate::spell::NormalizedSpell,
    scripts: &Vec<Vec<u8>>,
    commitment: crate::script::TaprootCommitment,
    change_script: Vec<u8>,
    funding_utxo: &OutPoint,
    funding_value: u64,
    fee_rate: u64,
    internal_key: &Vec<u8>,
    sum_in: u128,
    change_chars: Ghost<Seq<char>>,
    prevs: Ghost<Seq<Seq<u8>>>,
) -> (r: WalletResult<AssemblyOutput>)
    requires
        crate::spell::spell_wf(spell@),
        spec_spell_bytes(spell@).len() <= MAX_PAYLOAD,
        internal_key@.len() == 32,
        spec_xonly_key_valid(internal_key@),
        crate::script::commitment_wf(commitment, internal_key@, spec_spell_bytes(spell@)),
        spell_addresses_valid(spell@),
        scripts@.len() == spell@.outputs.len(),
        forall|i: int|
            0 <= i < scripts@.len() ==> (#[trigger] scripts@[i])@ == spec_address_script(
                spell@.outputs[i].dest,
            ).unwrap(),
        spec_address_script(change_chars@) is Some,
        change_script@ == spec_address_script(change_chars@).unwrap(),
        spec_all_prevs_parse(prevs@),
        spec_sum_inputs(spec_prev_models(prevs@), spell@.inputs) == Some(sum_in as int),
    ensures
        match r {
            Ok(out) => {
                &&& spec_assemble(
                    spell@,
                    prevs@,
                    funding_utxo@,
                    funding_value,
                    change_chars@,
                    fee_rate,
                    internal_key@,
                ) == Ok::<_, AssembleFailure>((out.commit_tx@, out.spell_tx@))
                &&& crate::script::commitment_wf(
                    out.commitment,
                    internal_key@,
                    spec_spell_bytes(spell@),
                )
            },
            Err(e) => spec_assemble(
                spell@,
                prevs@,
                funding_utxo@,
                funding_value,
                change_chars@,
                fee_rate,
                internal_key@,
            ) matches Err(f) && assemble_failure_matches(f, e),
        },
{
    let ghost m = spell@;
    let ghost key = internal_key@;
    let mut commit_script: Vec<u8> = Vec::new();
    commit_script.push(0x51);
    commit_script.push(0x20);
    crate::payload::push_bytes(&mut commit_script, &commitment.output_key);
    proof {
        assert(commit_script@ =~= spec_commit_output_script(
            spec_taproot_tweak(key, spec_leaf(m, key)).0,
        ));
    }
    let (required, commit_value128) = plan_required(
        spell,
        &scripts,
        &commitment,
        &commit_script,
        &change_script,
        funding_utxo,
        fee_rate,
        internal_key,
        sum_in,
        change_chars,
    );
    let ghost spec_req = spec_required(m, key, funding_utxo@, change_chars@, fee_rate, sum_in as int);
    if (funding_value as u128) < required {
        proof {
            assert((funding_value as int) < spec_req);
        }
        return Err(WalletError::InvalidAmount(String::from_str("insufficient funding value")));
    }
    proof {
        assert(required as int == spec_req);
        assert(commit_value128 as int == spec_commit_value(m, key, fee_rate, sum_in as int));
        assert(spec_commit_fee(m, key, funding_utxo@, change_chars@, fee_rate) >= 0);
        assert(commit_value128 <= required);
    }
    let out = build_final_txs(
        spell,
        &scripts,
        commitment,
        commit_script,
        change_script,
        funding_utxo,
        funding_value,
        fee_rate,
        internal_key,
        sum_in,
        required,
        commit_value128,
        change_chars,
    );
    proof {
        assert(spec_assemble(m, prevs@, funding_utxo@, funding_value, change_chars@, fee_rate, key)
            == Ok::<_, AssembleFailure>((out.commit_tx@, out.spell_tx@)));
    }
    Ok(out)
}

/// Sizes the fees of an assembly and computes what the funding UTXO must
/// cover: the required total and the commit output's value, both saturated
/// at the largest 128-bit value.
fn plan_required(
    spell: &crate::spell::NormalizedSpell,
    scripts: &Vec<Vec<u8>>,
    commitment: &crate::script::TaprootCommitment,
    commit_script: &Vec<u8>,
    change_script: &Vec<u8>,
    funding_utxo: &OutPoint,
    fee_rate: u64,
    internal_key: &Vec<u8>,
    sum_in: u128,
    change_chars: Ghost<Seq<char>>,
) -> (r: (u128, u128))
    requires
        crate::spell::spell_wf(spell@),
        crate::script::commitment_wf(*commitment, internal_key@, spec_spell_bytes(spell@)),
        spell_addresses_valid(spell@),
        scripts@.len() == spell@.outputs.len(),
        forall|i: int|
            0 <= i < scripts@.len() ==> (#[trigger] scripts@[i])@ == spec_address_script(
                spell@.outputs[i].dest,
            ).unwrap(),
        spec_address_script(change_chars@) is Some,
        change_script@ == spec_address_script(change_chars@).unwrap(),
        commit_script@ == spec_commit_output_script(
            spec_taproot_tweak(internal_key@, spec_leaf(spell@, internal_key@)).0,
        ),
    ensures
        r.0 as int == ({
            let v = spec_required(
                spell@,
                internal_key@,
                funding_utxo@,
                change_chars@,
                fee_rate,
                sum_in as int,
            );
            if v > u128::MAX {
                u128::MAX as int
            } else {
                v
            }
        }),
        r.1 as int == ({
            let v = spec_commit_value(spell@, internal_key@, fee_rate, sum_in as int);
            if v > u128::MAX {
                u128::MAX as int
            } else {
                v
            }
        }),
{
    let ghost m = spell@;
    let ghost key = internal_key@;
    let mut zero_txid: Vec<u8> = Vec::new();
    for i in 0..32usize
        invariant
            zero_txid@ =~= Seq::new(i as nat, |j: int| 0u8),
    {
        zero_txid.push(0);
    }
    proof {
        assert(zero_txid@ =~= spec_zero_txid());
    }
    let shape = build_spell_tx(
        spell,
        scripts,
        zero_txid,
        &commitment.leaf_script,
        &commitment.control_block,
    );
    proof {
        assert(commitment.leaf_script@ == spec_leaf(m, key));
        assert(commitment.control_block@ == spec_control(m, key));
        assert(shape@ == spec_spell_tx(m, spec_zero_txid(), spec_leaf(m, key), spec_control(m, key)));
    }
    let spell_fee = crate::fees::estimated_fee(&shape, fee_rate);
    let sum_out = sum_output_values(spell);
    let deficit: u128 = if sum_out > sum_in {
        sum_out - sum_in
    } else {
        0
    };
    proof {
        assert(deficit as int == spec_deficit(m, sum_in as int));
    }
    let raw = crate::fees::sat_add(spell_fee, deficit);
    let commit_value128: u128 = if raw > DUST_THRESHOLD as u128 {
        raw
    } else {
        DUST_THRESHOLD as u128
    };
    let ghost spec_cv = spec_commit_value(m, key, fee_rate, sum_in as int);
    proof {
        let sf = spec_spell_fee(m, key, fee_rate);
        let d = spec_deficit(m, sum_in as int);
        assert(spell_fee as int == if sf > u128::MAX {
            u128::MAX as int
        } else {
            sf
        });
        assert(raw as int == if sf + d > u128::MAX {
            u128::MAX as int
        } else {
            sf + d
        });
        assert(commit_value128 as int == if spec_cv > u128::MAX {
            u128::MAX as int
        } else {
            spec_cv
        });
    }
    let funding_input = crate::transaction::TxIn {
        txid: funding_utxo.txid.clone(),
        vout: funding_utxo.vout,
        script_sig: Vec::new(),
        sequence: INPUT_SEQUENCE,
        witness: Vec::new(),
    };
    proof {
        assert(funding_input@.witness =~= Seq::<Seq<u8>>::empty());
        assert(funding_input@ == spec_funding_input(funding_utxo@));
    }
    let mut template_outputs: Vec<crate::transaction::TxOut> = Vec::new();
    template_outputs.push(
        crate::transaction::TxOut { value: 0, script_pubkey: commit_script.clone() },
    );
    template_outputs.push(
        crate::transaction::TxOut { value: 0, script_pubkey: change_script.clone() },
    );
    let mut template_inputs: Vec<crate::transaction::TxIn> = Vec::new();
    template_inputs.push(funding_input);
    let template = crate::transaction::Tx {
        version: 2,
        inputs: template_inputs,
        outputs: template_outputs,
        lock_time: 0,
    };
    proof {
        assert(template@.inputs =~= seq![spec_funding_input(funding_utxo@)]);
        assert(template@.outputs =~= spec_commit_template(
            funding_utxo@,
            commit_script@,
            change_script@,
        ).outputs);
        assert(template@ == spec_commit_template(funding_utxo@, commit_script@, change_script@));
    }
    let commit_fee = crate::fees::estimated_fee(&template, fee_rate);
    let required = crate::fees::sat_add(commit_fee, commit_value128);
    proof {
        let cf = spec_commit_fee(m, key, funding_utxo@, change_chars@, fee_rate);
        let spec_req = spec_required(m, key, funding_utxo@, change_chars@, fee_rate, sum_in as int);
        assert(commit_fee as int == if cf > u128::MAX {
            u128::MAX as int
        } else {
            cf
        });
        assert(required as int == if spec_req > u128::MAX {
            u128::MAX as int
        } else {
            spec_req
        });
    }
    (required, commit_value128)
}

/// Builds the two final transactions of an assembly whose funding check has
/// passed.
fn build_final_txs(
    spell: &crate::spell::NormalizedSpell,
    scripts: &Vec<Vec<u8>>,
    commitment: crate::script::TaprootCommitment,
    commit_script: Vec<u8>,
    change_script: Vec<u8>,
    funding_utxo: &OutPoint,
    funding_value: u64,
    fee_rate: u64,
    internal_key: &Vec<u8>,
    sum_in: u128,
    required: u128,
    commit_value128: u128,
    change_chars: Ghost<Seq<char>>,
) -> (out: AssemblyOutput)
    requires
        crate::spell::spell_wf(spell@),
        crate::script::commitment_wf(commitment, internal_key@, spec_spell_bytes(spell@)),
        spell_addresses_valid(spell@),
        scripts@.len() == spell@.outputs.len(),
        forall|i: int|
            0 <= i < scripts@.len() ==> (#[trigger] scripts@[i])@ == spec_address_script(
                spell@.outputs[i].dest,
            ).unwrap(),
        spec_address_script(change_chars@) is Some,
        change_script@ == spec_address_script(change_chars@).unwrap(),
        commit_script@ == spec_commit_output_script(
            spec_taproot_tweak(internal_key@, spec_leaf(spell@, internal_key@)).0,
        ),
        required as int == spec_required(
            spell@,
            internal_key@,
            funding_utxo@,
            change_chars@,
            fee_rate,
            sum_in as int,
        ),
        commit_value128 as int == spec_commit_value(spell@, internal_key@, fee_rate, sum_in as int),
        commit_value128 <= required <= funding_value,
    ensures
        out.commit_tx@ == spec_final_commit_tx(
            spell@,
            internal_key@,
            funding_utxo@,
            funding_value,
            change_chars@,
            fee_rate,
            sum_in as int,
        ),
        out.spell_tx@ == spec_final_spell_tx(
            spell@,
            internal_key@,
            funding_utxo@,
            funding_value,
            change_chars@,
            fee_rate,
            sum_in as int,
        ),
        out.commitment == commitment,
{
    let ghost m = spell@;
    let ghost key = internal_key@;
    let ghost spec_req = spec_required(m, key, funding_utxo@, change_chars@, fee_rate, sum_in as int);
    let ghost spec_cv = spec_commit_value(m, key, fee_rate, sum_in as int);
    let commit_value: u64 = commit_value128 as u64;
    let change_value: u64 = ((funding_value as u128) - required) as u64;
    let mut commit_outputs: Vec<crate::transaction::TxOut> = Vec::new();
    commit_outputs.push(
        crate::transaction::TxOut { value: commit_value, script_pubkey: commit_script },
    );
    if change_value >= DUST_THRESHOLD {
        commit_outputs.push(
            crate::transaction::TxOut { value: change_value, script_pubkey: change_script },
        );
    }
    let funding_input = crate::transaction::TxIn {
        txid: funding_utxo.txid.clone(),
        vout: funding_utxo.vout,
        script_sig: Vec::new(),
        sequence: INPUT_SEQUENCE,
        witness: Vec::new(),
    };
    proof {
        assert(funding_input@.witness =~= Seq::<Seq<u8>>::empty());
        assert(funding_input@ == spec_funding_input(funding_utxo@));
    }
    let mut commit_inputs: Vec<crate::transaction::TxIn> = Vec::new();
    commit_inputs.push(funding_input);
    let commit_tx = crate::transaction::Tx {
        version: 2,
        inputs: commit_inputs,
        outputs: commit_outputs,
        lock_time: 0,
    };
    proof {
        let spec_commit = spec_final_commit_tx(
            m,
            key,
            funding_utxo@,
            funding_value,
            change_chars@,
            fee_rate,
            sum_in as int,
        );
        assert(commit_tx@.inputs =~= seq![spec_funding_input(funding_utxo@)]);
        assert(commit_tx@.outputs =~= spec_commit.outputs);
        assert(commit_tx@ == spec_commit);
    }
    let commit_txid = crate::transaction::compute_txid(&commit_tx);
    let spell_tx = build_spell_tx(
        spell,
        scripts,
        commit_txid,
        &commitment.leaf_script,
        &commitment.control_block,
    );
    proof {
        assert(commitment.leaf_script@ == spec_leaf(m, key));
        assert(commitment.control_block@ == spec_control(m, key));
        assert(spell_tx@ == spec_final_spell_tx(
            m,
            key,
            funding_utxo@,
            funding_value,
            change_chars@,
            fee_rate,
            sum_in as int,
        ));
    }
    AssemblyOutput { commit_tx, spell_tx, commitment }
}

/// Funding threshold law: once the spell, key, addresses and previous
/// transactions are acceptable, assembly fails with insufficient funds
/// exactly when the funding value is below the required fee plus the commit
/// output's value — and then no transaction is produced.
pub proof fn lemma_funding_threshold(
    m: SpellModel,
    prevs: Seq<Seq<u8>>,
    f: OutPointModel,
    funding_value: u64,
    change: Seq<char>,
    fee_rate: u64,
    key: Seq<u8>,
    sum_in: int,
)
    ensures
        (spec_spell_bytes(m).len() <= MAX_PAYLOAD && key.len() == 32 && spec_xonly_key_valid(key)
            && spell_addresses_valid(m) && spec_address_script(change) is Some
            && spec_all_prevs_parse(prevs) && spec_sum_inputs(spec_prev_models(prevs), m.inputs)
            == Some(sum_in)) ==> (spec_assemble(m, prevs, f, funding_value, change, fee_rate, key)
            == Err::<(TxModel, TxModel), _>(AssembleFailure::InsufficientFunds) <==> funding_value
            < spec_required(m, key, f, change, fee_rate, sum_in)),
{
}

/// Change policy law: on success the commit transaction carries a change
/// output exactly when the remainder above fee and commit value clears the
/// dust threshold, and then for exactly that remainder; below the threshold
/// the change output is omitted and the remainder is absorbed into the fee.
#[verifier::rlimit(100)]
pub proof fn lemma_change_policy(
    m: SpellModel,
    prevs: Seq<Seq<u8>>,
    f: OutPointModel,
    funding_value: u64,
    change: Seq<char>,
    fee_rate: u64,
    key: Seq<u8>,
    sum_in: int,
)
    ensures
        (spec_spell_bytes(m).len() <= MAX_PAYLOAD && key.len() == 32 && spec_xonly_key_valid(key)
            && spell_addresses_valid(m) && spec_address_script(change) is Some
            && spec_all_prevs_parse(prevs) && spec_sum_inputs(spec_prev_models(prevs), m.inputs)
            == Some(sum_in) && funding_value >= spec_required(m, key, f, change, fee_rate, sum_in))
            ==> (spec_assemble(m, prevs, f, funding_value, change, fee_rate, key) matches Ok(pair)
            && ({
            let remainder = funding_value - spec_required(m, key, f, change, fee_rate, sum_in);
            &&& (pair.0.outputs.len() == 2 <==> remainder >= DUST_THRESHOLD)
            &&& (remainder >= DUST_THRESHOLD ==> pair.0.outputs[1].value == remainder
                && pair.0.outputs[1].script_pubkey == spec_address_script(change).unwrap())
            &&& (remainder < DUST_THRESHOLD ==> pair.0.outputs.len() == 1)
        })),
{
}

/// Proves and assembles spells: the orchestrator of the pipeline.
pub struct SpellProver;

/// A finished assembly, hex-encoded for external signing and verification:
/// the two serialized transactions, the taproot leaf script and the control
/// block.
#[derive(Debug)]
pub struct SpellProofResult {
    pub commit_tx: String,
    pub spell_tx: String,
    pub taproot_script: String,
    pub control_block: String,
}

impl SpellProver {
    /// A fresh prover. It holds no state: every run is independent.
    pub fn new() -> SpellProver {
        SpellProver
    }

    /// The transaction ids whose full transactions must be resolved before
    /// assembly: one per spell input reference, in order.
    pub fn required_txids(&self, spell: &crate::spell::NormalizedSpell) -> (r: Vec<Vec<u8>>)
        ensures
            r@.len() == spell@.inputs.len(),
            forall|i: int|
                0 <= i < r@.len() ==> (#[trigger] r@[i])@ == spell@.inputs[i].txid,
    {
        let mut out: Vec<Vec<u8>> = Vec::new();
        let n = spell.inputs.len();
        for i in 0..n
            invariant
                n == spell.inputs@.len(),
                out@.len() == i,
                forall|j: int|
                    0 <= j < i ==> (#[trigger] out@[j])@ == spell@.inputs[j].txid,
        {
            proof {
                assert(spell@.inputs[i as int] == spell.inputs@[i as int]@);
            }
            out.push(spell.inputs[i].txid.clone());
        }
        out
    }

    /// Runs the whole pipeline: validates and canonicalizes the document,
    /// assembles the two transactions, and hex-encodes them along with the
    /// taproot artifacts. Validation failures are detected before the
    /// previous transactions or the funding value are ever consulted.
    pub fn prove_spell(
        &self,
        doc: &crate::spell::SpellDoc,
        prev_txs: &Vec<Vec<u8>>,
        funding_utxo: &OutPoint,
        funding_value: u64,
        change_address: &str,
        fee_rate: u64,
        internal_key: &Vec<u8>,
    ) -> (r: WalletResult<SpellProofResult>)
        ensures
            ({
                let prevs = prev_txs@.map_values(|p: Vec<u8>| p@);
                match crate::spell::spec_normalize(*doc) {
                    Err(f) => r matches Err(e) && crate::spell::failure_matches(f, e),
                    Ok(m) => match spec_assemble(
                        m,
                        prevs,
                        funding_utxo@,
                        funding_value,
                        change_address@,
                        fee_rate,
                        internal_key@,
                    ) {
                        Err(f) => r matches Err(e) && assemble_failure_matches(f, e),
                        Ok(pair) => r matches Ok(out) && ({
                            &&& out.commit_tx@ == crate::encoding::spec_hex(
                                crate::transaction::spec_tx_bytes(pair.0),
                            )
                            &&& out.spell_tx@ == crate::encoding::spec_hex(
                                crate::transaction::spec_tx_bytes(pair.1),
                            )
                            &&& out.taproot_script@ == crate::encoding::spec_hex(
                                spec_leaf(m, internal_key@),
                            )
                            &&& out.control_block@ == crate::encoding::spec_hex(
                                spec_control(m, internal_key@),
                            )
                        }),
                    },
                }
            }),
    {
        let spell = match crate::spell::normalize(doc) {
            Ok(n) => n,
            Err(e) => {
                return Err(e);
            },
        };
        let out = match assemble_txs(
            &spell,
            prev_txs,
            funding_utxo,
            funding_value,
            change_address,
            fee_rate,
            internal_key,
        ) {
            Ok(o) => o,
            Err(e) => {
                return Err(e);
            },
        };
        let commit_bytes = crate::transaction::serialize_tx(&out.commit_tx);
        let spell_bytes_wire = crate::transaction::serialize_tx(&out.spell_tx);
        let result = SpellProofResult {
            commit_tx: crate::encoding::hex_encode(&commit_bytes),
            spell_tx: crate::encoding::hex_encode(&spell_bytes_wire),
            taproot_script: crate::encoding::hex_encode(&out.commitment.leaf_script),
            control_block: crate::encoding::hex_encode(&out.commitment.control_block),
        };
        Ok(result)
    }
}

} // verus!
