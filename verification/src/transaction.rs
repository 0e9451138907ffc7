//! The unsigned-transaction model and its wire format.
//!
//! Transactions are serialized in the ledger's consensus encoding, in the
//! legacy form (for the transaction id) and in the extended form that
//! carries witness data. Both renderings are specified byte for byte; the
//! transaction id is the double-SHA256 digest of the legacy rendering.

use vstd::prelude::*;

use crate::crypto::sha256d;
use crate::crypto::spec_sha256d;
use crate::encoding::push_u32_le;
use crate::encoding::push_u64_le;
use crate::encoding::push_varint;
use crate::encoding::spec_u32_le;
use crate::encoding::spec_u64_le;
use crate::encoding::spec_varint;
use crate::payload::push_bytes;

verus! {

/// A transaction input: the outpoint it spends (transaction id in internal
/// byte order, output index), its unlocking script, its sequence number and
/// its witness stack.
#[derive(Debug)]
pub struct TxIn {
    pub txid: Vec<u8>,
    pub vout: u32,
    pub script_sig: Vec<u8>,
    pub sequence: u32,
    pub witness: Vec<Vec<u8>>,
}

/// A transaction output: a value in the smallest ledger unit and the script
/// that locks it.
#[derive(Debug)]
pub struct TxOut {
    pub value: u64,
    pub script_pubkey: Vec<u8>,
}

/// An unsigned transaction.
#[derive(Debug)]
pub struct Tx {
    pub version: u32,
    pub inputs: Vec<TxIn>,
    pub outputs: Vec<TxOut>,
    pub lock_time: u32,
}

/// Mathematical model of a transaction input.
pub ghost struct TxInModel {
    pub txid: Seq<u8>,
    pub vout: u32,
    pub script_sig: Seq<u8>,
    pub sequence: u32,
    pub witness: Seq<Seq<u8>>,
}

/// Mathematical model of a transaction output.
pub ghost struct TxOutModel {
    pub value: u64,
    pub script_pubkey: Seq<u8>,
}

/// Mathematical model of a transaction.
pub ghost struct TxModel {
    pub version: u32,
    pub inputs: Seq<TxInModel>,
    pub outputs: Seq<TxOutModel>,
    pub lock_time: u32,
}

impl View for TxIn {
    type V = TxInModel;

    open spec fn view(&self) -> TxInModel {
        TxInModel {
            txid: self.txid@,
            vout: self.vout,
            script_sig: self.script_sig@,
            sequence: self.sequence,
            witness: self.witness@.map_values(|w: Vec<u8>| w@),
        }
    }
}

impl View for TxOut {
    type V = TxOutModel;

    open spec fn view(&self) -> TxOutModel {
        TxOutModel { value: self.value, script_pubkey: self.script_pubkey@ }
    }
}

impl View for Tx {
    type V = TxModel;

    open spec fn view(&self) -> TxModel {
        TxModel {
            version: self.version,
            inputs: self.inputs@.map_values(|i: TxIn| i@),
            outputs: self.outputs@.map_values(|o: TxOut| o@),
            lock_time: self.lock_time,
        }
    }
}

/// Legacy bytes of one input.
pub open spec fn spec_txin_bytes(i: TxInModel) -> Seq<u8> {
    i.txid + spec_u32_le(i.vout) + spec_varint(i.script_sig.len() as u64) + i.script_sig
        + spec_u32_le(i.sequence)
}

/// Legacy bytes of a list of inputs, in order.
pub open spec fn spec_txins_bytes(s: Seq<TxInModel>) -> Seq<u8>
    decreases s.len(),
{
    if s.len() == 0 {
        Seq::<u8>::empty()
    } else {
        spec_txin_bytes(s.first()) + spec_txins_bytes(s.drop_first())
    }
}

/// Bytes of one output.
pub open spec fn spec_txout_bytes(o: TxOutModel) -> Seq<u8> {
    spec_u64_le(o.value) + spec_varint(o.script_pubkey.len() as u64) + o.script_pubkey
}

/// Bytes of a list of outputs, in order.
pub open spec fn spec_txouts_bytes(s: Seq<TxOutModel>) -> Seq<u8>
    decreases s.len(),
{
    if s.len() == 0 {
        Seq::<u8>::empty()
    } else {
        spec_txout_bytes(s.first()) + spec_txouts_bytes(s.drop_first())
    }
}

/// Bytes of one witness stack item.
pub open spec fn spec_witness_item(w: Seq<u8>) -> Seq<u8> {
    spec_varint(w.len() as u64) + w
}

/// Bytes of a witness stack's items, in order.
pub open spec fn spec_witness_items(s: Seq<Seq<u8>>) -> Seq<u8>
    decreases s.len(),
{
    if s.len() == 0 {
        Seq::<u8>::empty()
    } else {
        spec_witness_item(s.first()) + spec_witness_items(s.drop_first())
    }
}

/// The witness field of one input: its item count, then its items.
pub open spec fn spec_witness_field(i: TxInModel) -> Seq<u8> {
    spec_varint(i.witness.len() as u64) + spec_witness_items(i.witness)
}

/// The witness fields of all inputs, in order.
pub open spec fn spec_witness_fields(s: Seq<TxInModel>) -> Seq<u8>
    decreases s.len(),
{
    if s.len() == 0 {
        Seq::<u8>::empty()
    } else {
        spec_witness_field(s.first()) + spec_witness_fields(s.drop_first())
    }
}

/// Whether any input carries witness data, which selects the extended
/// serialization.
pub open spec fn spec_has_witness(t: TxModel) -> bool {
    exists|i: int| 0 <= i < t.inputs.len() && (#[trigger] t.inputs[i]).witness.len() > 0
}

/// The legacy rendering: version, inputs, outputs, lock time. The
/// transaction id is computed over these bytes.
pub open spec fn spec_tx_nonwitness_bytes(t: TxModel) -> Seq<u8> {
    spec_u32_le(t.version) + (spec_varint(t.inputs.len() as u64) + (spec_txins_bytes(t.inputs) + (
    spec_varint(t.outputs.len() as u64) + (spec_txouts_bytes(t.outputs) + spec_u32_le(
        t.lock_time,
    )))))
}

/// The wire rendering: extended with the marker, flag and witness fields
/// when any input carries witness data, legacy otherwise.
pub open spec fn spec_tx_bytes(t: TxModel) -> Seq<u8> {
    if spec_has_witness(t) {
        spec_u32_le(t.version) + (seq![0x00u8, 0x01u8] + (spec_varint(t.inputs.len() as u64) + (
        spec_txins_bytes(t.inputs) + (spec_varint(t.outputs.len() as u64) + (spec_txouts_bytes(
            t.outputs,
        ) + (spec_witness_fields(t.inputs) + spec_u32_le(t.lock_time)))))))
    } else {
        spec_tx_nonwitness_bytes(t)
    }
}

/// The transaction id, in internal byte order: the double-SHA256 digest of
/// the legacy rendering.
pub open spec fn spec_txid(t: TxModel) -> Seq<u8> {
    spec_sha256d(spec_tx_nonwitness_bytes(t))
}

/// Serializing one more input appends that input's bytes.
proof fn lemma_txins_bytes_snoc(s: Seq<TxInModel>, x: TxInModel)
    ensures
        spec_txins_bytes(s.push(x)) == spec_txins_bytes(s) + spec_txin_bytes(x),
    decreases s.len(),
{
    if s.len() == 0 {
        assert(s.push(x).first() == x);
        assert(s.push(x).drop_first() =~= Seq::<TxInModel>::empty());
        assert(spec_txins_bytes(Seq::<TxInModel>::empty()) == Seq::<u8>::empty());
        assert(spec_txin_bytes(x) + Seq::<u8>::empty() =~= spec_txin_bytes(x));
        assert(Seq::<u8>::empty() + spec_txin_bytes(x) =~= spec_txin_bytes(x));
    } else {
        assert(s.push(x).drop_first() =~= s.drop_first().push(x));
        lemma_txins_bytes_snoc(s.drop_first(), x);
        assert(spec_txins_bytes(s.push(x)) =~= spec_txins_bytes(s) + spec_txin_bytes(x));
    }
}

/// Serializing one more output appends that output's bytes.
proof fn lemma_txouts_bytes_snoc(s: Seq<TxOutModel>, x: TxOutModel)
    ensures
        spec_txouts_bytes(s.push(x)) == spec_txouts_bytes(s) + spec_txout_bytes(x),
    decreases s.len(),
{
    if s.len() == 0 {
        assert(s.push(x).first() == x);
        assert(s.push(x).drop_first() =~= Seq::<TxOutModel>::empty());
        assert(spec_txouts_bytes(Seq::<TxOutModel>::empty()) == Seq::<u8>::empty());
        assert(spec_txout_bytes(x) + Seq::<u8>::empty() =~= spec_txout_bytes(x));
        assert(Seq::<u8>::empty() + spec_txout_bytes(x) =~= spec_txout_bytes(x));
    } else {
        assert(s.push(x).drop_first() =~= s.drop_first().push(x));
        lemma_txouts_bytes_snoc(s.drop_first(), x);
        assert(spec_txouts_bytes(s.push(x)) =~= spec_txouts_bytes(s) + spec_txout_bytes(x));
    }
}

/// Serializing one more witness item appends that item's bytes.
proof fn lemma_witness_items_snoc(s: Seq<Seq<u8>>, x: Seq<u8>)
    ensures
        spec_witness_items(s.push(x)) == spec_witness_items(s) + spec_witness_item(x),
    decreases s.len(),
{
    if s.len() == 0 {
        assert(s.push(x).first() == x);
        assert(s.push(x).drop_first() =~= Seq::<Seq<u8>>::empty());
        assert(spec_witness_items(Seq::<Seq<u8>>::empty()) == Seq::<u8>::empty());
        assert(spec_witness_item(x) + Seq::<u8>::empty() =~= spec_witness_item(x));
        assert(Seq::<u8>::empty() + spec_witness_item(x) =~= spec_witness_item(x));
    } else {
        assert(s.push(x).drop_first() =~= s.drop_first().push(x));
        lemma_witness_items_snoc(s.drop_first(), x);
        assert(spec_witness_items(s.push(x)) =~= spec_witness_items(s) + spec_witness_item(x));
    }
}

/// Serializing one more witness field appends that field's bytes.
proof fn lemma_witness_fields_snoc(s: Seq<TxInModel>, x: TxInModel)
    ensures
        spec_witness_fields(s.push(x)) == spec_witness_fields(s) + spec_witness_field(x),
    decreases s.len(),
{
    if s.len() == 0 {
        assert(s.push(x).first() == x);
        assert(s.push(x).drop_first() =~= Seq::<TxInModel>::empty());
        assert(spec_witness_fields(Seq::<TxInModel>::empty()) == Seq::<u8>::empty());
        assert(spec_witness_field(x) + Seq::<u8>::empty() =~= spec_witness_field(x));
        assert(Seq::<u8>::empty() + spec_witness_field(x) =~= spec_witness_field(x));
    } else {
        assert(s.push(x).drop_first() =~= s.drop_first().push(x));
        lemma_witness_fields_snoc(s.drop_first(), x);
        assert(spec_witness_fields(s.push(x)) =~= spec_witness_fields(s) + spec_witness_field(
            x,
        ));
    }
}

/// Appends the legacy bytes of all inputs.
fn push_txins(out: &mut Vec<u8>, inputs: &Vec<TxIn>)
    ensures
        final(out)@ == old(out)@ + spec_txins_bytes(inputs@.map_values(|i: TxIn| i@)),
{
    let ghost models = inputs@.map_values(|i: TxIn| i@);
    let n = inputs.len();
    proof {
        assert(old(out)@ + spec_txins_bytes(models.take(0)) =~= old(out)@);
    }
    for k in 0..n
        invariant
            n == inputs@.len(),
            models == inputs@.map_values(|i: TxIn| i@),
            out@ == old(out)@ + spec_txins_bytes(models.take(k as int)),
    {
        let ghost pre = out@;
        let txin = &inputs[k];
        push_bytes(out, &txin.txid);
        push_u32_le(out, txin.vout);
        push_varint(out, txin.script_sig.len() as u64);
        push_bytes(out, &txin.script_sig);
        push_u32_le(out, txin.sequence);
        proof {
            assert(out@ =~= pre + spec_txin_bytes(models[k as int]));
            lemma_txins_bytes_snoc(models.take(k as int), models[k as int]);
            assert(models.take(k + 1) =~= models.take(k as int).push(models[k as int]));
            assert(out@ =~= old(out)@ + spec_txins_bytes(models.take(k + 1)));
        }
    }
    proof {
        assert(models.take(n as int) =~= models);
    }
}

/// Appends the bytes of all outputs.
fn push_txouts(out: &mut Vec<u8>, outputs: &Vec<TxOut>)
    ensures
        final(out)@ == old(out)@ + spec_txouts_bytes(outputs@.map_values(|o: TxOut| o@)),
{
    let ghost models = outputs@.map_values(|o: TxOut| o@);
    let n = outputs.len();
    proof {
        assert(old(out)@ + spec_txouts_bytes(models.take(0)) =~= old(out)@);
    }
    for k in 0..n
        invariant
            n == outputs@.len(),
            models == outputs@.map_values(|o: TxOut| o@),
            out@ == old(out)@ + spec_txouts_bytes(models.take(k as int)),
    {
        let ghost pre = out@;
        let txout = &outputs[k];
        push_u64_le(out, txout.value);
        push_varint(out, txout.script_pubkey.len() as u64);
        push_bytes(out, &txout.script_pubkey);
        proof {
            assert(out@ =~= pre + spec_txout_bytes(models[k as int]));
            lemma_txouts_bytes_snoc(models.take(k as int), models[k as int]);
            assert(models.take(k + 1) =~= models.take(k as int).push(models[k as int]));
            assert(out@ =~= old(out)@ + spec_txouts_bytes(models.take(k + 1)));
        }
    }
    proof {
        assert(models.take(n as int) =~= models);
    }
}

/// Appends the witness fields of all inputs.
pub(crate) fn push_witness_fields(out: &mut Vec<u8>, inputs: &Vec<TxIn>)
    ensures
        final(out)@ == old(out)@ + spec_witness_fields(inputs@.map_values(|i: TxIn| i@)),
{
    let ghost models = inputs@.map_values(|i: TxIn| i@);
    let n = inputs.len();
    proof {
        assert(old(out)@ + spec_witness_fields(models.take(0)) =~= old(out)@);
    }
    for k in 0..n
        invariant
            n == inputs@.len(),
            models == inputs@.map_values(|i: TxIn| i@),
            out@ == old(out)@ + spec_witness_fields(models.take(k as int)),
    {
        let ghost pre = out@;
        let txin = &inputs[k];
        push_varint(out, txin.witness.len() as u64);
        let ghost items = models[k as int].witness;
        let m = txin.witness.len();
        proof {
            assert(items == txin.witness@.map_values(|w: Vec<u8>| w@));
            assert(out@ + spec_witness_items(items.take(0)) =~= out@);
        }
        let ghost mid = out@;
        for j in 0..m
            invariant
                m == txin.witness@.len(),
                items == txin.witness@.map_values(|w: Vec<u8>| w@),
                out@ == mid + spec_witness_items(items.take(j as int)),
        {
            let ghost pre2 = out@;
            push_varint(out, txin.witness[j].len() as u64);
            push_bytes(out, &txin.witness[j]);
            proof {
                assert(out@ =~= pre2 + spec_witness_item(items[j as int]));
                lemma_witness_items_snoc(items.take(j as int), items[j as int]);
                assert(items.take(j + 1) =~= items.take(j as int).push(items[j as int]));
                assert(out@ =~= mid + spec_witness_items(items.take(j + 1)));
            }
        }
        proof {
            assert(items.take(m as int) =~= items);
            assert(out@ =~= pre + spec_witness_field(models[k as int]));
            lemma_witness_fields_snoc(models.take(k as int), models[k as int]);
            assert(models.take(k + 1) =~= models.take(k as int).push(models[k as int]));
            assert(out@ =~= old(out)@ + spec_witness_fields(models.take(k + 1)));
        }
    }
    proof {
        assert(models.take(n as int) =~= models);
    }
}

/// Whether any input of the transaction carries witness data.
pub fn has_witness(tx: &Tx) -> (r: bool)
    ensures
        r == spec_has_witness(tx@),
{
    let n = tx.inputs.len();
    for k in 0..n
        invariant
            n == tx.inputs@.len(),
            forall|i: int| 0 <= i < k ==> (#[trigger] tx@.inputs[i]).witness.len() == 0,
    {
        if tx.inputs[k].witness.len() > 0 {
            assert(tx@.inputs[k as int].witness.len() > 0);
            return true;
        }
        assert(tx@.inputs[k as int] == tx.inputs@[k as int]@);
    }
    false
}

/// Serializes a transaction in the legacy form the transaction id is
/// computed over.
pub fn serialize_tx_nonwitness(tx: &Tx) -> (r: Vec<u8>)
    ensures
        r@ == spec_tx_nonwitness_bytes(tx@),
{
    let mut out: Vec<u8> = Vec::new();
    push_u32_le(&mut out, tx.version);
    push_varint(&mut out, tx.inputs.len() as u64);
    push_txins(&mut out, &tx.inputs);
    push_varint(&mut out, tx.outputs.len() as u64);
    push_txouts(&mut out, &tx.outputs);
    push_u32_le(&mut out, tx.lock_time);
    proof {
        assert(out@ =~= spec_tx_nonwitness_bytes(tx@));
    }
    out
}

/// Serializes a transaction in its wire form: extended with witness data
/// when any input carries some, legacy otherwise.
pub fn serialize_tx(tx: &Tx) -> (r: Vec<u8>)
    ensures
        r@ == spec_tx_bytes(tx@),
{
    if !has_witness(tx) {
        return serialize_tx_nonwitness(tx);
    }
    let mut out: Vec<u8> = Vec::new();
    push_u32_le(&mut out, tx.version);
    out.push(0x00);
    out.push(0x01);
    push_varint(&mut out, tx.inputs.len() as u64);
    push_txins(&mut out, &tx.inputs);
    push_varint(&mut out, tx.outputs.len() as u64);
    push_txouts(&mut out, &tx.outputs);
    push_witness_fields(&mut out, &tx.inputs);
    push_u32_le(&mut out, tx.lock_time);
    proof {
        assert(out@ =~= spec_tx_bytes(tx@));
    }
    out
}

/// Computes a transaction's id, in internal byte order.
pub fn compute_txid(tx: &Tx) -> (r: Vec<u8>)
    ensures
        r@ == spec_txid(tx@),
        r@.len() == 32,
{
    let bytes = serialize_tx_nonwitness(tx);
    sha256d(&bytes)
}

/// Reads a 32-bit little-endian value at a position.
pub open spec fn spec_read_u32le(b: Seq<u8>, pos: int) -> Option<(u32, int)> {
    if 0 <= pos && pos + 4 <= b.len() {
        Some(
            (
                (b[pos] + 256 * b[pos + 1] + 65536 * b[pos + 2] + 16777216 * b[pos + 3]) as u32,
                pos + 4,
            ),
        )
    } else {
        None
    }
}

/// Reads a 64-bit little-endian value at a position.
pub open spec fn spec_read_u64le(b: Seq<u8>, pos: int) -> Option<(u64, int)> {
    if 0 <= pos && pos + 8 <= b.len() {
        Some(
            (
                (b[pos] + 0x100 * b[pos + 1] + 0x10000 * b[pos + 2] + 0x1000000 * b[pos + 3]
                    + 0x100000000 * b[pos + 4] + 0x10000000000 * b[pos + 5] + 0x1000000000000 * b[
                    pos + 6
                ] + 0x100000000000000 * b[pos + 7]) as u64,
                pos + 8,
            ),
        )
    } else {
        None
    }
}

/// Reads a variable-length count at a position.
pub open spec fn spec_read_varint(b: Seq<u8>, pos: int) -> Option<(u64, int)> {
    if 0 <= pos && pos < b.len() {
        let tag = b[pos];
        if tag < 0xfd {
            Some((tag as u64, pos + 1))
        } else if tag == 0xfd {
            if pos + 3 <= b.len() {
                Some(((b[pos + 1] + 256 * b[pos + 2]) as u64, pos + 3))
            } else {
                None
            }
        } else if tag == 0xfe {
            match spec_read_u32le(b, pos + 1) {
                Some(r) => Some((r.0 as u64, r.1)),
                None => None,
            }
        } else {
            match spec_read_u64le(b, pos + 1) {
                Some(r) => Some(r),
                None => None,
            }
        }
    } else {
        None
    }
}

/// Reads a fixed number of bytes at a position.
pub open spec fn spec_read_bytes(b: Seq<u8>, pos: int, n: int) -> Option<(Seq<u8>, int)> {
    if 0 <= pos && 0 <= n && pos + n <= b.len() {
        Some((b.subrange(pos, pos + n), pos + n))
    } else {
        None
    }
}

/// Reads one input (without witness data) at a position.
pub open spec fn spec_read_txin(b: Seq<u8>, pos: int) -> Option<(TxInModel, int)> {
    match spec_read_bytes(b, pos, 32) {
        Some((txid, p1)) => match spec_read_u32le(b, p1) {
            Some((vout, p2)) => match spec_read_varint(b, p2) {
                Some((slen, p3)) => match spec_read_bytes(b, p3, slen as int) {
                    Some((script_sig, p4)) => match spec_read_u32le(b, p4) {
                        Some((sequence, p5)) => Some(
                            (
                                TxInModel {
                                    txid,
                                    vout,
                                    script_sig,
                                    sequence,
                                    witness: Seq::<Seq<u8>>::empty(),
                                },
                                p5,
                            ),
                        ),
                        None => None,
                    },
                    None => None,
                },
                None => None,
            },
            None => None,
        },
        None => None,
    }
}

/// Reads `n` inputs at a position.
pub open spec fn spec_read_txins(b: Seq<u8>, pos: int, n: nat) -> Option<(Seq<TxInModel>, int)>
    decreases n,
{
    if n == 0 {
        if 0 <= pos <= b.len() {
            Some((Seq::<TxInModel>::empty(), pos))
        } else {
            None
        }
    } else {
        match spec_read_txin(b, pos) {
            Some((i, p1)) => match spec_read_txins(b, p1, (n - 1) as nat) {
                Some((rest, p2)) => Some((seq![i] + rest, p2)),
                None => None,
            },
            None => None,
        }
    }
}

/// Reads one output at a position.
pub open spec fn spec_read_txout(b: Seq<u8>, pos: int) -> Option<(TxOutModel, int)> {
    match spec_read_u64le(b, pos) {
        Some((value, p1)) => match spec_read_varint(b, p1) {
            Some((slen, p2)) => match spec_read_bytes(b, p2, slen as int) {
                Some((script_pubkey, p3)) => Some((TxOutModel { value, script_pubkey }, p3)),
                None => None,
            },
            None => None,
        },
        None => None,
    }
}

/// Reads `n` outputs at a position.
pub open spec fn spec_read_txouts(b: Seq<u8>, pos: int, n: nat) -> Option<(Seq<TxOutModel>, int)>
    decreases n,
{
    if n == 0 {
        if 0 <= pos <= b.len() {
            Some((Seq::<TxOutModel>::empty(), pos))
        } else {
            None
        }
    } else {
        match spec_read_txout(b, pos) {
            Some((o, p1)) => match spec_read_txouts(b, p1, (n - 1) as nat) {
                Some((rest, p2)) => Some((seq![o] + rest, p2)),
                None => None,
            },
            None => None,
        }
    }
}

/// Reads `n` witness stack items at a position.
pub open spec fn spec_read_witness_items(b: Seq<u8>, pos: int, n: nat) -> Option<(Seq<Seq<u8>>, int)>
    decreases n,
{
    if n == 0 {
        if 0 <= pos <= b.len() {
            Some((Seq::<Seq<u8>>::empty(), pos))
        } else {
            None
        }
    } else {
        match spec_read_varint(b, pos) {
            Some((len, p1)) => match spec_read_bytes(b, p1, len as int) {
                Some((item, p2)) => match spec_read_witness_items(b, p2, (n - 1) as nat) {
                    Some((rest, p3)) => Some((seq![item] + rest, p3)),
                    None => None,
                },
                None => None,
            },
            None => None,
        }
    }
}

/// Reads one witness stack (item count, then items) at a position.
pub open spec fn spec_read_witness_stack(b: Seq<u8>, pos: int) -> Option<(Seq<Seq<u8>>, int)> {
    match spec_read_varint(b, pos) {
        Some((n, p1)) => spec_read_witness_items(b, p1, n as nat),
        None => None,
    }
}

/// Reads `n` witness stacks at a position.
pub open spec fn spec_read_witness_stacks(b: Seq<u8>, pos: int, n: nat) -> Option<
    (Seq<Seq<Seq<u8>>>, int),
>
    decreases n,
{
    if n == 0 {
        if 0 <= pos <= b.len() {
            Some((Seq::<Seq<Seq<u8>>>::empty(), pos))
        } else {
            None
        }
    } else {
        match spec_read_witness_stack(b, pos) {
            Some((s, p1)) => match spec_read_witness_stacks(b, p1, (n - 1) as nat) {
                Some((rest, p2)) => Some((seq![s] + rest, p2)),
                None => None,
            },
            None => None,
        }
    }
}

/// Parses the extended form's tail: input count onward, witnesses included.
#[verifier::opaque]
pub open spec fn spec_parse_tx_extended(b: Seq<u8>, version: u32, pos: int) -> Option<TxModel> {
    match spec_read_varint(b, pos) {
        Some((n_in, p1)) => match spec_read_txins(b, p1, n_in as nat) {
            Some((ins, p2)) => match spec_read_varint(b, p2) {
                Some((n_out, p3)) => match spec_read_txouts(b, p3, n_out as nat) {
                    Some((outs, p4)) => match spec_read_witness_stacks(b, p4, n_in as nat) {
                        Some((stacks, p5)) => match spec_read_u32le(b, p5) {
                            Some((lock_time, p6)) => if p6 == b.len() {
                                Some(
                                    TxModel {
                                        version,
                                        inputs: Seq::new(
                                            ins.len(),
                                            |i: int|
                                                TxInModel {
                                                    txid: ins[i].txid,
                                                    vout: ins[i].vout,
                                                    script_sig: ins[i].script_sig,
                                                    sequence: ins[i].sequence,
                                                    witness: stacks[i],
                                                },
                                        ),
                                        outputs: outs,
                                        lock_time,
                                    },
                                )
                            } else {
                                None
                            },
                            None => None,
                        },
                        None => None,
                    },
                    None => None,
                },
                None => None,
            },
            None => None,
        },
        None => None,
    }
}

/// Parses the legacy form's tail: input count onward, no witness data.
#[verifier::opaque]
pub open spec fn spec_parse_tx_legacy(b: Seq<u8>, version: u32, pos: int) -> Option<TxModel> {
    match spec_read_varint(b, pos) {
        Some((n_in, p1)) => match spec_read_txins(b, p1, n_in as nat) {
            Some((ins, p2)) => match spec_read_varint(b, p2) {
                Some((n_out, p3)) => match spec_read_txouts(b, p3, n_out as nat) {
                    Some((outs, p4)) => match spec_read_u32le(b, p4) {
                        Some((lock_time, p5)) => if p5 == b.len() {
                            Some(TxModel { version, inputs: ins, outputs: outs, lock_time })
                        } else {
                            None
                        },
                        None => None,
                    },
                    None => None,
                },
                None => None,
            },
            None => None,
        },
        None => None,
    }
}

/// Parses a whole transaction from its wire bytes: the extended form when
/// the marker and flag follow the version, the legacy form otherwise.
/// Trailing bytes make the parse fail.
#[verifier::opaque]
pub open spec fn spec_parse_tx(b: Seq<u8>) -> Option<TxModel> {
    match spec_read_u32le(b, 0) {
        Some((version, p0)) => if p0 + 2 <= b.len() && b[p0] == 0x00 {
            if b[p0 + 1] != 0x01 {
                None
            } else {
                spec_parse_tx_extended(b, version, p0 + 2)
            }
        } else {
            spec_parse_tx_legacy(b, version, p0)
        },
        None => None,
    }
}

/// Reading four bytes placed at a position recovers the value they render.
proof fn lemma_read_u32_at(b: Seq<u8>, pos: int, v: u32)
    requires
        0 <= pos,
        pos + 4 <= b.len(),
        b.subrange(pos, pos + 4) == spec_u32_le(v),
    ensures
        spec_read_u32le(b, pos) == Some((v, pos + 4)),
{
    assert(b[pos] == (v & 0xff) as u8 && b[pos + 1] == ((v >> 8) & 0xff) as u8 && b[pos + 2] == ((v
        >> 16) & 0xff) as u8 && b[pos + 3] == ((v >> 24) & 0xff) as u8) by {
        assert(b.subrange(pos, pos + 4)[0] == b[pos]);
        assert(b.subrange(pos, pos + 4)[1] == b[pos + 1]);
        assert(b.subrange(pos, pos + 4)[2] == b[pos + 2]);
        assert(b.subrange(pos, pos + 4)[3] == b[pos + 3]);
    }
    assert((v & 0xff) < 256 && ((v >> 8) & 0xff) < 256 && ((v >> 16) & 0xff) < 256 && ((v >> 24)
        & 0xff) < 256) by (bit_vector);
    assert((v & 0xff) + 256 * ((v >> 8) & 0xff) + 65536 * ((v >> 16) & 0xff) + 16777216 * ((v
        >> 24) & 0xff) == v) by (bit_vector);
}

/// Reading eight bytes placed at a position recovers the value they render.
proof fn lemma_read_u64_at(b: Seq<u8>, pos: int, v: u64)
    requires
        0 <= pos,
        pos + 8 <= b.len(),
        b.subrange(pos, pos + 8) == spec_u64_le(v),
    ensures
        spec_read_u64le(b, pos) == Some((v, pos + 8)),
{
    assert(forall|k: int| 0 <= k < 8 ==> #[trigger] b.subrange(pos, pos + 8)[k] == b[pos + k]);
    assert(b[pos] == (v & 0xff) as u8 && b[pos + 1] == ((v >> 8) & 0xff) as u8 && b[pos + 2] == ((v
        >> 16) & 0xff) as u8 && b[pos + 3] == ((v >> 24) & 0xff) as u8 && b[pos + 4] == ((v >> 32)
        & 0xff) as u8 && b[pos + 5] == ((v >> 40) & 0xff) as u8 && b[pos + 6] == ((v >> 48)
        & 0xff) as u8 && b[pos + 7] == ((v >> 56) & 0xff) as u8);
    assert((v & 0xff) < 256 && ((v >> 8) & 0xff) < 256 && ((v >> 16) & 0xff) < 256 && ((v >> 24)
        & 0xff) < 256 && ((v >> 32) & 0xff) < 256 && ((v >> 40) & 0xff) < 256 && ((v >> 48)
        & 0xff) < 256 && ((v >> 56) & 0xff) < 256) by (bit_vector);
    assert((v & 0xff) + 0x100 * ((v >> 8) & 0xff) + 0x10000 * ((v >> 16) & 0xff) + 0x1000000 * ((v
        >> 24) & 0xff) + 0x100000000 * ((v >> 32) & 0xff) + 0x10000000000 * ((v >> 40) & 0xff)
        + 0x1000000000000 * ((v >> 48) & 0xff) + 0x100000000000000 * ((v >> 56) & 0xff) == v)
        by (bit_vector);
}

/// Bytes placed at a position are found there.
proof fn lemma_frame_bytes(b: Seq<u8>, pos: int, d: Seq<u8>)
    requires
        0 <= pos,
        pos + d.len() <= b.len(),
        b.subrange(pos, pos + d.len() as int) == d,
    ensures
        forall|k: int| 0 <= k < d.len() ==> b[pos + k] == #[trigger] d[k],
{
    assert forall|k: int| 0 <= k < d.len() implies b[pos + k] == #[trigger] d[k] by {
        assert(b.subrange(pos, pos + d.len() as int)[k] == b[pos + k]);
    }
}

/// Reading a count placed at a position recovers the count.
proof fn lemma_read_varint_at(b: Seq<u8>, pos: int, v: u64)
    requires
        0 <= pos,
        pos + spec_varint(v).len() <= b.len(),
        b.subrange(pos, pos + spec_varint(v).len() as int) == spec_varint(v),
    ensures
        spec_read_varint(b, pos) == Some((v, pos + spec_varint(v).len())),
{
    let enc = spec_varint(v);
    lemma_frame_bytes(b, pos, enc);
    if v < 0xfd {
        assert(enc[0] == v as u8);
        assert(b[pos] == enc[0]);
        assert((v as u8) as u64 == v) by (bit_vector)
            requires
                v < 0xfd,
        ;
    } else if v <= 0xffff {
        assert(enc[0] == 0xfdu8 && enc[1] == ((v as u16) & 0xff) as u8 && enc[2] == (((v as u16)
            >> 8) & 0xff) as u8);
        assert(b[pos] == enc[0] && b[pos + 1] == enc[1] && b[pos + 2] == enc[2]);
        assert(((v as u16) & 0xff) < 256 && (((v as u16) >> 8) & 0xff) < 256) by (bit_vector);
        assert(((v as u16) & 0xff) + 256 * (((v as u16) >> 8) & 0xff) == v) by (bit_vector)
            requires
                0xfd <= v <= 0xffff,
        ;
    } else if v <= 0xffffffff {
        assert(enc[0] == 0xfeu8);
        assert(b[pos] == enc[0]);
        assert forall|k: int|
            #![trigger b.subrange(pos + 1, pos + 5)[k]]
            0 <= k < 4 implies b.subrange(pos + 1, pos + 5)[k] == spec_u32_le(v as u32)[k] by {
            assert(b.subrange(pos + 1, pos + 5)[k] == b[pos + 1 + k]);
            assert(enc[1 + k] == spec_u32_le(v as u32)[k]);
            assert(b[pos + 1 + k] == enc[1 + k]);
        }
        assert(b.subrange(pos + 1, pos + 5) =~= spec_u32_le(v as u32));
        lemma_read_u32_at(b, pos + 1, v as u32);
        assert(((v as u32) as u64) == v) by (bit_vector)
            requires
                v <= 0xffffffff,
        ;
    } else {
        assert(enc[0] == 0xffu8);
        assert(b[pos] == enc[0]);
        assert forall|k: int|
            #![trigger b.subrange(pos + 1, pos + 9)[k]]
            0 <= k < 8 implies b.subrange(pos + 1, pos + 9)[k] == spec_u64_le(v)[k] by {
            assert(b.subrange(pos + 1, pos + 9)[k] == b[pos + 1 + k]);
            assert(enc[1 + k] == spec_u64_le(v)[k]);
            assert(b[pos + 1 + k] == enc[1 + k]);
        }
        assert(b.subrange(pos + 1, pos + 9) =~= spec_u64_le(v));
        lemma_read_u64_at(b, pos + 1, v);
    }
}

/// Reading a byte run placed at a position recovers it.
proof fn lemma_read_bytes_at(b: Seq<u8>, pos: int, d: Seq<u8>)
    requires
        0 <= pos,
        pos + d.len() <= b.len(),
        b.subrange(pos, pos + d.len() as int) == d,
    ensures
        spec_read_bytes(b, pos, d.len() as int) == Some((d, pos + d.len())),
{
}

/// A parsed input sits within the buffer and consumes at least 41 bytes.
proof fn lemma_read_txin_bounds(b: Seq<u8>, pos: int)
    ensures
        spec_read_txin(b, pos) matches Some(r) ==> pos + 41 <= r.1 <= b.len(),
{
}

/// Parsed inputs consume at least 41 bytes each.
proof fn lemma_read_txins_bounds(b: Seq<u8>, pos: int, n: nat)
    ensures
        spec_read_txins(b, pos, n) matches Some(r) ==> pos + 41 * n <= r.1 <= b.len() && r.0.len()
            == n,
    decreases n,
{
    if n > 0 {
        match spec_read_txin(b, pos) {
            Some((i, p1)) => {
                lemma_read_txin_bounds(b, pos);
                lemma_read_txins_bounds(b, p1, (n - 1) as nat);
            },
            None => {},
        }
    }
}

/// A parsed output sits within the buffer and consumes at least 9 bytes.
proof fn lemma_read_txout_bounds(b: Seq<u8>, pos: int)
    ensures
        spec_read_txout(b, pos) matches Some(r) ==> pos + 9 <= r.1 <= b.len(),
{
}

/// Parsed outputs consume at least 9 bytes each.
proof fn lemma_read_txouts_bounds(b: Seq<u8>, pos: int, n: nat)
    ensures
        spec_read_txouts(b, pos, n) matches Some(r) ==> pos + 9 * n <= r.1 <= b.len() && r.0.len()
            == n,
    decreases n,
{
    if n > 0 {
        match spec_read_txout(b, pos) {
            Some((o, p1)) => {
                lemma_read_txout_bounds(b, pos);
                lemma_read_txouts_bounds(b, p1, (n - 1) as nat);
            },
            None => {},
        }
    }
}

/// Parsed witness items consume at least one byte each.
proof fn lemma_read_witness_items_bounds(b: Seq<u8>, pos: int, n: nat)
    ensures
        spec_read_witness_items(b, pos, n) matches Some(r) ==> pos + n <= r.1 <= b.len()
            && r.0.len() == n,
    decreases n,
{
    if n > 0 {
        match spec_read_varint(b, pos) {
            Some((len, p1)) => {
                match spec_read_bytes(b, p1, len as int) {
                    Some((item, p2)) => {
                        lemma_read_witness_items_bounds(b, p2, (n - 1) as nat);
                    },
                    None => {},
                }
            },
            None => {},
        }
    }
}

/// Parsed witness stacks consume at least one byte each.
proof fn lemma_read_witness_stacks_bounds(b: Seq<u8>, pos: int, n: nat)
    ensures
        spec_read_witness_stacks(b, pos, n) matches Some(r) ==> pos + n <= r.1 <= b.len()
            && r.0.len() == n,
    decreases n,
{
    if n > 0 {
        match spec_read_varint(b, pos) {
            Some((m, p1)) => {
                lemma_read_witness_items_bounds(b, p1, m as nat);
                match spec_read_witness_items(b, p1, m as nat) {
                    Some((s, p2)) => {
                        lemma_read_witness_stacks_bounds(b, p2, (n - 1) as nat);
                    },
                    None => {},
                }
            },
            None => {},
        }
    }
}

/// Reads a 32-bit little-endian value.
fn read_u32le(b: &Vec<u8>, pos: usize) -> (r: Option<(u32, usize)>)
    ensures
        match r {
            Some((v, p)) => spec_read_u32le(b@, pos as int) == Some((v, p as int)) && pos < p
                <= b@.len(),
            None => spec_read_u32le(b@, pos as int) is None,
        },
{
    if b.len() < 4 || pos > b.len() - 4 {
        return None;
    }
    let v = b[pos] as u32 + 256 * (b[pos + 1] as u32) + 65536 * (b[pos + 2] as u32) + 16777216 * (
    b[pos + 3] as u32);
    Some((v, pos + 4))
}

/// Reads a 64-bit little-endian value.
fn read_u64le(b: &Vec<u8>, pos: usize) -> (r: Option<(u64, usize)>)
    ensures
        match r {
            Some((v, p)) => spec_read_u64le(b@, pos as int) == Some((v, p as int)) && pos < p
                <= b@.len(),
            None => spec_read_u64le(b@, pos as int) is None,
        },
{
    if b.len() < 8 || pos > b.len() - 8 {
        return None;
    }
    let v = b[pos] as u64 + 0x100 * (b[pos + 1] as u64) + 0x10000 * (b[pos + 2] as u64) + 0x1000000
        * (b[pos + 3] as u64) + 0x100000000 * (b[pos + 4] as u64) + 0x10000000000 * (b[pos
        + 5] as u64) + 0x1000000000000 * (b[pos + 6] as u64) + 0x100000000000000 * (b[pos
        + 7] as u64);
    Some((v, pos + 8))
}

/// Reads a variable-length count.
fn read_varint(b: &Vec<u8>, pos: usize) -> (r: Option<(u64, usize)>)
    ensures
        match r {
            Some((v, p)) => spec_read_varint(b@, pos as int) == Some((v, p as int)) && pos < p
                <= b@.len(),
            None => spec_read_varint(b@, pos as int) is None,
        },
{
    if pos >= b.len() {
        return None;
    }
    let tag = b[pos];
    if tag < 0xfd {
        Some((tag as u64, pos + 1))
    } else if tag == 0xfd {
        if b.len() < 3 || pos > b.len() - 3 {
            return None;
        }
        Some((b[pos + 1] as u64 + 256 * (b[pos + 2] as u64), pos + 3))
    } else if tag == 0xfe {
        match read_u32le(b, pos + 1) {
            Some((v, p)) => Some((v as u64, p)),
            None => None,
        }
    } else {
        match read_u64le(b, pos + 1) {
            Some((v, p)) => Some((v, p)),
            None => None,
        }
    }
}

/// Reads a length-prefixed byte run whose length was already read.
fn read_bytes_vec(b: &Vec<u8>, pos: usize, n: u64) -> (r: Option<(Vec<u8>, usize)>)
    requires
        pos <= b@.len(),
    ensures
        match r {
            Some((v, p)) => spec_read_bytes(b@, pos as int, n as int) == Some((v@, p as int))
                && pos <= p <= b@.len(),
            None => spec_read_bytes(b@, pos as int, n as int) is None,
        },
{
    if n > (b.len() - pos) as u64 {
        return None;
    }
    let len = n as usize;
    let mut out: Vec<u8> = Vec::new();
    for k in 0..len
        invariant
            pos + len <= b@.len(),
            pos + len <= usize::MAX,
            out@ =~= b@.subrange(pos as int, pos + k),
    {
        out.push(b[pos + k]);
        assert(out@ =~= b@.subrange(pos as int, pos + k + 1));
    }
    Some((out, pos + len))
}

/// Reads one input, leaving its witness stack empty.
fn read_txin(b: &Vec<u8>, pos: usize) -> (r: Option<(TxIn, usize)>)
    requires
        pos <= b@.len(),
    ensures
        match r {
            Some((i, p)) => spec_read_txin(b@, pos as int) == Some((i@, p as int)) && pos < p
                <= b@.len(),
            None => spec_read_txin(b@, pos as int) is None,
        },
{
    let (txid, p1) = match read_bytes_vec(b, pos, 32) {
        Some(x) => x,
        None => {
            return None;
        },
    };
    let (vout, p2) = match read_u32le(b, p1) {
        Some(x) => x,
        None => {
            return None;
        },
    };
    let (slen, p3) = match read_varint(b, p2) {
        Some(x) => x,
        None => {
            return None;
        },
    };
    let (script_sig, p4) = match read_bytes_vec(b, p3, slen) {
        Some(x) => x,
        None => {
            return None;
        },
    };
    let (sequence, p5) = match read_u32le(b, p4) {
        Some(x) => x,
        None => {
            return None;
        },
    };
    let txin = TxIn { txid, vout, script_sig, sequence, witness: Vec::new() };
    proof {
        assert(txin@.witness =~= Seq::<Seq<u8>>::empty());
    }
    Some((txin, p5))
}

/// Reads one output.
fn read_txout(b: &Vec<u8>, pos: usize) -> (r: Option<(TxOut, usize)>)
    requires
        pos <= b@.len(),
    ensures
        match r {
            Some((o, p)) => spec_read_txout(b@, pos as int) == Some((o@, p as int)) && pos < p
                <= b@.len(),
            None => spec_read_txout(b@, pos as int) is None,
        },
{
    let (value, p1) = match read_u64le(b, pos) {
        Some(x) => x,
        None => {
            return None;
        },
    };
    let (slen, p2) = match read_varint(b, p1) {
        Some(x) => x,
        None => {
            return None;
        },
    };
    let (script_pubkey, p3) = match read_bytes_vec(b, p2, slen) {
        Some(x) => x,
        None => {
            return None;
        },
    };
    Some((TxOut { value, script_pubkey }, p3))
}

/// Reads `n` inputs.
fn read_txins(b: &Vec<u8>, pos: usize, n: usize) -> (r: Option<(Vec<TxIn>, usize)>)
    requires
        pos <= b@.len(),
    ensures
        match r {
            Some((v, p)) => spec_read_txins(b@, pos as int, n as nat) == Some(
                (v@.map_values(|i: TxIn| i@), p as int),
            ) && pos <= p <= b@.len(),
            None => spec_read_txins(b@, pos as int, n as nat) is None,
        },
{
    let mut acc: Vec<TxIn> = Vec::new();
    let mut cur: usize = pos;
    for j in 0..n
        invariant
            pos <= cur <= b@.len(),
            match spec_read_txins(b@, cur as int, (n - j) as nat) {
                Some(r2) => spec_read_txins(b@, pos as int, n as nat) == Some(
                    (acc@.map_values(|i: TxIn| i@) + r2.0, r2.1),
                ),
                None => spec_read_txins(b@, pos as int, n as nat) is None,
            },
    {
        let (txin, p1) = match read_txin(b, cur) {
            Some(x) => x,
            None => {
                return None;
            },
        };
        let ghost old_acc = acc@;
        acc.push(txin);
        proof {
            assert(acc@.map_values(|i: TxIn| i@) =~= old_acc.map_values(|i: TxIn| i@) + seq![
                txin@,
            ]);
            match spec_read_txins(b@, p1 as int, (n - j - 1) as nat) {
                Some(r2) => {
                    assert(old_acc.map_values(|i: TxIn| i@) + (seq![txin@] + r2.0)
                        =~= acc@.map_values(|i: TxIn| i@) + r2.0);
                },
                None => {},
            }
        }
        cur = p1;
    }
    proof {
        assert(acc@.map_values(|i: TxIn| i@) + Seq::<TxInModel>::empty() =~= acc@.map_values(
            |i: TxIn| i@,
        ));
    }
    Some((acc, cur))
}

/// Reads `n` outputs.
fn read_txouts(b: &Vec<u8>, pos: usize, n: usize) -> (r: Option<(Vec<TxOut>, usize)>)
    requires
        pos <= b@.len(),
    ensures
        match r {
            Some((v, p)) => spec_read_txouts(b@, pos as int, n as nat) == Some(
                (v@.map_values(|o: TxOut| o@), p as int),
            ) && pos <= p <= b@.len(),
            None => spec_read_txouts(b@, pos as int, n as nat) is None,
        },
{
    let mut acc: Vec<TxOut> = Vec::new();
    let mut cur: usize = pos;
    for j in 0..n
        invariant
            pos <= cur <= b@.len(),
            match spec_read_txouts(b@, cur as int, (n - j) as nat) {
                Some(r2) => spec_read_txouts(b@, pos as int, n as nat) == Some(
                    (acc@.map_values(|o: TxOut| o@) + r2.0, r2.1),
                ),
                None => spec_read_txouts(b@, pos as int, n as nat) is None,
            },
    {
        let (txout, p1) = match read_txout(b, cur) {
            Some(x) => x,
            None => {
                return None;
            },
        };
        let ghost old_acc = acc@;
        acc.push(txout);
        proof {
            assert(acc@.map_values(|o: TxOut| o@) =~= old_acc.map_values(|o: TxOut| o@) + seq![
                txout@,
            ]);
            match spec_read_txouts(b@, p1 as int, (n - j - 1) as nat) {
                Some(r2) => {
                    assert(old_acc.map_values(|o: TxOut| o@) + (seq![txout@] + r2.0)
                        =~= acc@.map_values(|o: TxOut| o@) + r2.0);
                },
                None => {},
            }
        }
        cur = p1;
    }
    proof {
        assert(acc@.map_values(|o: TxOut| o@) + Seq::<TxOutModel>::empty() =~= acc@.map_values(
            |o: TxOut| o@,
        ));
    }
    Some((acc, cur))
}

/// The model of a stack of witness items.
pub open spec fn stack_model(s: Vec<Vec<u8>>) -> Seq<Seq<u8>> {
    s@.map_values(|w: Vec<u8>| w@)
}

/// Reads one witness stack.
fn read_witness_stack(b: &Vec<u8>, pos: usize) -> (r: Option<(Vec<Vec<u8>>, usize)>)
    requires
        pos <= b@.len(),
    ensures
        match r {
            Some((v, p)) => spec_read_witness_stack(b@, pos as int) == Some(
                (stack_model(v), p as int),
            ) && pos <= p <= b@.len(),
            None => spec_read_witness_stack(b@, pos as int) is None,
        },
{
    let (m64, p1) = match read_varint(b, pos) {
        Some(x) => x,
        None => {
            return None;
        },
    };
    if (m64 as u128) > (b.len() - p1) as u128 {
        proof {
            lemma_read_witness_items_bounds(b@, p1 as int, m64 as nat);
        }
        return None;
    }
    let m = m64 as usize;
    let mut acc: Vec<Vec<u8>> = Vec::new();
    let mut cur: usize = p1;
    for j in 0..m
        invariant
            p1 <= cur <= b@.len(),
            spec_read_witness_stack(b@, pos as int) == spec_read_witness_items(
                b@,
                p1 as int,
                m as nat,
            ),
            match spec_read_witness_items(b@, cur as int, (m - j) as nat) {
                Some(r2) => spec_read_witness_items(b@, p1 as int, m as nat) == Some(
                    (stack_model(acc) + r2.0, r2.1),
                ),
                None => spec_read_witness_items(b@, p1 as int, m as nat) is None,
            },
    {
        let (len, p2) = match read_varint(b, cur) {
            Some(x) => x,
            None => {
                return None;
            },
        };
        let (item, p3) = match read_bytes_vec(b, p2, len) {
            Some(x) => x,
            None => {
                return None;
            },
        };
        let ghost old_acc = acc@;
        acc.push(item);
        proof {
            assert(stack_model(acc) =~= old_acc.map_values(|w: Vec<u8>| w@) + seq![item@]);
            match spec_read_witness_items(b@, p3 as int, (m - j - 1) as nat) {
                Some(r2) => {
                    assert(old_acc.map_values(|w: Vec<u8>| w@) + (seq![item@] + r2.0)
                        =~= stack_model(acc) + r2.0);
                },
                None => {},
            }
        }
        cur = p3;
    }
    proof {
        assert(stack_model(acc) + Seq::<Seq<u8>>::empty() =~= stack_model(acc));
    }
    Some((acc, cur))
}

/// Reads `n` witness stacks.
fn read_witness_stacks(b: &Vec<u8>, pos: usize, n: usize) -> (r: Option<(Vec<Vec<Vec<u8>>>, usize)>)
    requires
        pos <= b@.len(),
    ensures
        match r {
            Some((v, p)) => spec_read_witness_stacks(b@, pos as int, n as nat) == Some(
                (v@.map_values(|s: Vec<Vec<u8>>| stack_model(s)), p as int),
            ) && pos <= p <= b@.len(),
            None => spec_read_witness_stacks(b@, pos as int, n as nat) is None,
        },
{
    let mut acc: Vec<Vec<Vec<u8>>> = Vec::new();
    let mut cur: usize = pos;
    for j in 0..n
        invariant
            pos <= cur <= b@.len(),
            match spec_read_witness_stacks(b@, cur as int, (n - j) as nat) {
                Some(r2) => spec_read_witness_stacks(b@, pos as int, n as nat) == Some(
                    (acc@.map_values(|s: Vec<Vec<u8>>| stack_model(s)) + r2.0, r2.1),
                ),
                None => spec_read_witness_stacks(b@, pos as int, n as nat) is None,
            },
    {
        let (stack, p1) = match read_witness_stack(b, cur) {
            Some(x) => x,
            None => {
                return None;
            },
        };
        let ghost old_acc = acc@;
        acc.push(stack);
        proof {
            assert(acc@.map_values(|s: Vec<Vec<u8>>| stack_model(s)) =~= old_acc.map_values(
                |s: Vec<Vec<u8>>| stack_model(s),
            ) + seq![stack_model(stack)]);
            match spec_read_witness_stacks(b@, p1 as int, (n - j - 1) as nat) {
                Some(r2) => {
                    assert(old_acc.map_values(|s: Vec<Vec<u8>>| stack_model(s)) + (seq![
                        stack_model(stack),
                    ] + r2.0) =~= acc@.map_values(|s: Vec<Vec<u8>>| stack_model(s)) + r2.0);
                },
                None => {},
            }
        }
        cur = p1;
    }
    proof {
        assert(acc@.map_values(|s: Vec<Vec<u8>>| stack_model(s)) + Seq::<Seq<Seq<u8>>>::empty()
            =~= acc@.map_values(|s: Vec<Vec<u8>>| stack_model(s)));
    }
    Some((acc, cur))
}

/// Parses a transaction from its wire bytes. Returns `None` exactly when
/// the bytes are no well-formed transaction.
#[verifier::rlimit(60)]
pub fn parse_tx(bytes: &Vec<u8>) -> (r: Option<Tx>)
    ensures
        match r {
            Some(t) => spec_parse_tx(bytes@) == Some(t@),
            None => spec_parse_tx(bytes@) is None,
        },
{
    proof {
        reveal(spec_parse_tx);
        reveal(spec_parse_tx_extended);
        reveal(spec_parse_tx_legacy);
    }
    let (version, p0) = match read_u32le(bytes, 0) {
        Some(x) => x,
        None => {
            return None;
        },
    };
    if p0 + 2 <= bytes.len() && bytes[p0] == 0x00 {
        if bytes[p0 + 1] != 0x01 {
            return None;
        }
        let (n_in64, p1) = match read_varint(bytes, p0 + 2) {
            Some(x) => x,
            None => {
                return None;
            },
        };
        if (n_in64 as u128) * 41 > (bytes.len() - p1) as u128 {
            proof {
                lemma_read_txins_bounds(bytes@, p1 as int, n_in64 as nat);
            }
            return None;
        }
        let n_in = n_in64 as usize;
        let (ins, p2) = match read_txins(bytes, p1, n_in) {
            Some(x) => x,
            None => {
                return None;
            },
        };
        let (n_out64, p3) = match read_varint(bytes, p2) {
            Some(x) => x,
            None => {
                return None;
            },
        };
        if (n_out64 as u128) * 9 > (bytes.len() - p3) as u128 {
            proof {
                lemma_read_txouts_bounds(bytes@, p3 as int, n_out64 as nat);
            }
            return None;
        }
        let (outs, p4) = match read_txouts(bytes, p3, n_out64 as usize) {
            Some(x) => x,
            None => {
                return None;
            },
        };
        let (stacks, p5) = match read_witness_stacks(bytes, p4, n_in) {
            Some(x) => x,
            None => {
                return None;
            },
        };
        let (lock_time, p6) = match read_u32le(bytes, p5) {
            Some(x) => x,
            None => {
                return None;
            },
        };
        if p6 != bytes.len() {
            return None;
        }
        let ghost gins = ins@.map_values(|i: TxIn| i@);
        let ghost gstacks = stacks@.map_values(|s: Vec<Vec<u8>>| stack_model(s));
        let ghost merged = Seq::new(
            gins.len(),
            |i: int|
                TxInModel {
                    txid: gins[i].txid,
                    vout: gins[i].vout,
                    script_sig: gins[i].script_sig,
                    sequence: gins[i].sequence,
                    witness: gstacks[i],
                },
        );
        let mut ins_rest = ins;
        let mut stacks_rest = stacks;
        let mut inputs: Vec<TxIn> = Vec::new();
        proof {
            lemma_read_txins_bounds(bytes@, p1 as int, n_in as nat);
            lemma_read_witness_stacks_bounds(bytes@, p4 as int, n_in as nat);
            assert(ins_rest@.map_values(|i: TxIn| i@) =~= gins.skip(0));
            assert(stacks_rest@.map_values(|s: Vec<Vec<u8>>| stack_model(s)) =~= gstacks.skip(
                0,
            ));
        }
        for k in 0..n_in
            invariant
                gins.len() == n_in,
                gstacks.len() == n_in,
                merged == Seq::new(
                    gins.len(),
                    |i: int|
                        TxInModel {
                            txid: gins[i].txid,
                            vout: gins[i].vout,
                            script_sig: gins[i].script_sig,
                            sequence: gins[i].sequence,
                            witness: gstacks[i],
                        },
                ),
                ins_rest@.len() == n_in - k,
                stacks_rest@.len() == n_in - k,
                ins_rest@.map_values(|i: TxIn| i@) == gins.skip(k as int),
                stacks_rest@.map_values(|s: Vec<Vec<u8>>| stack_model(s)) == gstacks.skip(
                    k as int,
                ),
                inputs@.map_values(|i: TxIn| i@) == merged.take(k as int),
        {
            let ghost oir = ins_rest@;
            let ghost osr = stacks_rest@;
            let txin = ins_rest.remove(0);
            let stack = stacks_rest.remove(0);
            proof {
                assert(oir.map_values(|i: TxIn| i@)[0] == txin@);
                assert(txin@ == gins.skip(k as int)[0] && gins.skip(k as int)[0]
                    == gins[k as int]);
                assert(osr.map_values(|s: Vec<Vec<u8>>| stack_model(s))[0] == stack_model(
                    stack,
                ));
                assert(stack_model(stack) == gstacks.skip(k as int)[0] && gstacks.skip(
                    k as int,
                )[0] == gstacks[k as int]);
                assert(ins_rest@ == oir.remove(0));
                assert forall|i: int|
                    #![trigger gins.skip(k + 1)[i]]
                    0 <= i < ins_rest@.len() implies ins_rest@.map_values(
                    |i2: TxIn| i2@,
                )[i] == gins.skip(k + 1)[i] by {
                    assert(ins_rest@[i] == oir[i + 1]);
                    assert(oir.map_values(|i2: TxIn| i2@)[i + 1] == oir[i + 1]@);
                    assert(gins.skip(k as int)[i + 1] == gins.skip(k + 1)[i]);
                }
                assert(ins_rest@.map_values(|i: TxIn| i@) =~= gins.skip(k + 1));
                assert(stacks_rest@ == osr.remove(0));
                assert forall|i: int|
                    #![trigger gstacks.skip(k + 1)[i]]
                    0 <= i < stacks_rest@.len() implies stacks_rest@.map_values(
                    |s: Vec<Vec<u8>>| stack_model(s),
                )[i] == gstacks.skip(k + 1)[i] by {
                    assert(stacks_rest@[i] == osr[i + 1]);
                    assert(osr.map_values(|s: Vec<Vec<u8>>| stack_model(s))[i + 1] == stack_model(
                        osr[i + 1],
                    ));
                    assert(gstacks.skip(k as int)[i + 1] == gstacks.skip(k + 1)[i]);
                }
                assert(stacks_rest@.map_values(|s: Vec<Vec<u8>>| stack_model(s)) =~= gstacks.skip(
                    k + 1,
                ));
            }
            let ghost old_inputs = inputs@;
            inputs.push(
                TxIn {
                    txid: txin.txid,
                    vout: txin.vout,
                    script_sig: txin.script_sig,
                    sequence: txin.sequence,
                    witness: stack,
                },
            );
            proof {
                assert(inputs@.map_values(|i: TxIn| i@) =~= old_inputs.map_values(|i: TxIn| i@)
                    + seq![merged[k as int]]);
                assert(inputs@.map_values(|i: TxIn| i@) =~= merged.take(k + 1));
            }
        }
        let tx = Tx { version, inputs, outputs: outs, lock_time };
        proof {
            assert(merged.take(n_in as int) =~= merged);
            assert(tx@.inputs =~= merged);
            assert(spec_parse_tx(bytes@) matches Some(t) && t == tx@) by {
                assert(spec_parse_tx(bytes@) == Some(
                    TxModel {
                        version: version,
                        inputs: merged,
                        outputs: outs@.map_values(|o: TxOut| o@),
                        lock_time: lock_time,
                    },
                ));
            }
        }
        Some(tx)
    } else {
        let (n_in64, p1) = match read_varint(bytes, p0) {
            Some(x) => x,
            None => {
                return None;
            },
        };
        if (n_in64 as u128) * 41 > (bytes.len() - p1) as u128 {
            proof {
                lemma_read_txins_bounds(bytes@, p1 as int, n_in64 as nat);
            }
            return None;
        }
        let (ins, p2) = match read_txins(bytes, p1, n_in64 as usize) {
            Some(x) => x,
            None => {
                return None;
            },
        };
        let (n_out64, p3) = match read_varint(bytes, p2) {
            Some(x) => x,
            None => {
                return None;
            },
        };
        if (n_out64 as u128) * 9 > (bytes.len() - p3) as u128 {
            proof {
                lemma_read_txouts_bounds(bytes@, p3 as int, n_out64 as nat);
            }
            return None;
        }
        let (outs, p4) = match read_txouts(bytes, p3, n_out64 as usize) {
            Some(x) => x,
            None => {
                return None;
            },
        };
        let (lock_time, p5) = match read_u32le(bytes, p4) {
            Some(x) => x,
            None => {
                return None;
            },
        };
        if p5 != bytes.len() {
            return None;
        }
        let tx = Tx { version, inputs: ins, outputs: outs, lock_time };
        Some(tx)
    }
}

/// Splitting a placed concatenation places both halves.
proof fn lemma_split_frame(b: Seq<u8>, pos: int, x: Seq<u8>, y: Seq<u8>)
    requires
        0 <= pos,
        pos + x.len() + y.len() <= b.len(),
        b.subrange(pos, pos + x.len() + y.len()) == x + y,
    ensures
        b.subrange(pos, pos + x.len() as int) == x,
        b.subrange(pos + x.len(), pos + x.len() + y.len()) == y,
{
    let whole = b.subrange(pos, pos + x.len() + y.len());
    assert forall|k: int|
        #![trigger b.subrange(pos, pos + x.len() as int)[k]]
        0 <= k < x.len() implies b.subrange(pos, pos + x.len() as int)[k] == x[k] by {
        assert(b.subrange(pos, pos + x.len() as int)[k] == b[pos + k]);
        assert(whole[k] == b[pos + k]);
        assert(whole[k] == (x + y)[k]);
    }
    assert(b.subrange(pos, pos + x.len() as int) =~= x);
    assert forall|k: int|
        #![trigger b.subrange(pos + x.len(), pos + x.len() + y.len())[k]]
        0 <= k < y.len() implies b.subrange(pos + x.len(), pos + x.len() + y.len())[k] == y[k] by {
        assert(b.subrange(pos + x.len(), pos + x.len() + y.len())[k] == b[pos + x.len() + k]);
        assert(whole[x.len() + k] == b[pos + x.len() + k]);
        assert(whole[x.len() + k] == (x + y)[x.len() + k]);
    }
    assert(b.subrange(pos + x.len(), pos + x.len() + y.len()) =~= y);
}

/// An input with its witness stack cleared, as the legacy form carries it.
pub open spec fn strip_witness(i: TxInModel) -> TxInModel {
    TxInModel { witness: Seq::<Seq<u8>>::empty(), ..i }
}

/// All inputs with their witness stacks cleared.
pub open spec fn strip_witnesses(s: Seq<TxInModel>) -> Seq<TxInModel> {
    Seq::new(s.len(), |k: int| strip_witness(s[k]))
}

/// The witness stacks of a list of inputs.
pub open spec fn witness_stacks_of(s: Seq<TxInModel>) -> Seq<Seq<Seq<u8>>> {
    Seq::new(s.len(), |k: int| s[k].witness)
}

/// Whether every count and byte-run length of a transaction fits the wire
/// format's 64-bit counts. Every transaction held in memory satisfies this.
pub open spec fn tx_bounded(t: TxModel) -> bool {
    &&& t.inputs.len() <= u64::MAX
    &&& t.outputs.len() <= u64::MAX
    &&& forall|i: int|
        0 <= i < t.inputs.len() ==> {
            &&& (#[trigger] t.inputs[i]).script_sig.len() <= u64::MAX
            &&& t.inputs[i].witness.len() <= u64::MAX
            &&& forall|j: int|
                0 <= j < t.inputs[i].witness.len() ==> (#[trigger] t.inputs[i].witness[j]).len()
                    <= u64::MAX
        }
    &&& forall|i: int|
        0 <= i < t.outputs.len() ==> (#[trigger] t.outputs[i]).script_pubkey.len() <= u64::MAX
}

/// Reading an input placed at a position recovers it, without its witness.
proof fn lemma_read_txin_at(b: Seq<u8>, pos: int, i: TxInModel)
    requires
        i.txid.len() == 32,
        i.script_sig.len() <= u64::MAX,
        0 <= pos,
        pos + spec_txin_bytes(i).len() <= b.len(),
        b.subrange(pos, pos + spec_txin_bytes(i).len() as int) == spec_txin_bytes(i),
    ensures
        spec_read_txin(b, pos) == Some((strip_witness(i), pos + spec_txin_bytes(i).len())),
{
    let slen = i.script_sig.len() as u64;
    let seg2 = spec_u32_le(i.vout);
    let seg3 = spec_varint(slen);
    let seg5 = spec_u32_le(i.sequence);
    let whole = spec_txin_bytes(i);
    let p1 = pos + 32;
    let p2 = p1 + 4;
    let p3 = p2 + seg3.len();
    let p4 = p3 + i.script_sig.len();
    assert(whole =~= i.txid + (seg2 + (seg3 + (i.script_sig + seg5))));
    lemma_split_frame(b, pos, i.txid, seg2 + (seg3 + (i.script_sig + seg5)));
    lemma_read_bytes_at(b, pos, i.txid);
    lemma_split_frame(b, p1, seg2, seg3 + (i.script_sig + seg5));
    lemma_read_u32_at(b, p1, i.vout);
    lemma_split_frame(b, p2, seg3, i.script_sig + seg5);
    lemma_read_varint_at(b, p2, slen);
    lemma_split_frame(b, p3, i.script_sig, seg5);
    lemma_read_bytes_at(b, p3, i.script_sig);
    lemma_read_u32_at(b, p4, i.sequence);
}

/// Reading a list of inputs placed at a position recovers them.
proof fn lemma_read_txins_at(b: Seq<u8>, pos: int, s: Seq<TxInModel>)
    requires
        forall|k: int|
            0 <= k < s.len() ==> (#[trigger] s[k]).txid.len() == 32 && s[k].script_sig.len()
                <= u64::MAX,
        0 <= pos,
        pos + spec_txins_bytes(s).len() <= b.len(),
        b.subrange(pos, pos + spec_txins_bytes(s).len() as int) == spec_txins_bytes(s),
    ensures
        spec_read_txins(b, pos, s.len()) == Some(
            (strip_witnesses(s), pos + spec_txins_bytes(s).len()),
        ),
    decreases s.len(),
{
    if s.len() == 0 {
        assert(strip_witnesses(s) =~= Seq::<TxInModel>::empty());
    } else {
        let first = s.first();
        let rest = s.drop_first();
        assert(first == s[0]);
        assert(forall|k: int| 0 <= k < rest.len() ==> #[trigger] rest[k] == s[k + 1]);
        lemma_split_frame(b, pos, spec_txin_bytes(first), spec_txins_bytes(rest));
        lemma_read_txin_at(b, pos, first);
        let p1 = pos + spec_txin_bytes(first).len();
        lemma_read_txins_at(b, p1, rest);
        assert(seq![strip_witness(first)] + strip_witnesses(rest) =~= strip_witnesses(s));
    }
}

/// Reading an output placed at a position recovers it.
proof fn lemma_read_txout_at(b: Seq<u8>, pos: int, o: TxOutModel)
    requires
        o.script_pubkey.len() <= u64::MAX,
        0 <= pos,
        pos + spec_txout_bytes(o).len() <= b.len(),
        b.subrange(pos, pos + spec_txout_bytes(o).len() as int) == spec_txout_bytes(o),
    ensures
        spec_read_txout(b, pos) == Some((o, pos + spec_txout_bytes(o).len())),
{
    let slen = o.script_pubkey.len() as u64;
    let seg1 = spec_u64_le(o.value);
    let seg2 = spec_varint(slen);
    let whole = spec_txout_bytes(o);
    let p1 = pos + 8;
    let p2 = p1 + seg2.len();
    assert(whole =~= seg1 + (seg2 + o.script_pubkey));
    lemma_split_frame(b, pos, seg1, seg2 + o.script_pubkey);
    lemma_read_u64_at(b, pos, o.value);
    lemma_split_frame(b, p1, seg2, o.script_pubkey);
    lemma_read_varint_at(b, p1, slen);
    lemma_read_bytes_at(b, p2, o.script_pubkey);
}

/// Reading a list of outputs placed at a position recovers them.
proof fn lemma_read_txouts_at(b: Seq<u8>, pos: int, s: Seq<TxOutModel>)
    requires
        forall|k: int| 0 <= k < s.len() ==> (#[trigger] s[k]).script_pubkey.len() <= u64::MAX,
        0 <= pos,
        pos + spec_txouts_bytes(s).len() <= b.len(),
        b.subrange(pos, pos + spec_txouts_bytes(s).len() as int) == spec_txouts_bytes(s),
    ensures
        spec_read_txouts(b, pos, s.len()) == Some((s, pos + spec_txouts_bytes(s).len())),
    decreases s.len(),
{
    if s.len() == 0 {
    } else {
        let first = s.first();
        let rest = s.drop_first();
        assert(first == s[0]);
        assert(forall|k: int| 0 <= k < rest.len() ==> #[trigger] rest[k] == s[k + 1]);
        lemma_split_frame(b, pos, spec_txout_bytes(first), spec_txouts_bytes(rest));
        lemma_read_txout_at(b, pos, first);
        let p1 = pos + spec_txout_bytes(first).len();
        lemma_read_txouts_at(b, p1, rest);
        assert(seq![first] + rest =~= s);
    }
}

/// Reading a list of witness items placed at a position recovers them.
proof fn lemma_read_witness_items_at(b: Seq<u8>, pos: int, s: Seq<Seq<u8>>)
    requires
        forall|k: int| 0 <= k < s.len() ==> (#[trigger] s[k]).len() <= u64::MAX,
        0 <= pos,
        pos + spec_witness_items(s).len() <= b.len(),
        b.subrange(pos, pos + spec_witness_items(s).len() as int) == spec_witness_items(s),
    ensures
        spec_read_witness_items(b, pos, s.len()) == Some(
            (s, pos + spec_witness_items(s).len()),
        ),
    decreases s.len(),
{
    if s.len() == 0 {
    } else {
        let first = s.first();
        let rest = s.drop_first();
        assert(first == s[0]);
        assert(forall|k: int| 0 <= k < rest.len() ==> #[trigger] rest[k] == s[k + 1]);
        let ilen = first.len() as u64;
        assert(spec_witness_item(first) + spec_witness_items(rest) =~= spec_varint(ilen) + (first
            + spec_witness_items(rest)));
        lemma_split_frame(b, pos, spec_varint(ilen), first + spec_witness_items(rest));
        lemma_read_varint_at(b, pos, ilen);
        let p1 = pos + spec_varint(ilen).len();
        lemma_split_frame(b, p1, first, spec_witness_items(rest));
        lemma_read_bytes_at(b, p1, first);
        let p2 = p1 + first.len();
        lemma_read_witness_items_at(b, p2, rest);
        assert(seq![first] + rest =~= s);
    }
}

/// Reading a list of witness stacks placed at a position recovers them.
proof fn lemma_read_witness_stacks_at(b: Seq<u8>, pos: int, s: Seq<TxInModel>)
    requires
        forall|k: int|
            0 <= k < s.len() ==> (#[trigger] s[k]).witness.len() <= u64::MAX && forall|j: int|
                0 <= j < s[k].witness.len() ==> (#[trigger] s[k].witness[j]).len() <= u64::MAX,
        0 <= pos,
        pos + spec_witness_fields(s).len() <= b.len(),
        b.subrange(pos, pos + spec_witness_fields(s).len() as int) == spec_witness_fields(s),
    ensures
        spec_read_witness_stacks(b, pos, s.len()) == Some(
            (witness_stacks_of(s), pos + spec_witness_fields(s).len()),
        ),
    decreases s.len(),
{
    if s.len() == 0 {
        assert(witness_stacks_of(s) =~= Seq::<Seq<Seq<u8>>>::empty());
    } else {
        let first = s.first();
        let rest = s.drop_first();
        assert(first == s[0]);
        assert(forall|k: int| 0 <= k < rest.len() ==> #[trigger] rest[k] == s[k + 1]);
        let wlen = first.witness.len() as u64;
        lemma_split_frame(b, pos, spec_witness_field(first), spec_witness_fields(rest));
        assert(spec_witness_field(first) + spec_witness_fields(rest) =~= spec_varint(wlen) + (
        spec_witness_items(first.witness) + spec_witness_fields(rest)));
        lemma_split_frame(b, pos, spec_varint(wlen), spec_witness_items(first.witness)
            + spec_witness_fields(rest));
        lemma_read_varint_at(b, pos, wlen);
        let p1 = pos + spec_varint(wlen).len();
        lemma_split_frame(b, p1, spec_witness_items(first.witness), spec_witness_fields(rest));
        lemma_read_witness_items_at(b, p1, first.witness);
        let p2 = p1 + spec_witness_items(first.witness).len();
        lemma_read_witness_stacks_at(b, p2, rest);
        assert(seq![first.witness] + witness_stacks_of(rest) =~= witness_stacks_of(s));
    }
}

/// Reading the shared middle of both forms — input count, inputs, output
/// count, outputs — placed at a position recovers them and places the tail.
proof fn lemma_reads_from_counts(b: Seq<u8>, pos: int, t: TxModel, tail: Seq<u8>)
    requires
        forall|i: int| 0 <= i < t.inputs.len() ==> (#[trigger] t.inputs[i]).txid.len() == 32,
        tx_bounded(t),
        0 <= pos,
        pos + spec_varint(t.inputs.len() as u64).len() + spec_txins_bytes(t.inputs).len()
            + spec_varint(t.outputs.len() as u64).len() + spec_txouts_bytes(t.outputs).len()
            + tail.len() <= b.len(),
        b.subrange(
            pos,
            pos + spec_varint(t.inputs.len() as u64).len() + spec_txins_bytes(t.inputs).len()
                + spec_varint(t.outputs.len() as u64).len() + spec_txouts_bytes(t.outputs).len()
                + tail.len(),
        ) == spec_varint(t.inputs.len() as u64) + (spec_txins_bytes(t.inputs) + (spec_varint(
            t.outputs.len() as u64,
        ) + (spec_txouts_bytes(t.outputs) + tail))),
    ensures
        ({
            let s3 = spec_varint(t.inputs.len() as u64);
            let s4 = spec_txins_bytes(t.inputs);
            let s5 = spec_varint(t.outputs.len() as u64);
            let s6 = spec_txouts_bytes(t.outputs);
            let p1 = pos + s3.len();
            let p2 = p1 + s4.len();
            let p3 = p2 + s5.len();
            let p4 = p3 + s6.len();
            &&& spec_read_varint(b, pos) == Some((t.inputs.len() as u64, p1))
            &&& spec_read_txins(b, p1, t.inputs.len()) == Some((strip_witnesses(t.inputs), p2))
            &&& spec_read_varint(b, p2) == Some((t.outputs.len() as u64, p3))
            &&& spec_read_txouts(b, p3, t.outputs.len()) == Some((t.outputs, p4))
            &&& b.subrange(p4, p4 + tail.len() as int) == tail
        }),
{
    let s3 = spec_varint(t.inputs.len() as u64);
    let s4 = spec_txins_bytes(t.inputs);
    let s5 = spec_varint(t.outputs.len() as u64);
    let s6 = spec_txouts_bytes(t.outputs);
    let p1 = pos + s3.len();
    let p2 = p1 + s4.len();
    let p3 = p2 + s5.len();
    let p4 = p3 + s6.len();
    lemma_split_frame(b, pos, s3, s4 + (s5 + (s6 + tail)));
    lemma_read_varint_at(b, pos, t.inputs.len() as u64);
    lemma_split_frame(b, p1, s4, s5 + (s6 + tail));
    lemma_read_txins_at(b, p1, t.inputs);
    lemma_split_frame(b, p2, s5, s6 + tail);
    lemma_read_varint_at(b, p2, t.outputs.len() as u64);
    lemma_split_frame(b, p3, s6, tail);
    lemma_read_txouts_at(b, p3, t.outputs);
}

/// The extended-form half of the round-trip law.
#[verifier::rlimit(100)]
proof fn lemma_parse_inverts_serialize_witness(t: TxModel)
    requires
        t.inputs.len() >= 1,
        forall|i: int| 0 <= i < t.inputs.len() ==> (#[trigger] t.inputs[i]).txid.len() == 32,
        tx_bounded(t),
        spec_has_witness(t),
    ensures
        spec_parse_tx_extended(spec_tx_bytes(t), t.version, 6) == Some(t),
{
    let b = spec_tx_bytes(t);
    let s1 = spec_u32_le(t.version);
    let s2 = seq![0x00u8, 0x01u8];
    let s3 = spec_varint(t.inputs.len() as u64);
    let s4 = spec_txins_bytes(t.inputs);
    let s5 = spec_varint(t.outputs.len() as u64);
    let s6 = spec_txouts_bytes(t.outputs);
    let s7 = spec_witness_fields(t.inputs);
    let s8 = spec_u32_le(t.lock_time);
    let rest = s3 + (s4 + (s5 + (s6 + (s7 + s8))));
    assert(b == s1 + (s2 + rest));
    assert(b.subrange(0, b.len() as int) =~= b);
    lemma_split_frame(b, 0, s1, s2 + rest);
    lemma_split_frame(b, 4, s2, rest);
    lemma_reads_from_counts(b, 6, t, s7 + s8);
    let p1: int = 6 + s3.len() as int;
    let p2: int = p1 + s4.len();
    let p3 = p2 + s5.len();
    let p4 = p3 + s6.len();
    lemma_split_frame(b, p4, s7, s8);
    lemma_read_witness_stacks_at(b, p4, t.inputs);
    let p5 = p4 + s7.len();
    lemma_read_u32_at(b, p5, t.lock_time);
    assert(p5 + 4 == b.len());
    let ins = strip_witnesses(t.inputs);
    let stacks = witness_stacks_of(t.inputs);
    let merged = Seq::new(
        ins.len(),
        |i: int|
            TxInModel {
                txid: ins[i].txid,
                vout: ins[i].vout,
                script_sig: ins[i].script_sig,
                sequence: ins[i].sequence,
                witness: stacks[i],
            },
    );
    assert forall|i: int| 0 <= i < merged.len() implies #[trigger] merged[i] == t.inputs[i] by {
        assert(ins[i] == strip_witness(t.inputs[i]));
        assert(stacks[i] == t.inputs[i].witness);
    }
    assert(merged =~= t.inputs);
    reveal(spec_parse_tx_extended);
    assert(spec_parse_tx_extended(b, t.version, 6) == Some(t));
}

/// The legacy-form half of the round-trip law.
#[verifier::rlimit(100)]
proof fn lemma_parse_inverts_serialize_legacy(t: TxModel)
    requires
        t.inputs.len() >= 1,
        forall|i: int| 0 <= i < t.inputs.len() ==> (#[trigger] t.inputs[i]).txid.len() == 32,
        tx_bounded(t),
        !spec_has_witness(t),
    ensures
        spec_parse_tx_legacy(spec_tx_bytes(t), t.version, 4) == Some(t),
{
    let b = spec_tx_bytes(t);
    let s1 = spec_u32_le(t.version);
    let s3 = spec_varint(t.inputs.len() as u64);
    let s4 = spec_txins_bytes(t.inputs);
    let s5 = spec_varint(t.outputs.len() as u64);
    let s6 = spec_txouts_bytes(t.outputs);
    let s8 = spec_u32_le(t.lock_time);
    let rest = s3 + (s4 + (s5 + (s6 + s8)));
    assert(b == s1 + rest);
    assert(b.subrange(0, b.len() as int) =~= b);
    lemma_split_frame(b, 0, s1, rest);
    lemma_reads_from_counts(b, 4, t, s8);
    let p1: int = 4 + s3.len() as int;
    let p2: int = p1 + s4.len();
    let p3 = p2 + s5.len();
    let p4 = p3 + s6.len();
    lemma_read_u32_at(b, p4, t.lock_time);
    assert(p4 + 4 == b.len());
    assert forall|i: int| 0 <= i < t.inputs.len() implies #[trigger] strip_witnesses(
        t.inputs,
    )[i] == t.inputs[i] by {
        assert(!((t.inputs[i]).witness.len() > 0));
        assert(t.inputs[i].witness =~= Seq::<Seq<u8>>::empty());
    }
    assert(strip_witnesses(t.inputs) =~= t.inputs);
    reveal(spec_parse_tx_legacy);
    assert(spec_parse_tx_legacy(b, t.version, 4) == Some(t));
}

/// Parsing inverts serialization: a transaction's wire bytes parse back to
/// exactly that transaction. At least one input is required — an inputless
/// transaction's legacy bytes would collide with the extended form's marker
/// — along with 32-byte transaction ids and wire-representable lengths.
pub proof fn lemma_parse_inverts_serialize(t: TxModel)
    requires
        t.inputs.len() >= 1,
        forall|i: int| 0 <= i < t.inputs.len() ==> (#[trigger] t.inputs[i]).txid.len() == 32,
        tx_bounded(t),
    ensures
        spec_parse_tx(spec_tx_bytes(t)) == Some(t),
{
    reveal(spec_parse_tx);
    let b = spec_tx_bytes(t);
    let n_in = t.inputs.len() as u64;
    let s1 = spec_u32_le(t.version);
    let s3 = spec_varint(n_in);
    assert(b.subrange(0, b.len() as int) =~= b);
    if spec_has_witness(t) {
        let s2 = seq![0x00u8, 0x01u8];
        let rest = s2 + (s3 + (spec_txins_bytes(t.inputs) + (spec_varint(t.outputs.len() as u64)
            + (spec_txouts_bytes(t.outputs) + (spec_witness_fields(t.inputs) + spec_u32_le(
            t.lock_time,
        ))))));
        assert(b =~= s1 + rest);
        lemma_split_frame(b, 0, s1, rest);
        lemma_read_u32_at(b, 0, t.version);
        lemma_frame_bytes(b, 4, rest);
        assert(rest[0] == 0x00u8 && rest[1] == 0x01u8);
        assert(b[4] == 0x00 && b[5] == 0x01);
        lemma_parse_inverts_serialize_witness(t);
    } else {
        let rest = s3 + (spec_txins_bytes(t.inputs) + (spec_varint(t.outputs.len() as u64) + (
        spec_txouts_bytes(t.outputs) + spec_u32_le(t.lock_time))));
        assert(b =~= s1 + rest);
        lemma_split_frame(b, 0, s1, rest);
        lemma_read_u32_at(b, 0, t.version);
        lemma_frame_bytes(b, 4, rest);
        assert(rest[0] == s3[0]);
        assert(b[4] == s3[0]);
        if n_in < 0xfd {
            assert(s3[0] == n_in as u8);
            assert((n_in as u8) != 0) by (bit_vector)
                requires
                    1 <= n_in < 0xfd,
            ;
        } else {
            assert(s3[0] == 0xfdu8 || s3[0] == 0xfeu8 || s3[0] == 0xffu8);
        }
        assert(b[4] != 0x00);
        lemma_parse_inverts_serialize_legacy(t);
    }
}

} // verus!
