//! The spell model and its normalizer.
//!
//! A spell document arrives as an unordered collection of fields: an
//! application identifier, input references to UTXOs carrying prior state,
//! and output descriptors for the new state. The normalizer validates the
//! document and canonicalizes it into a deterministic, order-stable form
//! whose bytes are later committed on-chain. Normalization is a function of
//! the *set* of fields alone, so reordering a document cannot change its
//! normalized form.

use vstd::prelude::*;
use vstd::multiset::Multiset;

use crate::WalletError;
use crate::WalletResult;
use crate::crypto::spec_address_script;
use crate::encoding::spec_hex_decode;
use crate::encoding::hex_decode;
use vstd::utf8::is_ascii_chars;

verus! {

/// Default value, in the smallest ledger unit, for an output descriptor that
/// names none; also the threshold below which outputs count as dust.
pub const DUST_THRESHOLD: u64 = 546;

/// An input reference of a spell document: an existing UTXO, named by its
/// displayed (byte-reversed hexadecimal) transaction id and output index,
/// with an app-defined payload.
#[derive(Debug)]
pub struct SpellInput {
    pub txid: String,
    pub vout: u32,
    pub data: Vec<u8>,
}

/// An output descriptor of a spell document: a destination address, an
/// optional value in the smallest ledger unit, and an app-defined payload.
#[derive(Debug)]
pub struct SpellOutput {
    pub dest: String,
    pub value: Option<u64>,
    pub data: Vec<u8>,
}

/// One field of a spell document. A well-formed document holds exactly one
/// `App` field and at most one each of `Inputs` and `Outputs`.
#[derive(Debug)]
pub enum DocField {
    App(String),
    Inputs(Vec<SpellInput>),
    Outputs(Vec<SpellOutput>),
}

/// A spell document: its fields in the order the caller wrote them. The
/// order carries no meaning; the normalizer treats the fields as a multiset.
#[derive(Debug)]
pub struct SpellDoc {
    pub fields: Vec<DocField>,
}

/// The canonical form of a spell input: transaction id in internal byte
/// order (32 bytes), output index, payload.
#[derive(Debug)]
pub struct NormalizedInput {
    pub txid: Vec<u8>,
    pub vout: u32,
    pub data: Vec<u8>,
}

/// The canonical form of a spell output: validated destination address,
/// definite value, payload.
#[derive(Debug)]
pub struct NormalizedOutput {
    pub dest: String,
    pub value: u64,
    pub data: Vec<u8>,
}

/// The canonical, order-stable form of a spell, ready for byte serialization.
#[derive(Debug)]
pub struct NormalizedSpell {
    pub app: String,
    pub inputs: Vec<NormalizedInput>,
    pub outputs: Vec<NormalizedOutput>,
}

/// Mathematical model of a normalized input.
pub ghost struct InputModel {
    pub txid: Seq<u8>,
    pub vout: u32,
    pub data: Seq<u8>,
}

/// Mathematical model of a normalized output.
pub ghost struct OutputModel {
    pub dest: Seq<char>,
    pub value: u64,
    pub data: Seq<u8>,
}

/// Mathematical model of a normalized spell.
pub ghost struct SpellModel {
    pub app: Seq<char>,
    pub inputs: Seq<InputModel>,
    pub outputs: Seq<OutputModel>,
}

impl View for NormalizedInput {
    type V = InputModel;

    open spec fn view(&self) -> InputModel {
        InputModel { txid: self.txid@, vout: self.vout, data: self.data@ }
    }
}

impl View for NormalizedOutput {
    type V = OutputModel;

    open spec fn view(&self) -> OutputModel {
        OutputModel { dest: self.dest@, value: self.value, data: self.data@ }
    }
}

impl View for NormalizedSpell {
    type V = SpellModel;

    open spec fn view(&self) -> SpellModel {
        SpellModel {
            app: self.app@,
            inputs: self.inputs@.map_values(|x: NormalizedInput| x@),
            outputs: self.outputs@.map_values(|x: NormalizedOutput| x@),
        }
    }
}

/// Structural well-formedness of a normalized spell: what every later stage
/// of the assembler relies on.
pub open spec fn spell_wf(m: SpellModel) -> bool {
    &&& m.app.len() > 0
    &&& is_ascii_chars(m.app)
    &&& forall|i: int| 0 <= i < m.inputs.len() ==> (#[trigger] m.inputs[i]).txid.len() == 32
    &&& m.outputs.len() > 0
    &&& forall|i: int|
        0 <= i < m.outputs.len() ==> {
            &&& (#[trigger] m.outputs[i]).value >= 1
            &&& is_ascii_chars(m.outputs[i].dest)
            &&& m.outputs[i].dest.len() > 0
        }
}

/// Every destination of the spell denotes an output script.
pub open spec fn spell_addresses_valid(m: SpellModel) -> bool {
    forall|i: int|
        0 <= i < m.outputs.len() ==> spec_address_script(
            (#[trigger] m.outputs[i]).dest,
        ) is Some
}

/// Why a document failed to normalize.
#[derive(Clone, Copy, Debug, PartialEq, Eq, Structural)]
pub enum NormalizeFailure {
    DuplicateApp,
    DuplicateInputs,
    DuplicateOutputs,
    MissingApp,
    BadApp,
    BadInputTxid,
    BadOutputAddress,
    ZeroOutputValue,
    NoOutputs,
}

/// The canonical form of one input reference: the displayed transaction id
/// decoded from hexadecimal and reversed into internal byte order.
pub open spec fn spec_norm_input(x: SpellInput) -> Option<InputModel> {
    match spec_hex_decode(x.txid@) {
        Some(b) => if b.len() == 32 {
            Some(InputModel { txid: b.reverse(), vout: x.vout, data: x.data@ })
        } else {
            None
        },
        None => None,
    }
}

/// Canonicalizes a list of input references, failing on the first malformed
/// transaction id.
pub open spec fn spec_norm_inputs(s: Seq<SpellInput>) -> Result<Seq<InputModel>, NormalizeFailure>
    decreases s.len(),
{
    if s.len() == 0 {
        Ok(Seq::<InputModel>::empty())
    } else {
        match spec_norm_input(s.first()) {
            Some(m) => match spec_norm_inputs(s.drop_first()) {
                Ok(rest) => Ok(seq![m] + rest),
                Err(f) => Err(f),
            },
            None => Err(NormalizeFailure::BadInputTxid),
        }
    }
}

/// The canonical form of one output descriptor: the destination must denote
/// an output script, and a named value must be positive; a value left out
/// defaults to the dust threshold.
pub open spec fn spec_norm_output(x: SpellOutput) -> Result<OutputModel, NormalizeFailure> {
    if !(is_ascii_chars(x.dest@) && x.dest@.len() > 0 && spec_address_script(x.dest@) is Some) {
        Err(NormalizeFailure::BadOutputAddress)
    } else {
        match x.value {
            Some(v) => if v == 0 {
                Err(NormalizeFailure::ZeroOutputValue)
            } else {
                Ok(OutputModel { dest: x.dest@, value: v, data: x.data@ })
            },
            None => Ok(OutputModel { dest: x.dest@, value: DUST_THRESHOLD, data: x.data@ }),
        }
    }
}

/// Canonicalizes a list of output descriptors, failing on the first
/// malformed one.
pub open spec fn spec_norm_outputs(s: Seq<SpellOutput>) -> Result<
    Seq<OutputModel>,
    NormalizeFailure,
>
    decreases s.len(),
{
    if s.len() == 0 {
        Ok(Seq::<OutputModel>::empty())
    } else {
        match spec_norm_output(s.first()) {
            Ok(m) => match spec_norm_outputs(s.drop_first()) {
                Ok(rest) => Ok(seq![m] + rest),
                Err(f) => Err(f),
            },
            Err(f) => Err(f),
        }
    }
}

/// The app fields of a document, as a multiset.
pub open spec fn app_fields(m: Multiset<DocField>) -> Multiset<DocField> {
    m.filter(|f: DocField| f is App)
}

/// The inputs fields of a document, as a multiset.
pub open spec fn inputs_fields(m: Multiset<DocField>) -> Multiset<DocField> {
    m.filter(|f: DocField| f is Inputs)
}

/// The outputs fields of a document, as a multiset.
pub open spec fn outputs_fields(m: Multiset<DocField>) -> Multiset<DocField> {
    m.filter(|f: DocField| f is Outputs)
}

/// The app identifier carried by the document's unique app field.
pub open spec fn the_app(m: Multiset<DocField>) -> Seq<char> {
    match app_fields(m).choose() {
        DocField::App(s) => s@,
        _ => Seq::<char>::empty(),
    }
}

/// The input list carried by the document's inputs field, or empty.
pub open spec fn the_inputs(m: Multiset<DocField>) -> Seq<SpellInput> {
    if inputs_fields(m).len() == 1 {
        match inputs_fields(m).choose() {
            DocField::Inputs(v) => v@,
            _ => Seq::<SpellInput>::empty(),
        }
    } else {
        Seq::<SpellInput>::empty()
    }
}

/// The output list carried by the document's outputs field, or empty.
pub open spec fn the_outputs(m: Multiset<DocField>) -> Seq<SpellOutput> {
    if outputs_fields(m).len() == 1 {
        match outputs_fields(m).choose() {
            DocField::Outputs(v) => v@,
            _ => Seq::<SpellOutput>::empty(),
        }
    } else {
        Seq::<SpellOutput>::empty()
    }
}

/// Normalization as a function of the multiset of document fields. Checks
/// run in a fixed order: duplicated fields, the app identifier, the input
/// references, then the output descriptors.
pub open spec fn spec_normalize_fields(m: Multiset<DocField>) -> Result<
    SpellModel,
    NormalizeFailure,
> {
    if app_fields(m).len() >= 2 {
        Err(NormalizeFailure::DuplicateApp)
    } else if inputs_fields(m).len() >= 2 {
        Err(NormalizeFailure::DuplicateInputs)
    } else if outputs_fields(m).len() >= 2 {
        Err(NormalizeFailure::DuplicateOutputs)
    } else if app_fields(m).len() == 0 {
        Err(NormalizeFailure::MissingApp)
    } else if !(the_app(m).len() > 0 && is_ascii_chars(the_app(m))) {
        Err(NormalizeFailure::BadApp)
    } else {
        match spec_norm_inputs(the_inputs(m)) {
            Err(f) => Err(f),
            Ok(ins) => if the_outputs(m).len() == 0 {
                Err(NormalizeFailure::NoOutputs)
            } else {
                match spec_norm_outputs(the_outputs(m)) {
                    Err(f) => Err(f),
                    Ok(outs) => Ok(SpellModel { app: the_app(m), inputs: ins, outputs: outs }),
                }
            },
        }
    }
}

/// Normalization of a document: its fields as a multiset, normalized.
pub open spec fn spec_normalize(doc: SpellDoc) -> Result<SpellModel, NormalizeFailure> {
    spec_normalize_fields(doc.fields@.to_multiset())
}

/// The classified error a normalization failure surfaces as.
pub open spec fn failure_matches(f: NormalizeFailure, e: WalletError) -> bool {
    match f {
        NormalizeFailure::DuplicateApp => e matches WalletError::InvalidSpell(m) && m@
            == "duplicate app field"@,
        NormalizeFailure::DuplicateInputs => e matches WalletError::InvalidSpell(m) && m@
            == "duplicate inputs field"@,
        NormalizeFailure::DuplicateOutputs => e matches WalletError::InvalidSpell(m) && m@
            == "duplicate outputs field"@,
        NormalizeFailure::MissingApp => e matches WalletError::InvalidSpell(m) && m@
            == "missing app identifier"@,
        NormalizeFailure::BadApp => e matches WalletError::InvalidSpell(m) && m@
            == "app identifier must be non-empty ASCII"@,
        NormalizeFailure::BadInputTxid => e matches WalletError::InvalidSpell(m) && m@
            == "malformed input transaction id"@,
        NormalizeFailure::BadOutputAddress => e matches WalletError::InvalidAddress(m) && m@
            == "malformed destination address"@,
        NormalizeFailure::ZeroOutputValue => e matches WalletError::InvalidAmount(m) && m@
            == "output value must be positive"@,
        NormalizeFailure::NoOutputs => e matches WalletError::InvalidSpell(m) && m@
            == "spell declares no outputs"@,
    }
}

/// How an executable normalization result relates to the specification.
pub open spec fn normalize_result_matches(
    doc: SpellDoc,
    r: WalletResult<NormalizedSpell>,
) -> bool {
    match r {
        Ok(n) => spec_normalize(doc) == Ok::<SpellModel, NormalizeFailure>(n@),
        Err(e) => spec_normalize(doc) matches Err(f) && failure_matches(f, e),
    }
}

/// How the three field selections react to inserting one field.
proof fn lemma_fields_insert(m: Multiset<DocField>, x: DocField)
    ensures
        app_fields(m.insert(x)) == if x is App {
            app_fields(m).insert(x)
        } else {
            app_fields(m)
        },
        inputs_fields(m.insert(x)) == if x is Inputs {
            inputs_fields(m).insert(x)
        } else {
            inputs_fields(m)
        },
        outputs_fields(m.insert(x)) == if x is Outputs {
            outputs_fields(m).insert(x)
        } else {
            outputs_fields(m)
        },
        app_fields(m.insert(x)).len() == if x is App {
            app_fields(m).len() + 1
        } else {
            app_fields(m).len()
        },
        inputs_fields(m.insert(x)).len() == if x is Inputs {
            inputs_fields(m).len() + 1
        } else {
            inputs_fields(m).len()
        },
        outputs_fields(m.insert(x)).len() == if x is Outputs {
            outputs_fields(m).len() + 1
        } else {
            outputs_fields(m).len()
        },
{
    broadcast use vstd::multiset::group_multiset_axioms;

    if x is App {
        assert(app_fields(m.insert(x)) =~= app_fields(m).insert(x));
        vstd::multiset::lemma_insert_len(app_fields(m), x);
    } else {
        assert(app_fields(m.insert(x)) =~= app_fields(m));
    }
    if x is Inputs {
        assert(inputs_fields(m.insert(x)) =~= inputs_fields(m).insert(x));
        vstd::multiset::lemma_insert_len(inputs_fields(m), x);
    } else {
        assert(inputs_fields(m.insert(x)) =~= inputs_fields(m));
    }
    if x is Outputs {
        assert(outputs_fields(m.insert(x)) =~= outputs_fields(m).insert(x));
        vstd::multiset::lemma_insert_len(outputs_fields(m), x);
    } else {
        assert(outputs_fields(m.insert(x)) =~= outputs_fields(m));
    }
}

/// The field selections of an empty document are empty.
proof fn lemma_fields_of_empty()
    ensures
        app_fields(Multiset::<DocField>::empty()) == Multiset::<DocField>::empty(),
        inputs_fields(Multiset::<DocField>::empty()) == Multiset::<DocField>::empty(),
        outputs_fields(Multiset::<DocField>::empty()) == Multiset::<DocField>::empty(),
        app_fields(Multiset::<DocField>::empty()).len() == 0,
        inputs_fields(Multiset::<DocField>::empty()).len() == 0,
        outputs_fields(Multiset::<DocField>::empty()).len() == 0,
{
    broadcast use vstd::multiset::group_multiset_axioms;

    assert(app_fields(Multiset::<DocField>::empty()) =~= Multiset::<DocField>::empty());
    assert(inputs_fields(Multiset::<DocField>::empty()) =~= Multiset::<DocField>::empty());
    assert(outputs_fields(Multiset::<DocField>::empty()) =~= Multiset::<DocField>::empty());
}

/// A multiset holding exactly one element chooses that element.
proof fn lemma_choose_singleton<V>(m: Multiset<V>, x: V)
    requires
        m == Multiset::<V>::empty().insert(x),
    ensures
        m.choose() == x,
{
    broadcast use vstd::multiset::group_multiset_axioms;

    assert(m.len() == 1);
    assert(m.count(m.choose()) > 0);
    assert(m.choose() == x) by {
        if m.choose() != x {
            assert(m.count(m.choose()) == 0);
        }
    }
}

/// Reverses a byte vector.
pub(crate) fn reverse_bytes(b: &Vec<u8>) -> (r: Vec<u8>)
    ensures
        r@ == b@.reverse(),
{
    let n = b.len();
    let mut out: Vec<u8> = Vec::new();
    for k in 0..n
        invariant
            n == b@.len(),
            out@ =~= Seq::new(k as nat, |i: int| b@[n - 1 - i]),
    {
        out.push(b[n - 1 - k]);
    }
    assert(out@ =~= b@.reverse());
    out
}

/// Canonicalizes a list of input references.
fn norm_inputs(ins: &Vec<SpellInput>) -> (r: WalletResult<Vec<NormalizedInput>>)
    ensures
        match r {
            Ok(v) => spec_norm_inputs(ins@) == Ok::<_, NormalizeFailure>(
                v@.map_values(|x: NormalizedInput| x@),
            ),
            Err(e) => spec_norm_inputs(ins@) matches Err(f) && failure_matches(f, e),
        },
{
    let n = ins.len();
    let mut out: Vec<NormalizedInput> = Vec::new();
    assert(ins@.skip(0) == ins@);
    for i in 0..n
        invariant
            n == ins@.len(),
            spec_norm_inputs(ins@) == (match spec_norm_inputs(ins@.skip(i as int)) {
                Ok(rest) => Ok::<_, NormalizeFailure>(
                    out@.map_values(|x: NormalizedInput| x@) + rest,
                ),
                Err(f) => Err(f),
            }),
    {
        let ghost tail = ins@.skip(i as int);
        proof {
            assert(tail.first() == ins@[i as int]);
            assert(tail.drop_first() == ins@.skip(i + 1));
        }
        let decoded = hex_decode(ins[i].txid.as_str());
        match decoded {
            Some(bytes) => {
                if bytes.len() != 32 {
                    assert(spec_norm_input(ins@[i as int]) is None);
                    return Err(
                        WalletError::InvalidSpell(
                            String::from_str("malformed input transaction id"),
                        ),
                    );
                }
                let txid = reverse_bytes(&bytes);
                let item = NormalizedInput {
                    txid,
                    vout: ins[i].vout,
                    data: ins[i].data.clone(),
                };
                proof {
                    assert(spec_norm_input(ins@[i as int]) == Some(item@));
                }
                let ghost old_out = out@;
                out.push(item);
                proof {
                    assert(out@.map_values(|x: NormalizedInput| x@) =~= old_out.map_values(
                        |x: NormalizedInput| x@,
                    ) + seq![item@]);
                    assert(forall|rest: Seq<InputModel>|
                        old_out.map_values(|x: NormalizedInput| x@) + (seq![item@] + rest)
                            =~= out@.map_values(|x: NormalizedInput| x@) + rest);
                }
            },
            None => {
                assert(spec_norm_input(ins@[i as int]) is None);
                return Err(
                    WalletError::InvalidSpell(String::from_str("malformed input transaction id")),
                );
            },
        }
    }
    assert(ins@.skip(n as int) =~= Seq::<SpellInput>::empty());
    assert(out@.map_values(|x: NormalizedInput| x@) =~= out@.map_values(
        |x: NormalizedInput| x@,
    ) + Seq::<InputModel>::empty());
    Ok(out)
}

/// Canonicalizes a list of output descriptors.
fn norm_outputs(outs: &Vec<SpellOutput>) -> (r: WalletResult<Vec<NormalizedOutput>>)
    ensures
        match r {
            Ok(v) => spec_norm_outputs(outs@) == Ok::<_, NormalizeFailure>(
                v@.map_values(|x: NormalizedOutput| x@),
            ),
            Err(e) => spec_norm_outputs(outs@) matches Err(f) && failure_matches(f, e),
        },
{
    let n = outs.len();
    let mut out: Vec<NormalizedOutput> = Vec::new();
    assert(outs@.skip(0) == outs@);
    for i in 0..n
        invariant
            n == outs@.len(),
            spec_norm_outputs(outs@) == (match spec_norm_outputs(outs@.skip(i as int)) {
                Ok(rest) => Ok::<_, NormalizeFailure>(
                    out@.map_values(|x: NormalizedOutput| x@) + rest,
                ),
                Err(f) => Err(f),
            }),
    {
        let ghost tail = outs@.skip(i as int);
        proof {
            assert(tail.first() == outs@[i as int]);
            assert(tail.drop_first() == outs@.skip(i + 1));
        }
        let dest = &outs[i].dest;
        if !dest.as_str().is_ascii() || dest.as_str().is_empty() {
            assert(spec_norm_output(outs@[i as int]) == Err::<OutputModel, _>(
                NormalizeFailure::BadOutputAddress,
            ));
            return Err(
                WalletError::InvalidAddress(String::from_str("malformed destination address")),
            );
        }
        let script = crate::crypto::address_to_script(dest.as_str());
        if script.is_none() {
            assert(spec_norm_output(outs@[i as int]) == Err::<OutputModel, _>(
                NormalizeFailure::BadOutputAddress,
            ));
            return Err(
                WalletError::InvalidAddress(String::from_str("malformed destination address")),
            );
        }
        let value: u64 = match outs[i].value {
            Some(v) => {
                if v == 0 {
                    assert(spec_norm_output(outs@[i as int]) == Err::<OutputModel, _>(
                        NormalizeFailure::ZeroOutputValue,
                    ));
                    return Err(
                        WalletError::InvalidAmount(
                            String::from_str("output value must be positive"),
                        ),
                    );
                }
                v
            },
            None => DUST_THRESHOLD,
        };
        let item = NormalizedOutput {
            dest: dest.clone(),
            value,
            data: outs[i].data.clone(),
        };
        proof {
            assert(spec_norm_output(outs@[i as int]) == Ok::<_, NormalizeFailure>(item@));
        }
        let ghost old_out = out@;
        out.push(item);
        proof {
            assert(out@.map_values(|x: NormalizedOutput| x@) =~= old_out.map_values(
                |x: NormalizedOutput| x@,
            ) + seq![item@]);
            assert(forall|rest: Seq<OutputModel>|
                old_out.map_values(|x: NormalizedOutput| x@) + (seq![item@] + rest)
                    =~= out@.map_values(|x: NormalizedOutput| x@) + rest);
        }
    }
    assert(outs@.skip(n as int) =~= Seq::<SpellOutput>::empty());
    assert(out@.map_values(|x: NormalizedOutput| x@) =~= out@.map_values(
        |x: NormalizedOutput| x@,
    ) + Seq::<OutputModel>::empty());
    Ok(out)
}

/// Validates a spell document and canonicalizes it. The result is a function
/// of the multiset of document fields: reordering the fields changes
/// nothing. Fails fast — no chain lookup happens before or during this step.
pub fn normalize(doc: &SpellDoc) -> (r: WalletResult<NormalizedSpell>)
    ensures
        normalize_result_matches(*doc, r),
        r matches Ok(n) ==> spell_wf(n@) && spell_addresses_valid(n@),
{
    broadcast use vstd::seq_lib::group_to_multiset_ensures;

    let ghost fs = doc.fields@;
    let n = doc.fields.len();
    let mut app_cnt: usize = 0;
    let mut ins_cnt: usize = 0;
    let mut outs_cnt: usize = 0;
    let mut app_idx: usize = 0;
    let mut ins_idx: usize = 0;
    let mut outs_idx: usize = 0;
    proof {
        assert(fs.take(0).to_multiset() =~= Multiset::<DocField>::empty());
        lemma_fields_of_empty();
    }
    for i in 0..n
        invariant
            n == fs.len(),
            fs == doc.fields@,
            app_cnt <= i && ins_cnt <= i && outs_cnt <= i,
            app_cnt == app_fields(fs.take(i as int).to_multiset()).len(),
            ins_cnt == inputs_fields(fs.take(i as int).to_multiset()).len(),
            outs_cnt == outputs_fields(fs.take(i as int).to_multiset()).len(),
            app_cnt == 1 ==> app_idx < i && app_fields(fs.take(i as int).to_multiset())
                == Multiset::<DocField>::empty().insert(fs[app_idx as int]),
            ins_cnt == 1 ==> ins_idx < i && inputs_fields(fs.take(i as int).to_multiset())
                == Multiset::<DocField>::empty().insert(fs[ins_idx as int]),
            outs_cnt == 1 ==> outs_idx < i && outputs_fields(fs.take(i as int).to_multiset())
                == Multiset::<DocField>::empty().insert(fs[outs_idx as int]),
    {
        proof {
            broadcast use vstd::seq_lib::group_to_multiset_ensures;

            let pm = fs.take(i as int).to_multiset();
            assert(fs.take(i + 1) =~= fs.take(i as int).push(fs[i as int]));
            assert(fs.take(i as int).push(fs[i as int]).to_multiset() =~= pm.insert(
                fs[i as int],
            ));
            lemma_fields_insert(pm, fs[i as int]);
            if app_cnt == 0 {
                lemma_len_zero_empty(app_fields(pm));
            }
            if ins_cnt == 0 {
                lemma_len_zero_empty(inputs_fields(pm));
            }
            if outs_cnt == 0 {
                lemma_len_zero_empty(outputs_fields(pm));
            }
        }
        match &doc.fields[i] {
            DocField::App(_) => {
                if app_cnt == 0 {
                    app_idx = i;
                }
                app_cnt = app_cnt + 1;
            },
            DocField::Inputs(_) => {
                if ins_cnt == 0 {
                    ins_idx = i;
                }
                ins_cnt = ins_cnt + 1;
            },
            DocField::Outputs(_) => {
                if outs_cnt == 0 {
                    outs_idx = i;
                }
                outs_cnt = outs_cnt + 1;
            },
        }
    }
    let ghost m = fs.to_multiset();
    proof {
        assert(fs.take(n as int) =~= fs);
    }
    if app_cnt >= 2 {
        return Err(WalletError::InvalidSpell(String::from_str("duplicate app field")));
    }
    if ins_cnt >= 2 {
        return Err(WalletError::InvalidSpell(String::from_str("duplicate inputs field")));
    }
    if outs_cnt >= 2 {
        return Err(WalletError::InvalidSpell(String::from_str("duplicate outputs field")));
    }
    if app_cnt == 0 {
        return Err(WalletError::InvalidSpell(String::from_str("missing app identifier")));
    }
    proof {
        broadcast use vstd::multiset::group_multiset_axioms;

        lemma_choose_singleton(app_fields(m), fs[app_idx as int]);
        assert(app_fields(m).count(fs[app_idx as int]) > 0);
        assert(fs[app_idx as int] is App);
    }
    let mut app_val: String = String::new();
    match &doc.fields[app_idx] {
        DocField::App(s) => {
            app_val = s.clone();
        },
        DocField::Inputs(_) => {
            proof {
                assert(false);
            }
        },
        DocField::Outputs(_) => {
            proof {
                assert(false);
            }
        },
    }
    assert(the_app(m) == app_val@);
    if app_val.as_str().is_empty() || !app_val.as_str().is_ascii() {
        return Err(
            WalletError::InvalidSpell(String::from_str("app identifier must be non-empty ASCII")),
        );
    }
    let empty_ins: Vec<SpellInput> = Vec::new();
    let empty_outs: Vec<SpellOutput> = Vec::new();
    let ins_list: &Vec<SpellInput> = if ins_cnt == 1 {
        proof {
            broadcast use vstd::multiset::group_multiset_axioms;

            lemma_choose_singleton(inputs_fields(m), fs[ins_idx as int]);
            assert(inputs_fields(m).count(fs[ins_idx as int]) > 0);
            assert(fs[ins_idx as int] is Inputs);
        }
        match &doc.fields[ins_idx] {
            DocField::Inputs(v) => v,
            DocField::App(_) => {
                proof {
                    assert(false);
                }
                &empty_ins
            },
            DocField::Outputs(_) => {
                proof {
                    assert(false);
                }
                &empty_ins
            },
        }
    } else {
        &empty_ins
    };
    assert(the_inputs(m) == ins_list@);
    let outs_list: &Vec<SpellOutput> = if outs_cnt == 1 {
        proof {
            broadcast use vstd::multiset::group_multiset_axioms;

            lemma_choose_singleton(outputs_fields(m), fs[outs_idx as int]);
            assert(outputs_fields(m).count(fs[outs_idx as int]) > 0);
            assert(fs[outs_idx as int] is Outputs);
        }
        match &doc.fields[outs_idx] {
            DocField::Outputs(v) => v,
            DocField::App(_) => {
                proof {
                    assert(false);
                }
                &empty_outs
            },
            DocField::Inputs(_) => {
                proof {
                    assert(false);
                }
                &empty_outs
            },
        }
    } else {
        &empty_outs
    };
    assert(the_outputs(m) == outs_list@);
    let inputs = match norm_inputs(ins_list) {
        Ok(v) => v,
        Err(e) => {
            return Err(e);
        },
    };
    if outs_list.len() == 0 {
        return Err(WalletError::InvalidSpell(String::from_str("spell declares no outputs")));
    }
    let outputs = match norm_outputs(outs_list) {
        Ok(v) => v,
        Err(e) => {
            return Err(e);
        },
    };
    let result = NormalizedSpell { app: app_val, inputs, outputs };
    proof {
        lemma_normalize_ok_wf(*doc, result@);
    }
    Ok(result)
}

/// A successfully canonicalized input list is as long as its source and
/// carries 32-byte transaction ids.
proof fn lemma_norm_inputs_ok(s: Seq<SpellInput>, r: Seq<InputModel>)
    requires
        spec_norm_inputs(s) == Ok::<_, NormalizeFailure>(r),
    ensures
        r.len() == s.len(),
        forall|i: int| 0 <= i < r.len() ==> (#[trigger] r[i]).txid.len() == 32,
    decreases s.len(),
{
    if s.len() > 0 {
        let m = spec_norm_input(s.first()).unwrap();
        let rest = spec_norm_inputs(s.drop_first()).unwrap();
        lemma_norm_inputs_ok(s.drop_first(), rest);
        assert(r == seq![m] + rest);
        assert(forall|i: int| 0 < i < r.len() ==> r[i] == rest[i - 1]);
    }
}

/// A successfully canonicalized output list is as long as its source, and
/// every element carries a positive value and a valid, non-empty ASCII
/// destination.
proof fn lemma_norm_outputs_ok(s: Seq<SpellOutput>, r: Seq<OutputModel>)
    requires
        spec_norm_outputs(s) == Ok::<_, NormalizeFailure>(r),
    ensures
        r.len() == s.len(),
        forall|i: int|
            0 <= i < r.len() ==> {
                &&& (#[trigger] r[i]).value >= 1
                &&& is_ascii_chars(r[i].dest)
                &&& r[i].dest.len() > 0
                &&& spec_address_script(r[i].dest) is Some
            },
    decreases s.len(),
{
    if s.len() > 0 {
        let m = spec_norm_output(s.first()).unwrap();
        let rest = spec_norm_outputs(s.drop_first()).unwrap();
        lemma_norm_outputs_ok(s.drop_first(), rest);
        assert(r == seq![m] + rest);
        assert(forall|i: int| 0 < i < r.len() ==> r[i] == rest[i - 1]);
    }
}

/// Whatever normalization accepts is well-formed, and all its destinations
/// denote output scripts.
pub proof fn lemma_normalize_ok_wf(doc: SpellDoc, m: SpellModel)
    requires
        spec_normalize(doc) == Ok::<_, NormalizeFailure>(m),
    ensures
        spell_wf(m),
        spell_addresses_valid(m),
{
    let fm = doc.fields@.to_multiset();
    lemma_norm_inputs_ok(the_inputs(fm), m.inputs);
    lemma_norm_outputs_ok(the_outputs(fm), m.outputs);
}

/// Normalization is order-independent: two documents holding the same
/// fields, in whatever order, normalize to the same result.
pub proof fn lemma_normalize_order_independent(d1: SpellDoc, d2: SpellDoc)
    requires
        d1.fields@.to_multiset() == d2.fields@.to_multiset(),
    ensures
        spec_normalize(d1) == spec_normalize(d2),
{
}

/// A list whose elements all canonicalize pointwise canonicalizes to the
/// list of their canonical forms.
proof fn lemma_norm_inputs_pointwise(s: Seq<SpellInput>, r: Seq<InputModel>)
    requires
        s.len() == r.len(),
        forall|i: int| 0 <= i < s.len() ==> spec_norm_input(s[i]) == Some(#[trigger] r[i]),
    ensures
        spec_norm_inputs(s) == Ok::<_, NormalizeFailure>(r),
    decreases s.len(),
{
    if s.len() == 0 {
        assert(r =~= Seq::<InputModel>::empty());
    } else {
        assert(forall|i: int|
            0 <= i < s.drop_first().len() ==> spec_norm_input(s.drop_first()[i]) == Some(
                #[trigger] r.drop_first()[i],
            ));
        lemma_norm_inputs_pointwise(s.drop_first(), r.drop_first());
        assert(seq![r.first()] + r.drop_first() =~= r);
    }
}

/// A list whose elements all canonicalize pointwise canonicalizes to the
/// list of their canonical forms.
proof fn lemma_norm_outputs_pointwise(s: Seq<SpellOutput>, r: Seq<OutputModel>)
    requires
        s.len() == r.len(),
        forall|i: int|
            0 <= i < s.len() ==> spec_norm_output(s[i]) == Ok::<_, NormalizeFailure>(
                #[trigger] r[i],
            ),
    ensures
        spec_norm_outputs(s) == Ok::<_, NormalizeFailure>(r),
    decreases s.len(),
{
    if s.len() == 0 {
        assert(r =~= Seq::<OutputModel>::empty());
    } else {
        assert(forall|i: int|
            0 <= i < s.drop_first().len() ==> spec_norm_output(s.drop_first()[i]) == Ok::<
                _,
                NormalizeFailure,
            >(#[trigger] r.drop_first()[i]));
        lemma_norm_outputs_pointwise(s.drop_first(), r.drop_first());
        assert(seq![r.first()] + r.drop_first() =~= r);
    }
}

/// Renders a normalized spell back as a canonical document. Normalization is
/// idempotent: normalizing the rendered document yields the normalized spell
/// it was rendered from, unchanged.
pub fn denormalize(n: &NormalizedSpell) -> (doc: SpellDoc)
    ensures
        spell_wf(n@) && spell_addresses_valid(n@) ==> spec_normalize(doc) == Ok::<
            _,
            NormalizeFailure,
        >(n@),
{
    broadcast use vstd::seq_lib::group_to_multiset_ensures;

    let k = n.inputs.len();
    let mut ins: Vec<SpellInput> = Vec::new();
    for i in 0..k
        invariant
            k == n.inputs@.len(),
            ins@.len() == i,
            spell_wf(n@) ==> forall|j: int|
                0 <= j < i ==> spec_norm_input(ins@[j]) == Some(#[trigger] n@.inputs[j]),
    {
        let displayed = reverse_bytes(&n.inputs[i].txid);
        let item = SpellInput {
            txid: crate::encoding::hex_encode(&displayed),
            vout: n.inputs[i].vout,
            data: n.inputs[i].data.clone(),
        };
        proof {
            crate::encoding::lemma_hex_roundtrip(displayed@);
            assert(n.inputs@[i as int].txid@.reverse().reverse() =~= n.inputs@[i as int].txid@);
            if spell_wf(n@) {
                assert(n@.inputs[i as int] == n.inputs@[i as int]@);
                assert(spec_norm_input(item) == Some(n@.inputs[i as int]));
            }
        }
        ins.push(item);
    }
    let q = n.outputs.len();
    let mut outs: Vec<SpellOutput> = Vec::new();
    for i in 0..q
        invariant
            q == n.outputs@.len(),
            outs@.len() == i,
            spell_wf(n@) && spell_addresses_valid(n@) ==> forall|j: int|
                0 <= j < i ==> spec_norm_output(outs@[j]) == Ok::<_, NormalizeFailure>(
                    #[trigger] n@.outputs[j],
                ),
    {
        let item = SpellOutput {
            dest: n.outputs[i].dest.clone(),
            value: Some(n.outputs[i].value),
            data: n.outputs[i].data.clone(),
        };
        proof {
            if spell_wf(n@) && spell_addresses_valid(n@) {
                assert(n@.outputs[i as int] == n.outputs@[i as int]@);
                assert(spec_norm_output(item) == Ok::<_, NormalizeFailure>(
                    n@.outputs[i as int],
                ));
            }
        }
        outs.push(item);
    }
    let mut fields: Vec<DocField> = Vec::new();
    fields.push(DocField::App(n.app.clone()));
    let ghost gins = ins@;
    let ghost gouts = outs@;
    fields.push(DocField::Inputs(ins));
    fields.push(DocField::Outputs(outs));
    let doc = SpellDoc { fields };
    proof {
        let fs = doc.fields@;
        let f0 = fs[0];
        let f1 = fs[1];
        let f2 = fs[2];
        assert(f0 == DocField::App(n.app));
        assert(f1 matches DocField::Inputs(v) && v@ == gins);
        assert(f2 matches DocField::Outputs(v) && v@ == gouts);
        assert(fs =~= Seq::<DocField>::empty().push(f0).push(f1).push(f2));
        let m0 = Seq::<DocField>::empty().to_multiset();
        lemma_len_zero_empty(m0);
        let m = fs.to_multiset();
        assert(m =~= m0.insert(f0).insert(f1).insert(f2));
        lemma_fields_of_empty();
        lemma_fields_insert(m0, f0);
        lemma_fields_insert(m0.insert(f0), f1);
        lemma_fields_insert(m0.insert(f0).insert(f1), f2);
        assert(app_fields(m) == Multiset::<DocField>::empty().insert(f0));
        assert(inputs_fields(m) == Multiset::<DocField>::empty().insert(f1));
        assert(outputs_fields(m) == Multiset::<DocField>::empty().insert(f2));
        lemma_choose_singleton(app_fields(m), f0);
        lemma_choose_singleton(inputs_fields(m), f1);
        lemma_choose_singleton(outputs_fields(m), f2);
        assert(the_app(m) == n.app@);
        assert(the_inputs(m) == gins);
        assert(the_outputs(m) == gouts);
        if spell_wf(n@) && spell_addresses_valid(n@) {
            lemma_norm_inputs_pointwise(gins, n@.inputs);
            lemma_norm_outputs_pointwise(gouts, n@.outputs);
            assert(spec_normalize_fields(m) == Ok::<_, NormalizeFailure>(n@));
        }
    }
    doc
}

/// A multiset of length zero is the empty multiset.
proof fn lemma_len_zero_empty<V>(m: Multiset<V>)
    requires
        m.len() == 0,
    ensures
        m == Multiset::<V>::empty(),
{
    broadcast use vstd::multiset::group_multiset_axioms;

    assert(forall|v: V| #[trigger] m.count(v) == 0);
    assert(m =~= Multiset::<V>::empty());
}

} // verus!
