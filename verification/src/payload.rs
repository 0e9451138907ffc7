//! Canonical byte serialization of a normalized spell.
//!
//! The rendering is deterministic: a pure function of the normalized spell.
//! Independent verifiers recompute these bytes and must arrive at the same
//! commitment, so nothing here may depend on anything but the spell itself.

use vstd::prelude::*;

use crate::encoding::push_varint;
use crate::encoding::spec_u32_le;
use crate::encoding::spec_u64_le;
use crate::encoding::spec_varint;
use crate::encoding::push_u32_le;
use crate::encoding::push_u64_le;
use crate::spell::InputModel;
use crate::spell::NormalizedSpell;
use crate::spell::OutputModel;
use crate::spell::SpellModel;
use crate::spell::spell_wf;

verus! {

/// Version tag opening every canonical spell rendering.
pub const PAYLOAD_VERSION: u8 = 1;

/// ASCII characters as their byte values.
pub open spec fn spec_ascii_bytes(s: Seq<char>) -> Seq<u8> {
    s.map_values(|c: char| c as u8)
}

/// Canonical bytes of one input reference: transaction id, output index,
/// length-prefixed payload.
pub open spec fn spec_input_bytes(x: InputModel) -> Seq<u8> {
    x.txid + spec_u32_le(x.vout) + spec_varint(x.data.len() as u64) + x.data
}

/// Canonical bytes of a list of input references, in declaration order.
pub open spec fn spec_inputs_bytes(s: Seq<InputModel>) -> Seq<u8>
    decreases s.len(),
{
    if s.len() == 0 {
        Seq::<u8>::empty()
    } else {
        spec_input_bytes(s.first()) + spec_inputs_bytes(s.drop_first())
    }
}

/// Canonical bytes of one output descriptor: length-prefixed destination,
/// value, length-prefixed payload.
pub open spec fn spec_output_bytes(x: OutputModel) -> Seq<u8> {
    spec_varint(x.dest.len() as u64) + spec_ascii_bytes(x.dest) + spec_u64_le(x.value)
        + spec_varint(x.data.len() as u64) + x.data
}

/// Canonical bytes of a list of output descriptors, in declaration order.
pub open spec fn spec_outputs_bytes(s: Seq<OutputModel>) -> Seq<u8>
    decreases s.len(),
{
    if s.len() == 0 {
        Seq::<u8>::empty()
    } else {
        spec_output_bytes(s.first()) + spec_outputs_bytes(s.drop_first())
    }
}

/// The canonical byte rendering of a normalized spell: version tag,
/// length-prefixed app identifier, inputs, outputs.
pub open spec fn spec_spell_bytes(m: SpellModel) -> Seq<u8> {
    seq![PAYLOAD_VERSION] + spec_varint(m.app.len() as u64) + spec_ascii_bytes(m.app)
        + spec_varint(m.inputs.len() as u64) + spec_inputs_bytes(m.inputs) + spec_varint(
        m.outputs.len() as u64,
    ) + spec_outputs_bytes(m.outputs)
}

/// Appends one byte vector to another.
pub fn push_bytes(out: &mut Vec<u8>, b: &Vec<u8>)
    ensures
        final(out)@ == old(out)@ + b@,
{
    let n = b.len();
    for i in 0..n
        invariant
            n == b@.len(),
            out@ == old(out)@ + b@.take(i as int),
    {
        out.push(b[i]);
        proof {
            assert(old(out)@ + b@.take(i + 1) =~= (old(out)@ + b@.take(i as int)).push(
                b@[i as int],
            ));
        }
    }
    assert(b@.take(n as int) =~= b@);
}

/// Appends the bytes of an ASCII string.
fn push_ascii(out: &mut Vec<u8>, s: &str)
    requires
        s.is_ascii(),
    ensures
        final(out)@ == old(out)@ + spec_ascii_bytes(s@),
{
    broadcast use vstd::string::is_ascii_spec_bytes;

    let bytes = s.as_bytes_vec();
    assert(bytes@ =~= spec_ascii_bytes(s@));
    push_bytes(out, &bytes);
}

/// Serializing one more input appends that input's bytes.
proof fn lemma_inputs_bytes_snoc(s: Seq<InputModel>, x: InputModel)
    ensures
        spec_inputs_bytes(s.push(x)) == spec_inputs_bytes(s) + spec_input_bytes(x),
    decreases s.len(),
{
    if s.len() == 0 {
        assert(s.push(x).first() == x);
        assert(s.push(x).drop_first() =~= Seq::<InputModel>::empty());
        assert(spec_inputs_bytes(Seq::<InputModel>::empty()) == Seq::<u8>::empty());
        assert(spec_inputs_bytes(s.push(x)) == spec_input_bytes(x) + Seq::<u8>::empty());
        assert(spec_input_bytes(x) + Seq::<u8>::empty() =~= spec_input_bytes(x));
        assert(spec_inputs_bytes(s) + spec_input_bytes(x) =~= spec_input_bytes(x));
    } else {
        assert(s.push(x).drop_first() =~= s.drop_first().push(x));
        lemma_inputs_bytes_snoc(s.drop_first(), x);
        assert(spec_inputs_bytes(s.push(x)) =~= spec_inputs_bytes(s) + spec_input_bytes(x));
    }
}

/// Serializing one more output appends that output's bytes.
proof fn lemma_outputs_bytes_snoc(s: Seq<OutputModel>, x: OutputModel)
    ensures
        spec_outputs_bytes(s.push(x)) == spec_outputs_bytes(s) + spec_output_bytes(x),
    decreases s.len(),
{
    if s.len() == 0 {
        assert(s.push(x).first() == x);
        assert(s.push(x).drop_first() =~= Seq::<OutputModel>::empty());
        assert(spec_outputs_bytes(Seq::<OutputModel>::empty()) == Seq::<u8>::empty());
        assert(spec_outputs_bytes(s.push(x)) == spec_output_bytes(x) + Seq::<u8>::empty());
        assert(spec_output_bytes(x) + Seq::<u8>::empty() =~= spec_output_bytes(x));
        assert(spec_outputs_bytes(s) + spec_output_bytes(x) =~= spec_output_bytes(x));
    } else {
        assert(s.push(x).drop_first() =~= s.drop_first().push(x));
        lemma_outputs_bytes_snoc(s.drop_first(), x);
        assert(spec_outputs_bytes(s.push(x)) =~= spec_outputs_bytes(s) + spec_output_bytes(x));
    }
}

/// Renders a normalized spell as its canonical bytes.
pub fn spell_bytes(n: &NormalizedSpell) -> (r: Vec<u8>)
    requires
        spell_wf(n@),
    ensures
        r@ == spec_spell_bytes(n@),
{
    let mut out: Vec<u8> = Vec::new();
    out.push(PAYLOAD_VERSION);
    let app = n.app.as_str();
    push_varint(&mut out, app.unicode_len() as u64);
    push_ascii(&mut out, app);
    let ghost base_ins = out@;
    push_varint(&mut out, n.inputs.len() as u64);
    let k = n.inputs.len();
    let ghost head = out@;
    let ghost ins_model = n@.inputs;
    proof {
        assert(head + spec_inputs_bytes(ins_model.take(0)) =~= out@);
    }
    for i in 0..k
        invariant
            k == n.inputs@.len(),
            ins_model == n@.inputs,
            out@ == head + spec_inputs_bytes(ins_model.take(i as int)),
            forall|j: int| 0 <= j < k ==> ins_model[j] == n.inputs@[j]@,
    {
        let ghost pre = out@;
        push_bytes(&mut out, &n.inputs[i].txid);
        push_u32_le(&mut out, n.inputs[i].vout);
        push_varint(&mut out, n.inputs[i].data.len() as u64);
        push_bytes(&mut out, &n.inputs[i].data);
        proof {
            assert(out@ =~= pre + spec_input_bytes(ins_model[i as int]));
            lemma_inputs_bytes_snoc(ins_model.take(i as int), ins_model[i as int]);
            assert(ins_model.take(i + 1) =~= ins_model.take(i as int).push(
                ins_model[i as int],
            ));
            assert(out@ =~= head + spec_inputs_bytes(ins_model.take(i + 1)));
        }
    }
    proof {
        assert(ins_model.take(k as int) =~= ins_model);
    }
    push_varint(&mut out, n.outputs.len() as u64);
    let q = n.outputs.len();
    let ghost head2 = out@;
    let ghost outs_model = n@.outputs;
    proof {
        assert(head2 + spec_outputs_bytes(outs_model.take(0)) =~= out@);
        assert forall|j: int|
            0 <= j < q implies vstd::utf8::is_ascii_chars(
            (#[trigger] n.outputs@[j]).dest@,
        ) by {
            assert(n@.outputs[j] == n.outputs@[j]@);
        }
    }
    for i in 0..q
        invariant
            q == n.outputs@.len(),
            outs_model == n@.outputs,
            out@ == head2 + spec_outputs_bytes(outs_model.take(i as int)),
            forall|j: int| 0 <= j < q ==> outs_model[j] == n.outputs@[j]@,
            forall|j: int|
                0 <= j < q ==> vstd::utf8::is_ascii_chars((#[trigger] n.outputs@[j]).dest@),
    {
        let ghost pre = out@;
        let o = &n.outputs[i];
        push_varint(&mut out, o.dest.as_str().unicode_len() as u64);
        push_ascii(&mut out, o.dest.as_str());
        push_u64_le(&mut out, o.value);
        push_varint(&mut out, o.data.len() as u64);
        push_bytes(&mut out, &o.data);
        proof {
            assert(out@ =~= pre + spec_output_bytes(outs_model[i as int]));
            lemma_outputs_bytes_snoc(outs_model.take(i as int), outs_model[i as int]);
            assert(outs_model.take(i + 1) =~= outs_model.take(i as int).push(
                outs_model[i as int],
            ));
            assert(out@ =~= head2 + spec_outputs_bytes(outs_model.take(i + 1)));
        }
    }
    proof {
        assert(outs_model.take(q as int) =~= outs_model);
        assert(out@ =~= spec_spell_bytes(n@));
    }
    out
}

} // verus!
