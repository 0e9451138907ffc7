//! The commit/reveal embedding.
//!
//! A spell's canonical bytes ride in a taproot leaf script shaped as a
//! standard envelope: a key path guard followed by a provably unexecuted
//! branch that carries the payload as data pushes behind a fixed tag. A
//! verifier extracts the payload deterministically by parsing the envelope;
//! extraction inverts embedding exactly.

use vstd::prelude::*;

use crate::WalletError;
use crate::WalletResult;
use crate::crypto::spec_taproot_tweak;
use crate::crypto::spec_xonly_key_valid;
use crate::crypto::taproot_tweak;
use crate::crypto::xonly_key_valid;

verus! {

/// Largest payload the embedder accepts, in bytes: beyond this the carrying
/// transaction would no longer be standard.
pub const MAX_PAYLOAD: usize = 80000;

/// Largest number of bytes one script push may carry.
pub const MAX_CHUNK: usize = 520;

/// The tag bytes marking the envelope: the word "spell" in ASCII.
pub open spec fn spec_tag() -> Seq<u8> {
    seq![0x73u8, 0x70u8, 0x65u8, 0x6cu8, 0x6cu8]
}

/// The minimal script push of up to 65535 bytes of data: the data preceded
/// by its length, directly, behind 0x4c or behind 0x4d as the length grows.
pub open spec fn spec_push(d: Seq<u8>) -> Seq<u8>
    recommends
        d.len() <= 0xffff,
{
    if d.len() < 76 {
        seq![d.len() as u8] + d
    } else if d.len() <= 255 {
        seq![0x4cu8, d.len() as u8] + d
    } else {
        seq![0x4du8, (d.len() % 256) as u8, ((d.len() / 256) % 256) as u8] + d
    }
}

/// The payload cut into pushes of at most 520 bytes each, in order.
pub open spec fn spec_data_pushes(d: Seq<u8>) -> Seq<u8>
    decreases d.len(),
{
    if d.len() == 0 {
        Seq::<u8>::empty()
    } else if d.len() <= 520 {
        spec_push(d)
    } else {
        spec_push(d.take(520)) + spec_data_pushes(d.skip(520))
    }
}

/// The leaf script carrying a payload: push of the 32-byte internal key,
/// CHECKSIG, then FALSE IF <tag> <payload pushes> ENDIF.
pub open spec fn spec_data_script(key: Seq<u8>, d: Seq<u8>) -> Seq<u8> {
    seq![0x20u8] + key + seq![0xacu8, 0x00u8, 0x63u8] + spec_push(spec_tag()) + spec_data_pushes(
        d,
    ) + seq![0x68u8]
}

/// Parses one script push: the pushed bytes and the remaining script, or
/// `None` when the head of the script is no well-formed push.
pub open spec fn spec_parse_push(b: Seq<u8>) -> Option<(Seq<u8>, Seq<u8>)> {
    if b.len() == 0 {
        None
    } else {
        let op = b[0] as int;
        if op < 76 {
            if b.len() >= 1 + op {
                Some((b.subrange(1, 1 + op), b.skip(1 + op)))
            } else {
                None
            }
        } else if op == 0x4c {
            if b.len() >= 2 && b.len() >= 2 + b[1] {
                Some((b.subrange(2, 2 + b[1]), b.skip(2 + b[1])))
            } else {
                None
            }
        } else if op == 0x4d {
            if b.len() >= 3 && b.len() >= 3 + b[1] + 256 * b[2] {
                Some((b.subrange(3, 3 + b[1] + 256 * b[2]), b.skip(3 + b[1] + 256 * b[2])))
            } else {
                None
            }
        } else {
            None
        }
    }
}

/// Parses data pushes up to a closing ENDIF, concatenating what they carry.
pub open spec fn spec_parse_pushes(b: Seq<u8>) -> Option<Seq<u8>>
    decreases b.len(),
{
    if b.len() == 1 && b[0] == 0x68 {
        Some(Seq::<u8>::empty())
    } else {
        match spec_parse_push(b) {
            Some(pr) => if pr.1.len() < b.len() {
                match spec_parse_pushes(pr.1) {
                    Some(rest) => Some(pr.0 + rest),
                    None => None,
                }
            } else {
                None
            },
            None => None,
        }
    }
}

/// Extracts the payload carried by a leaf script: checks the envelope shape
/// and concatenates the tagged data pushes.
pub open spec fn spec_extract_payload(s: Seq<u8>) -> Option<Seq<u8>> {
    if s.len() >= 42 && s[0] == 0x20 && s.subrange(33, 42) == seq![0xacu8, 0x00u8, 0x63u8, 0x05u8]
        + spec_tag() {
        spec_parse_pushes(s.skip(42))
    } else {
        None
    }
}

/// Parsing inverts pushing: a well-sized push followed by anything parses
/// back to the pushed data and that remainder.
proof fn lemma_parse_push_roundtrip(d: Seq<u8>, rest: Seq<u8>)
    requires
        d.len() <= 0xffff,
    ensures
        spec_parse_push(spec_push(d) + rest) == Some((d, rest)),
{
    let b = spec_push(d) + rest;
    if d.len() < 76 {
        assert(b[0] == d.len() as u8);
        assert(b.subrange(1, 1 + d.len() as int) =~= d);
        assert(b.skip(1 + d.len() as int) =~= rest);
    } else if d.len() <= 255 {
        assert(b[0] == 0x4c && b[1] == d.len() as u8);
        assert(b.subrange(2, 2 + d.len() as int) =~= d);
        assert(b.skip(2 + d.len() as int) =~= rest);
    } else {
        assert(b[0] == 0x4d && b[1] == (d.len() % 256) as u8 && b[2] == ((d.len() / 256)
            % 256) as u8);
        assert(b[1] + 256 * b[2] == d.len()) by {
            assert(d.len() % 256 + 256 * ((d.len() / 256) % 256) == d.len()) by (nonlinear_arith)
                requires
                    256 <= d.len() <= 0xffff,
            ;
        }
        assert(b.subrange(3, 3 + d.len() as int) =~= d);
        assert(b.skip(3 + d.len() as int) =~= rest);
    }
}

/// Parsing inverts chunking: the pushes of a payload, closed by ENDIF,
/// parse back to exactly that payload.
proof fn lemma_parse_pushes_roundtrip(d: Seq<u8>)
    requires
        d.len() <= 0xffff * 128,
    ensures
        spec_parse_pushes(spec_data_pushes(d) + seq![0x68u8]) == Some(d),
    decreases d.len(),
{
    let b = spec_data_pushes(d) + seq![0x68u8];
    if d.len() == 0 {
        assert(b =~= seq![0x68u8]);
    } else if d.len() <= 520 {
        lemma_parse_push_roundtrip(d, seq![0x68u8]);
        assert(b =~= spec_push(d) + seq![0x68u8]);
        assert(b.len() >= 2);
        assert(spec_parse_pushes(seq![0x68u8]) == Some(Seq::<u8>::empty()));
        assert(d + Seq::<u8>::empty() =~= d);
    } else {
        let head = d.take(520);
        let tail = d.skip(520);
        let tail_bytes = spec_data_pushes(tail) + seq![0x68u8];
        assert(b =~= spec_push(head) + tail_bytes);
        lemma_parse_push_roundtrip(head, tail_bytes);
        lemma_parse_pushes_roundtrip(tail);
        assert(b.len() >= 2 && !(b.len() == 1 && b[0] == 0x68));
        assert(tail_bytes.len() < b.len());
        assert(head + tail =~= d);
    }
}

/// Extraction inverts embedding: the payload a leaf script was built from is
/// exactly what extraction recovers.
pub proof fn lemma_extract_roundtrip(key: Seq<u8>, d: Seq<u8>)
    requires
        key.len() == 32,
        d.len() <= MAX_PAYLOAD,
    ensures
        spec_extract_payload(spec_data_script(key, d)) == Some(d),
{
    let s = spec_data_script(key, d);
    assert(s.len() >= 42);
    assert(s[0] == 0x20);
    assert(s.subrange(33, 42) =~= seq![0xacu8, 0x00u8, 0x63u8, 0x05u8] + spec_tag());
    assert(s.skip(42) =~= spec_data_pushes(d) + seq![0x68u8]);
    lemma_parse_pushes_roundtrip(d);
}

/// Copies a byte range out of a vector.
fn sub_vec(v: &Vec<u8>, start: usize, end: usize) -> (r: Vec<u8>)
    requires
        start <= end <= v@.len(),
    ensures
        r@ == v@.subrange(start as int, end as int),
{
    let mut out: Vec<u8> = Vec::new();
    for k in start..end
        invariant
            start <= end <= v@.len(),
            out@ =~= v@.subrange(start as int, k as int),
    {
        out.push(v[k]);
        assert(out@ =~= v@.subrange(start as int, k + 1));
    }
    out
}

/// Appends the minimal script push of the given data.
fn push_pushdata(out: &mut Vec<u8>, d: &Vec<u8>)
    requires
        d@.len() <= 0xffff,
    ensures
        final(out)@ == old(out)@ + spec_push(d@),
{
    let n = d.len();
    if n < 76 {
        out.push(n as u8);
    } else if n <= 255 {
        out.push(0x4c);
        out.push(n as u8);
    } else {
        out.push(0x4d);
        out.push((n % 256) as u8);
        out.push(((n / 256) % 256) as u8);
    }
    crate::payload::push_bytes(out, d);
    assert(final(out)@ =~= old(out)@ + spec_push(d@));
}

/// Builds the leaf script embedding a payload under the given internal key.
pub fn data_script(key: &Vec<u8>, d: &Vec<u8>) -> (r: Vec<u8>)
    requires
        key@.len() == 32,
        d@.len() <= MAX_PAYLOAD,
    ensures
        r@ == spec_data_script(key@, d@),
{
    let mut out: Vec<u8> = Vec::new();
    out.push(0x20);
    crate::payload::push_bytes(&mut out, key);
    out.push(0xac);
    out.push(0x00);
    out.push(0x63);
    out.push(0x05);
    out.push(0x73);
    out.push(0x70);
    out.push(0x65);
    out.push(0x6c);
    out.push(0x6c);
    proof {
        assert(out@ =~= seq![0x20u8] + key@ + seq![0xacu8, 0x00u8, 0x63u8] + spec_push(
            spec_tag(),
        ));
    }
    let ghost head = out@;
    let n = d.len();
    let mut pos: usize = 0;
    proof {
        assert(out@.skip(head.len() as int) =~= Seq::<u8>::empty());
        assert(d@.skip(0) =~= d@);
        assert(spec_data_pushes(d@) =~= out@.skip(head.len() as int) + spec_data_pushes(
            d@.skip(0),
        ));
    }
    while pos < n
        invariant
            n == d@.len(),
            n <= MAX_PAYLOAD,
            pos <= n,
            out@.len() >= head.len(),
            out@.take(head.len() as int) == head,
            spec_data_pushes(d@) == out@.skip(head.len() as int) + spec_data_pushes(
                d@.skip(pos as int),
            ),
        decreases n - pos,
    {
        let chunk_end = if n - pos > MAX_CHUNK {
            pos + MAX_CHUNK
        } else {
            n
        };
        let chunk = sub_vec(d, pos, chunk_end);
        let ghost pre = out@;
        push_pushdata(&mut out, &chunk);
        proof {
            let rem = d@.skip(pos as int);
            assert(out@.take(head.len() as int) =~= pre.take(head.len() as int));
            assert(out@.skip(head.len() as int) =~= pre.skip(head.len() as int) + spec_push(
                chunk@,
            ));
            if rem.len() > 520 {
                assert(rem.take(520) =~= chunk@);
                assert(rem.skip(520) =~= d@.skip(pos + 520 as int));
                assert(spec_data_pushes(rem) == spec_push(chunk@) + spec_data_pushes(
                    d@.skip(chunk_end as int),
                ));
            } else {
                assert(rem =~= chunk@);
                assert(spec_data_pushes(rem) == spec_push(chunk@));
                assert(d@.skip(chunk_end as int) =~= Seq::<u8>::empty());
                assert(spec_data_pushes(d@.skip(chunk_end as int)) == Seq::<u8>::empty());
                assert(spec_push(chunk@) + Seq::<u8>::empty() =~= spec_push(chunk@));
            }
            assert(pre.skip(head.len() as int) + (spec_push(chunk@) + spec_data_pushes(
                d@.skip(chunk_end as int),
            )) =~= out@.skip(head.len() as int) + spec_data_pushes(d@.skip(chunk_end as int)));
        }
        pos = chunk_end;
    }
    proof {
        assert(d@.skip(n as int) =~= Seq::<u8>::empty());
        assert(spec_data_pushes(d@.skip(n as int)) == Seq::<u8>::empty());
        assert(out@.skip(head.len() as int) + Seq::<u8>::empty() =~= out@.skip(
            head.len() as int,
        ));
    }
    out.push(0x68);
    proof {
        assert(out@ =~= head + spec_data_pushes(d@) + seq![0x68u8]);
        assert(out@ =~= spec_data_script(key@, d@));
    }
    out
}

/// Extracts the payload carried by a leaf script, as a verifier would.
/// Returns `None` exactly when the script is no well-formed envelope.
pub fn extract_payload(script: &Vec<u8>) -> (r: Option<Vec<u8>>)
    ensures
        match r {
            Some(v) => spec_extract_payload(script@) == Some(v@),
            None => spec_extract_payload(script@) is None,
        },
{
    let n = script.len();
    if n < 42 {
        return None;
    }
    if script[0] != 0x20 {
        return None;
    }
    let tag_ok = script[33] == 0xac && script[34] == 0x00 && script[35] == 0x63 && script[36]
        == 0x05 && script[37] == 0x73 && script[38] == 0x70 && script[39] == 0x65 && script[40]
        == 0x6c && script[41] == 0x6c;
    let ghost expect = seq![0xacu8, 0x00u8, 0x63u8, 0x05u8] + spec_tag();
    if !tag_ok {
        proof {
            if script@.subrange(33, 42) == expect {
                assert(expect[0] == 0xac && expect[1] == 0x00 && expect[2] == 0x63 && expect[3]
                    == 0x05 && expect[4] == 0x73 && expect[5] == 0x70 && expect[6] == 0x65
                    && expect[7] == 0x6c && expect[8] == 0x6c);
                assert(forall|i: int|
                    0 <= i < 9 ==> #[trigger] script@.subrange(33, 42)[i] == script@[33 + i]);
                assert(false);
            }
        }
        return None;
    }
    proof {
        assert(script@.subrange(33, 42) =~= expect);
    }
    let mut pos: usize = 42;
    let mut out: Vec<u8> = Vec::new();
    proof {
        match spec_parse_pushes(script@.skip(42)) {
            Some(rest) => {
                assert(out@ + rest =~= rest);
            },
            None => {},
        }
    }
    while pos < n
        invariant
            n == script@.len(),
            42 <= pos <= n,
            script@.len() >= 42 && script@[0] == 0x20 && script@.subrange(33, 42) == seq![
                0xacu8,
                0x00u8,
                0x63u8,
                0x05u8,
            ] + spec_tag(),
            match spec_parse_pushes(script@.skip(pos as int)) {
                Some(rest) => spec_parse_pushes(script@.skip(42)) == Some(out@ + rest),
                None => spec_parse_pushes(script@.skip(42)) is None,
            },
        decreases n - pos,
    {
        let ghost b = script@.skip(pos as int);
        proof {
            assert(b.len() == n - pos);
            assert(forall|i: int| 0 <= i < b.len() ==> #[trigger] b[i] == script@[pos + i]);
        }
        let op = script[pos];
        if op == 0x68 && pos + 1 == n {
            proof {
                assert(b.len() == 1 && b[0] == 0x68);
                assert(spec_parse_pushes(b) == Some(Seq::<u8>::empty()));
                assert(out@ + Seq::<u8>::empty() =~= out@);
            }
            return Some(out);
        }
        let remaining = n - pos;
        let mut hdr: usize = 0;
        let mut dlen: usize = 0;
        if op < 76 {
            hdr = 1;
            dlen = op as usize;
        } else if op == 0x4c {
            if remaining < 2 {
                proof {
                    assert(spec_parse_push(b) is None);
                }
                return None;
            }
            hdr = 2;
            dlen = script[pos + 1] as usize;
        } else if op == 0x4d {
            if remaining < 3 {
                proof {
                    assert(spec_parse_push(b) is None);
                }
                return None;
            }
            hdr = 3;
            dlen = script[pos + 1] as usize + 256 * (script[pos + 2] as usize);
        } else {
            proof {
                assert(spec_parse_push(b) is None);
            }
            return None;
        }
        if remaining - hdr < dlen {
            proof {
                assert(spec_parse_push(b) is None);
            }
            return None;
        }
        proof {
            assert(spec_parse_push(b) == Some(
                (b.subrange(hdr as int, hdr + dlen), b.skip(hdr + dlen)),
            ));
        }
        let ghost out_old = out@;
        for k in 0..dlen
            invariant
                n == script@.len(),
                pos + hdr + dlen <= n,
                out@ =~= out_old + script@.subrange(pos + hdr, pos + hdr + k),
        {
            out.push(script[pos + hdr + k]);
            assert(out@ =~= out_old + script@.subrange(pos + hdr, pos + hdr + k + 1));
        }
        proof {
            assert(b.subrange(hdr as int, hdr + dlen) =~= script@.subrange(
                pos + hdr,
                pos + hdr + dlen,
            ));
            assert(b.skip(hdr + dlen) =~= script@.skip(pos + hdr + dlen));
            assert(b.skip(hdr + dlen).len() < b.len());
            match spec_parse_pushes(script@.skip(pos + hdr + dlen)) {
                Some(rest) => {
                    assert(spec_parse_pushes(b) == Some(
                        b.subrange(hdr as int, hdr + dlen) + rest,
                    ));
                    assert(out_old + (b.subrange(hdr as int, hdr + dlen) + rest) =~= out@
                        + rest);
                },
                None => {
                    assert(spec_parse_pushes(b) is None);
                },
            }
        }
        pos = pos + hdr + dlen;
    }
    proof {
        assert(script@.skip(pos as int) =~= Seq::<u8>::empty());
        assert(spec_parse_pushes(Seq::<u8>::empty()) is None);
    }
    None
}

/// The taproot commitment: the ephemeral internal key, the leaf script
/// carrying the payload, the tweaked output key with its parity, and the
/// control block proving the leaf belongs to the output key's script tree.
#[derive(Debug)]
pub struct TaprootCommitment {
    pub internal_key: Vec<u8>,
    pub leaf_script: Vec<u8>,
    pub output_key: Vec<u8>,
    pub parity: bool,
    pub control_block: Vec<u8>,
}

/// What holds of a commitment built from the given key and payload.
pub open spec fn commitment_wf(c: TaprootCommitment, key: Seq<u8>, payload: Seq<u8>) -> bool {
    &&& c.internal_key@ == key
    &&& c.leaf_script@ == spec_data_script(key, payload)
    &&& c.output_key@ == spec_taproot_tweak(key, c.leaf_script@).0
    &&& c.output_key@.len() == 32
    &&& c.parity == spec_taproot_tweak(key, c.leaf_script@).1
    &&& c.control_block@ == seq![(if c.parity { 0xc1u8 } else { 0xc0u8 })] + key
}

/// Builds the taproot commitment embedding a payload under a fresh internal
/// key: the single-leaf script tree, the tweaked output key, and the
/// control block for the script-path reveal. Rejects oversized payloads
/// before building anything, and rejects an internal key that is no curve
/// point.
pub fn embed(payload: &Vec<u8>, internal_key: &Vec<u8>) -> (r: WalletResult<TaprootCommitment>)
    ensures
        r is Ok <==> payload@.len() <= MAX_PAYLOAD && internal_key@.len() == 32
            && spec_xonly_key_valid(internal_key@),
        r matches Ok(c) ==> commitment_wf(c, internal_key@, payload@) && spec_extract_payload(
            c.leaf_script@,
        ) == Some(payload@),
        r matches Err(e) ==> (e matches WalletError::SpellError(msg) && msg@ == (if payload@.len()
            > MAX_PAYLOAD {
            "spell payload too large to embed"@
        } else {
            "invalid internal key"@
        })),
{
    if payload.len() > MAX_PAYLOAD {
        return Err(WalletError::SpellError(String::from_str("spell payload too large to embed")));
    }
    if internal_key.len() != 32 || !xonly_key_valid(internal_key) {
        return Err(WalletError::SpellError(String::from_str("invalid internal key")));
    }
    let leaf_script = data_script(internal_key, payload);
    let (output_key, parity) = taproot_tweak(internal_key, &leaf_script);
    let mut control_block: Vec<u8> = Vec::new();
    if parity {
        control_block.push(0xc1);
    } else {
        control_block.push(0xc0);
    }
    crate::payload::push_bytes(&mut control_block, internal_key);
    proof {
        lemma_extract_roundtrip(internal_key@, payload@);
    }
    Ok(
        TaprootCommitment {
            internal_key: internal_key.clone(),
            leaf_script,
            output_key,
            parity,
            control_block,
        },
    )
}

} // verus!
