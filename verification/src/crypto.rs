//! Trusted boundary to the ledger library's cryptography: hashing, taproot
//! key tweaking and address decoding. Each function here is believed, not
//! verified; everything downstream of these contracts is proved.

use vstd::prelude::*;

use core::str::FromStr;

verus! {

/// The double-SHA256 digest of a byte sequence, as the ledger computes
/// transaction ids. Left uninterpreted: it depends on the bytes alone.
pub uninterp spec fn spec_sha256d(data: Seq<u8>) -> Seq<u8>;

/// Whether 32 given bytes denote a valid x-only public key (a point on the
/// curve). Depends on the bytes alone.
pub uninterp spec fn spec_xonly_key_valid(key: Seq<u8>) -> bool;

/// The taproot tweak of an internal key by a single-leaf script tree:
/// the 32-byte output key and its parity. Depends on the arguments alone.
pub uninterp spec fn spec_taproot_tweak(internal_key: Seq<u8>, leaf_script: Seq<u8>) -> (Seq<
    u8,
>, bool);

/// The output script a ledger address denotes, or `None` when the string is
/// no address. Depends on the string alone.
pub uninterp spec fn spec_address_script(addr: Seq<char>) -> Option<Seq<u8>>;

/// Relies on bitcoin::hashes::sha256d::Hash::hash: a 32-byte double-SHA256
/// digest determined by the input bytes.
#[verifier::external_body]
pub fn sha256d(data: &Vec<u8>) -> (r: Vec<u8>)
    ensures
        r@ == spec_sha256d(data@),
        r@.len() == 32,
{
    let digest = <bitcoin::hashes::sha256d::Hash as bitcoin::hashes::Hash>::hash(data.as_slice());
    <bitcoin::hashes::sha256d::Hash as bitcoin::hashes::Hash>::to_byte_array(digest).to_vec()
}

/// Relies on bitcoin::XOnlyPublicKey::from_slice: it succeeds exactly on the
/// serialization of a curve point.
#[verifier::external_body]
pub fn xonly_key_valid(key: &Vec<u8>) -> (r: bool)
    ensures
        r == spec_xonly_key_valid(key@),
{
    bitcoin::XOnlyPublicKey::from_slice(key.as_slice()).is_ok()
}

/// Relies on bitcoin::taproot::TaprootBuilder::finalize: for a single leaf at
/// depth zero it computes the tweaked output key and its parity, both
/// determined by the internal key and the leaf script. from_slice, add_leaf
/// and finalize cannot fail here: the key is valid and the one-leaf tree is
/// complete.
#[verifier::external_body]
pub fn taproot_tweak(internal_key: &Vec<u8>, leaf_script: &Vec<u8>) -> (r: (Vec<u8>, bool))
    requires
        spec_xonly_key_valid(internal_key@),
    ensures
        r.0@ == spec_taproot_tweak(internal_key@, leaf_script@).0,
        r.1 == spec_taproot_tweak(internal_key@, leaf_script@).1,
        r.0@.len() == 32,
{
    let secp = bitcoin::secp256k1::Secp256k1::new();
    let key = bitcoin::XOnlyPublicKey::from_slice(internal_key.as_slice()).unwrap();
    let script = bitcoin::ScriptBuf::from_bytes(leaf_script.clone());
    let info = bitcoin::taproot::TaprootBuilder::new()
        .add_leaf(0, script)
        .unwrap()
        .finalize(&secp, key)
        .unwrap();
    (info.output_key().serialize().to_vec(), info.output_key_parity().to_u8() == 1)
}

/// Relies on bitcoin::secp256k1::Keypair::new and
/// bitcoin::XOnlyPublicKey::from_keypair: a freshly generated keypair yields
/// a 32-byte x-only key whose serialization parses back successfully. The
/// key is random: nothing is promised of its value.
#[verifier::external_body]
pub fn fresh_internal_key() -> (r: Vec<u8>)
    ensures
        r@.len() == 32,
        spec_xonly_key_valid(r@),
{
    let secp = bitcoin::secp256k1::Secp256k1::new();
    let keypair = bitcoin::secp256k1::Keypair::new(&secp, &mut rand::thread_rng());
    let (xonly, _) = bitcoin::XOnlyPublicKey::from_keypair(&keypair);
    xonly.serialize().to_vec()
}

/// Relies on bitcoin::Address::from_str and Address::script_pubkey: parsing
/// succeeds exactly on well-formed address strings, and the output script is
/// determined by the string. The network is not checked here; callers decide
/// which ledger the transactions are for.
#[verifier::external_body]
pub fn address_to_script(addr: &str) -> (r: Option<Vec<u8>>)
    ensures
        match r {
            Some(script) => spec_address_script(addr@) == Some(script@),
            None => spec_address_script(addr@) is None,
        },
{
    match bitcoin::Address::from_str(addr) {
        Ok(a) => Some(a.assume_checked().script_pubkey().into_bytes()),
        Err(_) => None,
    }
}

} // verus!
