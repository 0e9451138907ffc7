//! Fee and size arithmetic.
//!
//! The fee of a transaction is its estimated virtual size times the caller's
//! fee rate in smallest-unit per virtual byte. The estimate accounts for the
//! witness discount: it weighs the legacy bytes fourfold, the witness bytes
//! once, and reserves a fixed allowance per input for the signature that
//! will be attached later.

use vstd::prelude::*;

use crate::transaction::Tx;
use crate::transaction::TxModel;
use crate::transaction::serialize_tx_nonwitness;
use crate::transaction::spec_tx_nonwitness_bytes;
use crate::transaction::spec_witness_fields;
use crate::payload::push_bytes;

verus! {

/// Weight units reserved per input for a future signature: a 64-byte
/// Schnorr signature pushed as one witness item, with its length prefixes.
pub const SIG_WEIGHT_ALLOWANCE: u64 = 66;

/// The estimated weight of a transaction once signed: four times its legacy
/// size, the witness marker and flag, its current witness bytes, and the
/// signature allowance per input.
pub open spec fn spec_estimated_weight(t: TxModel) -> int {
    4 * (spec_tx_nonwitness_bytes(t).len() as int) + 2 + spec_witness_fields(t.inputs).len()
        + SIG_WEIGHT_ALLOWANCE * (t.inputs.len() as int)
}

/// The estimated virtual size: the weight divided by four, rounded up.
pub open spec fn spec_estimated_vsize(t: TxModel) -> int {
    (spec_estimated_weight(t) + 3) / 4
}

/// The estimated fee at a rate in smallest-unit per virtual byte.
pub open spec fn spec_estimated_fee(t: TxModel, fee_rate: u64) -> int {
    spec_estimated_vsize(t) * fee_rate
}

/// Saturating 128-bit addition.
pub fn sat_add(a: u128, b: u128) -> (r: u128)
    ensures
        r as int == if a + b > u128::MAX {
            u128::MAX as int
        } else {
            a + b
        },
{
    if a > u128::MAX - b {
        u128::MAX
    } else {
        a + b
    }
}

/// Saturating 128-bit multiplication.
pub fn sat_mul(a: u128, b: u128) -> (r: u128)
    ensures
        r as int == if a * b > u128::MAX {
            u128::MAX as int
        } else {
            a * b
        },
{
    if a == 0 {
        assert(a * b == 0);
        return 0;
    }
    proof {
        vstd::arithmetic::div_mod::lemma_fundamental_div_mod(u128::MAX as int, a as int);
        vstd::arithmetic::div_mod::lemma_mod_bound(u128::MAX as int, a as int);
    }
    if b > u128::MAX / a {
        proof {
            assert(a * b > u128::MAX) by (nonlinear_arith)
                requires
                    a >= 1,
                    b > u128::MAX / a,
                    u128::MAX == a * (u128::MAX / a) + u128::MAX % a,
                    0 <= u128::MAX % a < a,
            ;
        }
        u128::MAX
    } else {
        proof {
            assert(a * b <= u128::MAX) by (nonlinear_arith)
                requires
                    a >= 1,
                    b <= u128::MAX / a,
                    u128::MAX == a * (u128::MAX / a) + u128::MAX % a,
                    0 <= u128::MAX % a,
            ;
        }
        a * b
    }
}

/// Computes the estimated fee of a transaction at the given rate,
/// saturating at the largest 128-bit value.
pub fn estimated_fee(tx: &Tx, fee_rate: u64) -> (r: u128)
    ensures
        r as int == if spec_estimated_fee(tx@, fee_rate) > u128::MAX {
            u128::MAX as int
        } else {
            spec_estimated_fee(tx@, fee_rate)
        },
{
    let base_bytes = serialize_tx_nonwitness(tx);
    let base = base_bytes.len() as u128;
    let mut witness_bytes: Vec<u8> = Vec::new();
    crate::transaction::push_witness_fields(&mut witness_bytes, &tx.inputs);
    let wit = witness_bytes.len() as u128;
    let n_inputs = tx.inputs.len() as u128;
    let weight = 4 * base + 2 + wit + 66 * n_inputs;
    assert(SIG_WEIGHT_ALLOWANCE * (tx@.inputs.len() as int) == 66 * n_inputs);
    let vsize = (weight + 3) / 4;
    assert(vsize == spec_estimated_vsize(tx@));
    sat_mul(vsize, fee_rate as u128)
}

} // verus!
