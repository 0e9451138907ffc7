//! Wallet-side helpers around the assembler: parsing funding UTXO
//! identifiers and raw transactions, validating change addresses, and
//! summing unspent-output values into a balance.

use vstd::prelude::*;

use crate::WalletError;
use crate::WalletResult;
use crate::assembler::OutPoint;
use crate::assembler::OutPointModel;
use crate::crypto::spec_address_script;
use crate::encoding::hex_decode;
use crate::encoding::spec_hex_decode;
use crate::spell::reverse_bytes;
use crate::transaction::Tx;
use crate::transaction::spec_parse_tx;

verus! {

/// The number of colons in a string.
pub open spec fn spec_count_colons(s: Seq<char>) -> int
    decreases s.len(),
{
    if s.len() == 0 {
        0
    } else {
        spec_count_colons(s.drop_last()) + (if s.last() == ':' {
            1int
        } else {
            0int
        })
    }
}

/// The position of the unique colon of a string holding exactly one.
pub open spec fn spec_colon_idx(s: Seq<char>) -> int {
    choose|i: int| 0 <= i < s.len() && s[i] == ':'
}

/// Whether every character is a decimal digit.
pub open spec fn spec_all_digits(s: Seq<char>) -> bool {
    forall|i: int| 0 <= i < s.len() ==> '0' <= #[trigger] s[i] <= '9'
}

/// The number a digit string denotes.
pub open spec fn spec_digits_val(s: Seq<char>) -> int
    decreases s.len(),
{
    if s.len() == 0 {
        0
    } else {
        spec_digits_val(s.drop_last()) * 10 + (s.last() as int - 48)
    }
}

/// The 32-bit number a string denotes: at least one digit, digits only,
/// and a value in range.
pub open spec fn spec_parse_u32(s: Seq<char>) -> Option<u32> {
    if s.len() >= 1 && spec_all_digits(s) && spec_digits_val(s) <= u32::MAX {
        Some(spec_digits_val(s) as u32)
    } else {
        None
    }
}

/// The outpoint a `"txid:vout"` string denotes: exactly one colon, a
/// 64-digit hexadecimal transaction id in display order before it, a
/// decimal output index after it. The transaction id comes out in internal
/// byte order.
pub open spec fn spec_parse_outpoint(s: Seq<char>) -> Option<OutPointModel> {
    if spec_count_colons(s) == 1 {
        let ci = spec_colon_idx(s);
        match spec_hex_decode(s.take(ci)) {
            Some(b) => if b.len() == 32 {
                match spec_parse_u32(s.skip(ci + 1)) {
                    Some(v) => Some(OutPointModel { txid: b.reverse(), vout: v }),
                    None => None,
                }
            } else {
                None
            },
            None => None,
        }
    } else {
        None
    }
}

/// A digit string's value never shrinks as digits are appended.
proof fn lemma_digits_val_monotone(s: Seq<char>, i: int)
    requires
        spec_all_digits(s),
        0 <= i <= s.len(),
    ensures
        spec_digits_val(s) >= spec_digits_val(s.take(i)),
        spec_digits_val(s) >= 0,
    decreases s.len() - i,
{
    if i == s.len() {
        assert(s.take(i) =~= s);
        lemma_digits_val_nonneg(s);
    } else {
        assert(s.take(i + 1).drop_last() =~= s.take(i));
        assert(s.take(i + 1).last() == s[i]);
        lemma_digits_val_nonneg(s.take(i));
        assert(spec_digits_val(s.take(i + 1)) >= spec_digits_val(s.take(i))) by (nonlinear_arith)
            requires
                spec_digits_val(s.take(i + 1)) == spec_digits_val(s.take(i)) * 10 + (s[i] as int
                    - 48),
                spec_digits_val(s.take(i)) >= 0,
                48 <= s[i] as int <= 57,
        ;
        lemma_digits_val_monotone(s, i + 1);
    }
}

/// A digit string's value is non-negative.
proof fn lemma_digits_val_nonneg(s: Seq<char>)
    requires
        spec_all_digits(s),
    ensures
        spec_digits_val(s) >= 0,
    decreases s.len(),
{
    if s.len() > 0 {
        assert(spec_all_digits(s.drop_last()));
        lemma_digits_val_nonneg(s.drop_last());
        assert(spec_digits_val(s) >= 0) by (nonlinear_arith)
            requires
                spec_digits_val(s) == spec_digits_val(s.drop_last()) * 10 + (s.last() as int - 48),
                spec_digits_val(s.drop_last()) >= 0,
                48 <= s.last() as int <= 57,
        ;
    }
}

/// Parses a decimal 32-bit number.
fn parse_u32_str(s: &str) -> (r: Option<u32>)
    ensures
        r == spec_parse_u32(s@),
{
    let n = s.unicode_len();
    if n == 0 {
        return None;
    }
    let mut acc: u64 = 0;
    for i in 0..n
        invariant
            n == s@.len(),
            n >= 1,
            spec_all_digits(s@.take(i as int)),
            acc == spec_digits_val(s@.take(i as int)),
            acc <= u32::MAX,
    {
        let c = s.get_char(i);
        if c < '0' || c > '9' {
            proof {
                assert(!spec_all_digits(s@));
            }
            return None;
        }
        let d = (c as u32) - 48;
        proof {
            assert(s@.take(i + 1).drop_last() =~= s@.take(i as int));
            assert(s@.take(i + 1).last() == s@[i as int]);
        }
        let next = acc * 10 + (d as u64);
        if next > u32::MAX as u64 {
            proof {
                if spec_all_digits(s@) {
                    lemma_digits_val_monotone(s@, i + 1);
                    assert(spec_digits_val(s@) > u32::MAX);
                }
            }
            return None;
        }
        acc = next;
    }
    proof {
        assert(s@.take(n as int) =~= s@);
    }
    Some(acc as u32)
}

/// Parses a `"txid:vout"` funding UTXO identifier into an outpoint, the
/// transaction id reversed into internal byte order.
pub fn parse_outpoint(s: &str) -> (r: WalletResult<OutPoint>)
    ensures
        match r {
            Ok(o) => spec_parse_outpoint(s@) == Some(o@),
            Err(e) => spec_parse_outpoint(s@) is None && (e matches WalletError::BitcoinError(msg)
                && msg@ == (if spec_count_colons(s@) != 1 {
                "invalid outpoint: expected txid:vout"@
            } else if !(spec_hex_decode(s@.take(spec_colon_idx(s@))) matches Some(b) && b.len()
                == 32) {
                "invalid transaction id in outpoint"@
            } else {
                "invalid output index in outpoint"@
            })),
        },
{
    let n = s.unicode_len();
    let mut colon_count: usize = 0;
    let mut colon_idx: usize = 0;
    for i in 0..n
        invariant
            n == s@.len(),
            colon_count <= i,
            colon_count == spec_count_colons(s@.take(i as int)),
            colon_count >= 1 ==> colon_idx < i && s@[colon_idx as int] == ':',
            colon_count == 0 ==> forall|j: int| 0 <= j < i ==> s@[j] != ':',
    {
        proof {
            assert(s@.take(i + 1).drop_last() =~= s@.take(i as int));
            assert(s@.take(i + 1).last() == s@[i as int]);
        }
        let c = s.get_char(i);
        if c == ':' {
            if colon_count == 0 {
                colon_idx = i;
            }
            colon_count = colon_count + 1;
        }
    }
    proof {
        assert(s@.take(n as int) =~= s@);
    }
    if colon_count != 1 {
        return Err(
            WalletError::BitcoinError(String::from_str("invalid outpoint: expected txid:vout")),
        );
    }
    proof {
        lemma_colon_idx_unique(s@, colon_idx as int);
    }
    let txid_part = s.substring_char(0, colon_idx);
    let vout_part = s.substring_char(colon_idx + 1, n);
    proof {
        assert(txid_part@ =~= s@.take(colon_idx as int));
        assert(vout_part@ =~= s@.skip(colon_idx + 1));
    }
    let txid_bytes = match hex_decode(txid_part) {
        Some(b) => b,
        None => {
            return Err(
                WalletError::BitcoinError(String::from_str("invalid transaction id in outpoint")),
            );
        },
    };
    if txid_bytes.len() != 32 {
        return Err(
            WalletError::BitcoinError(String::from_str("invalid transaction id in outpoint")),
        );
    }
    let vout = match parse_u32_str(vout_part) {
        Some(v) => v,
        None => {
            return Err(
                WalletError::BitcoinError(String::from_str("invalid output index in outpoint")),
            );
        },
    };
    let txid = reverse_bytes(&txid_bytes);
    Ok(OutPoint { txid, vout })
}

/// A string with exactly one colon has that colon where it was found.
proof fn lemma_colon_idx_unique(s: Seq<char>, at: int)
    requires
        spec_count_colons(s) == 1,
        0 <= at < s.len(),
        s[at] == ':',
    ensures
        spec_colon_idx(s) == at,
    decreases s.len(),
{
    let ci = spec_colon_idx(s);
    assert(0 <= ci < s.len() && s[ci] == ':') by {
        assert(exists|i: int| 0 <= i < s.len() && s[i] == ':');
    }
    if ci != at {
        lemma_two_colons(s, if ci < at {
            ci
        } else {
            at
        }, if ci < at {
            at
        } else {
            ci
        });
    }
}

/// Two distinct colons force a colon count of at least two.
proof fn lemma_two_colons(s: Seq<char>, a: int, b: int)
    requires
        0 <= a < b < s.len(),
        s[a] == ':',
        s[b] == ':',
    ensures
        spec_count_colons(s) >= 2,
    decreases s.len(),
{
    lemma_colon_count_prefix(s, b + 1);
    lemma_colon_at(s.take(b + 1), a);
    assert(s.take(b + 1).last() == s[b]);
    lemma_colon_at(s.take(b + 1).drop_last(), a);
    lemma_colon_count_nonneg(s.take(b + 1).drop_last());
    assert(s.take(b + 1).drop_last() =~= s.take(b));
    assert(spec_count_colons(s.take(b + 1)) >= 2);
}

/// The colon count of a prefix never exceeds the whole string's.
proof fn lemma_colon_count_prefix(s: Seq<char>, i: int)
    requires
        0 <= i <= s.len(),
    ensures
        spec_count_colons(s) >= spec_count_colons(s.take(i)),
    decreases s.len() - i,
{
    if i == s.len() {
        assert(s.take(i) =~= s);
    } else {
        assert(s.take(i + 1).drop_last() =~= s.take(i));
        lemma_colon_count_prefix(s, i + 1);
    }
}

/// A colon within a string makes its count positive.
proof fn lemma_colon_at(s: Seq<char>, a: int)
    requires
        0 <= a < s.len(),
        s[a] == ':',
    ensures
        spec_count_colons(s) >= 1,
    decreases s.len(),
{
    lemma_colon_count_nonneg(s.drop_last());
    if a == s.len() - 1 {
    } else {
        assert(s.drop_last()[a] == s[a]);
        lemma_colon_at(s.drop_last(), a);
    }
}

/// A colon count is never negative.
proof fn lemma_colon_count_nonneg(s: Seq<char>)
    ensures
        spec_count_colons(s) >= 0,
    decreases s.len(),
{
    if s.len() > 0 {
        lemma_colon_count_nonneg(s.drop_last());
    }
}

/// Validates a candidate change address, as handed over by the node, and
/// returns it unchanged when it denotes an output script.
pub fn get_change_address(candidate: &str) -> (r: WalletResult<String>)
    ensures
        match r {
            Ok(s) => spec_address_script(candidate@) is Some && s@ == candidate@,
            Err(e) => spec_address_script(candidate@) is None && (e matches
                WalletError::InvalidAddress(msg) && msg@
                == "malformed destination or change address"@),
        },
{
    match crate::crypto::address_to_script(candidate) {
        Some(_) => Ok(candidate.to_owned()),
        None => Err(
            WalletError::InvalidAddress(
                String::from_str("malformed destination or change address"),
            ),
        ),
    }
}

/// Parses a hex-encoded transaction, as handed to the broadcast endpoint.
pub fn parse_transaction_hex(tx_hex: &str) -> (r: WalletResult<Tx>)
    ensures
        match r {
            Ok(t) => spec_hex_decode(tx_hex@) matches Some(b) && spec_parse_tx(b) == Some(t@),
            Err(e) => e matches WalletError::BitcoinError(msg) && (match spec_hex_decode(
                tx_hex@,
            ) {
                Some(b) => spec_parse_tx(b) is None && msg@ == "undecodable transaction"@,
                None => msg@ == "invalid transaction hex"@,
            }),
        },
{
    let bytes = match hex_decode(tx_hex) {
        Some(b) => b,
        None => {
            return Err(WalletError::BitcoinError(String::from_str("invalid transaction hex")));
        },
    };
    match crate::transaction::parse_tx(&bytes) {
        Some(t) => Ok(t),
        None => Err(WalletError::BitcoinError(String::from_str("undecodable transaction"))),
    }
}

/// One unspent output as the balance endpoint sees it: its value and
/// whether the transaction carrying it is confirmed.
pub struct UtxoEntry {
    pub value: u64,
    pub confirmed: bool,
}

/// The confirmed part of a balance, in the smallest ledger unit.
pub open spec fn spec_confirmed_sum(s: Seq<UtxoEntry>) -> int
    decreases s.len(),
{
    if s.len() == 0 {
        0
    } else {
        spec_confirmed_sum(s.drop_first()) + (if s.first().confirmed {
            s.first().value as int
        } else {
            0
        })
    }
}

/// The unconfirmed part of a balance, in the smallest ledger unit.
pub open spec fn spec_unconfirmed_sum(s: Seq<UtxoEntry>) -> int
    decreases s.len(),
{
    if s.len() == 0 {
        0
    } else {
        spec_unconfirmed_sum(s.drop_first()) + (if s.first().confirmed {
            0
        } else {
            s.first().value as int
        })
    }
}

/// Sums unspent outputs into a confirmed and an unconfirmed balance.
pub fn sum_balances(utxos: &Vec<UtxoEntry>) -> (r: (u128, u128))
    ensures
        r.0 as int == spec_confirmed_sum(utxos@),
        r.1 as int == spec_unconfirmed_sum(utxos@),
{
    let ghost all = utxos@;
    let mut confirmed: u128 = 0;
    let mut unconfirmed: u128 = 0;
    let n = utxos.len();
    proof {
        assert(all.skip(0) == all);
    }
    for i in 0..n
        invariant
            n == utxos@.len(),
            all == utxos@,
            confirmed <= i * (u64::MAX as int),
            unconfirmed <= i * (u64::MAX as int),
            spec_confirmed_sum(all) == confirmed + spec_confirmed_sum(all.skip(i as int)),
            spec_unconfirmed_sum(all) == unconfirmed + spec_unconfirmed_sum(all.skip(i as int)),
    {
        proof {
            assert(all.skip(i as int).first() == all[i as int]);
            assert(all.skip(i as int).drop_first() =~= all.skip(i + 1));
            assert((i + 1) * (u64::MAX as int) == i * (u64::MAX as int) + u64::MAX);
        }
        if utxos[i].confirmed {
            confirmed = confirmed + utxos[i].value as u128;
        } else {
            unconfirmed = unconfirmed + utxos[i].value as u128;
        }
    }
    proof {
        assert(all.skip(n as int) =~= Seq::<UtxoEntry>::empty());
    }
    (confirmed, unconfirmed)
}

} // verus!
