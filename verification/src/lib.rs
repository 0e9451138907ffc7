//! Wallet and asset-transfer operations over a Bitcoin-like UTXO ledger.
//!
//! The heart of the crate is the spell-to-transaction assembler: it takes a
//! declarative "spell" document (an application-state transition to attach to
//! UTXOs) plus a funding UTXO, and produces a pair of chained unsigned
//! transactions — a commit transaction locking a taproot output that commits
//! to the spell's canonical bytes, and a spell transaction that spends the
//! committed output via a script-path reveal and creates the new output set.
//!
//! The pipeline runs through the modules bottom up: [`encoding`] holds the
//! byte-level primitives, [`spell`] the document model and its normalizer,
//! [`payload`] the canonical spell bytes, [`script`] the commit/reveal
//! envelope, [`transaction`] the wire format, [`fees`] the size and fee
//! arithmetic, and [`assembler`] the orchestrator. [`wallet`] parses UTXO
//! identifiers and raw transactions and sums balances; [`models`] holds the
//! request and response shapes; [`crypto`] is the trusted boundary to the
//! ledger library's cryptography.

use vstd::prelude::*;

pub mod assembler;
pub mod crypto;
pub mod encoding;
pub mod fees;
pub mod models;
pub mod payload;
pub mod script;
pub mod spell;
pub mod transaction;
pub mod wallet;

verus! {

/// Classified failures surfaced by the wallet and the assembler.
#[derive(Debug)]
pub enum WalletError {
    /// Ledger-format or node-protocol failure.
    BitcoinError(String),
    /// Malformed destination or change address.
    InvalidAddress(String),
    /// Funding value insufficient or otherwise unusable.
    InvalidAmount(String),
    /// Collaborator unreachable or returned a malformed response.
    NetworkError(String),
    /// Malformed or empty spell document.
    InvalidSpell(String),
    /// Assembly-internal failure (payload too large, embedding failed).
    SpellError(String),
}

impl WalletError {
    /// The human-readable message carried by the error.
    pub fn message(&self) -> (m: &String)
        ensures
            m == self.spec_message(),
    {
        match self {
            WalletError::BitcoinError(m) => m,
            WalletError::InvalidAddress(m) => m,
            WalletError::InvalidAmount(m) => m,
            WalletError::NetworkError(m) => m,
            WalletError::InvalidSpell(m) => m,
            WalletError::SpellError(m) => m,
        }
    }

    /// The message as a spec-level value.
    pub open spec fn spec_message(&self) -> String {
        match self {
            WalletError::BitcoinError(m) => *m,
            WalletError::InvalidAddress(m) => *m,
            WalletError::InvalidAmount(m) => *m,
            WalletError::NetworkError(m) => *m,
            WalletError::InvalidSpell(m) => *m,
            WalletError::SpellError(m) => *m,
        }
    }
}

/// A wallet result carrying a classified error on failure.
pub type WalletResult<T> = Result<T, WalletError>;

} // verus!
