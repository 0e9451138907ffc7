//! Request and response shapes of the wallet's HTTP surface. Pure data:
//! the handlers around the library fill and read them.

use vstd::prelude::*;

verus! {

/// A freshly created keypair and its address.
pub struct KeyPair {
    pub public_key: String,
    pub private_key: String,
    pub address: String,
}

/// A request to create a wallet.
pub struct CreateWalletRequest {
    pub password: String,
}

/// The outcome of a submitted transaction.
pub struct TransactionResponse {
    pub tx_id: String,
    pub fee: u64,
}

/// Fee estimates by urgency, in the smallest ledger unit per virtual byte.
pub struct FeeEstimateResponse {
    pub fast: u64,
    pub medium: u64,
    pub slow: u64,
}

/// A request to broadcast a transaction described field by field.
pub struct BroadcastTxRequest {
    pub tx: TransactionData,
    pub private_key: String,
}

/// A transaction described field by field.
pub struct TransactionData {
    pub version: u32,
    pub inputs: Vec<TxInput>,
    pub outputs: Vec<TxOutput>,
}

/// One input of a described transaction.
pub struct TxInput {
    pub txid: String,
    pub vout: u32,
    pub sequence: u32,
    pub value: u64,
}

/// One output of a described transaction.
pub struct TxOutput {
    pub address: String,
    pub value: u64,
}

/// The identifier of a broadcast transaction.
pub struct BroadcastTxResponse {
    pub txid: String,
}

/// A request to broadcast an already-serialized transaction.
pub struct BroadcastRequest {
    pub tx_hex: String,
}

/// The outcome of broadcasting a serialized transaction.
pub struct BroadcastResponse {
    pub txid: String,
    pub command: String,
}

} // verus!
