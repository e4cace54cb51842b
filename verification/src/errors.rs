use vstd::prelude::*;

verus! {

/// The error kinds that the ledger's operations report.
#[derive(Clone, Debug, PartialEq, Eq)]
pub enum LedgerError {
    /// A persisted record could not be decoded.
    Serialization,
    /// Text was expected (an address, a transaction id) but could not be read.
    Encoding,
    /// A transaction, tip pointer or referenced output is missing.
    NotFound,
    /// The spendable balance does not cover the requested amount.
    InsufficientFunds { available: i32 },
    /// An input references a previous transaction that is unknown or malformed.
    InvalidPreviousTransaction,
    /// The nonce space was exhausted without meeting the difficulty target.
    MiningExhausted,
}

impl LedgerError {
    /// A short, fixed description of the error kind.
    pub fn describe(&self) -> (r: &'static str)
        ensures
            r@.len() > 0,
    {
        proof {
            reveal_strlit("serialization failure");
            reveal_strlit("encoding failure");
            reveal_strlit("not found");
            reveal_strlit("insufficient funds");
            reveal_strlit("previous transaction is not correct");
            reveal_strlit("nonce space exhausted");
        }
        match self {
            LedgerError::Serialization => "serialization failure",
            LedgerError::Encoding => "encoding failure",
            LedgerError::NotFound => "not found",
            LedgerError::InsufficientFunds { .. } => "insufficient funds",
            LedgerError::InvalidPreviousTransaction => "previous transaction is not correct",
            LedgerError::MiningExhausted => "nonce space exhausted",
        }
    }
}

} // verus!
