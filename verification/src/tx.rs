use vstd::prelude::*;

use crate::errors::LedgerError;
use crate::keys::{addr_decode, decode_address};
use crate::util::bytes_eq;

verus! {

/// Mathematical model of a transaction input.
#[verifier::ext_equal]
pub ghost struct InV {
    pub txid: Seq<char>,
    pub vout: i32,
    pub signature: Seq<u8>,
    pub pub_key: Seq<u8>,
}

/// Mathematical model of a transaction output.
#[verifier::ext_equal]
pub ghost struct OutV {
    pub value: i32,
    pub pub_key_hash: Seq<u8>,
}

/// A transaction input: a reference to a previous output, together with the
/// authorization to spend it.
#[derive(Debug, Clone, PartialEq)]
pub struct TXInput {
    pub txid: String,
    pub vout: i32,
    pub signature: Vec<u8>,
    pub pub_key: Vec<u8>,
}

/// A transaction output: an amount locked to a public-key hash.
#[derive(Debug, Clone, PartialEq)]
pub struct TXOutput {
    pub value: i32,
    pub pub_key_hash: Vec<u8>,
}

/// The outputs of one transaction that are currently unspent.
#[derive(Debug, Clone, PartialEq)]
pub struct TXOutputs {
    pub outputs: Vec<TXOutput>,
}

impl View for TXInput {
    type V = InV;

    open spec fn view(&self) -> InV {
        InV {
            txid: self.txid@,
            vout: self.vout,
            signature: self.signature@,
            pub_key: self.pub_key@,
        }
    }
}

impl View for TXOutput {
    type V = OutV;

    open spec fn view(&self) -> OutV {
        OutV { value: self.value, pub_key_hash: self.pub_key_hash@ }
    }
}

impl View for TXOutputs {
    type V = Seq<OutV>;

    open spec fn view(&self) -> Seq<OutV> {
        self.outputs@.map_values(|o: TXOutput| o@)
    }
}

impl TXOutput {
    /// Builds an output of the given value, locked to the public-key hash
    /// that the recipient's address encodes.
    pub fn new(value: i32, address: String) -> (r: Result<TXOutput, LedgerError>)
        ensures
            match addr_decode(address@) {
                Some(h) => r matches Ok(o) && o@ == (OutV { value, pub_key_hash: h }),
                None => r == Err::<TXOutput, LedgerError>(LedgerError::Encoding),
            },
    {
        match decode_address(address.as_str()) {
            Some(h) => Ok(TXOutput { value, pub_key_hash: h }),
            None => Err(LedgerError::Encoding),
        }
    }

    /// Whether the given unlocking data matches this output's lock.
    pub fn can_be_unlock_with(&self, unlocking_data: &[u8]) -> (r: bool)
        ensures
            r <==> self@.pub_key_hash == unlocking_data@,
    {
        bytes_eq(self.pub_key_hash.as_slice(), unlocking_data)
    }
}

} // verus!
