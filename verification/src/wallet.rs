use vstd::prelude::*;

use crate::errors::LedgerError;
use crate::hashes::{hash_pub_key as hash_pub_key_in_place, pub_key_hash_of};
use crate::keys::{addr_encode, ed25519_keypair, encode_address, random_32};
use crate::util::{clone_bytes, clone_string, str_eq};

verus! {

/// Mathematical model of a wallet's key pair.
#[verifier::ext_equal]
pub ghost struct WalletV {
    pub secret_key: Seq<u8>,
    pub public_key: Seq<u8>,
}

/// A key pair: the 64-byte expanded secret key and the 32-byte public key.
#[derive(Debug, Clone, PartialEq)]
pub struct Wallet {
    pub secret_key: Vec<u8>,
    pub public_key: Vec<u8>,
}

impl View for Wallet {
    type V = WalletV;

    open spec fn view(&self) -> WalletV {
        WalletV { secret_key: self.secret_key@, public_key: self.public_key@ }
    }
}

/// The in-memory wallet collection, keyed by address in insertion order.
/// Lookup returns the earliest wallet stored under an address, so were two
/// distinct key pairs ever to collide on one address, the first would win.
#[derive(Debug)]
pub struct Wallets {
    pub wallets: Vec<(String, Wallet)>,
}

impl View for Wallets {
    type V = Seq<(Seq<char>, WalletV)>;

    open spec fn view(&self) -> Seq<(Seq<char>, WalletV)> {
        self.wallets@.map_values(|e: (String, Wallet)| (e.0@, e.1@))
    }
}

/// The first wallet stored under the given address, if any.
pub open spec fn wallet_lookup(ws: Seq<(Seq<char>, WalletV)>, address: Seq<char>) -> Option<
    WalletV,
>
    decreases ws.len(),
{
    if ws.len() == 0 {
        None
    } else if ws[0].0 == address {
        Some(ws[0].1)
    } else {
        wallet_lookup(ws.drop_first(), address)
    }
}

impl Wallet {
    /// Creates a wallet from a fresh random seed.
    fn new() -> (r: Wallet)
        ensures
            r@.secret_key.len() == 64,
            r@.public_key.len() == 32,
    {
        let seed = random_32();
        let (secret_key, public_key) = ed25519_keypair(&seed);
        Wallet { secret_key, public_key }
    }

    /// The textual address of this wallet: the encoding of its public-key
    /// hash. Decoding the address yields that 20-byte hash back.
    pub fn get_address(&self) -> (r: String)
        ensures
            r@ == addr_encode(pub_key_hash_of(self@.public_key)),
            crate::keys::addr_decode(r@) == Some(pub_key_hash_of(self@.public_key)),
    {
        let mut pub_hash = clone_bytes(&self.public_key);
        hash_pub_key_in_place(&mut pub_hash);
        encode_address(&pub_hash)
    }
}

impl Wallets {
    /// An empty collection; a front end fills it from persistent storage.
    pub fn new() -> (r: Result<Wallets, LedgerError>)
        ensures
            r matches Ok(w) && w@ == Seq::<(Seq<char>, WalletV)>::empty(),
    {
        let r = Wallets { wallets: Vec::new() };
        proof {
            assert(r@ =~= Seq::<(Seq<char>, WalletV)>::empty());
        }
        Ok(r)
    }

    /// Stores a wallet under an address, appending it to the collection.
    pub fn add_wallet(&mut self, address: String, wallet: Wallet)
        ensures
            final(self)@ == old(self)@.push((address@, wallet@)),
    {
        self.wallets.push((address, wallet));
        proof {
            assert(self@ =~= old(self)@.push(
                (self.wallets@.last().0@, self.wallets@.last().1@),
            ));
        }
    }

    /// Creates a wallet, stores it under its own address, and returns the
    /// address.
    pub fn create_wallet(&mut self) -> (r: String)
        ensures
            exists|w: WalletV|
                w.secret_key.len() == 64 && w.public_key.len() == 32 && r@ == addr_encode(
                    pub_key_hash_of(w.public_key),
                ) && crate::keys::addr_decode(r@) == Some(pub_key_hash_of(w.public_key))
                    && final(self)@ == old(self)@.push((r@, w)),
    {
        let wallet = Wallet::new();
        let address = wallet.get_address();
        let ghost wv = wallet@;
        self.add_wallet(clone_string(&address), wallet);
        proof {
            assert(wv.secret_key.len() == 64 && wv.public_key.len() == 32 && address@
                == addr_encode(pub_key_hash_of(wv.public_key)) && crate::keys::addr_decode(
                address@,
            ) == Some(pub_key_hash_of(wv.public_key)) && self@ == old(self)@.push(
                (address@, wv),
            ));
        }
        address
    }

    /// Every stored address, in insertion order.
    pub fn get_all_addresses(&self) -> (r: Vec<String>)
        ensures
            r@.map_values(|s: String| s@) == self@.map_values(
                |e: (Seq<char>, WalletV)| e.0,
            ),
    {
        let mut out: Vec<String> = Vec::new();
        let mut i: usize = 0;
        while i < self.wallets.len()
            invariant
                i <= self.wallets@.len(),
                out@.len() == i,
                forall|k: int| 0 <= k < i ==> (#[trigger] out@[k])@ == self@[k].0,
            decreases self.wallets@.len() - i,
        {
            out.push(clone_string(&self.wallets[i].0));
            i = i + 1;
        }
        proof {
            assert(out@.map_values(|s: String| s@) =~= self@.map_values(
                |e: (Seq<char>, WalletV)| e.0,
            ));
        }
        out
    }

    /// The first wallet stored under the address, if any.
    pub fn get_wallet(&self, address: &str) -> (r: Option<&Wallet>)
        ensures
            match r {
                Some(w) => wallet_lookup(self@, address@) == Some(w@),
                None => wallet_lookup(self@, address@) is None,
            },
    {
        let ghost ws = self@;
        let mut i: usize = 0;
        proof {
            assert(ws.skip(0) =~= ws);
        }
        while i < self.wallets.len()
            invariant
                i <= self.wallets@.len(),
                ws == self@,
                wallet_lookup(ws, address@) == wallet_lookup(ws.skip(i as int), address@),
            decreases self.wallets@.len() - i,
        {
            if str_eq(self.wallets[i].0.as_str(), address) {
                proof {
                    assert(ws.skip(i as int)[0] == ws[i as int]);
                }
                return Some(&self.wallets[i].1);
            }
            proof {
                assert(ws.skip(i as int)[0] == ws[i as int]);
                assert(ws.skip(i as int).drop_first() =~= ws.skip(i as int + 1));
            }
            i = i + 1;
        }
        proof {
            assert(ws.skip(ws.len() as int) =~= Seq::<(Seq<char>, WalletV)>::empty());
        }
        None
    }
}

} // verus!
