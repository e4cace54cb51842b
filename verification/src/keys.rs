use vstd::prelude::*;
use vstd::utf8::is_ascii_chars;

verus! {

/// The textual address that encodes a public-key hash, named but not
/// defined here: the encoding is done by the bitcoincash_addr crate.
pub uninterp spec fn addr_encode(hash: Seq<u8>) -> Seq<char>;

/// The payload bytes recovered from ASCII address text, or nothing when the
/// text is not a well-formed address; named but not defined here.
pub uninterp spec fn addr_decode_ascii(s: Seq<char>) -> Option<Seq<u8>>;

/// The payload bytes recovered from an address text, or nothing when the
/// text is not a well-formed address. Address text is base58, so text with
/// a non-ASCII character is never a well-formed address.
pub open spec fn addr_decode(s: Seq<char>) -> Option<Seq<u8>> {
    if is_ascii_chars(s) {
        addr_decode_ascii(s)
    } else {
        None
    }
}

/// The ed25519 signature over a message, named but not defined here:
/// the computation is done by the crypto crate and depends only on the
/// message and the secret key.
pub uninterp spec fn ed25519_sig(msg: Seq<char>, secret_key: Seq<u8>) -> Seq<u8>;

/// Relies on bitcoincash_addr::Base58Codec::encode with the Script hash type
/// on the main network: it deterministically renders one version byte, the
/// payload bytes and a four-byte checksum as base58 text and never fails.
/// The second clause relies on Base58Codec::decode as well: for a 20-byte
/// payload the encoded record is 25 bytes, which is exactly the length the
/// decoder demands before it strips the version byte and the checksum and
/// returns the payload unchanged.
#[verifier::external_body]
pub fn encode_address(hash: &Vec<u8>) -> (r: String)
    ensures
        r@ == addr_encode(hash@),
        hash@.len() == 20 ==> addr_decode(r@) == Some(hash@),
{
    let encoded = <bitcoincash_addr::Base58Codec as bitcoincash_addr::AddressCodec>::encode(
        hash,
        bitcoincash_addr::HashType::Script,
        bitcoincash_addr::Network::Main,
    );
    match encoded {
        Ok(s) => s,
        Err(_) => String::new(),
    }
}

/// Relies on bitcoincash_addr::Base58Codec::decode: a deterministic parse of
/// the address text that yields the payload bytes exactly when the text is a
/// well-formed base58-check address. Restricted to ASCII text: the decoder's
/// digit table holds 128 entries and a byte of exactly 128 would be indexed
/// out of bounds; every byte of ASCII text stays below that.
#[verifier::external_body]
fn decode_address_ascii(addr: &str) -> (r: Option<Vec<u8>>)
    requires
        is_ascii_chars(addr@),
    ensures
        match r {
            Some(v) => addr_decode_ascii(addr@) == Some(v@),
            None => addr_decode_ascii(addr@) is None,
        },
{
    match <bitcoincash_addr::Base58Codec as bitcoincash_addr::AddressCodec>::decode(addr) {
        Ok(a) => Some(a.body),
        Err(_) => None,
    }
}

/// Decodes an address to its payload bytes. Text with a non-ASCII character
/// is rejected outright, without consulting the codec.
pub fn decode_address(addr: &str) -> (r: Option<Vec<u8>>)
    ensures
        match r {
            Some(v) => addr_decode(addr@) == Some(v@),
            None => addr_decode(addr@) is None,
        },
{
    if addr.is_ascii() {
        decode_address_ascii(addr)
    } else {
        None
    }
}

/// Relies on crypto::ed25519::signature: a deterministic 64-byte signature
/// computed from the message bytes and the 64-byte expanded secret key alone.
#[verifier::external_body]
pub fn ed25519_sign(msg: &str, secret_key: &[u8]) -> (r: Vec<u8>)
    requires
        secret_key@.len() == 64,
    ensures
        r@ == ed25519_sig(msg@, secret_key@),
        r@.len() == 64,
{
    crypto::ed25519::signature(msg.as_bytes(), secret_key).to_vec()
}

/// Relies on crypto::ed25519::keypair: derives a 64-byte expanded secret key
/// and a 32-byte public key from a seed.
#[verifier::external_body]
pub fn ed25519_keypair(seed: &Vec<u8>) -> (r: (Vec<u8>, Vec<u8>))
    ensures
        r.0@.len() == 64,
        r.1@.len() == 32,
{
    let (sk, pk) = crypto::ed25519::keypair(seed);
    (sk.to_vec(), pk.to_vec())
}

/// Relies on rand::rngs::OsRng for operating-system randomness; nothing is
/// assumed about the bytes beyond their count.
#[verifier::external_body]
pub fn random_32() -> (r: Vec<u8>)
    ensures
        r@.len() == 32,
{
    let mut key = [0u8; 32];
    rand::RngCore::fill_bytes(&mut rand::rngs::OsRng, &mut key);
    key.to_vec()
}

} // verus!
