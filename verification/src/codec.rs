use vstd::prelude::*;
use vstd::slice::{slice_subrange, slice_to_vec};
use vstd::string::StringSliceAdditionalSpecFns;
use vstd::utf8::{decode_utf8, encode_utf8, encode_utf8_decode_utf8, encode_utf8_valid_utf8,
    valid_utf8};

use crate::block::{Block, BlockV};
use crate::errors::LedgerError;
use crate::transaction::{Transaction, TxV};
use crate::tx::{InV, OutV, TXInput, TXOutput, TXOutputs};

verus! {

/// Declares core::str::Utf8Error, which vstd does not specify, so that the
/// result of core::str::from_utf8 can be named.
#[verifier::external_type_specification]
#[verifier::external_body]
pub struct ExUtf8Error(core::str::Utf8Error);

/// Relies on core::str::from_utf8: succeeds exactly on valid UTF-8 and then
/// returns the text whose bytes are the input.
pub assume_specification[ core::str::from_utf8 ](v: &[u8]) -> (r: Result<
    &str,
    core::str::Utf8Error,
>)
    ensures
        r is Ok <==> valid_utf8(v@),
        r matches Ok(s) ==> s.spec_bytes() == v@,
;

// ---------------------------------------------------------------------------
// Encoding of the primitive fields: fixed-width little-endian integers,
// length-prefixed byte strings, and text as length-prefixed UTF-8.
// ---------------------------------------------------------------------------
pub open spec fn enc_u64(v: u64) -> Seq<u8> {
    seq![
        v as u8,
        (v >> 8) as u8,
        (v >> 16) as u8,
        (v >> 24) as u8,
        (v >> 32) as u8,
        (v >> 40) as u8,
        (v >> 48) as u8,
        (v >> 56) as u8,
    ]
}

pub open spec fn dec_u64(b: Seq<u8>) -> u64
    recommends
        b.len() == 8,
{
    (b[0] as u64) | ((b[1] as u64) << 8) | ((b[2] as u64) << 16) | ((b[3] as u64) << 24) | ((
    b[4] as u64) << 32) | ((b[5] as u64) << 40) | ((b[6] as u64) << 48) | ((b[7] as u64) << 56)
}

pub proof fn lemma_dec_enc_u64(v: u64)
    ensures
        dec_u64(enc_u64(v)) == v,
{
    assert((v as u8 as u64) | (((v >> 8) as u8 as u64) << 8) | (((v >> 16) as u8 as u64) << 16) | ((
    (v >> 24) as u8 as u64) << 24) | (((v >> 32) as u8 as u64) << 32) | (((v >> 40) as u8 as u64)
        << 40) | (((v >> 48) as u8 as u64) << 48) | (((v >> 56) as u8 as u64) << 56) == v)
        by (bit_vector);
}

pub open spec fn enc_u32(v: u32) -> Seq<u8> {
    seq![v as u8, (v >> 8) as u8, (v >> 16) as u8, (v >> 24) as u8]
}

pub open spec fn dec_u32(b: Seq<u8>) -> u32
    recommends
        b.len() == 4,
{
    (b[0] as u32) | ((b[1] as u32) << 8) | ((b[2] as u32) << 16) | ((b[3] as u32) << 24)
}

pub proof fn lemma_dec_enc_u32(v: u32)
    ensures
        dec_u32(enc_u32(v)) == v,
{
    assert((v as u8 as u32) | (((v >> 8) as u8 as u32) << 8) | (((v >> 16) as u8 as u32) << 16) | ((
    (v >> 24) as u8 as u32) << 24) == v) by (bit_vector);
}

pub open spec fn enc_i64(v: i64) -> Seq<u8> {
    enc_u64(v as u64)
}

pub open spec fn enc_i32(v: i32) -> Seq<u8> {
    enc_u32(v as u32)
}

pub open spec fn enc_bytes(s: Seq<u8>) -> Seq<u8> {
    enc_u64(s.len() as u64) + s
}

pub open spec fn enc_string(s: Seq<char>) -> Seq<u8> {
    enc_bytes(encode_utf8(s))
}

// ---------------------------------------------------------------------------
// The parsers, as specification functions. Each consumes from a position and
// yields the value and the next position, or nothing when the bytes do not
// carry a well-formed record.
// ---------------------------------------------------------------------------
pub open spec fn parse_u64(b: Seq<u8>, pos: int) -> Option<(u64, int)> {
    if 0 <= pos && pos + 8 <= b.len() {
        Some((dec_u64(b.subrange(pos, pos + 8)), pos + 8))
    } else {
        None
    }
}

pub open spec fn parse_i64(b: Seq<u8>, pos: int) -> Option<(i64, int)> {
    match parse_u64(b, pos) {
        Some((v, p)) => Some((v as i64, p)),
        None => None,
    }
}

pub open spec fn parse_u32(b: Seq<u8>, pos: int) -> Option<(u32, int)> {
    if 0 <= pos && pos + 4 <= b.len() {
        Some((dec_u32(b.subrange(pos, pos + 4)), pos + 4))
    } else {
        None
    }
}

pub open spec fn parse_i32(b: Seq<u8>, pos: int) -> Option<(i32, int)> {
    match parse_u32(b, pos) {
        Some((v, p)) => Some((v as i32, p)),
        None => None,
    }
}

pub open spec fn parse_bytes(b: Seq<u8>, pos: int) -> Option<(Seq<u8>, int)> {
    match parse_u64(b, pos) {
        Some((n, p)) => if p + n <= b.len() {
            Some((b.subrange(p, p + n), p + n))
        } else {
            None
        },
        None => None,
    }
}

pub open spec fn parse_string(b: Seq<u8>, pos: int) -> Option<(Seq<char>, int)> {
    match parse_bytes(b, pos) {
        Some((bs, p)) => if valid_utf8(bs) {
            Some((decode_utf8(bs), p))
        } else {
            None
        },
        None => None,
    }
}

// ---------------------------------------------------------------------------
// Round-trip lemmas for the primitives: a parse at a position holding an
// encoding recovers the encoded value.
// ---------------------------------------------------------------------------
pub proof fn lemma_split(b: Seq<u8>, pos: int, e1: Seq<u8>, e2: Seq<u8>)
    requires
        0 <= pos,
        pos + e1.len() + e2.len() <= b.len(),
        b.subrange(pos, pos + e1.len() + e2.len()) == e1 + e2,
    ensures
        b.subrange(pos, pos + e1.len()) == e1,
        b.subrange(pos + e1.len(), pos + e1.len() + e2.len()) == e2,
{
    let l1 = e1.len() as int;
    let l2 = e2.len() as int;
    assert forall|k: int| 0 <= k < l1 implies b.subrange(pos, pos + l1)[k] == e1[k] by {
        assert(b.subrange(pos, pos + l1 + l2)[k] == (e1 + e2)[k]);
    }
    assert(b.subrange(pos, pos + l1) =~= e1);
    assert forall|k: int| 0 <= k < l2 implies b.subrange(pos + l1, pos + l1 + l2)[k] == e2[k] by {
        assert(b.subrange(pos, pos + l1 + l2)[k + l1] == (e1 + e2)[k + l1]);
    }
    assert(b.subrange(pos + l1, pos + l1 + l2) =~= e2);
}

pub proof fn lemma_parse_u64(v: u64, b: Seq<u8>, pos: int)
    requires
        0 <= pos,
        pos + 8 <= b.len(),
        b.subrange(pos, pos + 8) == enc_u64(v),
    ensures
        parse_u64(b, pos) == Some((v, pos + 8)),
{
    lemma_dec_enc_u64(v);
}

pub proof fn lemma_parse_i64(v: i64, b: Seq<u8>, pos: int)
    requires
        0 <= pos,
        pos + 8 <= b.len(),
        b.subrange(pos, pos + 8) == enc_i64(v),
    ensures
        parse_i64(b, pos) == Some((v, pos + 8)),
{
    lemma_parse_u64(v as u64, b, pos);
    assert((v as u64) as i64 == v) by (bit_vector);
}

pub proof fn lemma_parse_u32(v: u32, b: Seq<u8>, pos: int)
    requires
        0 <= pos,
        pos + 4 <= b.len(),
        b.subrange(pos, pos + 4) == enc_u32(v),
    ensures
        parse_u32(b, pos) == Some((v, pos + 4)),
{
    lemma_dec_enc_u32(v);
}

pub proof fn lemma_parse_i32(v: i32, b: Seq<u8>, pos: int)
    requires
        0 <= pos,
        pos + 4 <= b.len(),
        b.subrange(pos, pos + 4) == enc_i32(v),
    ensures
        parse_i32(b, pos) == Some((v, pos + 4)),
{
    lemma_parse_u32(v as u32, b, pos);
    assert((v as u32) as i32 == v) by (bit_vector);
}

/// Whether a length fits the 64-bit prefix that the encoding stores.
pub open spec fn fits(n: nat) -> bool {
    n <= u64::MAX
}

pub proof fn lemma_parse_bytes(s: Seq<u8>, b: Seq<u8>, pos: int)
    requires
        fits(s.len()),
        0 <= pos,
        pos + enc_bytes(s).len() <= b.len(),
        b.subrange(pos, pos + enc_bytes(s).len()) == enc_bytes(s),
    ensures
        parse_bytes(b, pos) == Some((s, pos + enc_bytes(s).len())),
{
    let n = s.len() as u64;
    lemma_split(b, pos, enc_u64(n), s);
    lemma_parse_u64(n, b, pos);
    assert(b.subrange(pos + 8, pos + 8 + s.len()) == s);
}

pub proof fn lemma_parse_string(s: Seq<char>, b: Seq<u8>, pos: int)
    requires
        fits(encode_utf8(s).len()),
        0 <= pos,
        pos + enc_string(s).len() <= b.len(),
        b.subrange(pos, pos + enc_string(s).len()) == enc_string(s),
    ensures
        parse_string(b, pos) == Some((s, pos + enc_string(s).len())),
{
    lemma_parse_bytes(encode_utf8(s), b, pos);
    encode_utf8_valid_utf8(s);
    encode_utf8_decode_utf8(s);
}

// ---------------------------------------------------------------------------
// Executable writers. Each appends the encoding of one value to the buffer.
// ---------------------------------------------------------------------------
pub fn write_u64(out: &mut Vec<u8>, v: u64)
    ensures
        final(out)@ == old(out)@ + enc_u64(v),
{
    out.push(#[verifier::truncate] (v as u8));
    out.push(#[verifier::truncate] ((v >> 8) as u8));
    out.push(#[verifier::truncate] ((v >> 16) as u8));
    out.push(#[verifier::truncate] ((v >> 24) as u8));
    out.push(#[verifier::truncate] ((v >> 32) as u8));
    out.push(#[verifier::truncate] ((v >> 40) as u8));
    out.push(#[verifier::truncate] ((v >> 48) as u8));
    out.push(#[verifier::truncate] ((v >> 56) as u8));
    proof {
        assert(out@ =~= old(out)@ + enc_u64(v));
    }
}

pub fn write_u32(out: &mut Vec<u8>, v: u32)
    ensures
        final(out)@ == old(out)@ + enc_u32(v),
{
    out.push(#[verifier::truncate] (v as u8));
    out.push(#[verifier::truncate] ((v >> 8) as u8));
    out.push(#[verifier::truncate] ((v >> 16) as u8));
    out.push(#[verifier::truncate] ((v >> 24) as u8));
    proof {
        assert(out@ =~= old(out)@ + enc_u32(v));
    }
}

pub fn write_i64(out: &mut Vec<u8>, v: i64)
    ensures
        final(out)@ == old(out)@ + enc_i64(v),
{
    write_u64(out, #[verifier::truncate] (v as u64));
}

pub fn write_i32(out: &mut Vec<u8>, v: i32)
    ensures
        final(out)@ == old(out)@ + enc_i32(v),
{
    write_u32(out, #[verifier::truncate] (v as u32));
}

fn append_bytes(out: &mut Vec<u8>, data: &[u8])
    ensures
        final(out)@ == old(out)@ + data@,
{
    let mut i: usize = 0;
    while i < data.len()
        invariant
            i <= data@.len(),
            out@ == old(out)@ + data@.take(i as int),
        decreases data@.len() - i,
    {
        out.push(data[i]);
        proof {
            assert(old(out)@ + data@.take(i as int + 1) =~= (old(out)@ + data@.take(i as int)).push(
                data@[i as int],
            ));
        }
        i = i + 1;
    }
    proof {
        assert(data@.take(data@.len() as int) =~= data@);
    }
}

pub fn write_bytes(out: &mut Vec<u8>, data: &[u8])
    ensures
        final(out)@ == old(out)@ + enc_bytes(data@),
{
    write_u64(out, data.len() as u64);
    append_bytes(out, data);
    proof {
        assert(out@ =~= old(out)@ + enc_bytes(data@));
    }
}

pub fn write_string(out: &mut Vec<u8>, s: &str)
    ensures
        final(out)@ == old(out)@ + enc_string(s@),
{
    write_bytes(out, s.as_bytes());
}

// ---------------------------------------------------------------------------
// Executable readers. Each reader returns exactly what the parser of the same
// record yields, so every use of a reader is pinned to the parser.
// ---------------------------------------------------------------------------
pub fn read_u64(b: &[u8], pos: usize) -> (r: Option<(u64, usize)>)
    requires
        pos <= b@.len(),
    ensures
        match r {
            Some(p) => parse_u64(b@, pos as int) == Some((p.0, p.1 as int)) && p.1 <= b@.len(),
            None => parse_u64(b@, pos as int) is None,
        },
{
    if b.len() - pos >= 8 {
        let v: u64 = (b[pos] as u64) | ((b[pos + 1] as u64) << 8u64) | ((b[pos + 2] as u64)
            << 16u64) | ((b[pos + 3] as u64) << 24u64) | ((b[pos + 4] as u64) << 32u64) | ((b[pos
            + 5] as u64) << 40u64) | ((b[pos + 6] as u64) << 48u64) | ((b[pos + 7] as u64)
            << 56u64);
        proof {
            let s = b@.subrange(pos as int, pos as int + 8);
            assert(s[0] == b@[pos as int] && s[1] == b@[pos as int + 1] && s[2] == b@[pos as int
                + 2] && s[3] == b@[pos as int + 3] && s[4] == b@[pos as int + 4] && s[5]
                == b@[pos as int + 5] && s[6] == b@[pos as int + 6] && s[7] == b@[pos as int + 7]);
        }
        Some((v, pos + 8))
    } else {
        None
    }
}

pub fn read_i64(b: &[u8], pos: usize) -> (r: Option<(i64, usize)>)
    requires
        pos <= b@.len(),
    ensures
        match r {
            Some(p) => parse_i64(b@, pos as int) == Some((p.0, p.1 as int)) && p.1 <= b@.len(),
            None => parse_i64(b@, pos as int) is None,
        },
{
    match read_u64(b, pos) {
        Some((v, p)) => Some((#[verifier::truncate] (v as i64), p)),
        None => None,
    }
}

pub fn read_u32(b: &[u8], pos: usize) -> (r: Option<(u32, usize)>)
    requires
        pos <= b@.len(),
    ensures
        match r {
            Some(p) => parse_u32(b@, pos as int) == Some((p.0, p.1 as int)) && p.1 <= b@.len(),
            None => parse_u32(b@, pos as int) is None,
        },
{
    if b.len() - pos >= 4 {
        let v: u32 = (b[pos] as u32) | ((b[pos + 1] as u32) << 8u32) | ((b[pos + 2] as u32)
            << 16u32) | ((b[pos + 3] as u32) << 24u32);
        proof {
            let s = b@.subrange(pos as int, pos as int + 4);
            assert(s[0] == b@[pos as int] && s[1] == b@[pos as int + 1] && s[2] == b@[pos as int
                + 2] && s[3] == b@[pos as int + 3]);
        }
        Some((v, pos + 4))
    } else {
        None
    }
}

pub fn read_i32(b: &[u8], pos: usize) -> (r: Option<(i32, usize)>)
    requires
        pos <= b@.len(),
    ensures
        match r {
            Some(p) => parse_i32(b@, pos as int) == Some((p.0, p.1 as int)) && p.1 <= b@.len(),
            None => parse_i32(b@, pos as int) is None,
        },
{
    match read_u32(b, pos) {
        Some((v, p)) => Some((#[verifier::truncate] (v as i32), p)),
        None => None,
    }
}

pub fn read_bytes(b: &[u8], pos: usize) -> (r: Option<(Vec<u8>, usize)>)
    requires
        pos <= b@.len(),
    ensures
        match r {
            Some(p) => parse_bytes(b@, pos as int) == Some((p.0@, p.1 as int)) && p.1 <= b@.len(),
            None => parse_bytes(b@, pos as int) is None,
        },
{
    match read_u64(b, pos) {
        Some((n, p)) => {
            if n <= (b.len() - p) as u64 {
                let n_us = n as usize;
                let sl = slice_subrange(b, p, p + n_us);
                let v = slice_to_vec(sl);
                Some((v, p + n_us))
            } else {
                None
            }
        },
        None => None,
    }
}

// ---------------------------------------------------------------------------
// Encoding of outputs, inputs, transactions and blocks. Lists are written as
// a 64-bit count followed by the elements in order. The field order is part
// of every hash pre-image and must never change.
// ---------------------------------------------------------------------------
pub open spec fn enc_output(o: OutV) -> Seq<u8> {
    enc_i32(o.value) + enc_bytes(o.pub_key_hash)
}

pub open spec fn enc_outs(s: Seq<OutV>) -> Seq<u8>
    decreases s.len(),
{
    if s.len() == 0 {
        Seq::empty()
    } else {
        enc_outs(s.drop_last()) + enc_output(s.last())
    }
}

pub open spec fn enc_out_list(s: Seq<OutV>) -> Seq<u8> {
    enc_u64(s.len() as u64) + enc_outs(s)
}

pub open spec fn enc_input(i: InV) -> Seq<u8> {
    enc_string(i.txid) + (enc_i32(i.vout) + (enc_bytes(i.signature) + enc_bytes(i.pub_key)))
}

pub open spec fn enc_ins(s: Seq<InV>) -> Seq<u8>
    decreases s.len(),
{
    if s.len() == 0 {
        Seq::empty()
    } else {
        enc_ins(s.drop_last()) + enc_input(s.last())
    }
}

pub open spec fn enc_in_list(s: Seq<InV>) -> Seq<u8> {
    enc_u64(s.len() as u64) + enc_ins(s)
}

pub open spec fn enc_tx(t: TxV) -> Seq<u8> {
    enc_string(t.id) + (enc_in_list(t.vin) + enc_out_list(t.vout))
}

pub open spec fn enc_txs(s: Seq<TxV>) -> Seq<u8>
    decreases s.len(),
{
    if s.len() == 0 {
        Seq::empty()
    } else {
        enc_txs(s.drop_last()) + enc_tx(s.last())
    }
}

pub open spec fn enc_tx_list(s: Seq<TxV>) -> Seq<u8> {
    enc_u64(s.len() as u64) + enc_txs(s)
}

pub open spec fn enc_block(b: BlockV) -> Seq<u8> {
    enc_i64(b.timestamp) + (enc_tx_list(b.transactions) + (enc_string(b.prev_block_hash) + (
    enc_string(b.hash) + (enc_i32(b.nonce) + enc_u64(b.height as u64)))))
}

/// The pre-image of a block's proof-of-work hash: previous hash, merkle root,
/// timestamp, difficulty target and nonce, in this fixed order.
pub open spec fn enc_header(
    prev: Seq<char>,
    merkle: Seq<u8>,
    timestamp: i64,
    target: u64,
    nonce: i32,
) -> Seq<u8> {
    enc_string(prev) + (enc_bytes(merkle) + (enc_i64(timestamp) + (enc_u64(target) + enc_i32(
        nonce,
    ))))
}

// ---------------------------------------------------------------------------
// Well-formedness of the models with respect to the machine limits that the
// encoding's length prefixes impose. Every value built by executable code
// satisfies these.
// ---------------------------------------------------------------------------
pub open spec fn out_ok(o: OutV) -> bool {
    fits(o.pub_key_hash.len())
}

pub open spec fn outs_ok(s: Seq<OutV>) -> bool {
    &&& s.len() <= usize::MAX
    &&& forall|k: int| 0 <= k < s.len() ==> out_ok(#[trigger] s[k])
}

pub open spec fn in_ok(i: InV) -> bool {
    &&& fits(encode_utf8(i.txid).len())
    &&& fits(i.signature.len())
    &&& fits(i.pub_key.len())
}

pub open spec fn ins_ok(s: Seq<InV>) -> bool {
    &&& s.len() <= usize::MAX
    &&& forall|k: int| 0 <= k < s.len() ==> in_ok(#[trigger] s[k])
}

pub open spec fn tx_ok(t: TxV) -> bool {
    &&& fits(encode_utf8(t.id).len())
    &&& ins_ok(t.vin)
    &&& outs_ok(t.vout)
}

pub open spec fn txs_ok(s: Seq<TxV>) -> bool {
    &&& s.len() <= usize::MAX
    &&& forall|k: int| 0 <= k < s.len() ==> tx_ok(#[trigger] s[k])
}

pub open spec fn block_ok(b: BlockV) -> bool {
    &&& txs_ok(b.transactions)
    &&& fits(encode_utf8(b.prev_block_hash).len())
    &&& fits(encode_utf8(b.hash).len())
}

// ---------------------------------------------------------------------------
// The structured parsers.
// ---------------------------------------------------------------------------
pub open spec fn parse_output(b: Seq<u8>, pos: int) -> Option<(OutV, int)> {
    match parse_i32(b, pos) {
        Some((value, p1)) => match parse_bytes(b, p1) {
            Some((pub_key_hash, p2)) => Some((OutV { value, pub_key_hash }, p2)),
            None => None,
        },
        None => None,
    }
}

pub open spec fn parse_outs(b: Seq<u8>, pos: int, n: nat) -> Option<(Seq<OutV>, int)>
    decreases n,
{
    if n == 0 {
        Some((Seq::empty(), pos))
    } else {
        match parse_outs(b, pos, (n - 1) as nat) {
            Some((s, p)) => match parse_output(b, p) {
                Some((o, p2)) => Some((s.push(o), p2)),
                None => None,
            },
            None => None,
        }
    }
}

pub open spec fn parse_out_list(b: Seq<u8>, pos: int) -> Option<(Seq<OutV>, int)> {
    match parse_u64(b, pos) {
        Some((n, p)) => if n <= usize::MAX as u64 {
            parse_outs(b, p, n as nat)
        } else {
            None
        },
        None => None,
    }
}

pub open spec fn parse_input(b: Seq<u8>, pos: int) -> Option<(InV, int)> {
    match parse_string(b, pos) {
        Some((txid, p1)) => match parse_i32(b, p1) {
            Some((vout, p2)) => match parse_bytes(b, p2) {
                Some((signature, p3)) => match parse_bytes(b, p3) {
                    Some((pub_key, p4)) => Some((InV { txid, vout, signature, pub_key }, p4)),
                    None => None,
                },
                None => None,
            },
            None => None,
        },
        None => None,
    }
}

pub open spec fn parse_ins(b: Seq<u8>, pos: int, n: nat) -> Option<(Seq<InV>, int)>
    decreases n,
{
    if n == 0 {
        Some((Seq::empty(), pos))
    } else {
        match parse_ins(b, pos, (n - 1) as nat) {
            Some((s, p)) => match parse_input(b, p) {
                Some((o, p2)) => Some((s.push(o), p2)),
                None => None,
            },
            None => None,
        }
    }
}

pub open spec fn parse_in_list(b: Seq<u8>, pos: int) -> Option<(Seq<InV>, int)> {
    match parse_u64(b, pos) {
        Some((n, p)) => if n <= usize::MAX as u64 {
            parse_ins(b, p, n as nat)
        } else {
            None
        },
        None => None,
    }
}

pub open spec fn parse_tx(b: Seq<u8>, pos: int) -> Option<(TxV, int)> {
    match parse_string(b, pos) {
        Some((id, p1)) => match parse_in_list(b, p1) {
            Some((vin, p2)) => match parse_out_list(b, p2) {
                Some((vout, p3)) => Some((TxV { id, vin, vout }, p3)),
                None => None,
            },
            None => None,
        },
        None => None,
    }
}

pub open spec fn parse_txs(b: Seq<u8>, pos: int, n: nat) -> Option<(Seq<TxV>, int)>
    decreases n,
{
    if n == 0 {
        Some((Seq::empty(), pos))
    } else {
        match parse_txs(b, pos, (n - 1) as nat) {
            Some((s, p)) => match parse_tx(b, p) {
                Some((o, p2)) => Some((s.push(o), p2)),
                None => None,
            },
            None => None,
        }
    }
}

pub open spec fn parse_tx_list(b: Seq<u8>, pos: int) -> Option<(Seq<TxV>, int)> {
    match parse_u64(b, pos) {
        Some((n, p)) => if n <= usize::MAX as u64 {
            parse_txs(b, p, n as nat)
        } else {
            None
        },
        None => None,
    }
}

pub open spec fn parse_block(b: Seq<u8>, pos: int) -> Option<(BlockV, int)> {
    match parse_i64(b, pos) {
        Some((timestamp, p1)) => match parse_tx_list(b, p1) {
            Some((transactions, p2)) => match parse_string(b, p2) {
                Some((prev_block_hash, p3)) => match parse_string(b, p3) {
                    Some((hash, p4)) => match parse_i32(b, p4) {
                        Some((nonce, p5)) => match parse_u64(b, p5) {
                            Some((h, p6)) => if h <= usize::MAX as u64 {
                                Some(
                                    (
                                        BlockV {
                                            timestamp,
                                            transactions,
                                            prev_block_hash,
                                            hash,
                                            nonce,
                                            height: h as usize,
                                        },
                                        p6,
                                    ),
                                )
                            } else {
                                None
                            },
                            None => None,
                        },
                        None => None,
                    },
                    None => None,
                },
                None => None,
            },
            None => None,
        },
        None => None,
    }
}

// ---------------------------------------------------------------------------
// Round-trip lemmas for the structured records.
// ---------------------------------------------------------------------------
pub proof fn lemma_parse_output(o: OutV, b: Seq<u8>, pos: int)
    requires
        out_ok(o),
        0 <= pos,
        pos + enc_output(o).len() <= b.len(),
        b.subrange(pos, pos + enc_output(o).len()) == enc_output(o),
    ensures
        parse_output(b, pos) == Some((o, pos + enc_output(o).len())),
{
    let e1 = enc_i32(o.value);
    let e2 = enc_bytes(o.pub_key_hash);
    lemma_split(b, pos, e1, e2);
    lemma_parse_i32(o.value, b, pos);
    lemma_parse_bytes(o.pub_key_hash, b, pos + e1.len());
}

pub proof fn lemma_parse_outs(s: Seq<OutV>, b: Seq<u8>, pos: int)
    requires
        outs_ok(s),
        0 <= pos,
        pos + enc_outs(s).len() <= b.len(),
        b.subrange(pos, pos + enc_outs(s).len()) == enc_outs(s),
    ensures
        parse_outs(b, pos, s.len()) == Some((s, pos + enc_outs(s).len())),
    decreases s.len(),
{
    if s.len() == 0 {
        assert(parse_outs(b, pos, 0) == Some((Seq::<OutV>::empty(), pos)));
        assert(Seq::<OutV>::empty() =~= s);
    } else {
        let front = s.drop_last();
        let e1 = enc_outs(front);
        let e2 = enc_output(s.last());
        lemma_split(b, pos, e1, e2);
        assert(outs_ok(front)) by {
            assert(forall|k: int| 0 <= k < front.len() ==> front[k] == s[k]);
        }
        lemma_parse_outs(front, b, pos);
        lemma_parse_output(s.last(), b, pos + e1.len());
        assert(front.push(s.last()) =~= s);
    }
}

pub proof fn lemma_parse_out_list(s: Seq<OutV>, b: Seq<u8>, pos: int)
    requires
        outs_ok(s),
        0 <= pos,
        pos + enc_out_list(s).len() <= b.len(),
        b.subrange(pos, pos + enc_out_list(s).len()) == enc_out_list(s),
    ensures
        parse_out_list(b, pos) == Some((s, pos + enc_out_list(s).len())),
{
    let n = s.len() as u64;
    lemma_split(b, pos, enc_u64(n), enc_outs(s));
    lemma_parse_u64(n, b, pos);
    lemma_parse_outs(s, b, pos + 8);
}

pub proof fn lemma_parse_input(i: InV, b: Seq<u8>, pos: int)
    requires
        in_ok(i),
        0 <= pos,
        pos + enc_input(i).len() <= b.len(),
        b.subrange(pos, pos + enc_input(i).len()) == enc_input(i),
    ensures
        parse_input(b, pos) == Some((i, pos + enc_input(i).len())),
{
    let e1 = enc_string(i.txid);
    let e2 = enc_i32(i.vout);
    let e3 = enc_bytes(i.signature);
    let e4 = enc_bytes(i.pub_key);
    lemma_split(b, pos, e1, e2 + (e3 + e4));
    let p1 = pos + e1.len();
    lemma_split(b, p1, e2, e3 + e4);
    let p2 = p1 + e2.len();
    lemma_split(b, p2, e3, e4);
    let p3 = p2 + e3.len();
    lemma_parse_string(i.txid, b, pos);
    lemma_parse_i32(i.vout, b, p1);
    lemma_parse_bytes(i.signature, b, p2);
    lemma_parse_bytes(i.pub_key, b, p3);
}

pub proof fn lemma_parse_ins(s: Seq<InV>, b: Seq<u8>, pos: int)
    requires
        ins_ok(s),
        0 <= pos,
        pos + enc_ins(s).len() <= b.len(),
        b.subrange(pos, pos + enc_ins(s).len()) == enc_ins(s),
    ensures
        parse_ins(b, pos, s.len()) == Some((s, pos + enc_ins(s).len())),
    decreases s.len(),
{
    if s.len() == 0 {
        assert(Seq::<InV>::empty() =~= s);
    } else {
        let front = s.drop_last();
        let e1 = enc_ins(front);
        let e2 = enc_input(s.last());
        lemma_split(b, pos, e1, e2);
        assert(ins_ok(front)) by {
            assert(forall|k: int| 0 <= k < front.len() ==> front[k] == s[k]);
        }
        lemma_parse_ins(front, b, pos);
        lemma_parse_input(s.last(), b, pos + e1.len());
        assert(front.push(s.last()) =~= s);
    }
}

pub proof fn lemma_parse_in_list(s: Seq<InV>, b: Seq<u8>, pos: int)
    requires
        ins_ok(s),
        0 <= pos,
        pos + enc_in_list(s).len() <= b.len(),
        b.subrange(pos, pos + enc_in_list(s).len()) == enc_in_list(s),
    ensures
        parse_in_list(b, pos) == Some((s, pos + enc_in_list(s).len())),
{
    let n = s.len() as u64;
    lemma_split(b, pos, enc_u64(n), enc_ins(s));
    lemma_parse_u64(n, b, pos);
    lemma_parse_ins(s, b, pos + 8);
}

pub proof fn lemma_parse_tx(t: TxV, b: Seq<u8>, pos: int)
    requires
        tx_ok(t),
        0 <= pos,
        pos + enc_tx(t).len() <= b.len(),
        b.subrange(pos, pos + enc_tx(t).len()) == enc_tx(t),
    ensures
        parse_tx(b, pos) == Some((t, pos + enc_tx(t).len())),
{
    let e1 = enc_string(t.id);
    let e2 = enc_in_list(t.vin);
    let e3 = enc_out_list(t.vout);
    lemma_split(b, pos, e1, e2 + e3);
    let p1 = pos + e1.len();
    lemma_split(b, p1, e2, e3);
    let p2 = p1 + e2.len();
    lemma_parse_string(t.id, b, pos);
    lemma_parse_in_list(t.vin, b, p1);
    lemma_parse_out_list(t.vout, b, p2);
}

pub proof fn lemma_parse_txs(s: Seq<TxV>, b: Seq<u8>, pos: int)
    requires
        txs_ok(s),
        0 <= pos,
        pos + enc_txs(s).len() <= b.len(),
        b.subrange(pos, pos + enc_txs(s).len()) == enc_txs(s),
    ensures
        parse_txs(b, pos, s.len()) == Some((s, pos + enc_txs(s).len())),
    decreases s.len(),
{
    if s.len() == 0 {
        assert(Seq::<TxV>::empty() =~= s);
    } else {
        let front = s.drop_last();
        let e1 = enc_txs(front);
        let e2 = enc_tx(s.last());
        lemma_split(b, pos, e1, e2);
        assert(txs_ok(front)) by {
            assert(forall|k: int| 0 <= k < front.len() ==> front[k] == s[k]);
        }
        lemma_parse_txs(front, b, pos);
        lemma_parse_tx(s.last(), b, pos + e1.len());
        assert(front.push(s.last()) =~= s);
    }
}

pub proof fn lemma_parse_tx_list(s: Seq<TxV>, b: Seq<u8>, pos: int)
    requires
        txs_ok(s),
        0 <= pos,
        pos + enc_tx_list(s).len() <= b.len(),
        b.subrange(pos, pos + enc_tx_list(s).len()) == enc_tx_list(s),
    ensures
        parse_tx_list(b, pos) == Some((s, pos + enc_tx_list(s).len())),
{
    let n = s.len() as u64;
    lemma_split(b, pos, enc_u64(n), enc_txs(s));
    lemma_parse_u64(n, b, pos);
    lemma_parse_txs(s, b, pos + 8);
}

#[verifier::rlimit(30)]
pub proof fn lemma_parse_block(v: BlockV, b: Seq<u8>, pos: int)
    requires
        block_ok(v),
        0 <= pos,
        pos + enc_block(v).len() <= b.len(),
        b.subrange(pos, pos + enc_block(v).len()) == enc_block(v),
    ensures
        parse_block(b, pos) == Some((v, pos + enc_block(v).len())),
{
    let e1 = enc_i64(v.timestamp);
    let e2 = enc_tx_list(v.transactions);
    let e3 = enc_string(v.prev_block_hash);
    let e4 = enc_string(v.hash);
    let e5 = enc_i32(v.nonce);
    let e6 = enc_u64(v.height as u64);
    lemma_split(b, pos, e1, e2 + (e3 + (e4 + (e5 + e6))));
    let p1 = pos + e1.len();
    lemma_split(b, p1, e2, e3 + (e4 + (e5 + e6)));
    let p2 = p1 + e2.len();
    lemma_split(b, p2, e3, e4 + (e5 + e6));
    let p3 = p2 + e3.len();
    lemma_split(b, p3, e4, e5 + e6);
    let p4 = p3 + e4.len();
    lemma_split(b, p4, e5, e6);
    let p5 = p4 + e5.len();
    lemma_parse_i64(v.timestamp, b, pos);
    lemma_parse_tx_list(v.transactions, b, p1);
    lemma_parse_string(v.prev_block_hash, b, p2);
    lemma_parse_string(v.hash, b, p3);
    lemma_parse_i32(v.nonce, b, p4);
    lemma_parse_u64(v.height as u64, b, p5);
    assert((v.height as u64) as usize == v.height);
}

// ---------------------------------------------------------------------------
// None at a shorter count propagates to every longer count; the readers use
// this when an element fails to parse mid-list.
// ---------------------------------------------------------------------------
pub proof fn lemma_parse_outs_none(b: Seq<u8>, pos: int, k: nat, n: nat)
    requires
        k <= n,
        parse_outs(b, pos, k) is None,
    ensures
        parse_outs(b, pos, n) is None,
    decreases n,
{
    if n > k {
        lemma_parse_outs_none(b, pos, k, (n - 1) as nat);
    }
}

pub proof fn lemma_parse_ins_none(b: Seq<u8>, pos: int, k: nat, n: nat)
    requires
        k <= n,
        parse_ins(b, pos, k) is None,
    ensures
        parse_ins(b, pos, n) is None,
    decreases n,
{
    if n > k {
        lemma_parse_ins_none(b, pos, k, (n - 1) as nat);
    }
}

pub proof fn lemma_parse_txs_none(b: Seq<u8>, pos: int, k: nat, n: nat)
    requires
        k <= n,
        parse_txs(b, pos, k) is None,
    ensures
        parse_txs(b, pos, n) is None,
    decreases n,
{
    if n > k {
        lemma_parse_txs_none(b, pos, k, (n - 1) as nat);
    }
}

pub fn read_string(b: &[u8], pos: usize) -> (r: Option<(String, usize)>)
    requires
        pos <= b@.len(),
    ensures
        match r {
            Some(p) => parse_string(b@, pos as int) == Some((p.0@, p.1 as int)) && p.1 <= b@.len(),
            None => parse_string(b@, pos as int) is None,
        },
{
    match read_bytes(b, pos) {
        Some((bs, p)) => match core::str::from_utf8(bs.as_slice()) {
            Ok(st) => {
                let owned = st.to_owned();
                proof {
                    encode_utf8_decode_utf8(st@);
                }
                Some((owned, p))
            },
            Err(_) => None,
        },
        None => None,
    }
}

// ---------------------------------------------------------------------------
// Executable writers for the structured records.
// ---------------------------------------------------------------------------
pub fn write_output(out: &mut Vec<u8>, o: &TXOutput)
    ensures
        final(out)@ == old(out)@ + enc_output(o@),
{
    write_i32(out, o.value);
    write_bytes(out, o.pub_key_hash.as_slice());
    proof {
        assert(out@ =~= old(out)@ + enc_output(o@));
    }
}

pub fn write_out_list(out: &mut Vec<u8>, s: &Vec<TXOutput>)
    ensures
        final(out)@ == old(out)@ + enc_out_list(s@.map_values(|x: TXOutput| x@)),
{
    let ghost sv = s@.map_values(|x: TXOutput| x@);
    write_u64(out, s.len() as u64);
    proof {
        assert(enc_outs(sv.take(0)) == Seq::<u8>::empty());
        assert(out@ =~= old(out)@ + (enc_u64(sv.len() as u64) + enc_outs(sv.take(0))));
    }
    let mut i: usize = 0;
    while i < s.len()
        invariant
            i <= s@.len(),
            sv == s@.map_values(|x: TXOutput| x@),
            sv.len() == s@.len(),
            out@ == old(out)@ + (enc_u64(sv.len() as u64) + enc_outs(sv.take(i as int))),
        decreases s@.len() - i,
    {
        write_output(out, &s[i]);
        proof {
            assert(sv.take(i as int + 1).drop_last() =~= sv.take(i as int));
            assert(sv.take(i as int + 1).last() == sv[i as int]);
            assert(enc_outs(sv.take(i as int + 1)) == enc_outs(sv.take(i as int)) + enc_output(
                sv[i as int],
            ));
            assert(out@ =~= old(out)@ + (enc_u64(sv.len() as u64) + enc_outs(
                sv.take(i as int + 1),
            )));
        }
        i = i + 1;
    }
    proof {
        assert(sv.take(sv.len() as int) =~= sv);
    }
}

pub fn write_input(out: &mut Vec<u8>, i: &TXInput)
    ensures
        final(out)@ == old(out)@ + enc_input(i@),
{
    write_string(out, i.txid.as_str());
    write_i32(out, i.vout);
    write_bytes(out, i.signature.as_slice());
    write_bytes(out, i.pub_key.as_slice());
    proof {
        assert(out@ =~= old(out)@ + enc_input(i@));
    }
}

pub fn write_in_list(out: &mut Vec<u8>, s: &Vec<TXInput>)
    ensures
        final(out)@ == old(out)@ + enc_in_list(s@.map_values(|x: TXInput| x@)),
{
    let ghost sv = s@.map_values(|x: TXInput| x@);
    write_u64(out, s.len() as u64);
    proof {
        assert(enc_ins(sv.take(0)) == Seq::<u8>::empty());
        assert(out@ =~= old(out)@ + (enc_u64(sv.len() as u64) + enc_ins(sv.take(0))));
    }
    let mut i: usize = 0;
    while i < s.len()
        invariant
            i <= s@.len(),
            sv == s@.map_values(|x: TXInput| x@),
            sv.len() == s@.len(),
            out@ == old(out)@ + (enc_u64(sv.len() as u64) + enc_ins(sv.take(i as int))),
        decreases s@.len() - i,
    {
        write_input(out, &s[i]);
        proof {
            assert(sv.take(i as int + 1).drop_last() =~= sv.take(i as int));
            assert(sv.take(i as int + 1).last() == sv[i as int]);
            assert(enc_ins(sv.take(i as int + 1)) == enc_ins(sv.take(i as int)) + enc_input(
                sv[i as int],
            ));
            assert(out@ =~= old(out)@ + (enc_u64(sv.len() as u64) + enc_ins(sv.take(i as int + 1))));
        }
        i = i + 1;
    }
    proof {
        assert(sv.take(sv.len() as int) =~= sv);
    }
}

pub fn write_tx(out: &mut Vec<u8>, t: &Transaction)
    ensures
        final(out)@ == old(out)@ + enc_tx(t@),
{
    write_string(out, t.id.as_str());
    write_in_list(out, &t.vin);
    write_out_list(out, &t.vout);
    proof {
        assert(out@ =~= old(out)@ + enc_tx(t@));
    }
}

pub fn write_tx_list(out: &mut Vec<u8>, s: &Vec<Transaction>)
    ensures
        final(out)@ == old(out)@ + enc_tx_list(s@.map_values(|x: Transaction| x@)),
{
    let ghost sv = s@.map_values(|x: Transaction| x@);
    write_u64(out, s.len() as u64);
    proof {
        assert(enc_txs(sv.take(0)) == Seq::<u8>::empty());
        assert(out@ =~= old(out)@ + (enc_u64(sv.len() as u64) + enc_txs(sv.take(0))));
    }
    let mut i: usize = 0;
    while i < s.len()
        invariant
            i <= s@.len(),
            sv == s@.map_values(|x: Transaction| x@),
            sv.len() == s@.len(),
            out@ == old(out)@ + (enc_u64(sv.len() as u64) + enc_txs(sv.take(i as int))),
        decreases s@.len() - i,
    {
        write_tx(out, &s[i]);
        proof {
            assert(sv.take(i as int + 1).drop_last() =~= sv.take(i as int));
            assert(sv.take(i as int + 1).last() == sv[i as int]);
            assert(enc_txs(sv.take(i as int + 1)) == enc_txs(sv.take(i as int)) + enc_tx(
                sv[i as int],
            ));
            assert(out@ =~= old(out)@ + (enc_u64(sv.len() as u64) + enc_txs(sv.take(i as int + 1))));
        }
        i = i + 1;
    }
    proof {
        assert(sv.take(sv.len() as int) =~= sv);
    }
}

/// The canonical encoding of a transaction, id field included as it stands.
pub fn encode_transaction(t: &Transaction) -> (r: Vec<u8>)
    ensures
        r@ == enc_tx(t@),
{
    let mut out: Vec<u8> = Vec::new();
    write_tx(&mut out, t);
    proof {
        assert(out@ =~= enc_tx(t@));
    }
    out
}

/// The canonical encoding of a block, used for persistence.
pub fn encode_block(b: &Block) -> (r: Vec<u8>)
    ensures
        r@ == enc_block(b@),
{
    let mut out: Vec<u8> = Vec::new();
    write_i64(&mut out, b.timestamp);
    write_tx_list(&mut out, &b.transactions);
    write_string(&mut out, b.prev_block_hash.as_str());
    write_string(&mut out, b.hash.as_str());
    write_i32(&mut out, b.nonce);
    write_u64(&mut out, b.height as u64);
    proof {
        assert(out@ =~= enc_block(b@));
    }
    out
}

/// The canonical encoding of a stored unspent-output record.
pub fn encode_outputs(o: &TXOutputs) -> (r: Vec<u8>)
    ensures
        r@ == enc_out_list(o@),
{
    let mut out: Vec<u8> = Vec::new();
    write_out_list(&mut out, &o.outputs);
    proof {
        assert(out@ =~= enc_out_list(o@));
    }
    out
}

/// The proof-of-work pre-image over the fixed header field order.
pub fn encode_header(prev: &str, merkle: &[u8], timestamp: i64, target: u64, nonce: i32) -> (r:
    Vec<u8>)
    ensures
        r@ == enc_header(prev@, merkle@, timestamp, target, nonce),
{
    let mut out: Vec<u8> = Vec::new();
    write_string(&mut out, prev);
    write_bytes(&mut out, merkle);
    write_i64(&mut out, timestamp);
    write_u64(&mut out, target);
    write_i32(&mut out, nonce);
    proof {
        assert(out@ =~= enc_header(prev@, merkle@, timestamp, target, nonce));
    }
    out
}

// ---------------------------------------------------------------------------
// Executable readers for the structured records.
// ---------------------------------------------------------------------------
pub fn read_output(b: &[u8], pos: usize) -> (r: Option<(TXOutput, usize)>)
    requires
        pos <= b@.len(),
    ensures
        match r {
            Some(p) => parse_output(b@, pos as int) == Some((p.0@, p.1 as int)) && p.1 <= b@.len(),
            None => parse_output(b@, pos as int) is None,
        },
{
    match read_i32(b, pos) {
        Some((value, p1)) => match read_bytes(b, p1) {
            Some((pub_key_hash, p2)) => Some((TXOutput { value, pub_key_hash }, p2)),
            None => None,
        },
        None => None,
    }
}

pub fn read_out_list(b: &[u8], pos: usize) -> (r: Option<(Vec<TXOutput>, usize)>)
    requires
        pos <= b@.len(),
    ensures
        match r {
            Some(p) => parse_out_list(b@, pos as int) == Some(
                (p.0@.map_values(|x: TXOutput| x@), p.1 as int),
            ) && p.1 <= b@.len(),
            None => parse_out_list(b@, pos as int) is None,
        },
{
    match read_u64(b, pos) {
        Some((n, p0)) => {
            if n <= usize::MAX as u64 {
                let n_us = n as usize;
                let mut outs: Vec<TXOutput> = Vec::new();
                let mut p: usize = p0;
                let mut i: usize = 0;
                proof {
                    assert(outs@.map_values(|x: TXOutput| x@) =~= Seq::<OutV>::empty());
                }
                while i < n_us
                    invariant
                        i <= n_us,
                        p <= b@.len(),
                        pos <= b@.len(),
                        n_us <= usize::MAX,
                        n == n_us as u64,
                        parse_u64(b@, pos as int) == Some((n, p0 as int)),
                        parse_outs(b@, p0 as int, i as nat) == Some(
                            (outs@.map_values(|x: TXOutput| x@), p as int),
                        ),
                    decreases n_us - i,
                {
                    let ghost prev = outs@.map_values(|x: TXOutput| x@);
                    match read_output(b, p) {
                        Some((o, p2)) => {
                            outs.push(o);
                            proof {
                                assert(outs@.map_values(|x: TXOutput| x@) =~= prev.push(o@));
                            }
                            p = p2;
                            i = i + 1;
                        },
                        None => {
                            proof {
                                assert(parse_outs(b@, p0 as int, (i + 1) as nat) is None);
                                lemma_parse_outs_none(b@, p0 as int, (i + 1) as nat, n as nat);
                            }
                            return None;
                        },
                    }
                }
                Some((outs, p))
            } else {
                None
            }
        },
        None => None,
    }
}

pub fn read_input(b: &[u8], pos: usize) -> (r: Option<(TXInput, usize)>)
    requires
        pos <= b@.len(),
    ensures
        match r {
            Some(p) => parse_input(b@, pos as int) == Some((p.0@, p.1 as int)) && p.1 <= b@.len(),
            None => parse_input(b@, pos as int) is None,
        },
{
    match read_string(b, pos) {
        Some((txid, p1)) => match read_i32(b, p1) {
            Some((vout, p2)) => match read_bytes(b, p2) {
                Some((signature, p3)) => match read_bytes(b, p3) {
                    Some((pub_key, p4)) => Some((TXInput { txid, vout, signature, pub_key }, p4)),
                    None => None,
                },
                None => None,
            },
            None => None,
        },
        None => None,
    }
}

pub fn read_in_list(b: &[u8], pos: usize) -> (r: Option<(Vec<TXInput>, usize)>)
    requires
        pos <= b@.len(),
    ensures
        match r {
            Some(p) => parse_in_list(b@, pos as int) == Some(
                (p.0@.map_values(|x: TXInput| x@), p.1 as int),
            ) && p.1 <= b@.len(),
            None => parse_in_list(b@, pos as int) is None,
        },
{
    match read_u64(b, pos) {
        Some((n, p0)) => {
            if n <= usize::MAX as u64 {
                let n_us = n as usize;
                let mut ins: Vec<TXInput> = Vec::new();
                let mut p: usize = p0;
                let mut i: usize = 0;
                proof {
                    assert(ins@.map_values(|x: TXInput| x@) =~= Seq::<InV>::empty());
                }
                while i < n_us
                    invariant
                        i <= n_us,
                        p <= b@.len(),
                        pos <= b@.len(),
                        n_us <= usize::MAX,
                        n == n_us as u64,
                        parse_u64(b@, pos as int) == Some((n, p0 as int)),
                        parse_ins(b@, p0 as int, i as nat) == Some(
                            (ins@.map_values(|x: TXInput| x@), p as int),
                        ),
                    decreases n_us - i,
                {
                    let ghost prev = ins@.map_values(|x: TXInput| x@);
                    match read_input(b, p) {
                        Some((o, p2)) => {
                            ins.push(o);
                            proof {
                                assert(ins@.map_values(|x: TXInput| x@) =~= prev.push(o@));
                            }
                            p = p2;
                            i = i + 1;
                        },
                        None => {
                            proof {
                                assert(parse_ins(b@, p0 as int, (i + 1) as nat) is None);
                                lemma_parse_ins_none(b@, p0 as int, (i + 1) as nat, n as nat);
                            }
                            return None;
                        },
                    }
                }
                Some((ins, p))
            } else {
                None
            }
        },
        None => None,
    }
}

pub fn read_tx(b: &[u8], pos: usize) -> (r: Option<(Transaction, usize)>)
    requires
        pos <= b@.len(),
    ensures
        match r {
            Some(p) => parse_tx(b@, pos as int) == Some((p.0@, p.1 as int)) && p.1 <= b@.len(),
            None => parse_tx(b@, pos as int) is None,
        },
{
    match read_string(b, pos) {
        Some((id, p1)) => match read_in_list(b, p1) {
            Some((vin, p2)) => match read_out_list(b, p2) {
                Some((vout, p3)) => Some((Transaction { id, vin, vout }, p3)),
                None => None,
            },
            None => None,
        },
        None => None,
    }
}

pub fn read_tx_list(b: &[u8], pos: usize) -> (r: Option<(Vec<Transaction>, usize)>)
    requires
        pos <= b@.len(),
    ensures
        match r {
            Some(p) => parse_tx_list(b@, pos as int) == Some(
                (p.0@.map_values(|x: Transaction| x@), p.1 as int),
            ) && p.1 <= b@.len(),
            None => parse_tx_list(b@, pos as int) is None,
        },
{
    match read_u64(b, pos) {
        Some((n, p0)) => {
            if n <= usize::MAX as u64 {
                let n_us = n as usize;
                let mut txs: Vec<Transaction> = Vec::new();
                let mut p: usize = p0;
                let mut i: usize = 0;
                proof {
                    assert(txs@.map_values(|x: Transaction| x@) =~= Seq::<TxV>::empty());
                }
                while i < n_us
                    invariant
                        i <= n_us,
                        p <= b@.len(),
                        pos <= b@.len(),
                        n_us <= usize::MAX,
                        n == n_us as u64,
                        parse_u64(b@, pos as int) == Some((n, p0 as int)),
                        parse_txs(b@, p0 as int, i as nat) == Some(
                            (txs@.map_values(|x: Transaction| x@), p as int),
                        ),
                    decreases n_us - i,
                {
                    let ghost prev = txs@.map_values(|x: Transaction| x@);
                    match read_tx(b, p) {
                        Some((o, p2)) => {
                            txs.push(o);
                            proof {
                                assert(txs@.map_values(|x: Transaction| x@) =~= prev.push(o@));
                            }
                            p = p2;
                            i = i + 1;
                        },
                        None => {
                            proof {
                                assert(parse_txs(b@, p0 as int, (i + 1) as nat) is None);
                                lemma_parse_txs_none(b@, p0 as int, (i + 1) as nat, n as nat);
                            }
                            return None;
                        },
                    }
                }
                Some((txs, p))
            } else {
                None
            }
        },
        None => None,
    }
}

pub fn read_block(b: &[u8], pos: usize) -> (r: Option<(Block, usize)>)
    requires
        pos <= b@.len(),
    ensures
        match r {
            Some(p) => parse_block(b@, pos as int) == Some((p.0@, p.1 as int)) && p.1 <= b@.len(),
            None => parse_block(b@, pos as int) is None,
        },
{
    match read_i64(b, pos) {
        Some((timestamp, p1)) => match read_tx_list(b, p1) {
            Some((transactions, p2)) => match read_string(b, p2) {
                Some((prev_block_hash, p3)) => match read_string(b, p3) {
                    Some((hash, p4)) => match read_i32(b, p4) {
                        Some((nonce, p5)) => match read_u64(b, p5) {
                            Some((h, p6)) => {
                                if h <= usize::MAX as u64 {
                                    Some(
                                        (
                                            Block {
                                                timestamp,
                                                transactions,
                                                prev_block_hash,
                                                hash,
                                                nonce,
                                                height: h as usize,
                                            },
                                            p6,
                                        ),
                                    )
                                } else {
                                    None
                                }
                            },
                            None => None,
                        },
                        None => None,
                    },
                    None => None,
                },
                None => None,
            },
            None => None,
        },
        None => None,
    }
}

// ---------------------------------------------------------------------------
// Decoding of whole records. A record must consume its bytes exactly;
// anything else is a serialization failure, never a silent end.
// ---------------------------------------------------------------------------
pub fn decode_transaction(data: &[u8]) -> (r: Result<Transaction, LedgerError>)
    ensures
        match parse_tx(data@, 0) {
            Some(p) => if p.1 == data@.len() {
                r matches Ok(t) && t@ == p.0
            } else {
                r == Err::<Transaction, LedgerError>(LedgerError::Serialization)
            },
            None => r == Err::<Transaction, LedgerError>(LedgerError::Serialization),
        },
{
    match read_tx(data, 0) {
        Some((t, p)) => {
            if p == data.len() {
                Ok(t)
            } else {
                Err(LedgerError::Serialization)
            }
        },
        None => Err(LedgerError::Serialization),
    }
}

pub fn decode_block(data: &[u8]) -> (r: Result<Block, LedgerError>)
    ensures
        match parse_block(data@, 0) {
            Some(p) => if p.1 == data@.len() {
                r matches Ok(b) && b@ == p.0
            } else {
                r == Err::<Block, LedgerError>(LedgerError::Serialization)
            },
            None => r == Err::<Block, LedgerError>(LedgerError::Serialization),
        },
{
    match read_block(data, 0) {
        Some((b, p)) => {
            if p == data.len() {
                Ok(b)
            } else {
                Err(LedgerError::Serialization)
            }
        },
        None => Err(LedgerError::Serialization),
    }
}

pub fn decode_outputs(data: &[u8]) -> (r: Result<TXOutputs, LedgerError>)
    ensures
        match parse_out_list(data@, 0) {
            Some(p) => if p.1 == data@.len() {
                r matches Ok(o) && o@ == p.0
            } else {
                r == Err::<TXOutputs, LedgerError>(LedgerError::Serialization)
            },
            None => r == Err::<TXOutputs, LedgerError>(LedgerError::Serialization),
        },
{
    match read_out_list(data, 0) {
        Some((outputs, p)) => {
            if p == data.len() {
                Ok(TXOutputs { outputs })
            } else {
                Err(LedgerError::Serialization)
            }
        },
        None => Err(LedgerError::Serialization),
    }
}

// ---------------------------------------------------------------------------
// Round-trip laws: parsing the encoding of a record yields the record back,
// consuming every byte. Together with the contracts of encode_* and decode_*
// this pins decode(encode(x)) == Ok(x).
// ---------------------------------------------------------------------------
/// Law: a transaction survives an encode-decode round trip.
pub proof fn lemma_transaction_round_trip(t: TxV)
    requires
        tx_ok(t),
    ensures
        parse_tx(enc_tx(t), 0) == Some((t, enc_tx(t).len() as int)),
{
    let b = enc_tx(t);
    assert(b.subrange(0, b.len() as int) =~= b);
    lemma_parse_tx(t, b, 0);
}

/// Law: a block survives an encode-decode round trip.
pub proof fn lemma_block_round_trip(v: BlockV)
    requires
        block_ok(v),
    ensures
        parse_block(enc_block(v), 0) == Some((v, enc_block(v).len() as int)),
{
    let b = enc_block(v);
    assert(b.subrange(0, b.len() as int) =~= b);
    lemma_parse_block(v, b, 0);
}

/// Law: a stored unspent-output record survives an encode-decode round trip.
pub proof fn lemma_outputs_round_trip(s: Seq<OutV>)
    requires
        outs_ok(s),
    ensures
        parse_out_list(enc_out_list(s), 0) == Some((s, enc_out_list(s).len() as int)),
{
    let b = enc_out_list(s);
    assert(b.subrange(0, b.len() as int) =~= b);
    lemma_parse_out_list(s, b, 0);
}

} // verus!
