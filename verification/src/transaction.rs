use vstd::prelude::*;
use vstd::utf8::encode_utf8;

use crate::codec::{enc_tx, write_in_list, write_out_list, write_string};
use crate::errors::LedgerError;
use crate::hashes::{hex_of, sha256, sha256_of, to_hex};
use crate::keys::{addr_decode, ed25519_sig, ed25519_sign, random_32};
use crate::tx::{InV, OutV, TXInput, TXOutput};
use crate::util::{clone_bytes, clone_string, concat_bytes, str_bytes_vec, str_eq};
use crate::SUBSIDY;

verus! {

/// Mathematical model of a transaction.
#[verifier::ext_equal]
pub ghost struct TxV {
    pub id: Seq<char>,
    pub vin: Seq<InV>,
    pub vout: Seq<OutV>,
}

/// A transaction: a set of inputs consuming previous outputs and a set of
/// newly created outputs, identified by the hex hash of its canonical encoding.
#[derive(Debug, Clone, PartialEq)]
pub struct Transaction {
    pub id: String,
    pub vin: Vec<TXInput>,
    pub vout: Vec<TXOutput>,
}

impl View for Transaction {
    type V = TxV;

    open spec fn view(&self) -> TxV {
        TxV {
            id: self.id@,
            vin: self.vin@.map_values(|x: TXInput| x@),
            vout: self.vout@.map_values(|x: TXOutput| x@),
        }
    }
}

/// A coinbase transaction has exactly one input, with an empty previous
/// transaction id and the output-index sentinel -1.
pub open spec fn is_coinbase_tx(t: TxV) -> bool {
    &&& t.vin.len() == 1
    &&& t.vin[0].txid.len() == 0
    &&& t.vin[0].vout == -1
}

/// A transaction with its id cleared, the form over which the canonical
/// transaction hash is computed.
pub open spec fn cleared_id(t: TxV) -> TxV {
    TxV { id: Seq::empty(), vin: t.vin, vout: t.vout }
}

/// The canonical transaction id: the hex SHA-256 digest of the encoding of
/// the transaction with its id cleared.
pub open spec fn tx_hash(t: TxV) -> Seq<char> {
    hex_of(sha256_of(enc_tx(cleared_id(t))))
}

/// The fixed memo written into a generated coinbase input.
pub open spec fn reward_text(to: Seq<char>) -> Seq<char> {
    "Reward to '"@ + to + "'"@
}

/// The first transaction in the list carrying the given id, if any.
pub open spec fn find_prev(prevs: Seq<TxV>, id: Seq<char>) -> Option<TxV>
    decreases prevs.len(),
{
    if prevs.len() == 0 {
        None
    } else if prevs[0].id == id {
        Some(prevs[0])
    } else {
        find_prev(prevs.drop_first(), id)
    }
}

/// Whether an input's reference resolves to a known, well-formed previous
/// transaction with the referenced output present.
pub open spec fn input_prev_ok(prevs: Seq<TxV>, inp: InV) -> bool {
    match find_prev(prevs, inp.txid) {
        Some(p) => p.id.len() > 0 && 0 <= inp.vout < p.vout.len(),
        None => false,
    }
}

/// Whether every input of the transaction resolves against the given
/// previous transactions.
pub open spec fn prevs_ok(t: TxV, prevs: Seq<TxV>) -> bool {
    forall|k: int| 0 <= k < t.vin.len() ==> input_prev_ok(prevs, #[trigger] t.vin[k])
}

/// The lock of the previous output that an input references.
pub open spec fn input_lock_hash(prevs: Seq<TxV>, inp: InV) -> Seq<u8> {
    match find_prev(prevs, inp.txid) {
        Some(p) => p.vout[inp.vout as int].pub_key_hash,
        None => Seq::empty(),
    }
}

/// The transaction with one input's public key replaced.
pub open spec fn with_pubkey(t: TxV, k: int, h: Seq<u8>) -> TxV {
    TxV {
        id: t.id,
        vin: t.vin.update(
            k,
            InV {
                txid: t.vin[k].txid,
                vout: t.vin[k].vout,
                signature: t.vin[k].signature,
                pub_key: h,
            },
        ),
        vout: t.vout,
    }
}

/// The signing payload of one input: the hash of the trimmed transaction in
/// which only that input carries the referenced output's lock.
pub open spec fn sign_payload(t: TxV, prevs: Seq<TxV>, k: int) -> Seq<char> {
    tx_hash(with_pubkey(trimmed_tx(t), k, input_lock_hash(prevs, t.vin[k])))
}

/// The transaction after signing: each input carries the signature of its
/// own payload, everything else is unchanged.
pub open spec fn signed_tx(t: TxV, prevs: Seq<TxV>, sk: Seq<u8>) -> TxV {
    TxV {
        id: t.id,
        vin: Seq::new(
            t.vin.len(),
            |k: int|
                InV {
                    txid: t.vin[k].txid,
                    vout: t.vin[k].vout,
                    pub_key: t.vin[k].pub_key,
                    signature: ed25519_sig(sign_payload(t, prevs, k), sk),
                },
        ),
        vout: t.vout,
    }
}

/// The signing skeleton of a transaction: every input keeps its reference but
/// loses its signature and public key.
pub open spec fn trimmed_tx(t: TxV) -> TxV {
    TxV {
        id: t.id,
        vin: t.vin.map_values(
            |i: InV| InV { txid: i.txid, vout: i.vout, signature: Seq::empty(), pub_key: Seq::empty() },
        ),
        vout: t.vout,
    }
}

impl Transaction {
    /// Whether this transaction is a coinbase.
    pub fn is_coinbase(&self) -> (r: bool)
        ensures
            r == is_coinbase_tx(self@),
    {
        self.vin.len() == 1 && self.vin[0].txid.as_str().is_empty() && self.vin[0].vout == -1
    }

    /// Builds the signing skeleton: a copy whose inputs carry no signature
    /// and no public key.
    fn trim_copy(&self) -> (r: Transaction)
        ensures
            r@ == trimmed_tx(self@),
    {
        let mut vin: Vec<TXInput> = Vec::new();
        let mut i: usize = 0;
        while i < self.vin.len()
            invariant
                i <= self.vin@.len(),
                vin@.len() == i,
                forall|k: int| 0 <= k < i ==> vin@[k]@ == trimmed_tx(self@).vin[k],
            decreases self.vin@.len() - i,
        {
            vin.push(
                TXInput {
                    txid: clone_string(&self.vin[i].txid),
                    vout: self.vin[i].vout,
                    signature: Vec::new(),
                    pub_key: Vec::new(),
                },
            );
            i = i + 1;
        }
        let mut vout: Vec<TXOutput> = Vec::new();
        let mut j: usize = 0;
        while j < self.vout.len()
            invariant
                j <= self.vout@.len(),
                vout@.len() == j,
                forall|k: int| 0 <= k < j ==> vout@[k]@ == self@.vout[k],
            decreases self.vout@.len() - j,
        {
            vout.push(
                TXOutput {
                    value: self.vout[j].value,
                    pub_key_hash: clone_bytes(&self.vout[j].pub_key_hash),
                },
            );
            j = j + 1;
        }
        let r = Transaction { id: clone_string(&self.id), vin, vout };
        proof {
            assert(r@.vin =~= trimmed_tx(self@).vin);
            assert(r@.vout =~= trimmed_tx(self@).vout);
        }
        r
    }

    /// A deep copy of this transaction.
    pub fn clone_tx(&self) -> (r: Transaction)
        ensures
            r@ == self@,
    {
        let mut vin: Vec<TXInput> = Vec::new();
        let mut i: usize = 0;
        while i < self.vin.len()
            invariant
                i <= self.vin@.len(),
                vin@.len() == i,
                forall|k: int| 0 <= k < i ==> vin@[k]@ == self@.vin[k],
            decreases self.vin@.len() - i,
        {
            vin.push(
                TXInput {
                    txid: clone_string(&self.vin[i].txid),
                    vout: self.vin[i].vout,
                    signature: clone_bytes(&self.vin[i].signature),
                    pub_key: clone_bytes(&self.vin[i].pub_key),
                },
            );
            i = i + 1;
        }
        let mut vout: Vec<TXOutput> = Vec::new();
        let mut j: usize = 0;
        while j < self.vout.len()
            invariant
                j <= self.vout@.len(),
                vout@.len() == j,
                forall|k: int| 0 <= k < j ==> vout@[k]@ == self@.vout[k],
            decreases self.vout@.len() - j,
        {
            vout.push(
                TXOutput {
                    value: self.vout[j].value,
                    pub_key_hash: clone_bytes(&self.vout[j].pub_key_hash),
                },
            );
            j = j + 1;
        }
        let r = Transaction { id: clone_string(&self.id), vin, vout };
        proof {
            assert(r@.vin =~= self@.vin);
            assert(r@.vout =~= self@.vout);
        }
        r
    }

    /// The canonical hex id of this transaction, computed over its encoding
    /// with the id field cleared: 64 hex characters for the 32 digest bytes.
    pub fn hash(&self) -> (r: Result<String, LedgerError>)
        ensures
            r matches Ok(s) && s@ == tx_hash(self@) && s@.len() == 64,
    {
        let mut out: Vec<u8> = Vec::new();
        proof {
            reveal_strlit("");
        }
        write_string(&mut out, "");
        write_in_list(&mut out, &self.vin);
        write_out_list(&mut out, &self.vout);
        proof {
            assert(out@ =~= enc_tx(cleared_id(self@)));
        }
        let digest = sha256(out.as_slice());
        proof {
            crate::hashes::lemma_hex_of_len(digest@);
        }
        Ok(to_hex(digest.as_slice()))
    }

    /// The signing skeleton in which input k alone carries the given lock.
    fn skeleton_with(&self, k: usize, lock: &Vec<u8>) -> (r: Transaction)
        requires
            k < self.vin@.len(),
        ensures
            r@ == with_pubkey(trimmed_tx(self@), k as int, lock@),
    {
        let mut skel = self.trim_copy();
        proof {
            assert(skel.vin@.len() == trimmed_tx(self@).vin.len());
        }
        let mut inp = skel.vin.remove(k);
        inp.pub_key = clone_bytes(lock);
        skel.vin.insert(k, inp);
        proof {
            assert(skel@.vin =~= with_pubkey(trimmed_tx(self@), k as int, lock@).vin);
            assert(skel@ =~= with_pubkey(trimmed_tx(self@), k as int, lock@));
        }
        skel
    }

    /// Signs every input of a non-coinbase transaction. Each input is signed
    /// against the lock of the previous output it references; an unknown or
    /// malformed reference rejects the whole transaction unchanged.
    pub fn sign(&mut self, private_key: &[u8], prev_txs: &Vec<Transaction>) -> (r: Result<
        (),
        LedgerError,
    >)
        requires
            private_key@.len() == 64,
        ensures
            ({
                let pv = prev_txs@.map_values(|x: Transaction| x@);
                &&& (is_coinbase_tx(old(self)@) ==> r is Ok && final(self)@ == old(self)@)
                &&& (!is_coinbase_tx(old(self)@) ==> {
                    &&& (r is Ok <==> prevs_ok(old(self)@, pv))
                    &&& (prevs_ok(old(self)@, pv) ==> r is Ok && final(self)@ == signed_tx(
                        old(self)@,
                        pv,
                        private_key@,
                    ))
                    &&& (!prevs_ok(old(self)@, pv) ==> final(self)@ == old(self)@ && r == Err::<
                        (),
                        LedgerError,
                    >(LedgerError::InvalidPreviousTransaction))
                })
            }),
    {
        let ghost pv = prev_txs@.map_values(|x: Transaction| x@);
        if self.is_coinbase() {
            return Ok(());
        }
        let mut k: usize = 0;
        while k < self.vin.len()
            invariant
                k <= self.vin@.len(),
                self == old(self),
                !is_coinbase_tx(self@),
                pv == prev_txs@.map_values(|x: Transaction| x@),
                forall|j: int| 0 <= j < k ==> input_prev_ok(pv, #[trigger] self@.vin[j]),
            decreases self.vin@.len() - k,
        {
            match lookup_prev(prev_txs, self.vin[k].txid.as_str()) {
                Some(p) => {
                    if p.id.as_str().is_empty() || self.vin[k].vout < 0 || (self.vin[k].vout
                        as usize) >= p.vout.len() {
                        proof {
                            assert(!input_prev_ok(pv, self@.vin[k as int]));
                            assert(!prevs_ok(self@, pv));
                        }
                        return Err(LedgerError::InvalidPreviousTransaction);
                    }
                },
                None => {
                    proof {
                        assert(!input_prev_ok(pv, self@.vin[k as int]));
                        assert(!prevs_ok(self@, pv));
                    }
                    return Err(LedgerError::InvalidPreviousTransaction);
                },
            }
            k = k + 1;
        }
        let mut payloads: Vec<String> = Vec::new();
        let mut i: usize = 0;
        while i < self.vin.len()
            invariant
                i <= self.vin@.len(),
                self == old(self),
                pv == prev_txs@.map_values(|x: Transaction| x@),
                prevs_ok(self@, pv),
                !is_coinbase_tx(self@),
                payloads@.len() == i,
                forall|j: int| 0 <= j < i ==> #[trigger] payloads@[j]@ == sign_payload(self@, pv, j),
            decreases self.vin@.len() - i,
        {
            let lock: Vec<u8> = match lookup_prev(prev_txs, self.vin[i].txid.as_str()) {
                Some(p) => {
                    proof {
                        assert(input_prev_ok(pv, self@.vin[i as int]));
                    }
                    clone_bytes(&p.vout[self.vin[i].vout as usize].pub_key_hash)
                },
                None => {
                    proof {
                        assert(input_prev_ok(pv, self@.vin[i as int]));
                        assert(false);
                    }
                    return Err(LedgerError::InvalidPreviousTransaction);
                },
            };
            let skel = self.skeleton_with(i, &lock);
            let payload = match skel.hash() {
                Ok(s) => s,
                Err(_) => {
                    proof {
                        assert(false);
                    }
                    return Err(LedgerError::InvalidPreviousTransaction);
                },
            };
            payloads.push(payload);
            i = i + 1;
        }
        let mut vin: Vec<TXInput> = Vec::new();
        let mut m: usize = 0;
        while m < self.vin.len()
            invariant
                m <= self.vin@.len(),
                self == old(self),
                !is_coinbase_tx(self@),
                prevs_ok(self@, pv),
                pv == prev_txs@.map_values(|x: Transaction| x@),
                private_key@.len() == 64,
                payloads@.len() == self.vin@.len(),
                forall|j: int|
                    0 <= j < self.vin@.len() ==> #[trigger] payloads@[j]@ == sign_payload(
                        self@,
                        pv,
                        j,
                    ),
                vin@.len() == m,
                forall|j: int|
                    0 <= j < m ==> vin@[j]@ == signed_tx(self@, pv, private_key@).vin[j],
            decreases self.vin@.len() - m,
        {
            let sig = ed25519_sign(payloads[m].as_str(), private_key);
            vin.push(
                TXInput {
                    txid: clone_string(&self.vin[m].txid),
                    vout: self.vin[m].vout,
                    signature: sig,
                    pub_key: clone_bytes(&self.vin[m].pub_key),
                },
            );
            m = m + 1;
        }
        let ghost before = self@;
        self.vin = vin;
        proof {
            assert(self@.vin =~= signed_tx(before, pv, private_key@).vin);
            assert(self@ =~= signed_tx(before, pv, private_key@));
        }
        Ok(())
    }

    /// Builds a coinbase transaction: one synthetic input carrying the memo,
    /// one output paying the fixed subsidy to the recipient. An empty memo is
    /// replaced by the fixed reward text with 32 random bytes appended.
    pub fn new_coinbase(to: String, data: String) -> (r: Result<Transaction, LedgerError>)
        ensures
            match addr_decode(to@) {
                Some(h) => r matches Ok(t) && {
                    &&& is_coinbase_tx(t@)
                    &&& t@.vin[0].signature.len() == 0
                    &&& t@.vout == seq![OutV { value: SUBSIDY, pub_key_hash: h }]
                    &&& (data@.len() > 0 ==> t@.vin[0].pub_key == encode_utf8(data@))
                    &&& (data@.len() == 0 ==> t@.vin[0].pub_key.len() == encode_utf8(
                        reward_text(to@),
                    ).len() + 32 && t@.vin[0].pub_key.subrange(
                        0,
                        encode_utf8(reward_text(to@)).len() as int,
                    ) == encode_utf8(reward_text(to@)))
                    &&& t@.id == tx_hash(t@)
                    &&& t@.id.len() == 64
                },
                None => r == Err::<Transaction, LedgerError>(LedgerError::Encoding),
            },
    {
        let txo = match TXOutput::new(SUBSIDY, clone_string(&to)) {
            Ok(o) => o,
            Err(e) => {
                return Err(e);
            },
        };
        let pub_key: Vec<u8> = if data.as_str().is_empty() {
            proof {
                reveal_strlit("Reward to '");
                reveal_strlit("'");
            }
            let mut memo = String::new();
            memo.append("Reward to '");
            memo.append(to.as_str());
            memo.append("'");
            proof {
                assert(memo@ =~= reward_text(to@));
            }
            let rnd = random_32();
            let pk = concat_bytes(memo.as_str().as_bytes(), rnd.as_slice());
            proof {
                assert(pk@.subrange(0, encode_utf8(reward_text(to@)).len() as int) =~= encode_utf8(
                    reward_text(to@),
                ));
            }
            pk
        } else {
            str_bytes_vec(data.as_str())
        };
        let mut vin: Vec<TXInput> = Vec::new();
        vin.push(TXInput { txid: String::new(), vout: -1, signature: Vec::new(), pub_key });
        let mut vout: Vec<TXOutput> = Vec::new();
        vout.push(txo);
        let mut tx = Transaction { id: String::new(), vin, vout };
        proof {
            assert(tx@.vout =~= seq![
                OutV { value: SUBSIDY, pub_key_hash: addr_decode(to@)->Some_0 },
            ]);
        }
        let ghost before = tx@;
        let id = match tx.hash() {
            Ok(s) => s,
            Err(e) => {
                return Err(e);
            },
        };
        tx.id = id;
        proof {
            assert(cleared_id(tx@) =~= cleared_id(before));
        }
        Ok(tx)
    }
}

/// The first transaction in the list whose id equals the given text.
pub(crate) fn lookup_prev<'a>(prevs: &'a Vec<Transaction>, id: &str) -> (r: Option<&'a Transaction>)
    ensures
        match r {
            Some(t) => find_prev(prevs@.map_values(|x: Transaction| x@), id@) == Some(t@),
            None => find_prev(prevs@.map_values(|x: Transaction| x@), id@) is None,
        },
{
    let ghost pv = prevs@.map_values(|x: Transaction| x@);
    let mut i: usize = 0;
    proof {
        assert(pv.skip(0) =~= pv);
    }
    while i < prevs.len()
        invariant
            i <= prevs@.len(),
            pv == prevs@.map_values(|x: Transaction| x@),
            find_prev(pv, id@) == find_prev(pv.skip(i as int), id@),
        decreases prevs@.len() - i,
    {
        if str_eq(prevs[i].id.as_str(), id) {
            proof {
                assert(pv.skip(i as int)[0] == pv[i as int]);
            }
            return Some(&prevs[i]);
        }
        proof {
            assert(pv.skip(i as int)[0] == pv[i as int]);
            assert(pv.skip(i as int).drop_first() =~= pv.skip(i as int + 1));
        }
        i = i + 1;
    }
    proof {
        assert(pv.skip(pv.len() as int) =~= Seq::<TxV>::empty());
    }
    None
}

} // verus!
