use vstd::prelude::*;

use crate::block::{block_mined, Block, BlockV};
use crate::errors::LedgerError;
use crate::outputs::{lemma_upsert_wf, map_wf, upsert, EntryV, OutputsMap};
use crate::transaction::{
    find_prev, is_coinbase_tx, lookup_prev, prevs_ok, signed_tx, Transaction, TxV,
};
use crate::tx::TXOutput;
use crate::util::{clone_string, str_eq};
use crate::TARGET_HEXS;

verus! {

/// Hash linkage of a chain stored genesis-first: the genesis block has an
/// empty previous hash, and every later block points at its predecessor.
pub open spec fn chain_wf(c: Seq<BlockV>) -> bool {
    &&& (c.len() > 0 ==> c[0].prev_block_hash.len() == 0)
    &&& (forall|i: int| 1 <= i < c.len() ==> (#[trigger] c[i]).prev_block_hash == c[i - 1].hash)
}

/// The append-only, hash-linked chain store: blocks in genesis-to-tip order,
/// and the tip hash that backward traversal starts from.
#[derive(Debug)]
pub struct Blockchain {
    pub blocks: Vec<Block>,
    pub current_hash: String,
}

impl View for Blockchain {
    type V = Seq<BlockV>;

    open spec fn view(&self) -> Seq<BlockV> {
        self.blocks@.map_values(|b: Block| b@)
    }
}

/// The first transaction carrying the given id, searching blocks from the
/// tip backward and transactions in order inside each block.
pub open spec fn find_tx_in_chain(c: Seq<BlockV>, id: Seq<char>) -> Option<TxV>
    decreases c.len(),
{
    if c.len() == 0 {
        None
    } else {
        match find_prev(c.last().transactions, id) {
            Some(t) => Some(t),
            None => find_tx_in_chain(c.drop_last(), id),
        }
    }
}

/// Whether every input of the transaction references an id present in the chain.
pub open spec fn all_prevs_found(c: Seq<BlockV>, t: TxV) -> bool {
    forall|k: int|
        0 <= k < t.vin.len() ==> find_tx_in_chain(c, (#[trigger] t.vin[k]).txid) is Some
}

/// The previous transactions that the chain resolves for each input, in
/// input order.
pub open spec fn chain_prevs(c: Seq<BlockV>, t: TxV) -> Seq<TxV> {
    Seq::new(t.vin.len(), |k: int| find_tx_in_chain(c, t.vin[k].txid)->Some_0)
}

/// Whether some input of a non-coinbase transaction of the block consumes
/// the pair (id, idx). Indices are compared as the stored 32-bit values.
pub open spec fn tx_spends(t: TxV, id: Seq<char>, idx: i32) -> bool {
    exists|i: int| 0 <= i < t.vin.len() && (#[trigger] t.vin[i]).txid == id && t.vin[i].vout == idx
}

pub open spec fn block_spends(b: BlockV, id: Seq<char>, idx: i32) -> bool {
    exists|t: int|
        0 <= t < b.transactions.len() && !is_coinbase_tx(#[trigger] b.transactions[t]) && tx_spends(
            b.transactions[t],
            id,
            idx,
        )
}

pub open spec fn chain_spends(c: Seq<BlockV>, id: Seq<char>, idx: i32) -> bool {
    exists|k: int| 0 <= k < c.len() && block_spends(#[trigger] c[k], id, idx)
}

/// The unspent-output map after recording the first n outputs of one
/// transaction: an output is recorded unless some input anywhere in the
/// chain consumes it.
pub open spec fn add_tx_outputs_upto(
    m: Seq<EntryV>,
    t: TxV,
    n: int,
    c: Seq<BlockV>,
) -> Seq<EntryV>
    decreases n,
{
    if n <= 0 {
        m
    } else {
        let m1 = add_tx_outputs_upto(m, t, n - 1, c);
        if !chain_spends(c, t.id, (n - 1) as i32) {
            upsert(m1, t.id, t.vout[n - 1])
        } else {
            m1
        }
    }
}

/// The map after recording the first n transactions of one block.
pub open spec fn add_block_upto(m: Seq<EntryV>, b: BlockV, n: int, c: Seq<BlockV>) -> Seq<EntryV>
    decreases n,
{
    if n <= 0 {
        m
    } else {
        add_tx_outputs_upto(
            add_block_upto(m, b, n - 1, c),
            b.transactions[n - 1],
            b.transactions[n - 1].vout.len() as int,
            c,
        )
    }
}

/// The map after replaying the first k blocks of the tip-to-genesis
/// traversal.
pub open spec fn utxo_after(c: Seq<BlockV>, k: int) -> Seq<EntryV>
    decreases k,
{
    if k <= 0 {
        Seq::empty()
    } else {
        add_block_upto(
            utxo_after(c, k - 1),
            c[c.len() - k],
            c[c.len() - k].transactions.len() as int,
            c,
        )
    }
}

/// The authoritative unspent-output map of a chain: every output of every
/// transaction, except those consumed by some input in the chain, grouped by
/// transaction id in traversal order.
pub open spec fn chain_utxo(c: Seq<BlockV>) -> Seq<EntryV> {
    utxo_after(c, c.len() as int)
}

pub proof fn lemma_add_tx_outputs_wf(m: Seq<EntryV>, t: TxV, n: int, c: Seq<BlockV>)
    requires
        map_wf(m),
    ensures
        map_wf(add_tx_outputs_upto(m, t, n, c)),
    decreases n,
{
    if n > 0 {
        lemma_add_tx_outputs_wf(m, t, n - 1, c);
        if !chain_spends(c, t.id, (n - 1) as i32) {
            lemma_upsert_wf(add_tx_outputs_upto(m, t, n - 1, c), t.id, t.vout[n - 1]);
        }
    }
}

pub proof fn lemma_add_block_wf(m: Seq<EntryV>, b: BlockV, n: int, c: Seq<BlockV>)
    requires
        map_wf(m),
    ensures
        map_wf(add_block_upto(m, b, n, c)),
    decreases n,
{
    if n > 0 {
        lemma_add_block_wf(m, b, n - 1, c);
        lemma_add_tx_outputs_wf(
            add_block_upto(m, b, n - 1, c),
            b.transactions[n - 1],
            b.transactions[n - 1].vout.len() as int,
            c,
        );
    }
}

pub proof fn lemma_utxo_after_wf(c: Seq<BlockV>, k: int)
    ensures
        map_wf(utxo_after(c, k)),
    decreases k,
{
    if k > 0 {
        lemma_utxo_after_wf(c, k - 1);
        lemma_add_block_wf(
            utxo_after(c, k - 1),
            c[c.len() - k],
            c[c.len() - k].transactions.len() as int,
            c,
        );
    }
}

/// The genesis coinbase: the fixed reward-text memo, a single subsidy output
/// locked to the given hash, and the canonical 64-character transaction id.
pub open spec fn genesis_coinbase(cb: TxV, h: Seq<u8>) -> bool {
    &&& is_coinbase_tx(cb)
    &&& cb.vin[0].pub_key == vstd::utf8::encode_utf8(
        "The Times 03/Jan/2009 Chancellor on brink of second bailout for banks"@,
    )
    &&& cb.vout == seq![crate::tx::OutV { value: crate::SUBSIDY, pub_key_hash: h }]
    &&& cb.id == crate::transaction::tx_hash(cb)
    &&& cb.id.len() == 64
}

/// The chain height: the genesis block stands at height zero, so a chain of
/// n blocks has height n - 1.
pub open spec fn chain_height(c: Seq<BlockV>) -> int {
    c.len() - 1
}

/// Law: in the tip-to-genesis traversal of a well-formed chain, every block
/// but the genesis carries as its previous hash exactly the hash of the block
/// visited right after it; and the traversal, which visits every stored
/// block once, has exactly height + 1 steps. Position j counts from the tip.
pub proof fn lemma_chain_integrity(c: Seq<BlockV>, j: int)
    requires
        chain_wf(c),
        0 <= j < c.len() - 1,
    ensures
        c[c.len() - 1 - j].prev_block_hash == c[c.len() - 2 - j].hash,
        c.len() == chain_height(c) + 1,
{
}

impl Blockchain {
    /// Well-formed handle: the chain is hash-linked and the tip hash matches
    /// the last block (empty when there is no chain yet).
    pub open spec fn wf(&self) -> bool {
        &&& chain_wf(self@)
        &&& (self@.len() == 0 ==> self.current_hash@.len() == 0)
        &&& (self@.len() > 0 ==> self.current_hash@ == self@.last().hash)
    }

    /// Opens a handle with no stored chain: the tip starts empty.
    pub fn new() -> (r: Blockchain)
        ensures
            r@.len() == 0,
            r.wf(),
    {
        let r = Blockchain { blocks: Vec::new(), current_hash: String::new() };
        proof {
            assert(r@ =~= Seq::<BlockV>::empty());
        }
        r
    }

    /// Creates a fresh chain: one genesis block holding a single coinbase
    /// transaction that carries the fixed reward-text payload and pays the
    /// subsidy to the given address.
    pub fn create_blockchain(address: String) -> (r: Result<Blockchain, LedgerError>)
        ensures
            match r {
                Ok(bc) => {
                    &&& bc.wf()
                    &&& bc@.len() == 1
                    &&& bc@[0].transactions.len() == 1
                    &&& (crate::keys::addr_decode(address@) matches Some(h) && genesis_coinbase(
                        bc@[0].transactions[0],
                        h,
                    ))
                    &&& block_mined(bc@[0])
                    &&& bc@[0].height == 0
                    &&& bc@[0].prev_block_hash.len() == 0
                },
                Err(e) => if crate::keys::addr_decode(address@) is None {
                    e == LedgerError::Encoding
                } else {
                    e == LedgerError::MiningExhausted && exists|cb: TxV, ts: i64|
                        genesis_coinbase(cb, crate::keys::addr_decode(address@)->Some_0)
                            && #[trigger] crate::block::nonce_space_exhausted(
                            seq![cb],
                            Seq::empty(),
                            0,
                            ts,
                        )
                },
            },
    {
        let ghost addrv = address@;
        proof {
            reveal_strlit("The Times 03/Jan/2009 Chancellor on brink of second bailout for banks");
        }
        let data = <String as vstd::string::StringExecFns>::from_str(
            "The Times 03/Jan/2009 Chancellor on brink of second bailout for banks",
        );
        let cbtx = match Transaction::new_coinbase(address, data) {
            Ok(t) => t,
            Err(e) => {
                return Err(e);
            },
        };
        let ghost cbv = cbtx@;
        proof {
            assert(genesis_coinbase(cbv, crate::keys::addr_decode(addrv)->Some_0));
        }
        let genesis = match Block::new_genesis_block(cbtx) {
            Ok(b) => b,
            Err(e) => {
                proof {
                    let ts = choose|ts: i64|
                        crate::block::nonce_space_exhausted(seq![cbv], Seq::empty(), 0, ts);
                    assert(genesis_coinbase(cbv, crate::keys::addr_decode(addrv)->Some_0)
                        && crate::block::nonce_space_exhausted(seq![cbv], Seq::empty(), 0, ts));
                }
                return Err(e);
            },
        };
        let hash = genesis.get_hash();
        let mut blocks: Vec<Block> = Vec::new();
        blocks.push(genesis);
        let bc = Blockchain { blocks, current_hash: hash };
        proof {
            assert(bc@ =~= seq![bc.blocks@[0]@]);
        }
        Ok(bc)
    }

    /// Mines a block holding the given transactions on top of the current
    /// tip, appends it, and advances the tip. Fails with NotFound when no
    /// chain exists yet.
    pub fn add_block(&mut self, transactions: Vec<Transaction>) -> (r: Result<Block, LedgerError>)
        requires
            old(self).wf(),
        ensures
            final(self).wf(),
            old(self)@.len() == 0 ==> r == Err::<Block, LedgerError>(LedgerError::NotFound)
                && final(self)@ == old(self)@,
            match r {
                Ok(b) => {
                    &&& old(self)@.len() > 0
                    &&& final(self)@ == old(self)@.push(b@)
                    &&& b@.transactions == transactions@.map_values(|t: Transaction| t@)
                    &&& b@.prev_block_hash == old(self)@.last().hash
                    &&& b@.height == TARGET_HEXS
                    &&& block_mined(b@)
                },
                Err(e) => {
                    &&& final(self)@ == old(self)@
                    &&& (if old(self)@.len() == 0 {
                        e == LedgerError::NotFound
                    } else {
                        e == LedgerError::MiningExhausted && exists|ts: i64|
                            #[trigger] crate::block::mining_exhausted_for(
                                transactions@,
                                old(self)@.last().hash,
                                TARGET_HEXS,
                                ts,
                            )
                    })
                },
            },
    {
        if self.blocks.len() == 0 {
            return Err(LedgerError::NotFound);
        }
        let ghost txsv = transactions@;
        let prev = clone_string(&self.current_hash);
        let ghost prevv = prev@;
        // every appended block carries the difficulty constant in its height
        // field rather than the chain height; kept deliberately, see the
        // chain_height spec for the height the traversal laws use
        let new_block = match Block::new_block(transactions, prev, TARGET_HEXS) {
            Ok(b) => b,
            Err(e) => {
                proof {
                    let ts = choose|ts: i64|
                        crate::block::mining_exhausted_for(txsv, prevv, TARGET_HEXS, ts);
                    assert(crate::block::mining_exhausted_for(
                        txsv,
                        old(self)@.last().hash,
                        TARGET_HEXS,
                        ts,
                    ));
                }
                return Err(e);
            },
        };
        let stored = new_block.clone_block();
        self.current_hash = new_block.get_hash();
        self.blocks.push(stored);
        proof {
            assert(self@ =~= old(self)@.push(new_block@));
        }
        Ok(new_block)
    }

    /// A fresh backward cursor starting at the current tip.
    pub fn iter(&self) -> (r: BlockchainIterator<'_>)
        ensures
            r.chain() == self@,
            r.pos() == self@.len(),
    {
        BlockchainIterator { bc: self, idx: self.blocks.len() }
    }

    /// The first transaction with the given id, searching from the tip
    /// backward.
    pub fn find_transacton(&self, id: &str) -> (r: Result<Transaction, LedgerError>)
        ensures
            match r {
                Ok(t) => find_tx_in_chain(self@, id@) == Some(t@),
                Err(e) => e == LedgerError::NotFound && find_tx_in_chain(self@, id@) is None,
            },
    {
        let n = self.blocks.len();
        let mut k: usize = 0;
        proof {
            assert(self@.take(n as int) =~= self@);
        }
        while k < n
            invariant
                k <= n,
                n == self.blocks@.len(),
                find_tx_in_chain(self@, id@) == find_tx_in_chain(self@.take(n - k), id@),
            decreases n - k,
        {
            let bi = n - 1 - k;
            match lookup_prev(&self.blocks[bi].transactions, id) {
                Some(t) => {
                    proof {
                        let part = self@.take(n - k);
                        assert(part.last() == self@[bi as int]);
                        assert(self@[bi as int].transactions == self.blocks@[bi as int]@
                            .transactions);
                    }
                    return Ok(t.clone_tx());
                },
                None => {
                    proof {
                        let part = self@.take(n - k);
                        assert(part.last() == self@[bi as int]);
                        assert(part.drop_last() =~= self@.take(n - k - 1));
                    }
                },
            }
            k = k + 1;
        }
        proof {
            assert(self@.take(0) =~= Seq::<BlockV>::empty());
        }
        Err(LedgerError::NotFound)
    }

    /// Resolves, for each input of the transaction, the previous transaction
    /// it references, in input order.
    fn get_prev_txs(&self, tx: &Transaction) -> (r: Result<Vec<Transaction>, LedgerError>)
        ensures
            match r {
                Ok(v) => {
                    &&& all_prevs_found(self@, tx@)
                    &&& v@.map_values(|x: Transaction| x@) == chain_prevs(self@, tx@)
                },
                Err(e) => e == LedgerError::NotFound && !all_prevs_found(self@, tx@),
            },
    {
        let mut prevs: Vec<Transaction> = Vec::new();
        let mut k: usize = 0;
        while k < tx.vin.len()
            invariant
                k <= tx.vin@.len(),
                prevs@.len() == k,
                forall|j: int|
                    0 <= j < k ==> find_tx_in_chain(self@, (#[trigger] tx@.vin[j]).txid) is Some
                        && prevs@[j]@ == find_tx_in_chain(self@, tx@.vin[j].txid)->Some_0,
            decreases tx.vin@.len() - k,
        {
            match self.find_transacton(tx.vin[k].txid.as_str()) {
                Ok(t) => {
                    prevs.push(t);
                },
                Err(_) => {
                    proof {
                        assert(find_tx_in_chain(self@, tx@.vin[k as int].txid) is None);
                    }
                    return Err(LedgerError::NotFound);
                },
            }
            k = k + 1;
        }
        proof {
            assert(prevs@.map_values(|x: Transaction| x@) =~= chain_prevs(self@, tx@));
        }
        Ok(prevs)
    }

    /// Whether some non-coinbase input anywhere in the chain consumes the
    /// output (id, idx).
    fn spends_in_chain(&self, id: &str, idx: i32) -> (r: bool)
        ensures
            r == chain_spends(self@, id@, idx),
    {
        let mut k: usize = 0;
        while k < self.blocks.len()
            invariant
                k <= self.blocks@.len(),
                forall|j: int| 0 <= j < k ==> !block_spends(#[trigger] self@[j], id@, idx),
            decreases self.blocks@.len() - k,
        {
            let ghost bv = self@[k as int];
            let mut t: usize = 0;
            while t < self.blocks[k].transactions.len()
                invariant
                    k < self.blocks@.len(),
                    bv == self@[k as int],
                    t <= bv.transactions.len(),
                    self.blocks@[k as int]@.transactions.len() == bv.transactions.len(),
                    forall|j: int|
                        0 <= j < t ==> is_coinbase_tx(#[trigger] bv.transactions[j]) || !tx_spends(
                            bv.transactions[j],
                            id@,
                            idx,
                        ),
                decreases bv.transactions.len() - t,
            {
                let ghost tv = bv.transactions[t as int];
                if !self.blocks[k].transactions[t].is_coinbase() {
                    let mut i: usize = 0;
                    while i < self.blocks[k].transactions[t].vin.len()
                        invariant
                            k < self.blocks@.len(),
                            bv == self@[k as int],
                            t < bv.transactions.len(),
                            tv == bv.transactions[t as int],
                            !is_coinbase_tx(tv),
                            self.blocks@[k as int]@.transactions[t as int].vin.len()
                                == tv.vin.len(),
                            i <= tv.vin.len(),
                            forall|j: int|
                                0 <= j < i ==> !((#[trigger] tv.vin[j]).txid == id@ && tv.vin[j].vout
                                    == idx),
                        decreases tv.vin.len() - i,
                    {
                        let vin = &self.blocks[k].transactions[t].vin[i];
                        if str_eq(vin.txid.as_str(), id) && vin.vout == idx {
                            proof {
                                assert(tv.vin[i as int].txid == id@ && tv.vin[i as int].vout
                                    == idx);
                                assert(tx_spends(tv, id@, idx));
                                assert(!is_coinbase_tx(self@[k as int].transactions[t as int])
                                    && tx_spends(self@[k as int].transactions[t as int], id@, idx));
                                assert(block_spends(self@[k as int], id@, idx));
                            }
                            return true;
                        }
                        i = i + 1;
                    }
                    proof {
                        assert(!tx_spends(tv, id@, idx));
                    }
                }
                t = t + 1;
            }
            proof {
                assert(!block_spends(self@[k as int], id@, idx));
            }
            k = k + 1;
        }
        proof {
            assert(!chain_spends(self@, id@, idx));
        }
        false
    }

    /// Records the unspent outputs of one transaction into the map.
    fn record_tx_outputs(&self, m: &mut OutputsMap, bi: usize, t: usize)
        requires
            bi < self@.len(),
            t < self@[bi as int].transactions.len(),
        ensures
            final(m)@ == add_tx_outputs_upto(
                old(m)@,
                self@[bi as int].transactions[t as int],
                self@[bi as int].transactions[t as int].vout.len() as int,
                self@,
            ),
    {
        let ghost tv = self@[bi as int].transactions[t as int];
        let nout = self.blocks[bi].transactions[t].vout.len();
        proof {
            assert(self.blocks@[bi as int]@.transactions[t as int].vout.len() == tv.vout.len());
        }
        let mut oi: usize = 0;
        while oi < nout
            invariant
                bi < self@.len(),
                t < self@[bi as int].transactions.len(),
                tv == self@[bi as int].transactions[t as int],
                nout == tv.vout.len(),
                oi <= nout,
                m@ == add_tx_outputs_upto(old(m)@, tv, oi as int, self@),
            decreases nout - oi,
        {
            let txref = &self.blocks[bi].transactions[t];
            let spent = self.spends_in_chain(txref.id.as_str(), #[verifier::truncate] (oi as i32));
            proof {
                assert(txref@ == tv);
                assert(txref@.vout[oi as int] == txref.vout@[oi as int]@);
            }
            if !spent {
                let out = TXOutput {
                    value: txref.vout[oi].value,
                    pub_key_hash: crate::util::clone_bytes(&txref.vout[oi].pub_key_hash),
                };
                m.upsert_output(txref.id.as_str(), out);
            }
            oi = oi + 1;
        }
    }

    /// Records the unspent outputs of every transaction of one block.
    fn record_block(&self, m: &mut OutputsMap, bi: usize)
        requires
            bi < self@.len(),
        ensures
            final(m)@ == add_block_upto(
                old(m)@,
                self@[bi as int],
                self@[bi as int].transactions.len() as int,
                self@,
            ),
    {
        let ntx = self.blocks[bi].transactions.len();
        proof {
            assert(self.blocks@[bi as int]@.transactions.len() == self@[bi as int]
                .transactions.len());
        }
        let mut t: usize = 0;
        while t < ntx
            invariant
                bi < self@.len(),
                ntx == self@[bi as int].transactions.len(),
                t <= ntx,
                m@ == add_block_upto(old(m)@, self@[bi as int], t as int, self@),
            decreases ntx - t,
        {
            self.record_tx_outputs(m, bi, t);
            t = t + 1;
        }
    }

    /// Full replay: the map of every currently-unspent output of the chain,
    /// keyed by transaction id, built by walking the chain from the tip.
    pub fn find_utxo(&self) -> (r: OutputsMap)
        ensures
            r@ == chain_utxo(self@),
            map_wf(r@),
    {
        let mut m = OutputsMap::new();
        let n = self.blocks.len();
        let mut k: usize = 0;
        while k < n
            invariant
                n == self@.len(),
                k <= n,
                m@ == utxo_after(self@, k as int),
            decreases n - k,
        {
            self.record_block(&mut m, n - 1 - k);
            k = k + 1;
        }
        proof {
            lemma_utxo_after_wf(self@, self@.len() as int);
        }
        m
    }

    /// Resolves the previous transactions of every input and signs each
    /// input of the transaction against them.
    pub fn sign_transacton(&self, tx: &mut Transaction, private_key: &[u8]) -> (r: Result<
        (),
        LedgerError,
    >)
        requires
            private_key@.len() == 64,
        ensures
            ({
                let ps = chain_prevs(self@, old(tx)@);
                &&& (!all_prevs_found(self@, old(tx)@) ==> r == Err::<(), LedgerError>(
                    LedgerError::NotFound,
                ) && final(tx)@ == old(tx)@)
                &&& (all_prevs_found(self@, old(tx)@) ==> {
                    &&& (is_coinbase_tx(old(tx)@) ==> r is Ok && final(tx)@ == old(tx)@)
                    &&& (!is_coinbase_tx(old(tx)@) ==> {
                        &&& (r is Ok <==> prevs_ok(old(tx)@, ps))
                        &&& (prevs_ok(old(tx)@, ps) ==> final(tx)@ == signed_tx(
                            old(tx)@,
                            ps,
                            private_key@,
                        ))
                        &&& (!prevs_ok(old(tx)@, ps) ==> r == Err::<(), LedgerError>(
                            LedgerError::InvalidPreviousTransaction,
                        ) && final(tx)@ == old(tx)@)
                    })
                })
            }),
    {
        let prevs = match self.get_prev_txs(tx) {
            Ok(v) => v,
            Err(e) => {
                return Err(e);
            },
        };
        tx.sign(private_key, &prevs)
    }
}

/// A single-pass backward cursor over the chain, from the tip to the genesis.
pub struct BlockchainIterator<'a> {
    bc: &'a Blockchain,
    idx: usize,
}

impl<'a> BlockchainIterator<'a> {
    /// The chain being traversed.
    pub closed spec fn chain(&self) -> Seq<BlockV> {
        self.bc@
    }

    /// How many blocks are still to be visited; the next block returned is
    /// the one at this position minus one, counting from the genesis.
    pub closed spec fn pos(&self) -> int {
        self.idx as int
    }

    /// The next block going backward, or nothing once the traversal has
    /// passed the genesis.
    pub fn next(&mut self) -> (r: Option<Block>)
        requires
            old(self).pos() <= old(self).chain().len(),
        ensures
            final(self).chain() == old(self).chain(),
            match r {
                Some(b) => old(self).pos() > 0 && final(self).pos() == old(self).pos() - 1 && b@
                    == old(self).chain()[old(self).pos() - 1],
                None => old(self).pos() == 0 && final(self).pos() == 0,
            },
    {
        if self.idx == 0 {
            None
        } else {
            self.idx = self.idx - 1;
            Some(self.bc.blocks[self.idx].clone_block())
        }
    }
}

} // verus!
