use vstd::prelude::*;

use crate::blockchain::{all_prevs_found, chain_prevs, chain_utxo, Blockchain};
use crate::block::{Block, BlockV};
use crate::errors::LedgerError;
use crate::keys::{addr_decode, decode_address};
use crate::outputs::{
    key_index, lemma_key_index, lemma_key_index_is, lemma_put_found, lemma_put_frame,
    lemma_remove_frame, lemma_update_frame, lookup, map_wf, put, upsert, EntryV, OutputsMap,
};
use crate::hashes::pub_key_hash_of;
use crate::transaction::{
    cleared_id, is_coinbase_tx, prevs_ok, signed_tx, tx_hash, Transaction, TxV,
};
use crate::tx::{InV, OutV, TXInput, TXOutput, TXOutputs};
use crate::util::{clone_bytes, clone_string};
use crate::wallet::Wallet;

verus! {

/// 32-bit wrap-around addition, mirroring the accumulation the index performs.
pub open spec fn wadd(a: i32, b: i32) -> i32 {
    vstd::wrapping::i32_specs::wrapping_add(a, b)
}

/// The selection of spendable outputs from the first n outputs of one stored
/// entry: an output is taken while the running total is still below the
/// requested amount and its lock matches.
pub open spec fn select_outs(
    acc: i32,
    outs: Seq<OutV>,
    n: int,
    pkh: Seq<u8>,
    amount: i32,
) -> (i32, Seq<i32>)
    decreases n,
{
    if n <= 0 {
        (acc, Seq::empty())
    } else {
        let prev = select_outs(acc, outs, n - 1, pkh, amount);
        if outs[n - 1].pub_key_hash == pkh && prev.0 < amount {
            (wadd(prev.0, outs[n - 1].value), prev.1.push((n - 1) as i32))
        } else {
            prev
        }
    }
}

/// The selection over the first k entries of the index, in stored order.
pub open spec fn select_entries(
    m: Seq<EntryV>,
    k: int,
    pkh: Seq<u8>,
    amount: i32,
) -> (i32, Seq<(Seq<char>, Seq<i32>)>)
    decreases k,
{
    if k <= 0 {
        (0, Seq::empty())
    } else {
        let prev = select_entries(m, k - 1, pkh, amount);
        let here = select_outs(prev.0, m[k - 1].1, m[k - 1].1.len() as int, pkh, amount);
        if here.1.len() > 0 {
            (here.0, prev.1.push((m[k - 1].0, here.1)))
        } else {
            (here.0, prev.1)
        }
    }
}

/// The accumulated total and the chosen (txid, output positions) plan for a
/// spend of the given amount.
pub open spec fn select_spendable(m: Seq<EntryV>, pkh: Seq<u8>, amount: i32) -> (
    i32,
    Seq<(Seq<char>, Seq<i32>)>,
) {
    select_entries(m, m.len() as int, pkh, amount)
}

/// The outputs among the first n of one entry whose lock matches.
pub open spec fn filter_outs(outs: Seq<OutV>, n: int, pkh: Seq<u8>) -> Seq<OutV>
    decreases n,
{
    if n <= 0 {
        Seq::empty()
    } else {
        let prev = filter_outs(outs, n - 1, pkh);
        if outs[n - 1].pub_key_hash == pkh {
            prev.push(outs[n - 1])
        } else {
            prev
        }
    }
}

pub open spec fn unspent_upto(m: Seq<EntryV>, k: int, pkh: Seq<u8>) -> Seq<OutV>
    decreases k,
{
    if k <= 0 {
        Seq::empty()
    } else {
        unspent_upto(m, k - 1, pkh) + filter_outs(m[k - 1].1, m[k - 1].1.len() as int, pkh)
    }
}

/// Every currently-unspent output whose lock matches the hash, in stored order.
pub open spec fn unspent_for(m: Seq<EntryV>, pkh: Seq<u8>) -> Seq<OutV> {
    unspent_upto(m, m.len() as int, pkh)
}

/// The wrap-around sum of the first n output values, as a balance query
/// accumulates them.
pub open spec fn sum_outs(outs: Seq<OutV>, n: int) -> i32
    decreases n,
{
    if n <= 0 {
        0
    } else {
        wadd(sum_outs(outs, n - 1), outs[n - 1].value)
    }
}

/// One stored entry after the removal that an input (id, vout) causes: the
/// output at the stored position equal to vout leaves the list.
pub open spec fn kept_outputs_upto(outs: Seq<OutV>, n: int, vout: i32) -> Seq<OutV>
    decreases n,
{
    if n <= 0 {
        Seq::empty()
    } else {
        let prev = kept_outputs_upto(outs, n - 1, vout);
        if n - 1 == (vout as usize) as int {
            prev
        } else {
            prev.push(outs[n - 1])
        }
    }
}

pub open spec fn kept_outputs(outs: Seq<OutV>, vout: i32) -> Seq<OutV> {
    kept_outputs_upto(outs, outs.len() as int, vout)
}

/// The index after one input is applied: the referenced entry loses the
/// output at the referenced position and disappears when it empties; an
/// unknown reference fails.
pub open spec fn spend_one(m: Seq<EntryV>, id: Seq<char>, vout: i32) -> Option<Seq<EntryV>> {
    let ki = key_index(m, id);
    if ki == -1 {
        None
    } else {
        let kept = kept_outputs(m[ki].1, vout);
        if kept.len() == 0 {
            Some(m.remove(ki))
        } else {
            Some(m.update(ki, (m[ki].0, kept)))
        }
    }
}

/// The index after the first n inputs of one transaction are applied.
pub open spec fn spend_tx_inputs(m: Seq<EntryV>, t: crate::transaction::TxV, n: int) -> Option<
    Seq<EntryV>,
>
    decreases n,
{
    if n <= 0 {
        Some(m)
    } else {
        match spend_tx_inputs(m, t, n - 1) {
            Some(m1) => spend_one(m1, t.vin[n - 1].txid, t.vin[n - 1].vout),
            None => None,
        }
    }
}

/// The index after the inputs of the first n transactions of a block are
/// applied; coinbase transactions consume nothing.
pub open spec fn spend_block_upto(m: Seq<EntryV>, b: BlockV, n: int) -> Option<Seq<EntryV>>
    decreases n,
{
    if n <= 0 {
        Some(m)
    } else {
        match spend_block_upto(m, b, n - 1) {
            Some(m1) => if is_coinbase_tx(b.transactions[n - 1]) {
                Some(m1)
            } else {
                spend_tx_inputs(m1, b.transactions[n - 1], b.transactions[n - 1].vin.len() as int)
            },
            None => None,
        }
    }
}

/// The index after the outputs of the first n transactions of a block are
/// stored as newly unspent, overwriting any earlier entry of the same id.
pub open spec fn insert_block_upto(m: Seq<EntryV>, b: BlockV, n: int) -> Seq<EntryV>
    decreases n,
{
    if n <= 0 {
        m
    } else {
        put(insert_block_upto(m, b, n - 1), b.transactions[n - 1].id, b.transactions[n - 1].vout)
    }
}

/// The incremental index update a freshly appended block causes: first every
/// consumed output is removed, then every created output is stored.
pub open spec fn apply_block(m: Seq<EntryV>, b: BlockV) -> Option<Seq<EntryV>> {
    match spend_block_upto(m, b, b.transactions.len() as int) {
        Some(m1) => Some(insert_block_upto(m1, b, b.transactions.len() as int)),
        None => None,
    }
}

/// The unspent-output index: a derived, rebuildable cache over the chain.
pub struct UTXOSet {
    pub blockchain: Blockchain,
    pub index: OutputsMap,
}

impl UTXOSet {
    /// A handle over the given chain with an empty index; rebuild it before
    /// querying.
    pub fn new(blockchain: Blockchain) -> (r: UTXOSet)
        ensures
            r.blockchain == blockchain,
            r.index@ == Seq::<EntryV>::empty(),
    {
        UTXOSet { blockchain, index: OutputsMap::new() }
    }

    /// Rebuilds the index from scratch by full chain replay.
    pub fn reindex(&mut self) -> (r: Result<(), LedgerError>)
        ensures
            r is Ok,
            final(self).blockchain == old(self).blockchain,
            final(self).index@ == chain_utxo(old(self).blockchain@),
            map_wf(final(self).index@),
    {
        let m = self.blockchain.find_utxo();
        self.index = m;
        Ok(())
    }

    /// Walks the stored entries in order and picks outputs the hash can
    /// unlock until the accumulated total reaches the requested amount.
    pub fn find_spendable_outputs(&self, address: &[u8], amount: i32) -> (r: Result<
        (i32, Vec<(String, Vec<i32>)>),
        LedgerError,
    >)
        ensures
            r matches Ok(p) && p.0 == select_spendable(self.index@, address@, amount).0
                && p.1@.map_values(|e: (String, Vec<i32>)| (e.0@, e.1@)) == select_spendable(
                self.index@,
                address@,
                amount,
            ).1,
    {
        let ghost m = self.index@;
        let mut accumulated: i32 = 0;
        let mut plan: Vec<(String, Vec<i32>)> = Vec::new();
        let mut k: usize = 0;
        proof {
            assert(plan@.map_values(|e: (String, Vec<i32>)| (e.0@, e.1@)) =~= Seq::<
                (Seq<char>, Seq<i32>),
            >::empty());
        }
        while k < self.index.entries.len()
            invariant
                m == self.index@,
                k <= self.index.entries@.len(),
                accumulated == select_entries(m, k as int, address@, amount).0,
                plan@.map_values(|e: (String, Vec<i32>)| (e.0@, e.1@)) == select_entries(
                    m,
                    k as int,
                    address@,
                    amount,
                ).1,
            decreases self.index.entries@.len() - k,
        {
            let ghost acc0 = accumulated as i32;
            let ghost outs = m[k as int].1;
            let mut picked: Vec<i32> = Vec::new();
            let nout = self.index.entries[k].1.outputs.len();
            proof {
                assert(self.index.entries@[k as int].1@.len() == outs.len());
            }
            let mut oi: usize = 0;
            while oi < nout
                invariant
                    m == self.index@,
                    k < self.index.entries@.len(),
                    outs == m[k as int].1,
                    nout == outs.len(),
                    oi <= nout,
                    accumulated == select_outs(acc0, outs, oi as int, address@, amount).0,
                    picked@ == select_outs(acc0, outs, oi as int, address@, amount).1,
                decreases nout - oi,
            {
                let o = &self.index.entries[k].1.outputs[oi];
                proof {
                    assert(o@ == outs[oi as int]);
                }
                if o.can_be_unlock_with(address) && accumulated < amount {
                    accumulated = accumulated.wrapping_add(o.value);
                    picked.push(#[verifier::truncate] (oi as i32));
                }
                oi = oi + 1;
            }
            if picked.len() > 0 {
                let key = clone_string(&self.index.entries[k].0);
                plan.push((key, picked));
                proof {
                    assert(plan@.map_values(|e: (String, Vec<i32>)| (e.0@, e.1@)) =~= select_entries(
                        m,
                        k as int + 1,
                        address@,
                        amount,
                    ).1);
                }
            }
            k = k + 1;
        }
        Ok((accumulated, plan))
    }

    /// Every currently-unspent output the hash can unlock; the basis of a
    /// balance query.
    pub fn find_utxo(&self, pub_key_hash: &[u8]) -> (r: Result<TXOutputs, LedgerError>)
        ensures
            r matches Ok(o) && o@ == unspent_for(self.index@, pub_key_hash@),
    {
        let ghost m = self.index@;
        let mut collected: Vec<TXOutput> = Vec::new();
        let mut k: usize = 0;
        proof {
            assert(collected@.map_values(|o: TXOutput| o@) =~= Seq::<OutV>::empty());
        }
        while k < self.index.entries.len()
            invariant
                m == self.index@,
                k <= self.index.entries@.len(),
                collected@.map_values(|o: TXOutput| o@) == unspent_upto(
                    m,
                    k as int,
                    pub_key_hash@,
                ),
            decreases self.index.entries@.len() - k,
        {
            let ghost outs = m[k as int].1;
            let ghost base = collected@.map_values(|o: TXOutput| o@);
            let nout = self.index.entries[k].1.outputs.len();
            proof {
                assert(self.index.entries@[k as int].1@.len() == outs.len());
            }
            let mut oi: usize = 0;
            while oi < nout
                invariant
                    m == self.index@,
                    k < self.index.entries@.len(),
                    outs == m[k as int].1,
                    nout == outs.len(),
                    oi <= nout,
                    base + filter_outs(outs, oi as int, pub_key_hash@) == collected@.map_values(
                        |o: TXOutput| o@,
                    ),
                decreases nout - oi,
            {
                let o = &self.index.entries[k].1.outputs[oi];
                proof {
                    assert(o@ == outs[oi as int]);
                }
                if o.can_be_unlock_with(pub_key_hash) {
                    let ghost cprev = collected@.map_values(|o: TXOutput| o@);
                    collected.push(
                        TXOutput { value: o.value, pub_key_hash: clone_bytes(&o.pub_key_hash) },
                    );
                    proof {
                        assert(collected@.map_values(|o: TXOutput| o@) =~= cprev.push(
                            outs[oi as int],
                        ));
                        assert(cprev.push(outs[oi as int]) =~= base + filter_outs(
                            outs,
                            oi as int + 1,
                            pub_key_hash@,
                        ));
                    }
                } else {
                    proof {
                        assert(base + filter_outs(outs, oi as int + 1, pub_key_hash@)
                            =~= collected@.map_values(|o: TXOutput| o@));
                    }
                }
                oi = oi + 1;
            }
            k = k + 1;
        }
        Ok(TXOutputs { outputs: collected })
    }

    /// The balance of an address: the sum of every unspent output its
    /// public-key hash unlocks.
    pub fn get_balance(&self, address: &str) -> (r: Result<i32, LedgerError>)
        ensures
            match addr_decode(address@) {
                Some(h) => r == Ok::<i32, LedgerError>(
                    sum_outs(
                        unspent_for(self.index@, h),
                        unspent_for(self.index@, h).len() as int,
                    ),
                ),
                None => r == Err::<i32, LedgerError>(LedgerError::Encoding),
            },
    {
        let pub_key_hash = match decode_address(address) {
            Some(h) => h,
            None => {
                return Err(LedgerError::Encoding);
            },
        };
        let utxos = match self.find_utxo(pub_key_hash.as_slice()) {
            Ok(o) => o,
            Err(e) => {
                return Err(e);
            },
        };
        let ghost us = unspent_for(self.index@, pub_key_hash@);
        let mut balance: i32 = 0;
        let mut i: usize = 0;
        while i < utxos.outputs.len()
            invariant
                us == utxos@,
                utxos.outputs@.len() == us.len(),
                i <= us.len(),
                balance == sum_outs(us, i as int),
            decreases us.len() - i,
        {
            proof {
                assert(utxos.outputs@[i as int]@ == us[i as int]);
            }
            balance = balance.wrapping_add(utxos.outputs[i].value);
            i = i + 1;
        }
        Ok(balance)
    }

    /// The number of transactions that still own at least one unspent output.
    pub fn count_transactions(&self) -> (r: Result<i32, LedgerError>)
        requires
            self.index@.len() <= i32::MAX,
        ensures
            r == Ok::<i32, LedgerError>(self.index@.len() as i32),
    {
        Ok(self.index.len() as i32)
    }
}

pub proof fn lemma_spend_tx_inputs_none(m: Seq<EntryV>, t: crate::transaction::TxV, k: int, n: int)
    requires
        k <= n,
        spend_tx_inputs(m, t, k) is None,
    ensures
        spend_tx_inputs(m, t, n) is None,
    decreases n,
{
    if n > k {
        lemma_spend_tx_inputs_none(m, t, k, n - 1);
    }
}

pub proof fn lemma_spend_block_none(m: Seq<EntryV>, b: BlockV, k: int, n: int)
    requires
        k <= n,
        spend_block_upto(m, b, k) is None,
    ensures
        spend_block_upto(m, b, n) is None,
    decreases n,
{
    if n > k {
        lemma_spend_block_none(m, b, k, n - 1);
    }
}

impl UTXOSet {
    /// Applies a freshly appended block to the index: removes every output
    /// its non-coinbase inputs consume, then stores every output it created.
    /// An input referencing an id absent from the index fails the whole
    /// update and leaves the index as it was.
    pub fn update(&mut self, block: &Block) -> (r: Result<(), LedgerError>)
        ensures
            final(self).blockchain == old(self).blockchain,
            match apply_block(old(self).index@, block@) {
                Some(m2) => r is Ok && final(self).index@ == m2,
                None => r == Err::<(), LedgerError>(LedgerError::NotFound) && final(self).index@
                    == old(self).index@,
            },
    {
        let ghost m0 = self.index@;
        let ghost bv = block@;
        let mut work = self.index.clone_map();
        let ntx = block.transactions.len();
        proof {
            assert(block.transactions@.len() == bv.transactions.len());
        }
        let mut t: usize = 0;
        while t < ntx
            invariant
                bv == block@,
                ntx == bv.transactions.len(),
                t <= ntx,
                m0 == self.index@,
                spend_block_upto(m0, bv, t as int) == Some(work@),
            decreases ntx - t,
        {
            let txr = &block.transactions[t];
            proof {
                assert(txr@ == bv.transactions[t as int]);
            }
            if !txr.is_coinbase() {
                let ghost mt = work@;
                let nin = txr.vin.len();
                let mut i: usize = 0;
                while i < nin
                    invariant
                        bv == block@,
                        m0 == self.index@,
                        t < bv.transactions.len(),
                        ntx == bv.transactions.len(),
                        txr@ == bv.transactions[t as int],
                        !is_coinbase_tx(txr@),
                        nin == txr@.vin.len(),
                        i <= nin,
                        spend_tx_inputs(mt, txr@, i as int) == Some(work@),
                        spend_block_upto(m0, bv, t as int) == Some(mt),
                    decreases nin - i,
                {
                    let vin = &txr.vin[i];
                    proof {
                        assert(vin@ == txr@.vin[i as int]);
                    }
                    match work.key_position(vin.txid.as_str()) {
                        Some(j) => {
                            let ghost mw = work@;
                            let (key, outs) = work.entries.remove(j);
                            proof {
                                assert(mw[j as int].1 == outs@);
                                assert(work@ =~~= mw.remove(j as int));
                            }
                            let ghost ov = outs@;
                            let mut kept: Vec<TXOutput> = Vec::new();
                            let nout = outs.outputs.len();
                            let ghost vv = vin@.vout;
                            let vout_pos: usize = #[verifier::truncate] (vin.vout as usize);
                            let mut oi: usize = 0;
                            proof {
                                assert(kept@.map_values(|o: TXOutput| o@) =~= Seq::<
                                    OutV,
                                >::empty());
                            }
                            while oi < nout
                                invariant
                                    ov == outs@,
                                    nout == ov.len(),
                                    oi <= nout,
                                    vout_pos == (vv as usize),
                                    kept@.map_values(|o: TXOutput| o@) == kept_outputs_upto(
                                        ov,
                                        oi as int,
                                        vv,
                                    ),
                                decreases nout - oi,
                            {
                                proof {
                                    assert(outs.outputs@[oi as int]@ == ov[oi as int]);
                                }
                                if oi != vout_pos {
                                    let ghost kprev = kept@.map_values(|o: TXOutput| o@);
                                    kept.push(
                                        TXOutput {
                                            value: outs.outputs[oi].value,
                                            pub_key_hash: clone_bytes(
                                                &outs.outputs[oi].pub_key_hash,
                                            ),
                                        },
                                    );
                                    proof {
                                        assert(kept@.map_values(|o: TXOutput| o@) =~= kprev.push(
                                            ov[oi as int],
                                        ));
                                    }
                                }
                                oi = oi + 1;
                            }
                            if kept.len() == 0 {
                                proof {
                                    assert(spend_one(mw, vin@.txid, vin@.vout) == Some(work@));
                                }
                            } else {
                                work.entries.insert(j, (key, TXOutputs { outputs: kept }));
                                proof {
                                    assert(work@ =~~= mw.update(
                                        j as int,
                                        (mw[j as int].0, kept_outputs(mw[j as int].1, vv)),
                                    ));
                                    assert(spend_one(mw, vin@.txid, vin@.vout) == Some(work@));
                                }
                            }
                        },
                        None => {
                            proof {
                                assert(spend_one(work@, vin@.txid, vin@.vout) is None);
                                assert(spend_tx_inputs(mt, txr@, i as int + 1) is None);
                                lemma_spend_tx_inputs_none(mt, txr@, i as int + 1, nin as int);
                                assert(spend_block_upto(m0, bv, t as int + 1) is None);
                                lemma_spend_block_none(m0, bv, t as int + 1, ntx as int);
                            }
                            return Err(LedgerError::NotFound);
                        },
                    }
                    i = i + 1;
                }
            }
            t = t + 1;
        }
        let ghost m1 = work@;
        let mut t2: usize = 0;
        while t2 < ntx
            invariant
                bv == block@,
                ntx == bv.transactions.len(),
                t2 <= ntx,
                m0 == self.index@,
                insert_block_upto(m1, bv, t2 as int) == work@,
                spend_block_upto(m0, bv, ntx as int) == Some(m1),
            decreases ntx - t2,
        {
            let txr = &block.transactions[t2];
            proof {
                assert(txr@ == bv.transactions[t2 as int]);
            }
            let mut newouts: Vec<TXOutput> = Vec::new();
            let nout = txr.vout.len();
            let mut oi: usize = 0;
            while oi < nout
                invariant
                    txr@ == bv.transactions[t2 as int],
                    t2 < bv.transactions.len(),
                    bv == block@,
                    nout == txr@.vout.len(),
                    oi <= nout,
                    newouts@.len() == oi,
                    forall|k: int| 0 <= k < oi ==> newouts@[k]@ == txr@.vout[k],
                decreases nout - oi,
            {
                newouts.push(
                    TXOutput {
                        value: txr.vout[oi].value,
                        pub_key_hash: clone_bytes(&txr.vout[oi].pub_key_hash),
                    },
                );
                oi = oi + 1;
            }
            proof {
                assert(newouts@.map_values(|o: TXOutput| o@) =~= txr@.vout);
            }
            work.put_outputs(txr.id.as_str(), TXOutputs { outputs: newouts });
            t2 = t2 + 1;
        }
        self.index = work;
        Ok(())
    }
}

/// The inputs a spend builds from the chosen output positions of one entry:
/// one input per position, carrying the sender's raw public key and an empty
/// signature.
pub open spec fn entry_inputs(id: Seq<char>, idxs: Seq<i32>, n: int, pk: Seq<u8>) -> Seq<InV>
    decreases n,
{
    if n <= 0 {
        Seq::empty()
    } else {
        entry_inputs(id, idxs, n - 1, pk).push(
            InV { txid: id, vout: idxs[n - 1], signature: Seq::empty(), pub_key: pk },
        )
    }
}

/// The inputs a spend builds from the whole selection plan, in plan order.
pub open spec fn plan_inputs(plan: Seq<(Seq<char>, Seq<i32>)>, k: int, pk: Seq<u8>) -> Seq<InV>
    decreases k,
{
    if k <= 0 {
        Seq::empty()
    } else {
        plan_inputs(plan, k - 1, pk) + entry_inputs(
            plan[k - 1].0,
            plan[k - 1].1,
            plan[k - 1].1.len() as int,
            pk,
        )
    }
}

/// The outputs a spend creates: the amount to the recipient, and the change
/// back to the sender exactly when the accumulated total strictly exceeds
/// the amount.
pub open spec fn spend_outputs(amount: i32, acc: i32, to_h: Seq<u8>, own_h: Seq<u8>) -> Seq<
    OutV,
> {
    if acc > amount {
        seq![
            OutV { value: amount, pub_key_hash: to_h },
            OutV {
                value: vstd::wrapping::i32_specs::wrapping_sub(acc, amount),
                pub_key_hash: own_h,
            },
        ]
    } else {
        seq![OutV { value: amount, pub_key_hash: to_h }]
    }
}

/// The unsigned spend transaction a wallet builds before signing: the planned
/// inputs, the outputs, and the canonical id over them.
pub open spec fn built_spend_tx(
    plan: Seq<(Seq<char>, Seq<i32>)>,
    pk: Seq<u8>,
    amount: i32,
    acc: i32,
    to_h: Seq<u8>,
    own_h: Seq<u8>,
) -> TxV {
    let base = TxV {
        id: Seq::empty(),
        vin: plan_inputs(plan, plan.len() as int, pk),
        vout: spend_outputs(amount, acc, to_h, own_h),
    };
    TxV { id: tx_hash(base), vin: base.vin, vout: base.vout }
}

impl Transaction {
    /// Builds and signs a spend of the given amount from the wallet to the
    /// recipient address, selecting unspent outputs through the index and
    /// signing each input against the chain. The index and the chain are
    /// borrowed immutably, so a failed spend leaves both exactly as they
    /// were.
    pub fn new_utxo(wallet: &Wallet, to: &str, amount: i32, utxo_set: &UTXOSet) -> (r: Result<
        Transaction,
        LedgerError,
    >)
        requires
            wallet.secret_key@.len() == 64,
        ensures
            ({
                let pkh = pub_key_hash_of(wallet.public_key@);
                let sel = select_spendable(utxo_set.index@, pkh, amount);
                &&& (sel.0 < amount ==> r == Err::<Transaction, LedgerError>(
                    LedgerError::InsufficientFunds { available: sel.0 },
                ))
                &&& (r matches Ok(t) ==> t@.id.len() == 64)
                &&& (sel.0 >= amount ==> match addr_decode(to@) {
                    None => r == Err::<Transaction, LedgerError>(LedgerError::Encoding),
                    Some(to_h) => {
                        let built = built_spend_tx(
                            sel.1,
                            wallet.public_key@,
                            amount,
                            sel.0,
                            to_h,
                            pkh,
                        );
                        let ps = chain_prevs(utxo_set.blockchain@, built);
                        &&& (!all_prevs_found(utxo_set.blockchain@, built) ==> r == Err::<
                            Transaction,
                            LedgerError,
                        >(LedgerError::NotFound))
                        &&& (all_prevs_found(utxo_set.blockchain@, built) ==> {
                            &&& (is_coinbase_tx(built) ==> (r matches Ok(t) && t@ == built))
                            &&& (!is_coinbase_tx(built) ==> {
                                &&& (prevs_ok(built, ps) ==> (r matches Ok(t) && t@
                                    == signed_tx(built, ps, wallet.secret_key@)))
                                &&& (!prevs_ok(built, ps) ==> r == Err::<
                                    Transaction,
                                    LedgerError,
                                >(LedgerError::InvalidPreviousTransaction))
                            })
                        })
                    },
                })
            }),
    {
        let ghost pkh_g = pub_key_hash_of(wallet.public_key@);
        let mut pub_key_hash = clone_bytes(&wallet.public_key);
        crate::hashes::hash_pub_key(&mut pub_key_hash);
        let acc_v = match utxo_set.find_spendable_outputs(pub_key_hash.as_slice(), amount) {
            Ok(p) => p,
            Err(e) => {
                return Err(e);
            },
        };
        let ghost sel = select_spendable(utxo_set.index@, pkh_g, amount);
        if acc_v.0 < amount {
            return Err(LedgerError::InsufficientFunds { available: acc_v.0 });
        }
        let mut vin: Vec<TXInput> = Vec::new();
        let plan = &acc_v.1;
        let ghost planv = sel.1;
        let mut k: usize = 0;
        proof {
            assert(planv == plan@.map_values(|e: (String, Vec<i32>)| (e.0@, e.1@)));
            assert(vin@.map_values(|x: TXInput| x@) =~= Seq::<InV>::empty());
        }
        while k < plan.len()
            invariant
                planv == plan@.map_values(|e: (String, Vec<i32>)| (e.0@, e.1@)),
                k <= plan@.len(),
                vin@.map_values(|x: TXInput| x@) == plan_inputs(
                    planv,
                    k as int,
                    wallet.public_key@,
                ),
            decreases plan@.len() - k,
        {
            let ghost base = vin@.map_values(|x: TXInput| x@);
            let ghost idxs = planv[k as int].1;
            let nidx = plan[k].1.len();
            proof {
                assert(plan@[k as int].1@ == idxs);
            }
            let mut j: usize = 0;
            while j < nidx
                invariant
                    planv == plan@.map_values(|e: (String, Vec<i32>)| (e.0@, e.1@)),
                    k < plan@.len(),
                    idxs == planv[k as int].1,
                    nidx == idxs.len(),
                    j <= nidx,
                    vin@.map_values(|x: TXInput| x@) == base + entry_inputs(
                        planv[k as int].0,
                        idxs,
                        j as int,
                        wallet.public_key@,
                    ),
                decreases nidx - j,
            {
                let ghost before = vin@.map_values(|x: TXInput| x@);
                proof {
                    assert(plan@[k as int].1@[j as int] == idxs[j as int]);
                }
                vin.push(
                    TXInput {
                        txid: clone_string(&plan[k].0),
                        vout: plan[k].1[j],
                        signature: Vec::new(),
                        pub_key: clone_bytes(&wallet.public_key),
                    },
                );
                proof {
                    assert(vin@.map_values(|x: TXInput| x@) =~= before.push(
                        InV {
                            txid: planv[k as int].0,
                            vout: idxs[j as int],
                            signature: Seq::empty(),
                            pub_key: wallet.public_key@,
                        },
                    ));
                }
                j = j + 1;
            }
            k = k + 1;
        }
        let mut vout: Vec<TXOutput> = Vec::new();
        let first = match TXOutput::new(amount, to.to_owned()) {
            Ok(o) => o,
            Err(e) => {
                return Err(e);
            },
        };
        vout.push(first);
        if acc_v.0 > amount {
            let change_addr = wallet.get_address();
            let change = match TXOutput::new(acc_v.0.wrapping_sub(amount), change_addr) {
                Ok(o) => o,
                Err(e) => {
                    proof {
                        // the wallet's own address always decodes to its hash
                        assert(false);
                    }
                    return Err(e);
                },
            };
            vout.push(change);
        }
        proof {
            let to_h = addr_decode(to@)->Some_0;
            assert(vout@.map_values(|x: TXOutput| x@) =~= spend_outputs(
                amount,
                sel.0,
                to_h,
                pkh_g,
            ));
        }
        let mut tx = Transaction { id: String::new(), vin, vout };
        let ghost base_tx = tx@;
        proof {
            reveal_strlit("");
        }
        let id = match tx.hash() {
            Ok(s) => s,
            Err(e) => {
                return Err(e);
            },
        };
        tx.id = id;
        proof {
            let to_h = addr_decode(to@)->Some_0;
            let built = built_spend_tx(sel.1, wallet.public_key@, amount, sel.0, to_h, pkh_g);
            assert(cleared_id(base_tx) =~= cleared_id(built));
            assert(tx@ =~= built);
        }
        match utxo_set.blockchain.sign_transacton(&mut tx, wallet.secret_key.as_slice()) {
            Ok(_) => Ok(tx),
            Err(e) => Err(e),
        }
    }
}

pub proof fn lemma_spend_one_wf(m: Seq<EntryV>, id: Seq<char>, vout: i32)
    requires
        map_wf(m),
        spend_one(m, id, vout) is Some,
    ensures
        map_wf(spend_one(m, id, vout)->Some_0),
{
    lemma_key_index(m, id);
    let ki = key_index(m, id);
    let m2 = spend_one(m, id, vout)->Some_0;
    if kept_outputs(m[ki].1, vout).len() == 0 {
        assert forall|a: int, b: int| 0 <= a < b < m2.len() implies (#[trigger] m2[a]).0 != (
        #[trigger] m2[b]).0 by {
            let a0 = if a < ki {
                a
            } else {
                a + 1
            };
            let b0 = if b < ki {
                b
            } else {
                b + 1
            };
            assert(m2[a] == m[a0] && m2[b] == m[b0]);
        }
    }
}

/// A spend of one id leaves every other id's entry unchanged.
pub proof fn lemma_spend_one_frame(m: Seq<EntryV>, id: Seq<char>, vout: i32, x: Seq<char>)
    requires
        x != id,
        spend_one(m, id, vout) is Some,
    ensures
        lookup(spend_one(m, id, vout)->Some_0, x) == lookup(m, x),
{
    lemma_key_index(m, id);
    let ki = key_index(m, id);
    if kept_outputs(m[ki].1, vout).len() == 0 {
        lemma_remove_frame(m, ki, x);
    } else {
        lemma_update_frame(m, ki, (m[ki].0, kept_outputs(m[ki].1, vout)), x);
    }
}

/// What a successful spend does to the spent id's entry: the output at the
/// referenced position leaves, and the entry disappears when it empties.
pub proof fn lemma_spend_one_hit(m: Seq<EntryV>, id: Seq<char>, vout: i32)
    requires
        map_wf(m),
        spend_one(m, id, vout) is Some,
    ensures
        lookup(m, id) is Some,
        ({
            let kept = kept_outputs(lookup(m, id)->Some_0, vout);
            let m2 = spend_one(m, id, vout)->Some_0;
            &&& (kept.len() == 0 ==> lookup(m2, id) is None)
            &&& (kept.len() > 0 ==> lookup(m2, id) == Some(kept))
        }),
{
    lemma_key_index(m, id);
    let ki = key_index(m, id);
    let kept = kept_outputs(m[ki].1, vout);
    let m2 = spend_one(m, id, vout)->Some_0;
    if kept.len() == 0 {
        lemma_key_index(m2, id);
        if key_index(m2, id) >= 0 {
            let j = key_index(m2, id);
            assert(m2[j].0 == id);
            if j < ki {
                assert(m[j].0 == id);
            } else {
                assert(m[j + 1].0 == id);
            }
            assert(false);
        }
    } else {
        assert(m2[ki] == (m[ki].0, kept));
        assert forall|j: int| 0 <= j < ki implies (#[trigger] m2[j]).0 != id by {
            assert(m2[j] == m[j]);
        }
        lemma_key_index_is(m2, id, ki);
    }
}

pub proof fn lemma_spend_tx_wf(m: Seq<EntryV>, t: TxV, n: int)
    requires
        map_wf(m),
        spend_tx_inputs(m, t, n) is Some,
    ensures
        map_wf(spend_tx_inputs(m, t, n)->Some_0),
    decreases n,
{
    if n > 0 {
        lemma_spend_tx_wf(m, t, n - 1);
        lemma_spend_one_wf(spend_tx_inputs(m, t, n - 1)->Some_0, t.vin[n - 1].txid, t.vin[n - 1].vout);
    }
}

pub proof fn lemma_spend_tx_frame(m: Seq<EntryV>, t: TxV, n: int, x: Seq<char>)
    requires
        spend_tx_inputs(m, t, n) is Some,
        forall|i: int| 0 <= i < n ==> (#[trigger] t.vin[i]).txid != x,
    ensures
        lookup(spend_tx_inputs(m, t, n)->Some_0, x) == lookup(m, x),
    decreases n,
{
    if n > 0 {
        lemma_spend_tx_frame(m, t, n - 1, x);
        lemma_spend_one_frame(
            spend_tx_inputs(m, t, n - 1)->Some_0,
            t.vin[n - 1].txid,
            t.vin[n - 1].vout,
            x,
        );
    }
}

pub proof fn lemma_spend_block_wf(m: Seq<EntryV>, b: BlockV, n: int)
    requires
        map_wf(m),
        spend_block_upto(m, b, n) is Some,
    ensures
        map_wf(spend_block_upto(m, b, n)->Some_0),
    decreases n,
{
    if n > 0 {
        lemma_spend_block_wf(m, b, n - 1);
        if !is_coinbase_tx(b.transactions[n - 1]) {
            lemma_spend_tx_wf(
                spend_block_upto(m, b, n - 1)->Some_0,
                b.transactions[n - 1],
                b.transactions[n - 1].vin.len() as int,
            );
        }
    }
}

pub proof fn lemma_spend_block_frame(m: Seq<EntryV>, b: BlockV, n: int, x: Seq<char>)
    requires
        spend_block_upto(m, b, n) is Some,
        forall|t2: int, i2: int|
            0 <= t2 < n && !is_coinbase_tx(#[trigger] b.transactions[t2]) && 0 <= i2
                < b.transactions[t2].vin.len() ==> (#[trigger] b.transactions[t2].vin[i2]).txid
                != x,
    ensures
        lookup(spend_block_upto(m, b, n)->Some_0, x) == lookup(m, x),
    decreases n,
{
    if n > 0 {
        lemma_spend_block_frame(m, b, n - 1, x);
        if !is_coinbase_tx(b.transactions[n - 1]) {
            lemma_spend_tx_frame(
                spend_block_upto(m, b, n - 1)->Some_0,
                b.transactions[n - 1],
                b.transactions[n - 1].vin.len() as int,
                x,
            );
        }
    }
}

pub proof fn lemma_insert_block_frame(m: Seq<EntryV>, b: BlockV, n: int, x: Seq<char>)
    requires
        forall|t2: int| 0 <= t2 < n ==> (#[trigger] b.transactions[t2]).id != x,
    ensures
        lookup(insert_block_upto(m, b, n), x) == lookup(m, x),
    decreases n,
{
    if n > 0 {
        lemma_insert_block_frame(m, b, n - 1, x);
        lemma_put_frame(
            insert_block_upto(m, b, n - 1),
            b.transactions[n - 1].id,
            b.transactions[n - 1].vout,
            x,
        );
    }
}

pub proof fn lemma_insert_block_found(m: Seq<EntryV>, b: BlockV, n: int, t: int)
    requires
        0 <= t < n,
        forall|t2: int| t < t2 < n ==> (#[trigger] b.transactions[t2]).id != b.transactions[t].id,
    ensures
        lookup(insert_block_upto(m, b, n), b.transactions[t].id) == Some(b.transactions[t].vout),
    decreases n,
{
    if n - 1 == t {
        lemma_put_found(insert_block_upto(m, b, n - 1), b.transactions[t].id, b.transactions[t].vout);
    } else {
        lemma_insert_block_found(m, b, n - 1, t);
        lemma_put_frame(
            insert_block_upto(m, b, n - 1),
            b.transactions[n - 1].id,
            b.transactions[n - 1].vout,
            b.transactions[t].id,
        );
    }
}

/// Law (spend correctness, consumed half): after a block is applied to the
/// index, an output consumed by one of its non-coinbase inputs is no longer
/// stored: the referenced entry loses the output at the referenced position,
/// and disappears entirely once empty. Stated for an input whose transaction
/// id is referenced by no other input of the block and is created by no
/// transaction of the block. The restriction is essential, not a proof
/// convenience: removal works by stored position, so when two inputs of one
/// block consume two outputs of the same previous transaction, the first
/// removal shifts the positions the second refers to and the property as a
/// whole fails — and spend selection can build exactly such a transaction.
pub proof fn lemma_apply_removes_spent(m: Seq<EntryV>, b: BlockV, t: int, i: int)
    requires
        map_wf(m),
        apply_block(m, b) is Some,
        0 <= t < b.transactions.len(),
        !is_coinbase_tx(b.transactions[t]),
        0 <= i < b.transactions[t].vin.len(),
        forall|t2: int, i2: int|
            0 <= t2 < b.transactions.len() && !is_coinbase_tx(#[trigger] b.transactions[t2]) && 0
                <= i2 < b.transactions[t2].vin.len() && (t2 != t || i2 != i) ==> (
            #[trigger] b.transactions[t2].vin[i2]).txid != b.transactions[t].vin[i].txid,
        forall|t2: int|
            0 <= t2 < b.transactions.len() ==> (#[trigger] b.transactions[t2]).id
                != b.transactions[t].vin[i].txid,
    ensures
        lookup(m, b.transactions[t].vin[i].txid) is Some,
        ({
            let id = b.transactions[t].vin[i].txid;
            let v = b.transactions[t].vin[i].vout;
            let kept = kept_outputs(lookup(m, id)->Some_0, v);
            let m2 = apply_block(m, b)->Some_0;
            &&& (kept.len() == 0 ==> lookup(m2, id) is None)
            &&& (kept.len() > 0 ==> lookup(m2, id) == Some(kept))
        }),
{
    let id = b.transactions[t].vin[i].txid;
    let v = b.transactions[t].vin[i].vout;
    let ntx = b.transactions.len() as int;
    let tx = b.transactions[t];
    let nin = tx.vin.len() as int;
    assert(spend_block_upto(m, b, ntx) is Some);
    assert(spend_block_upto(m, b, t) is Some) by {
        if spend_block_upto(m, b, t) is None {
            lemma_spend_block_none(m, b, t, ntx);
        }
    }
    assert(spend_block_upto(m, b, t + 1) is Some) by {
        if spend_block_upto(m, b, t + 1) is None {
            lemma_spend_block_none(m, b, t + 1, ntx);
        }
    }
    let m_t = spend_block_upto(m, b, t)->Some_0;
    assert(spend_tx_inputs(m_t, tx, nin) is Some);
    assert(spend_tx_inputs(m_t, tx, i) is Some) by {
        if spend_tx_inputs(m_t, tx, i) is None {
            lemma_spend_tx_inputs_none(m_t, tx, i, nin);
        }
    }
    assert(spend_tx_inputs(m_t, tx, i + 1) is Some) by {
        if spend_tx_inputs(m_t, tx, i + 1) is None {
            lemma_spend_tx_inputs_none(m_t, tx, i + 1, nin);
        }
    }
    lemma_spend_block_frame(m, b, t, id);
    lemma_spend_block_wf(m, b, t);
    lemma_spend_tx_frame(m_t, tx, i, id);
    lemma_spend_tx_wf(m_t, tx, i);
    let m_i = spend_tx_inputs(m_t, tx, i)->Some_0;
    lemma_spend_one_hit(m_i, id, v);
    lemma_spend_tx_tail_frame(m_t, tx, i + 1, nin, id);
    lemma_spend_block_tail_frame(m, b, t + 1, ntx, id);
    let m1 = spend_block_upto(m, b, ntx)->Some_0;
    lemma_insert_block_frame(m1, b, ntx, id);
}

/// Once an id's entry is settled, later inputs of the same transaction that
/// reference other ids leave it as it is.
pub proof fn lemma_spend_tx_tail_frame(m: Seq<EntryV>, t: TxV, s: int, n: int, x: Seq<char>)
    requires
        0 <= s <= n,
        spend_tx_inputs(m, t, n) is Some,
        forall|j: int| s <= j < n ==> (#[trigger] t.vin[j]).txid != x,
    ensures
        lookup(spend_tx_inputs(m, t, n)->Some_0, x) == lookup(spend_tx_inputs(m, t, s)->Some_0, x),
    decreases n - s,
{
    if n > s {
        lemma_spend_tx_tail_frame(m, t, s, n - 1, x);
        lemma_spend_one_frame(
            spend_tx_inputs(m, t, n - 1)->Some_0,
            t.vin[n - 1].txid,
            t.vin[n - 1].vout,
            x,
        );
    }
}

/// Once an id's entry is settled, later transactions of the block whose
/// inputs reference other ids leave it as it is.
pub proof fn lemma_spend_block_tail_frame(m: Seq<EntryV>, b: BlockV, s: int, n: int, x: Seq<char>)
    requires
        0 <= s <= n,
        spend_block_upto(m, b, n) is Some,
        forall|t2: int, i2: int|
            s <= t2 < n && !is_coinbase_tx(#[trigger] b.transactions[t2]) && 0 <= i2
                < b.transactions[t2].vin.len() ==> (#[trigger] b.transactions[t2].vin[i2]).txid
                != x,
    ensures
        lookup(spend_block_upto(m, b, n)->Some_0, x) == lookup(spend_block_upto(m, b, s)->Some_0, x),
    decreases n - s,
{
    if n > s {
        lemma_spend_block_tail_frame(m, b, s, n - 1, x);
        if !is_coinbase_tx(b.transactions[n - 1]) {
            lemma_spend_tx_frame(
                spend_block_upto(m, b, n - 1)->Some_0,
                b.transactions[n - 1],
                b.transactions[n - 1].vin.len() as int,
                x,
            );
        }
    }
}

/// Law (spend correctness, created half): after a block is applied, every
/// transaction of the block owns an index entry holding exactly its outputs.
/// Stated for a transaction whose id no later transaction of the block
/// reuses. Blocks this library builds satisfy that, since every constructor
/// sets the id to the canonical hash of the transaction's contents; the
/// store itself accepts arbitrary transaction lists, so the hypothesis
/// cannot be dropped here.
pub proof fn lemma_apply_records_outputs(m: Seq<EntryV>, b: BlockV, t: int)
    requires
        apply_block(m, b) is Some,
        0 <= t < b.transactions.len(),
        forall|t2: int| t < t2 < b.transactions.len() ==> (#[trigger] b.transactions[t2]).id
            != b.transactions[t].id,
    ensures
        lookup(apply_block(m, b)->Some_0, b.transactions[t].id) == Some(b.transactions[t].vout),
{
    lemma_insert_block_found(
        spend_block_upto(m, b, b.transactions.len() as int)->Some_0,
        b,
        b.transactions.len() as int,
        t,
    );
}

pub proof fn lemma_filter_contains(outs: Seq<OutV>, n: int, o: int, h: Seq<u8>)
    requires
        0 <= o < n <= outs.len(),
        outs[o].pub_key_hash == h,
    ensures
        filter_outs(outs, n, h).contains(outs[o]),
    decreases n,
{
    if n - 1 == o {
        let f = filter_outs(outs, n, h);
        assert(f.last() == outs[o]);
        assert(f.contains(outs[o]));
    } else {
        lemma_filter_contains(outs, n - 1, o, h);
        let prev = filter_outs(outs, n - 1, h);
        let f = filter_outs(outs, n, h);
        let w = choose|w: int| 0 <= w < prev.len() && prev[w] == outs[o];
        assert(f[w] == outs[o]);
        assert(f.contains(outs[o]));
    }
}

pub proof fn lemma_unspent_upto_contains(m: Seq<EntryV>, k: int, j: int, h: Seq<u8>, x: OutV)
    requires
        0 <= j < k <= m.len(),
        filter_outs(m[j].1, m[j].1.len() as int, h).contains(x),
    ensures
        unspent_upto(m, k, h).contains(x),
    decreases k,
{
    if k - 1 == j {
        let a = unspent_upto(m, k - 1, h);
        let f = filter_outs(m[j].1, m[j].1.len() as int, h);
        let w = choose|w: int| 0 <= w < f.len() && f[w] == x;
        assert(unspent_upto(m, k, h)[a.len() + w] == x);
        assert(unspent_upto(m, k, h).contains(x));
    } else {
        lemma_unspent_upto_contains(m, k - 1, j, h, x);
        let a = unspent_upto(m, k - 1, h);
        let w = choose|w: int| 0 <= w < a.len() && a[w] == x;
        assert(unspent_upto(m, k, h)[w] == x);
        assert(unspent_upto(m, k, h).contains(x));
    }
}

/// Law (spend correctness, queryability): every output stored in an entry of
/// the index is returned by the unspent query for its own lock hash. With
/// the created half above, every output a block creates becomes queryable.
pub proof fn lemma_entry_output_queryable(m: Seq<EntryV>, x: Seq<char>, o: int)
    requires
        lookup(m, x) is Some,
        0 <= o < lookup(m, x)->Some_0.len(),
    ensures
        unspent_for(m, lookup(m, x)->Some_0[o].pub_key_hash).contains(lookup(m, x)->Some_0[o]),
{
    lemma_key_index(m, x);
    let ki = key_index(m, x);
    let outs = m[ki].1;
    lemma_filter_contains(outs, outs.len() as int, o, outs[o].pub_key_hash);
    lemma_unspent_upto_contains(m, m.len() as int, ki, outs[o].pub_key_hash, outs[o]);
}

/// Law (spend correctness, created half, composed): after a block is
/// applied, every output the block created is returned by the unspent query
/// for its own lock hash.
pub proof fn lemma_apply_outputs_queryable(m: Seq<EntryV>, b: BlockV, t: int, o: int)
    requires
        apply_block(m, b) is Some,
        0 <= t < b.transactions.len(),
        forall|t2: int| t < t2 < b.transactions.len() ==> (#[trigger] b.transactions[t2]).id
            != b.transactions[t].id,
        0 <= o < b.transactions[t].vout.len(),
    ensures
        unspent_for(
            apply_block(m, b)->Some_0,
            b.transactions[t].vout[o].pub_key_hash,
        ).contains(b.transactions[t].vout[o]),
{
    lemma_apply_records_outputs(m, b, t);
    lemma_entry_output_queryable(apply_block(m, b)->Some_0, b.transactions[t].id, o);
}

/// A chain in which every block carries exactly one transaction, a coinbase
/// with a single output.
pub open spec fn coinbase_only_chain(c: Seq<BlockV>) -> bool {
    forall|k: int|
        0 <= k < c.len() ==> (#[trigger] c[k]).transactions.len() == 1 && is_coinbase_tx(
            c[k].transactions[0],
        ) && c[k].transactions[0].vout.len() == 1
}

/// Distinct coinbase transaction ids across the chain's blocks.
pub open spec fn distinct_coinbase_ids(c: Seq<BlockV>) -> bool {
    forall|k1: int, k2: int|
        0 <= k1 < k2 < c.len() ==> (#[trigger] c[k1]).transactions[0].id != (
        #[trigger] c[k2]).transactions[0].id
}

pub proof fn lemma_coinbase_chain_no_spends(c: Seq<BlockV>, id: Seq<char>, idx: i32)
    requires
        coinbase_only_chain(c),
    ensures
        !crate::blockchain::chain_spends(c, id, idx),
{
    assert forall|k: int| 0 <= k < c.len() implies !crate::blockchain::block_spends(
        #[trigger] c[k],
        id,
        idx,
    ) by {
        assert forall|t: int| 0 <= t < c[k].transactions.len() implies is_coinbase_tx(
            #[trigger] c[k].transactions[t],
        ) by {
            assert(t == 0);
        }
    }
}

/// The full shape of the index of a coinbase-only chain: one entry per block
/// in traversal order, holding that block's single subsidy output.
pub proof fn lemma_coinbase_chain_utxo(c: Seq<BlockV>, k: int)
    requires
        coinbase_only_chain(c),
        distinct_coinbase_ids(c),
        0 <= k <= c.len(),
    ensures
        crate::blockchain::utxo_after(c, k).len() == k,
        forall|i: int|
            0 <= i < k ==> #[trigger] crate::blockchain::utxo_after(c, k)[i] == (
                c[c.len() - 1 - i].transactions[0].id,
                seq![c[c.len() - 1 - i].transactions[0].vout[0]],
            ),
    decreases k,
{
    if k > 0 {
        lemma_coinbase_chain_utxo(c, k - 1);
        let m1 = crate::blockchain::utxo_after(c, k - 1);
        let b = c[c.len() - k];
        let tx = b.transactions[0];
        lemma_coinbase_chain_no_spends(c, tx.id, 0i32);
        assert(crate::blockchain::add_block_upto(m1, b, 0, c) == m1);
        assert(crate::blockchain::add_tx_outputs_upto(m1, tx, 0, c) == m1);
        assert(crate::blockchain::add_block_upto(m1, b, 1, c)
            == crate::blockchain::add_tx_outputs_upto(m1, tx, 1, c));
        assert(crate::blockchain::add_tx_outputs_upto(m1, tx, 1, c) == upsert(m1, tx.id, tx.vout[0]));
        lemma_key_index(m1, tx.id);
        if key_index(m1, tx.id) >= 0 {
            let i0 = key_index(m1, tx.id);
            assert(m1[i0] == (
                c[c.len() - 1 - i0].transactions[0].id,
                seq![c[c.len() - 1 - i0].transactions[0].vout[0]],
            ));
            assert(false);
        }
        assert(crate::blockchain::utxo_after(c, k) == m1.push((tx.id, seq![tx.vout[0]])));
    }
}

/// Law: after appending N blocks each carrying one coinbase transaction
/// only, the index holds exactly N entries (one per block), provided the
/// coinbase ids are distinct.
pub proof fn lemma_count_indexed_transactions(c: Seq<BlockV>)
    requires
        coinbase_only_chain(c),
        distinct_coinbase_ids(c),
    ensures
        chain_utxo(c).len() == c.len(),
{
    lemma_coinbase_chain_utxo(c, c.len() as int);
}

/// The exact total of the stored values over the first k entries.
pub open spec fn outs_total(outs: Seq<OutV>, n: int) -> int
    decreases n,
{
    if n <= 0 {
        0
    } else {
        outs_total(outs, n - 1) + outs[n - 1].value
    }
}

pub open spec fn total_value(m: Seq<EntryV>, k: int) -> int
    decreases k,
{
    if k <= 0 {
        0
    } else {
        total_value(m, k - 1) + outs_total(m[k - 1].1, m[k - 1].1.len() as int)
    }
}

pub proof fn lemma_total_uniform(m: Seq<EntryV>, j: int)
    requires
        0 <= j <= m.len(),
        forall|i: int|
            0 <= i < j ==> (#[trigger] m[i]).1.len() == 1 && m[i].1[0].value == crate::SUBSIDY,
    ensures
        total_value(m, j) == j * crate::SUBSIDY,
    decreases j,
{
    if j > 0 {
        lemma_total_uniform(m, j - 1);
        assert(outs_total(m[j - 1].1, 0) == 0);
        assert(outs_total(m[j - 1].1, 1) == crate::SUBSIDY as int);
    }
}

/// Law (conservation): for a chain whose blocks each hold exactly one
/// coinbase transaction with a single subsidy output and distinct ids, the
/// sum of all currently-unspent output values equals the number of mined
/// blocks times the subsidy. A chain holding a spend block breaks the
/// unrestricted form: a transfer conserves value while adding a block.
pub proof fn lemma_conservation(c: Seq<BlockV>)
    requires
        coinbase_only_chain(c),
        distinct_coinbase_ids(c),
        forall|k: int|
            0 <= k < c.len() ==> (#[trigger] c[k]).transactions[0].vout[0].value == crate::SUBSIDY,
    ensures
        total_value(chain_utxo(c), chain_utxo(c).len() as int) == c.len() * crate::SUBSIDY,
{
    lemma_coinbase_chain_utxo(c, c.len() as int);
    let m = chain_utxo(c);
    assert forall|i: int| 0 <= i < m.len() implies (#[trigger] m[i]).1.len() == 1 && m[i].1[0].value
        == crate::SUBSIDY by {
        assert(m[i] == (
            c[c.len() - 1 - i].transactions[0].id,
            seq![c[c.len() - 1 - i].transactions[0].vout[0]],
        ));
    }
    lemma_total_uniform(m, m.len() as int);
}

/// Law: rebuilding the index is deterministic, so rebuilding twice against an
/// unchanged chain yields the same entries in the same order; since the
/// stored bytes of an entry are a function of its contents, the stored index
/// is byte-identical as well.
pub proof fn lemma_reindex_idempotent(
    c: Seq<BlockV>,
    first: Seq<EntryV>,
    second: Seq<EntryV>,
)
    requires
        first == chain_utxo(c),
        second == chain_utxo(c),
    ensures
        first == second,
{
}

} // verus!
