use vstd::prelude::*;

use crate::codec::{enc_header, enc_tx, encode_header, encode_transaction};
use crate::errors::LedgerError;
use crate::hashes::{hex_of, lemma_hex_of_len, lemma_hex_zero_prefix, sha256, sha256_of, to_hex};
use crate::transaction::{Transaction, TxV};
use crate::util::{clone_bytes, clone_string, concat_bytes};
use crate::TARGET_HEXS;

verus! {

/// Relies on chrono::Utc::now for the wall clock; nothing is assumed of the
/// value returned.
#[verifier::external_body]
fn now_millis() -> (r: i64) {
    chrono::Utc::now().timestamp_millis()
}

/// The digest standing for one transaction in the merkle tree: the SHA-256
/// hash of the transaction's canonical encoding, id field as it stands.
pub open spec fn tx_leaf(t: TxV) -> Seq<u8> {
    sha256_of(enc_tx(t))
}

/// An inner merkle node: the SHA-256 hash of the two children, concatenated.
pub open spec fn merkle_combine(l: Seq<u8>, r: Seq<u8>) -> Seq<u8> {
    sha256_of(l + r)
}

/// One level of the merkle tree: nodes combined pairwise; with an odd count,
/// the last node is promoted unchanged.
pub open spec fn merkle_pair_up(level: Seq<Seq<u8>>) -> Seq<Seq<u8>>
    decreases level.len(),
{
    if level.len() >= 2 {
        seq![merkle_combine(level[0], level[1])] + merkle_pair_up(level.skip(2))
    } else {
        level
    }
}

pub proof fn lemma_merkle_pair_up(level: Seq<Seq<u8>>)
    ensures
        merkle_pair_up(level).len() == (level.len() + 1) / 2,
        forall|i: int|
            0 <= i < merkle_pair_up(level).len() ==> #[trigger] merkle_pair_up(level)[i] == (if 2
                * i + 1 < level.len() {
                merkle_combine(level[2 * i], level[2 * i + 1])
            } else {
                level[2 * i]
            }),
    decreases level.len(),
{
    if level.len() >= 2 {
        lemma_merkle_pair_up(level.skip(2));
        let rest = merkle_pair_up(level.skip(2));
        assert forall|i: int| 0 <= i < merkle_pair_up(level).len() implies #[trigger] merkle_pair_up(
            level,
        )[i] == (if 2 * i + 1 < level.len() {
            merkle_combine(level[2 * i], level[2 * i + 1])
        } else {
            level[2 * i]
        }) by {
            if i > 0 {
                assert(merkle_pair_up(level)[i] == rest[i - 1]);
                assert(level.skip(2)[2 * (i - 1)] == level[2 * i]);
                if 2 * (i - 1) + 1 < level.skip(2).len() {
                    assert(level.skip(2)[2 * (i - 1) + 1] == level[2 * i + 1]);
                }
            }
        }
    }
}

/// The merkle root over a level of digests: pairwise combination until one
/// node is left; the root of an empty level is the empty digest.
pub open spec fn merkle_root_of(level: Seq<Seq<u8>>) -> Seq<u8>
    decreases level.len(),
        via merkle_root_of_decreases
{
    if level.len() == 0 {
        Seq::empty()
    } else if level.len() == 1 {
        level[0]
    } else {
        merkle_root_of(merkle_pair_up(level))
    }
}

#[via_fn]
proof fn merkle_root_of_decreases(level: Seq<Seq<u8>>) {
    if level.len() >= 2 {
        lemma_merkle_pair_up(level);
    }
}

/// The merkle commitment to an ordered list of transactions.
pub open spec fn merkle_root_txs(txs: Seq<TxV>) -> Seq<u8> {
    merkle_root_of(txs.map_values(|t: TxV| tx_leaf(t)))
}

/// The proof-of-work pre-image of a block: its header fields in fixed order,
/// with the merkle root committing to the transactions.
pub open spec fn block_pow_data(b: BlockV) -> Seq<u8> {
    enc_header(
        b.prev_block_hash,
        merkle_root_txs(b.transactions),
        b.timestamp,
        TARGET_HEXS as u64,
        b.nonce,
    )
}

/// The hex digest that identifies a block.
pub open spec fn pow_hash(b: BlockV) -> Seq<char> {
    hex_of(sha256_of(block_pow_data(b)))
}

/// Whether a block's digest meets the difficulty target: its first
/// TARGET_HEXS hex characters are all '0'.
pub open spec fn meets_target(b: BlockV) -> bool {
    pow_hash(b).subrange(0, TARGET_HEXS as int) == seq!['0', '0', '0', '0']
}

/// The same block with another nonce, everything else unchanged.
pub open spec fn with_nonce(b: BlockV, n: i32) -> BlockV {
    BlockV { nonce: n, ..b }
}

/// The header a mining attempt hashes: the search's inputs together with one
/// timestamp. The hash and nonce fields play no part in the pre-image.
pub open spec fn mining_proto(
    txs: Seq<TxV>,
    prev: Seq<char>,
    height: usize,
    ts: i64,
) -> BlockV {
    BlockV {
        timestamp: ts,
        transactions: txs,
        prev_block_hash: prev,
        hash: Seq::empty(),
        nonce: 0,
        height,
    }
}

/// Every 32-bit nonce misses the difficulty target for these header fields.
pub open spec fn nonce_space_exhausted(
    txs: Seq<TxV>,
    prev: Seq<char>,
    height: usize,
    ts: i64,
) -> bool {
    forall|n: i32| 0 <= n ==> !meets_target(#[trigger] with_nonce(mining_proto(txs, prev, height, ts), n))
}

/// The previous form, over the executable transaction list.
pub open spec fn mining_exhausted_for(
    txs: Seq<Transaction>,
    prev: Seq<char>,
    height: usize,
    ts: i64,
) -> bool {
    nonce_space_exhausted(txs.map_values(|t: Transaction| t@), prev, height, ts)
}

/// The block's nonce is the first from zero that meets the target: every
/// smaller nonce fails it for the same header fields.
pub open spec fn least_nonce(b: BlockV) -> bool {
    forall|n: i32| 0 <= n < b.nonce ==> !meets_target(with_nonce(b, n))
}

/// A mined block carries the hash of its own pre-image, that hash meets the
/// difficulty target, and no smaller nonce would have met it.
pub open spec fn block_mined(b: BlockV) -> bool {
    &&& b.hash == pow_hash(b)
    &&& meets_target(b)
    &&& least_nonce(b)
}

/// Mathematical model of a block.
#[verifier::ext_equal]
pub ghost struct BlockV {
    pub timestamp: i64,
    pub transactions: Seq<TxV>,
    pub prev_block_hash: Seq<char>,
    pub hash: Seq<char>,
    pub nonce: i32,
    pub height: usize,
}

/// A mined block: an ordered list of transactions, hash-linked to its
/// predecessor, whose own hash satisfies the difficulty target.
#[derive(Debug, Clone, PartialEq)]
pub struct Block {
    pub timestamp: i64,
    pub transactions: Vec<Transaction>,
    pub prev_block_hash: String,
    pub hash: String,
    pub nonce: i32,
    pub height: usize,
}

impl View for Block {
    type V = BlockV;

    open spec fn view(&self) -> BlockV {
        BlockV {
            timestamp: self.timestamp,
            transactions: self.transactions@.map_values(|t: Transaction| t@),
            prev_block_hash: self.prev_block_hash@,
            hash: self.hash@,
            nonce: self.nonce,
            height: self.height,
        }
    }
}

impl Block {
    /// The block's transactions.
    pub fn get_transactions(&self) -> (r: &Vec<Transaction>)
        ensures
            r@.map_values(|t: Transaction| t@) == self@.transactions,
    {
        &self.transactions
    }

    /// The block's own hash, as hex text.
    pub fn get_hash(&self) -> (r: String)
        ensures
            r@ == self@.hash,
    {
        clone_string(&self.hash)
    }

    /// The previous block's hash, empty for the genesis block.
    pub fn get_prev_hash(&self) -> (r: String)
        ensures
            r@ == self@.prev_block_hash,
    {
        clone_string(&self.prev_block_hash)
    }

    /// A deep copy of this block.
    pub fn clone_block(&self) -> (r: Block)
        ensures
            r@ == self@,
    {
        let mut transactions: Vec<Transaction> = Vec::new();
        let mut i: usize = 0;
        while i < self.transactions.len()
            invariant
                i <= self.transactions@.len(),
                transactions@.len() == i,
                forall|k: int| 0 <= k < i ==> transactions@[k]@ == self@.transactions[k],
            decreases self.transactions@.len() - i,
        {
            transactions.push(self.transactions[i].clone_tx());
            i = i + 1;
        }
        let r = Block {
            timestamp: self.timestamp,
            transactions,
            prev_block_hash: clone_string(&self.prev_block_hash),
            hash: clone_string(&self.hash),
            nonce: self.nonce,
            height: self.height,
        };
        proof {
            assert(r@.transactions =~= self@.transactions);
        }
        r
    }

    /// The merkle root committing to the block's transactions.
    fn hash_transactions(transactions: &Vec<Transaction>) -> (r: Vec<u8>)
        ensures
            r@ == merkle_root_txs(transactions@.map_values(|t: Transaction| t@)),
    {
        let ghost tv = transactions@.map_values(|t: Transaction| t@);
        let mut level: Vec<Vec<u8>> = Vec::new();
        let mut i: usize = 0;
        while i < transactions.len()
            invariant
                i <= transactions@.len(),
                tv == transactions@.map_values(|t: Transaction| t@),
                level@.len() == i,
                forall|k: int| 0 <= k < i ==> #[trigger] level@[k]@ == tx_leaf(tv[k]),
            decreases transactions@.len() - i,
        {
            let enc = encode_transaction(&transactions[i]);
            let leaf = sha256(enc.as_slice());
            level.push(leaf);
            i = i + 1;
        }
        proof {
            assert(level@.map_values(|v: Vec<u8>| v@) =~= tv.map_values(|t: TxV| tx_leaf(t)));
        }
        while level.len() >= 2
            invariant
                merkle_root_of(level@.map_values(|v: Vec<u8>| v@)) == merkle_root_txs(tv),
            decreases level@.len(),
        {
            let ghost cur = level@.map_values(|v: Vec<u8>| v@);
            proof {
                lemma_merkle_pair_up(cur);
            }
            let mut next: Vec<Vec<u8>> = Vec::new();
            let mut k: usize = 0;
            while k + 1 < level.len()
                invariant
                    k % 2 == 0,
                    k <= level@.len(),
                    cur == level@.map_values(|v: Vec<u8>| v@),
                    cur.len() == level@.len(),
                    next@.len() == k / 2,
                    forall|j: int|
                        0 <= j < k / 2 ==> #[trigger] next@[j]@ == merkle_combine(
                            cur[2 * j],
                            cur[2 * j + 1],
                        ),
                decreases level@.len() - k,
            {
                let joined = concat_bytes(level[k].as_slice(), level[k + 1].as_slice());
                let node = sha256(joined.as_slice());
                next.push(node);
                k = k + 2;
            }
            if k < level.len() {
                next.push(clone_bytes(&level[k]));
            }
            proof {
                lemma_merkle_pair_up(cur);
                assert forall|j: int| 0 <= j < next@.len() implies next@.map_values(
                    |v: Vec<u8>| v@,
                )[j] == merkle_pair_up(cur)[j] by {
                    assert(next@.map_values(|v: Vec<u8>| v@)[j] == next@[j]@);
                }
                assert(next@.map_values(|v: Vec<u8>| v@) =~= merkle_pair_up(cur));
            }
            level = next;
        }
        if level.len() == 1 {
            let r = level.remove(0);
            r
        } else {
            proof {
                assert(level@.map_values(|v: Vec<u8>| v@) =~= Seq::<Seq<u8>>::empty());
            }
            Vec::new()
        }
    }

    /// Builds and mines a block: starting from nonce 0, the first nonce whose
    /// header digest meets the difficulty target is accepted; if the 32-bit
    /// nonce space runs out, mining fails rather than wrapping.
    pub fn new_block(transactions: Vec<Transaction>, prev_block_hash: String, height: usize) -> (r:
        Result<Block, LedgerError>)
        ensures
            match r {
                Ok(b) => {
                    &&& b@.transactions == transactions@.map_values(|t: Transaction| t@)
                    &&& b@.prev_block_hash == prev_block_hash@
                    &&& b@.height == height
                    &&& b@.nonce >= 0
                    &&& block_mined(b@)
                },
                Err(e) => e == LedgerError::MiningExhausted && exists|ts: i64|
                    #[trigger] mining_exhausted_for(
                        transactions@,
                        prev_block_hash@,
                        height,
                        ts,
                    ),
            },
    {
        let ghost tv = transactions@.map_values(|t: Transaction| t@);
        let timestamp = now_millis();
        let merkle = Block::hash_transactions(&transactions);
        let ghost proto = mining_proto(tv, prev_block_hash@, height, timestamp);
        let mut nonce: i32 = 0;
        loop
            invariant
                0 <= nonce,
                tv == transactions@.map_values(|t: Transaction| t@),
                merkle@ == merkle_root_txs(tv),
                proto == mining_proto(tv, prev_block_hash@, height, timestamp),
                forall|n: i32| 0 <= n < nonce ==> !meets_target(with_nonce(proto, n)),
            decreases i32::MAX - nonce,
        {
            let data = encode_header(
                prev_block_hash.as_str(),
                merkle.as_slice(),
                timestamp,
                TARGET_HEXS as u64,
                nonce,
            );
            let digest = sha256(data.as_slice());
            proof {
                lemma_hex_zero_prefix(digest@);
            }
            if digest[0] == 0 && digest[1] == 0 {
                let hash = to_hex(digest.as_slice());
                let b = Block { timestamp, transactions, prev_block_hash, hash, nonce, height };
                proof {
                    assert forall|n: i32| 0 <= n < b@.nonce implies !meets_target(
                        with_nonce(b@, n),
                    ) by {
                        assert(block_pow_data(with_nonce(b@, n)) == block_pow_data(
                            with_nonce(proto, n),
                        ));
                    }
                }
                return Ok(b);
            }
            proof {
                assert(block_pow_data(with_nonce(proto, nonce)) == data@);
                assert(!meets_target(with_nonce(proto, nonce)));
            }
            if nonce == i32::MAX {
                proof {
                    assert forall|n: i32| 0 <= n implies !meets_target(
                        #[trigger] with_nonce(proto, n),
                    ) by {
                        if n < nonce {
                            assert(!meets_target(with_nonce(proto, n)));
                        }
                    }
                    assert(nonce_space_exhausted(tv, prev_block_hash@, height, timestamp));
                    assert(mining_exhausted_for(
                        transactions@,
                        prev_block_hash@,
                        height,
                        timestamp,
                    ));
                }
                return Err(LedgerError::MiningExhausted);
            }
            nonce = nonce + 1;
        }
    }

    /// Builds the genesis block: the given coinbase transaction alone, an
    /// empty previous hash, and height 0.
    pub fn new_genesis_block(coinbase: Transaction) -> (r: Result<Block, LedgerError>)
        ensures
            match r {
                Ok(b) => {
                    &&& b@.transactions == seq![coinbase@]
                    &&& b@.prev_block_hash.len() == 0
                    &&& b@.height == 0
                    &&& block_mined(b@)
                },
                Err(e) => e == LedgerError::MiningExhausted && exists|ts: i64|
                    #[trigger] nonce_space_exhausted(seq![coinbase@], Seq::empty(), 0, ts),
            },
    {
        let mut txs: Vec<Transaction> = Vec::new();
        txs.push(coinbase);
        let ghost c = txs@[0]@;
        let ghost txsv = txs@;
        proof {
            reveal_strlit("");
            assert(txs@.map_values(|t: Transaction| t@) =~= seq![c]);
        }
        let r = Block::new_block(txs, String::new(), 0);
        proof {
            if r is Err {
                let ts = choose|ts: i64| mining_exhausted_for(txsv, Seq::empty(), 0, ts);
                assert(nonce_space_exhausted(seq![c], Seq::empty(), 0, ts));
            }
        }
        r
    }
}

} // verus!
