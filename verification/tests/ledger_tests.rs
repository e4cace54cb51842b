use powledger::blockchain::Blockchain;
use powledger::tx::{TXInput, TXOutput};
use powledger::errors::LedgerError;
use powledger::hashes::hash_pub_key;
use powledger::transaction::Transaction;
use powledger::utxoset::UTXOSet;
use powledger::wallet::Wallets;
use powledger::SUBSIDY;

fn two_wallets() -> (Wallets, String, String) {
    let mut ws = Wallets::new().expect("wallets");
    let addr_a = ws.create_wallet();
    let addr_b = ws.create_wallet();
    (ws, addr_a, addr_b)
}

fn genesis_state(addr_a: &str) -> UTXOSet {
    let bc = Blockchain::create_blockchain(addr_a.to_string()).expect("genesis");
    let mut utxo = UTXOSet::new(bc);
    utxo.reindex().expect("reindex");
    utxo
}

#[test]
fn scenario_a_genesis_balance_is_the_subsidy() {
    let (_ws, addr_a, _addr_b) = two_wallets();
    let utxo = genesis_state(&addr_a);
    assert_eq!(utxo.get_balance(&addr_a), Ok(SUBSIDY));
}

#[test]
fn scenario_b_send_moves_value() {
    let (ws, addr_a, addr_b) = two_wallets();
    let mut utxo = genesis_state(&addr_a);
    let wallet_a = ws.get_wallet(&addr_a).expect("wallet a");
    let tx = Transaction::new_utxo(wallet_a, &addr_b, 4, &utxo).expect("send");
    let block = utxo.blockchain.add_block(vec![tx]).expect("append");
    utxo.update(&block).expect("update");
    assert_eq!(utxo.get_balance(&addr_a), Ok(6));
    assert_eq!(utxo.get_balance(&addr_b), Ok(4));
}

#[test]
fn scenario_c_overdraft_fails_and_changes_nothing() {
    let (ws, addr_a, addr_b) = two_wallets();
    let utxo = genesis_state(&addr_a);
    let wallet_a = ws.get_wallet(&addr_a).expect("wallet a");
    let r = Transaction::new_utxo(wallet_a, &addr_b, 50, &utxo);
    assert_eq!(r, Err(LedgerError::InsufficientFunds { available: SUBSIDY }));
    assert_eq!(utxo.blockchain.blocks.len(), 1);
    assert_eq!(utxo.get_balance(&addr_a), Ok(SUBSIDY));
    assert_eq!(utxo.get_balance(&addr_b), Ok(0));
    assert_eq!(utxo.count_transactions(), Ok(1));
}

#[test]
fn scenario_d_one_entry_per_coinbase_block() {
    let (_ws, addr_a, _addr_b) = two_wallets();
    let mut utxo = genesis_state(&addr_a);
    let n: i32 = 3;
    for round in 1..n {
        let cb = Transaction::new_coinbase(addr_a.clone(), format!("extra reward {}", round))
            .expect("coinbase");
        let block = utxo.blockchain.add_block(vec![cb]).expect("append");
        utxo.update(&block).expect("update");
    }
    assert_eq!(utxo.count_transactions(), Ok(n));
    // conservation: every block minted one subsidy, nothing was spent
    assert_eq!(utxo.get_balance(&addr_a), Ok(n * SUBSIDY));
    let mut rebuilt = utxo;
    rebuilt.reindex().expect("reindex");
    assert_eq!(rebuilt.count_transactions(), Ok(n));
}

#[test]
fn coinbase_has_the_fixed_shape() {
    let (_ws, addr_a, _addr_b) = two_wallets();
    let tx = Transaction::new_coinbase(addr_a.clone(), String::from("memo")).expect("coinbase");
    assert!(tx.is_coinbase());
    assert_eq!(tx.vin.len(), 1);
    assert!(tx.vin[0].txid.is_empty());
    assert_eq!(tx.vin[0].vout, -1);
    assert_eq!(tx.vout.len(), 1);
    assert_eq!(tx.vout[0].value, SUBSIDY);
    assert_eq!(tx.vin[0].pub_key, "memo".as_bytes().to_vec());
}

#[test]
fn generated_coinbase_memo_carries_the_reward_text() {
    let (_ws, addr_a, _addr_b) = two_wallets();
    let tx = Transaction::new_coinbase(addr_a.clone(), String::new()).expect("coinbase");
    let expected_prefix = format!("Reward to '{}'", addr_a);
    assert_eq!(tx.vin[0].pub_key.len(), expected_prefix.len() + 32);
    assert_eq!(&tx.vin[0].pub_key[0..expected_prefix.len()], expected_prefix.as_bytes());
}

#[test]
fn mined_blocks_meet_the_difficulty_target() {
    let (_ws, addr_a, _addr_b) = two_wallets();
    let utxo = genesis_state(&addr_a);
    let genesis = &utxo.blockchain.blocks[0];
    let hash = genesis.get_hash();
    assert_eq!(hash.len(), 64);
    assert!(hash.starts_with("0000"));
}

#[test]
fn traversal_is_hash_linked_and_complete() {
    let (_ws, addr_a, _addr_b) = two_wallets();
    let mut utxo = genesis_state(&addr_a);
    for round in 0..2 {
        let cb = Transaction::new_coinbase(addr_a.clone(), format!("x{}", round)).expect("coinbase");
        let block = utxo.blockchain.add_block(vec![cb]).expect("append");
        utxo.update(&block).expect("update");
    }
    let mut it = utxo.blockchain.iter();
    let mut visited = Vec::new();
    while let Some(b) = it.next() {
        visited.push(b);
    }
    assert_eq!(visited.len(), utxo.blockchain.blocks.len());
    for w in visited.windows(2) {
        assert_eq!(w[0].get_prev_hash(), w[1].get_hash());
    }
    assert_eq!(visited.last().unwrap().get_prev_hash(), String::new());
}

#[test]
fn reindex_twice_is_byte_identical() {
    let (ws, addr_a, addr_b) = two_wallets();
    let mut utxo = genesis_state(&addr_a);
    let wallet_a = ws.get_wallet(&addr_a).expect("wallet a");
    let tx = Transaction::new_utxo(wallet_a, &addr_b, 4, &utxo).expect("send");
    let block = utxo.blockchain.add_block(vec![tx]).expect("append");
    utxo.update(&block).expect("update");
    utxo.reindex().expect("first rebuild");
    let first = utxo.index.clone_map();
    utxo.reindex().expect("second rebuild");
    assert_eq!(utxo.index, first);
    for (i, (_, outs)) in utxo.index.entries.iter().enumerate() {
        let a = powledger::codec::encode_outputs(outs);
        let b = powledger::codec::encode_outputs(&first.entries[i].1);
        assert_eq!(a, b);
    }
}

#[test]
fn update_removes_spent_and_records_created() {
    let (ws, addr_a, addr_b) = two_wallets();
    let mut utxo = genesis_state(&addr_a);
    let genesis_txid = utxo.blockchain.blocks[0].transactions[0].id.clone();
    assert!(utxo.index.key_position(&genesis_txid).is_some());
    let wallet_a = ws.get_wallet(&addr_a).expect("wallet a");
    let tx = Transaction::new_utxo(wallet_a, &addr_b, 4, &utxo).expect("send");
    let spend_txid = tx.id.clone();
    let block = utxo.blockchain.add_block(vec![tx]).expect("append");
    utxo.update(&block).expect("update");
    // the consumed genesis output is gone, the new outputs are queryable
    assert!(utxo.index.key_position(&genesis_txid).is_none());
    let pos = utxo.index.key_position(&spend_txid).expect("new entry");
    assert_eq!(utxo.index.entries[pos].1.outputs.len(), 2);
    let mut pkh_b = ws.get_wallet(&addr_b).expect("wallet b").public_key.clone();
    hash_pub_key(&mut pkh_b);
    let unspent_b = utxo.find_utxo(&pkh_b).expect("query");
    assert_eq!(unspent_b.outputs.len(), 1);
    assert_eq!(unspent_b.outputs[0].value, 4);
}

#[test]
fn spend_transactions_are_signed_per_input() {
    let (ws, addr_a, addr_b) = two_wallets();
    let utxo = genesis_state(&addr_a);
    let wallet_a = ws.get_wallet(&addr_a).expect("wallet a");
    let tx = Transaction::new_utxo(wallet_a, &addr_b, 4, &utxo).expect("send");
    assert!(!tx.vin.is_empty());
    for vin in &tx.vin {
        assert_eq!(vin.signature.len(), 64);
        assert_eq!(vin.pub_key, wallet_a.public_key);
    }
}

#[test]
fn add_block_without_a_chain_is_not_found() {
    let mut bc = Blockchain::new();
    let r = bc.add_block(Vec::new());
    assert_eq!(r, Err(LedgerError::NotFound));
}

#[test]
fn missing_transaction_is_not_found() {
    let (_ws, addr_a, _addr_b) = two_wallets();
    let utxo = genesis_state(&addr_a);
    let r = utxo.blockchain.find_transacton("no such id");
    assert_eq!(r, Err(LedgerError::NotFound));
}

#[test]
fn bad_address_is_an_encoding_error() {
    let r = TXOutput::new(5, String::from("!!not an address!!"));
    assert_eq!(r, Err(LedgerError::Encoding));
    let (_ws, addr_a, _addr_b) = two_wallets();
    let utxo = genesis_state(&addr_a);
    assert_eq!(utxo.get_balance("!!not an address!!"), Err(LedgerError::Encoding));
}

#[test]
fn hostile_address_text_is_rejected_not_panicked_on() {
    let (_ws, addr_a, _addr_b) = two_wallets();
    let utxo = genesis_state(&addr_a);
    // non-ASCII text, including a code point whose UTF-8 holds the byte 0x80
    let non_ascii = format!("addr\u{0080}\u{00e9}");
    assert_eq!(TXOutput::new(1, non_ascii.clone()), Err(LedgerError::Encoding));
    assert_eq!(utxo.get_balance(&non_ascii), Err(LedgerError::Encoding));
    // text shaped like a prefixed address from another codec
    let prefixed = "bitcoincash:qpzry9x8gf2tvdw0s3jn54khce6mua7lq";
    assert_eq!(TXOutput::new(1, prefixed.to_string()), Err(LedgerError::Encoding));
    assert_eq!(utxo.get_balance(prefixed), Err(LedgerError::Encoding));
    // a short checksum-sized string must fail cleanly as well
    assert_eq!(utxo.get_balance("q"), Err(LedgerError::Encoding));
}

#[test]
fn signing_against_a_malformed_previous_transaction_is_rejected() {
    let mut tx = Transaction {
        id: String::from("spend"),
        vin: vec![TXInput {
            txid: String::from("known"),
            vout: 0,
            signature: Vec::new(),
            pub_key: Vec::new(),
        }],
        vout: Vec::new(),
    };
    // the referenced transaction exists but has no outputs to spend
    let prevs = vec![Transaction { id: String::from("known"), vin: Vec::new(), vout: Vec::new() }];
    let original = tx.clone();
    let r = tx.sign(&[0u8; 64], &prevs);
    assert_eq!(r, Err(LedgerError::InvalidPreviousTransaction));
    assert_eq!(tx, original);
}

#[test]
fn addresses_decode_back_to_the_wallet_key_hash() {
    let (ws, addr_a, _addr_b) = two_wallets();
    let wallet_a = ws.get_wallet(&addr_a).expect("wallet a");
    let mut pkh = wallet_a.public_key.clone();
    hash_pub_key(&mut pkh);
    let out = TXOutput::new(5, addr_a.clone()).expect("lock");
    assert_eq!(out.pub_key_hash, pkh);
    assert!(out.can_be_unlock_with(&pkh));
    assert!(!out.can_be_unlock_with(&[0u8; 20]));
}

#[test]
fn wallet_collection_lists_and_finds() {
    let (ws, addr_a, addr_b) = two_wallets();
    let addrs = ws.get_all_addresses();
    assert_eq!(addrs, vec![addr_a.clone(), addr_b.clone()]);
    assert!(ws.get_wallet(&addr_a).is_some());
    assert!(ws.get_wallet("absent").is_none());
    let wa = ws.get_wallet(&addr_a).unwrap();
    assert_eq!(wa.get_address(), addr_a);
    assert_eq!(wa.secret_key.len(), 64);
    assert_eq!(wa.public_key.len(), 32);
}

#[test]
fn error_descriptions_are_stable() {
    assert_eq!(LedgerError::NotFound.describe(), "not found");
    assert_eq!(
        LedgerError::InsufficientFunds { available: 3 }.describe(),
        "insufficient funds"
    );
    assert_eq!(LedgerError::MiningExhausted.describe(), "nonce space exhausted");
}
