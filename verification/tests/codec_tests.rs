use powledger::block::Block;
use powledger::codec::{
    decode_block, decode_outputs, decode_transaction, encode_block, encode_outputs,
    encode_transaction,
};
use powledger::errors::LedgerError;
use powledger::hashes::{hash_pub_key, to_hex};
use powledger::transaction::Transaction;
use powledger::tx::{TXInput, TXOutput, TXOutputs};

fn sample_tx() -> Transaction {
    Transaction {
        id: String::from("f00d"),
        vin: vec![
            TXInput {
                txid: String::from("aa11"),
                vout: 0,
                signature: vec![1, 2, 3],
                pub_key: vec![4, 5, 6, 7],
            },
            TXInput {
                txid: String::new(),
                vout: -1,
                signature: Vec::new(),
                pub_key: vec![9],
            },
        ],
        vout: vec![
            TXOutput { value: 10, pub_key_hash: vec![0; 20] },
            TXOutput { value: -3, pub_key_hash: vec![255; 20] },
        ],
    }
}

#[test]
fn transaction_round_trip() {
    let tx = sample_tx();
    let bytes = encode_transaction(&tx);
    let back = decode_transaction(bytes.as_slice()).expect("decode should succeed");
    assert_eq!(back, tx);
}

#[test]
fn outputs_round_trip() {
    let outs = TXOutputs {
        outputs: vec![
            TXOutput { value: 7, pub_key_hash: vec![1, 2, 3] },
            TXOutput { value: i32::MIN, pub_key_hash: Vec::new() },
        ],
    };
    let bytes = encode_outputs(&outs);
    let back = decode_outputs(bytes.as_slice()).expect("decode should succeed");
    assert_eq!(back, outs);
}

#[test]
fn block_round_trip() {
    let block = Block {
        timestamp: -12345,
        transactions: vec![sample_tx()],
        prev_block_hash: String::from("0000abcd"),
        hash: String::from("0000ef01"),
        nonce: 42,
        height: 3,
    };
    let bytes = encode_block(&block);
    let back = decode_block(bytes.as_slice()).expect("decode should succeed");
    assert_eq!(back, block);
}

#[test]
fn unicode_text_round_trips() {
    let tx = Transaction {
        id: String::from("ünïcødé \u{1F600}"),
        vin: Vec::new(),
        vout: Vec::new(),
    };
    let bytes = encode_transaction(&tx);
    let back = decode_transaction(bytes.as_slice()).expect("decode should succeed");
    assert_eq!(back, tx);
}

#[test]
fn malformed_bytes_are_a_serialization_error() {
    let garbage = vec![255u8, 1, 2, 3];
    assert_eq!(decode_transaction(garbage.as_slice()), Err(LedgerError::Serialization));
    assert_eq!(decode_block(garbage.as_slice()), Err(LedgerError::Serialization));
    assert_eq!(decode_outputs(garbage.as_slice()), Err(LedgerError::Serialization));
}

#[test]
fn trailing_bytes_are_a_serialization_error() {
    let tx = sample_tx();
    let mut bytes = encode_transaction(&tx);
    bytes.push(0);
    assert_eq!(decode_transaction(bytes.as_slice()), Err(LedgerError::Serialization));
}

#[test]
fn hex_rendering_is_exact() {
    assert_eq!(to_hex(&[0x0F, 0xA0, 0x00, 0xFF]), "0FA000FF");
    assert_eq!(to_hex(&[]), "");
}

#[test]
fn hash_pub_key_is_a_twenty_byte_digest() {
    let mut key = vec![7u8; 32];
    let original = key.clone();
    hash_pub_key(&mut key);
    assert_eq!(key.len(), 20);
    assert_ne!(key, original[0..20].to_vec());
    // the same input must give the same digest
    let mut again = original.clone();
    hash_pub_key(&mut again);
    assert_eq!(key, again);
}

#[test]
fn transaction_hash_is_hex_and_ignores_id() {
    let tx = sample_tx();
    let h1 = tx.hash().expect("hash");
    assert_eq!(h1.len(), 64);
    assert!(h1.chars().all(|c| c.is_ascii_hexdigit()));
    let mut renamed = tx.clone();
    renamed.id = String::from("something else");
    assert_eq!(renamed.hash().expect("hash"), h1);
    let mut changed = tx.clone();
    changed.vout[0].value = 11;
    assert_ne!(changed.hash().expect("hash"), h1);
}
