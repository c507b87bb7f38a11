use sequencer_store::entities::{
    BlockWithTxs, MaybePendingBlockWithTxs, MaybePendingTransactionReceipt,
    PendingBlockWithTxs, PendingTransactionReceipt, Transaction, TransactionReceipt,
};
use sequencer_store::felt::Felt;
use sequencer_store::store::{EngineType, Store};

fn new_transaction(
    tx_hash: Felt,
    tx_fee: Felt,
    tx_signature: Vec<Felt>,
    tx_nonce: Felt,
    tx_sender_address: Felt,
    tx_calldata: Vec<Felt>,
) -> Transaction {
    Transaction {
        transaction_hash: tx_hash,
        max_fee: tx_fee,
        signature: tx_signature,
        nonce: tx_nonce,
        sender_address: tx_sender_address,
        calldata: tx_calldata,
    }
}

fn check_store_tx(store: &mut Store) {
    let tx_hash = Felt::from_u64(123123);
    let tx_fee = Felt::from_u64(89853483);
    let tx_signature = vec![Felt::from_u64(183728913)];
    let tx_nonce = Felt::from_u64(5);
    let tx_sender_address = Felt::from_u64(91232018);
    let tx_calldata = vec![Felt::from_u64(10), Felt::from_u64(0)];

    let tx = new_transaction(
        tx_hash.duplicate(),
        tx_fee.duplicate(),
        vec![Felt::from_u64(183728913)],
        tx_nonce.duplicate(),
        tx_sender_address.duplicate(),
        vec![Felt::from_u64(10), Felt::from_u64(0)],
    );
    let _ = store.add_transaction(tx);

    let stored_tx = store.get_transaction(tx_hash.duplicate()).unwrap().unwrap();
    assert_eq!(tx_hash, stored_tx.transaction_hash);
    assert_eq!(tx_fee, stored_tx.max_fee);
    assert_eq!(tx_signature, stored_tx.signature);
    assert_eq!(tx_nonce, stored_tx.nonce);
    assert_eq!(tx_sender_address, stored_tx.sender_address);
    assert_eq!(tx_calldata, stored_tx.calldata);
}

fn check_store_height(store: &mut Store) {
    assert_eq!(Some(0u64), store.get_height());
    store.set_height(25u64).unwrap();
    assert_eq!(Some(25u64), store.get_height());
}

#[test]
fn test_in_memory_store() {
    let mut store = Store::new("test", EngineType::InMemory).unwrap();
    check_store_tx(&mut store);
    check_store_height(&mut store);
}

#[test]
fn test_sled_store() {
    // Start from a clean tree in case an earlier run left one behind.
    {
        let db = sled::open("/tmp/sequencer_store_sled_test/test.sled").unwrap();
        db.clear().unwrap();
        db.flush().unwrap();
    }
    let mut store = Store::new("/tmp/sequencer_store_sled_test/test", EngineType::Sled).unwrap();
    check_store_tx(&mut store);
    check_store_height(&mut store);
}

#[test]
fn rocksdb_backend_is_not_available() {
    let r = Store::new("test", EngineType::RocksDB);
    assert!(r.is_err());
}

#[test]
fn fresh_in_memory_height_starts_at_zero() {
    let store = Store::new("test", EngineType::InMemory).unwrap();
    assert_eq!(Some(0u64), store.get_height());
}

#[test]
fn set_height_round_trips_any_value() {
    let mut store = Store::new("test", EngineType::InMemory).unwrap();
    store.set_height(u64::MAX).unwrap();
    assert_eq!(Some(u64::MAX), store.get_height());
    store.set_height(0).unwrap();
    assert_eq!(Some(0u64), store.get_height());
}

#[test]
fn height_reads_are_idempotent() {
    let mut store = Store::new("test", EngineType::InMemory).unwrap();
    store.set_height(7).unwrap();
    assert_eq!(store.get_height(), store.get_height());
    assert_eq!(Some(7u64), store.get_height());
    let h = Felt::from_u64(9);
    let first = store.get_transaction(h.duplicate()).unwrap().is_some();
    let second = store.get_transaction(h.duplicate()).unwrap().is_some();
    assert_eq!(first, second);
}

#[test]
fn block_is_found_under_hash_and_height() {
    let mut store = Store::new("test", EngineType::InMemory).unwrap();
    let tx = new_transaction(
        Felt::from_u64(1),
        Felt::from_u64(2),
        vec![Felt::from_u64(3)],
        Felt::from_u64(4),
        Felt::from_u64(5),
        vec![Felt::from_u64(6), Felt::from_u64(7)],
    );
    let block = MaybePendingBlockWithTxs::Block(BlockWithTxs {
        block_hash: Felt::from_u64(777),
        parent_hash: Felt::from_u64(776),
        block_number: 9,
        transactions: vec![tx],
    });
    store.add_block(block).unwrap();

    let by_hash = store.get_block_by_hash(Felt::from_u64(777)).unwrap().unwrap();
    let by_height = store.get_block_by_height(9).unwrap().unwrap();
    for b in [&by_hash, &by_height] {
        match b {
            MaybePendingBlockWithTxs::Block(x) => {
                assert_eq!(Felt::from_u64(777), x.block_hash);
                assert_eq!(Felt::from_u64(776), x.parent_hash);
                assert_eq!(9, x.block_number);
                assert_eq!(1, x.transactions.len());
                assert_eq!(Felt::from_u64(1), x.transactions[0].transaction_hash);
                assert_eq!(vec![Felt::from_u64(6), Felt::from_u64(7)], x.transactions[0].calldata);
            }
            MaybePendingBlockWithTxs::Pending(_) => panic!("stored block came back pending"),
        }
    }
    assert!(store.get_block_by_hash(Felt::from_u64(778)).unwrap().is_none());
    assert!(store.get_block_by_height(10).unwrap().is_none());
}

#[test]
fn pending_block_fills_its_own_slot() {
    let mut store = Store::new("test", EngineType::InMemory).unwrap();
    assert!(store.get_pending_block().unwrap().is_none());
    let pending = MaybePendingBlockWithTxs::Pending(PendingBlockWithTxs {
        parent_hash: Felt::from_u64(555),
        transactions: vec![],
    });
    store.add_block(pending).unwrap();
    match store.get_pending_block().unwrap().unwrap() {
        MaybePendingBlockWithTxs::Pending(p) => {
            assert_eq!(Felt::from_u64(555), p.parent_hash);
            assert!(p.transactions.is_empty());
        }
        MaybePendingBlockWithTxs::Block(_) => panic!("pending block came back finalized"),
    }
    // The pending slot is separate from both block indices.
    assert!(store.get_block_by_hash(Felt::from_u64(555)).unwrap().is_none());
}

#[test]
fn second_receipt_replaces_the_first() {
    let mut store = Store::new("test", EngineType::InMemory).unwrap();
    let h = Felt::from_u64(4242);
    let first = MaybePendingTransactionReceipt::Receipt(TransactionReceipt {
        transaction_hash: h.duplicate(),
        actual_fee: Felt::from_u64(11),
        block_hash: Felt::from_u64(100),
        block_number: 1,
    });
    let second = MaybePendingTransactionReceipt::Pending(PendingTransactionReceipt {
        transaction_hash: h.duplicate(),
        actual_fee: Felt::from_u64(22),
    });
    store.add_transaction_receipt(first).unwrap();
    store.add_transaction_receipt(second).unwrap();
    match store.get_transaction_receipt(h).unwrap().unwrap() {
        MaybePendingTransactionReceipt::Pending(r) => {
            assert_eq!(Felt::from_u64(22), r.actual_fee);
        }
        MaybePendingTransactionReceipt::Receipt(_) => panic!("first receipt was not replaced"),
    }
}

#[test]
fn missing_transaction_reads_none() {
    let store = Store::new("test", EngineType::InMemory).unwrap();
    assert!(store.get_transaction(Felt::from_u64(31337)).unwrap().is_none());
    assert!(store.get_transaction_receipt(Felt::from_u64(31337)).unwrap().is_none());
}
