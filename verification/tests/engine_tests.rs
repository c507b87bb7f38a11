use sequencer_store::kv::{InMemoryKv, SledKv};
use sequencer_store::store::StoreEngine;

fn check_value_round_trip(engine: &mut StoreEngine) {
    let key = vec![9u8, 8, 7];
    let value = vec![1u8, 2, 3, 4];
    engine.set_value(key.clone(), value.clone()).unwrap();
    assert_eq!(Some(value), engine.get_value(key).unwrap());
    assert_eq!(None, engine.get_value(vec![200u8, 201]).unwrap());

    // A later write to the same key wins.
    engine.set_value(vec![9u8, 8, 7], vec![5u8]).unwrap();
    assert_eq!(Some(vec![5u8]), engine.get_value(vec![9u8, 8, 7]).unwrap());
}

#[test]
fn in_memory_value_round_trip() {
    let mut engine = StoreEngine::InMemory(InMemoryKv::new());
    check_value_round_trip(&mut engine);
}

#[test]
fn sled_value_round_trip() {
    {
        let db = sled::open("/tmp/sequencer_store_sled_engine/test.sled").unwrap();
        db.clear().unwrap();
        db.flush().unwrap();
    }
    let kv = SledKv::open("/tmp/sequencer_store_sled_engine/test.sled").unwrap();
    let mut engine = StoreEngine::Sled(kv);
    check_value_round_trip(&mut engine);
}

#[test]
fn sled_values_survive_reopening() {
    {
        let db = sled::open("/tmp/sequencer_store_sled_reopen/test.sled").unwrap();
        db.clear().unwrap();
        db.flush().unwrap();
    }
    {
        let kv = SledKv::open("/tmp/sequencer_store_sled_reopen/test.sled").unwrap();
        let mut engine = StoreEngine::Sled(kv);
        engine.set_value(vec![1u8], vec![42u8]).unwrap();
    }
    let kv = SledKv::open("/tmp/sequencer_store_sled_reopen/test.sled").unwrap();
    let engine = StoreEngine::Sled(kv);
    assert_eq!(Some(vec![42u8]), engine.get_value(vec![1u8]).unwrap());
}
