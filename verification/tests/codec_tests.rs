use sequencer_store::codec::{decode_record, encode_record, u64_of_be};
use sequencer_store::entities::{decode_transaction, encode_transaction, Transaction};
use sequencer_store::felt::{u64_be, Felt};
use sequencer_store::hex::{FeltHex, FeltHexOption, FeltPendingBlockHash};

#[test]
fn u64_big_endian_bytes_are_exact() {
    assert_eq!(vec![0u8, 0, 0, 0, 0, 0, 0, 25], u64_be(25));
    assert_eq!(vec![0u8, 0, 0, 0, 0, 0, 1, 0], u64_be(256));
    assert_eq!(vec![0xffu8; 8], u64_be(u64::MAX));
    assert_eq!(25u64, u64_of_be(&u64_be(25), 0));
}

#[test]
fn record_round_trip_is_exact() {
    let parts = vec![vec![1u8, 2], vec![], vec![9u8; 40]];
    let bytes = encode_record(&parts);
    assert_eq!(Some(parts), decode_record(&bytes));
}

#[test]
fn record_rejects_truncated_bytes() {
    let parts = vec![vec![1u8, 2, 3]];
    let mut bytes = encode_record(&parts);
    bytes.pop();
    assert_eq!(None, decode_record(&bytes));
    assert_eq!(None, decode_record(&vec![0u8; 7]));
}

#[test]
fn transaction_record_round_trips_every_field() {
    let tx = Transaction {
        transaction_hash: Felt::from_u64(123123),
        max_fee: Felt::from_u64(89853483),
        signature: vec![Felt::from_u64(183728913)],
        nonce: Felt::from_u64(5),
        sender_address: Felt::from_u64(91232018),
        calldata: vec![Felt::from_u64(10), Felt::from_u64(0)],
    };
    let bytes = encode_transaction(&tx);
    let back = decode_transaction(&bytes).unwrap();
    assert_eq!(Felt::from_u64(123123), back.transaction_hash);
    assert_eq!(Felt::from_u64(89853483), back.max_fee);
    assert_eq!(vec![Felt::from_u64(183728913)], back.signature);
    assert_eq!(Felt::from_u64(5), back.nonce);
    assert_eq!(Felt::from_u64(91232018), back.sender_address);
    assert_eq!(vec![Felt::from_u64(10), Felt::from_u64(0)], back.calldata);
}

#[test]
fn transaction_decoder_rejects_other_records() {
    let not_a_tx = encode_record(&vec![vec![1u8, 2, 3]]);
    assert!(decode_transaction(&not_a_tx).is_none());
}

#[test]
fn felt_hex_is_canonical() {
    assert_eq!("0x0", FeltHex::encode(&Felt::from_u64(0)).as_str());
    assert_eq!("0xff", FeltHex::encode(&Felt::from_u64(255)).as_str());
    assert_eq!("0x1e240", FeltHex::encode(&Felt::from_u64(123456)).as_str());
}

#[test]
fn felt_hex_decodes_its_own_output() {
    for v in [0u64, 1, 15, 16, 255, 123456, u64::MAX] {
        let f = Felt::from_u64(v);
        let text = FeltHex::encode(&f);
        assert_eq!(Some(f), FeltHex::decode(text.as_str()));
    }
}

#[test]
fn felt_hex_rejects_non_canonical_text() {
    assert_eq!(None, FeltHex::decode(""));
    assert_eq!(None, FeltHex::decode("ff"));
    assert_eq!(None, FeltHex::decode("0x"));
    assert_eq!(None, FeltHex::decode("0x0ff"));
    assert_eq!(None, FeltHex::decode("0xFF"));
    assert_eq!(None, FeltHex::decode("0xgg"));
}

#[test]
fn optional_felt_hex_has_no_prefix_and_no_text_for_none() {
    assert_eq!(None, FeltHexOption::encode(&None));
    let text = FeltHexOption::encode(&Some(Felt::from_u64(255))).unwrap();
    assert_eq!("ff", text.as_str());
    assert_eq!(Some(Some(Felt::from_u64(255))), FeltHexOption::decode("ff"));
    assert_eq!(Some(None), FeltHexOption::decode(""));
    assert_eq!(None, FeltHexOption::decode("0xff"));
}

#[test]
fn pending_block_hash_markers_read_as_absent() {
    assert_eq!(Some(None), FeltPendingBlockHash::decode(""));
    assert_eq!(Some(None), FeltPendingBlockHash::decode("pending"));
    assert_eq!(Some(None), FeltPendingBlockHash::decode("None"));
    assert_eq!(Some(Some(Felt::from_u64(10))), FeltPendingBlockHash::decode("a"));
    let text = FeltPendingBlockHash::encode(&Some(Felt::from_u64(10))).unwrap();
    assert_eq!("a", text.as_str());
}
