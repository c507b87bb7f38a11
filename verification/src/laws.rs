//! The store's laws, stated over the byte-map model that every
//! operation's contract speaks of. Together with those contracts they
//! say what a read returns after the writes the store makes, for every
//! backend alike.

use vstd::prelude::*;
use crate::codec::lemma_u64_be_bytes;
use crate::felt::spec_u64_be;
use crate::entities::{
    TransactionV, tx_v_wf, spec_tx_bytes, lemma_tx_bytes_injective,
    MaybePendingReceiptV, receipt_v_wf, receipt_hash, spec_receipt_bytes,
    lemma_receipt_bytes_injective,
    MaybePendingBlockV, BlockV, block_v_wf, spec_block_bytes, lemma_block_bytes_injective,
};
use crate::keys::{
    spec_tx_key, spec_receipt_key, spec_block_hash_key, spec_block_height_key, spec_scalar_key,
    spec_pending_block_key, spec_height_key, lemma_keys_injective,
};
use crate::store::spec_height_of;

verus! {

/// Keys of different namespaces are never equal: no write to one kind
/// of entry can ever touch another kind, and in particular no scalar
/// write can reach the reserved height slot.
pub proof fn lemma_namespaces_distinct(a: Seq<u8>, b: Seq<u8>, n: u64)
    ensures
        spec_tx_key(a) != spec_receipt_key(b),
        spec_tx_key(a) != spec_block_hash_key(b),
        spec_tx_key(a) != spec_block_height_key(n),
        spec_tx_key(a) != spec_scalar_key(b),
        spec_tx_key(a) != spec_pending_block_key(),
        spec_tx_key(a) != spec_height_key(),
        spec_receipt_key(a) != spec_block_hash_key(b),
        spec_receipt_key(a) != spec_block_height_key(n),
        spec_receipt_key(a) != spec_scalar_key(b),
        spec_receipt_key(a) != spec_pending_block_key(),
        spec_receipt_key(a) != spec_height_key(),
        spec_block_hash_key(a) != spec_block_height_key(n),
        spec_block_hash_key(a) != spec_scalar_key(b),
        spec_block_hash_key(a) != spec_pending_block_key(),
        spec_block_hash_key(a) != spec_height_key(),
        spec_block_height_key(n) != spec_scalar_key(b),
        spec_block_height_key(n) != spec_pending_block_key(),
        spec_block_height_key(n) != spec_height_key(),
        spec_scalar_key(b) != spec_pending_block_key(),
        spec_scalar_key(b) != spec_height_key(),
        spec_pending_block_key() != spec_height_key(),
{
    assert(spec_tx_key(a)[0] == 1u8);
    assert(spec_receipt_key(b)[0] == 2u8);
    assert(spec_receipt_key(a)[0] == 2u8);
    assert(spec_block_hash_key(b)[0] == 3u8);
    assert(spec_block_hash_key(a)[0] == 3u8);
    assert(spec_block_height_key(n)[0] == 4u8);
    assert(spec_scalar_key(b)[0] == 5u8);
    assert(spec_pending_block_key()[0] == 6u8);
    assert(spec_height_key()[0] == 7u8);
}

/// Scalar round trip: after `set_value(k, v)` the scalar slot for `k`
/// holds exactly `v`, and the slot of any other scalar key is exactly
/// what it was — so `get_value(k)` returns `Some(v)`, and a key that
/// was never written still reads `None`.
pub proof fn lemma_set_get_value(m: Map<Seq<u8>, Seq<u8>>, k: Seq<u8>, v: Seq<u8>, k2: Seq<u8>)
    ensures
        m.insert(spec_scalar_key(k), v).contains_key(spec_scalar_key(k)),
        m.insert(spec_scalar_key(k), v)[spec_scalar_key(k)] == v,
        k2 != k ==> m.insert(spec_scalar_key(k), v).contains_key(spec_scalar_key(k2)) == m.contains_key(spec_scalar_key(k2)),
        k2 != k && m.contains_key(spec_scalar_key(k2)) ==> m.insert(spec_scalar_key(k), v)[spec_scalar_key(k2)] == m[spec_scalar_key(k2)],
{
    lemma_keys_injective();
}

/// Transaction round trip: after `add_transaction(t)` the bytes under
/// `t`'s key are `t`'s record and no other transaction's, so whatever
/// transaction `get_transaction` then returns is `t` itself, every
/// field equal.
pub proof fn lemma_transaction_round_trip(m: Map<Seq<u8>, Seq<u8>>, t: TransactionV, u: TransactionV)
    requires
        tx_v_wf(t),
        tx_v_wf(u),
        m.insert(spec_tx_key(t.transaction_hash), spec_tx_bytes(t))[spec_tx_key(t.transaction_hash)] == spec_tx_bytes(u),
    ensures
        u == t,
{
    lemma_tx_bytes_injective(t, u);
}

/// Block round trip: after `add_block` of a finalized block both the
/// hash index and the height index hold that block's record, so the
/// two getters return blocks equal to it and to each other.
pub proof fn lemma_block_round_trip(m: Map<Seq<u8>, Seq<u8>>, x: BlockV, u1: MaybePendingBlockV, u2: MaybePendingBlockV)
    requires
        block_v_wf(MaybePendingBlockV::Block(x)),
        block_v_wf(u1),
        block_v_wf(u2),
        m.insert(spec_block_hash_key(x.block_hash), spec_block_bytes(MaybePendingBlockV::Block(x)))
            .insert(spec_block_height_key(x.block_number), spec_block_bytes(MaybePendingBlockV::Block(x)))[spec_block_hash_key(x.block_hash)]
            == spec_block_bytes(u1),
        m.insert(spec_block_hash_key(x.block_hash), spec_block_bytes(MaybePendingBlockV::Block(x)))
            .insert(spec_block_height_key(x.block_number), spec_block_bytes(MaybePendingBlockV::Block(x)))[spec_block_height_key(x.block_number)]
            == spec_block_bytes(u2),
    ensures
        u1 == MaybePendingBlockV::Block(x),
        u2 == MaybePendingBlockV::Block(x),
        u1 == u2,
{
    lemma_namespaces_distinct(x.block_hash, x.block_hash, x.block_number);
    lemma_block_bytes_injective(MaybePendingBlockV::Block(x), u1);
    lemma_block_bytes_injective(MaybePendingBlockV::Block(x), u2);
}

/// Receipt overwrite: a second receipt filed for the same transaction
/// hash lands on the same slot, so only the second is ever read back.
pub proof fn lemma_receipt_overwrite(m: Map<Seq<u8>, Seq<u8>>, r1: MaybePendingReceiptV, r2: MaybePendingReceiptV, u: MaybePendingReceiptV)
    requires
        receipt_v_wf(r1),
        receipt_v_wf(r2),
        receipt_v_wf(u),
        receipt_hash(r1) == receipt_hash(r2),
        m.insert(spec_receipt_key(receipt_hash(r1)), spec_receipt_bytes(r1))
            .insert(spec_receipt_key(receipt_hash(r2)), spec_receipt_bytes(r2))[spec_receipt_key(receipt_hash(r2))] == spec_receipt_bytes(u),
    ensures
        u == r2,
{
    lemma_receipt_bytes_injective(r2, u);
}

/// Height round trip: after `set_height(v)` the height slot holds the
/// 8 big-endian bytes of `v`, so `get_height` reads back exactly
/// `Some(v)` — for any 64-bit `v`, on every backend.
pub proof fn lemma_height_round_trip(m: Map<Seq<u8>, Seq<u8>>, v: u64)
    ensures
        spec_height_of(m.insert(spec_height_key(), spec_u64_be(v))) == Some(v),
{
    lemma_u64_be_bytes();
}

} // verus!
