//! Key layout of the store. Every entity kind owns a namespace, told
//! apart by the first byte of the key, so the indices can never collide:
//! not even the reserved chain-metadata slots can be reached through the
//! generic scalar namespace.

use vstd::prelude::*;
use crate::felt::{Felt, spec_u64_be, u64_be};

verus! {

pub open spec fn spec_tx_key(h: Seq<u8>) -> Seq<u8> {
    seq![1u8] + h
}

pub open spec fn spec_receipt_key(h: Seq<u8>) -> Seq<u8> {
    seq![2u8] + h
}

pub open spec fn spec_block_hash_key(h: Seq<u8>) -> Seq<u8> {
    seq![3u8] + h
}

pub open spec fn spec_block_height_key(n: u64) -> Seq<u8> {
    seq![4u8] + spec_u64_be(n)
}

pub open spec fn spec_scalar_key(k: Seq<u8>) -> Seq<u8> {
    seq![5u8] + k
}

pub open spec fn spec_pending_block_key() -> Seq<u8> {
    seq![6u8]
}

/// The chain-metadata slot holding the height counter, under the
/// reserved name `height` (its six ASCII bytes follow the namespace
/// byte). It lives in its own namespace, so no scalar write can ever
/// collide with it.
pub open spec fn spec_height_key() -> Seq<u8> {
    seq![7u8, 104u8, 101u8, 105u8, 103u8, 104u8, 116u8]
}

fn keyed(tag: u8, body: Vec<u8>) -> (r: Vec<u8>)
    ensures
        r@ == seq![tag] + body@,
{
    let ghost bv = body@;
    let mut k: Vec<u8> = Vec::new();
    k.push(tag);
    let mut b = body;
    k.append(&mut b);
    proof {
        assert(k@ =~= seq![tag] + bv);
    }
    k
}

pub fn tx_key(h: &Felt) -> (r: Vec<u8>)
    ensures
        r@ == spec_tx_key(h@),
{
    keyed(1u8, h.to_vec())
}

pub fn receipt_key(h: &Felt) -> (r: Vec<u8>)
    ensures
        r@ == spec_receipt_key(h@),
{
    keyed(2u8, h.to_vec())
}

pub fn block_hash_key(h: &Felt) -> (r: Vec<u8>)
    ensures
        r@ == spec_block_hash_key(h@),
{
    keyed(3u8, h.to_vec())
}

pub fn block_height_key(n: u64) -> (r: Vec<u8>)
    ensures
        r@ == spec_block_height_key(n),
{
    keyed(4u8, u64_be(n))
}

pub fn scalar_key(k: Vec<u8>) -> (r: Vec<u8>)
    ensures
        r@ == spec_scalar_key(k@),
{
    keyed(5u8, k)
}

pub fn pending_block_key() -> (r: Vec<u8>)
    ensures
        r@ == spec_pending_block_key(),
{
    let mut k: Vec<u8> = Vec::new();
    k.push(6u8);
    proof {
        assert(k@ =~= spec_pending_block_key());
    }
    k
}

pub fn height_key() -> (r: Vec<u8>)
    ensures
        r@ == spec_height_key(),
{
    let mut k: Vec<u8> = Vec::new();
    k.push(7u8);
    k.push(104u8);
    k.push(101u8);
    k.push(105u8);
    k.push(103u8);
    k.push(104u8);
    k.push(116u8);
    proof {
        assert(k@ =~= spec_height_key());
    }
    k
}

/// Keys of one namespace are as distinct as what they are built from,
/// and keys of different namespaces are never equal.
pub proof fn lemma_keys_injective()
    ensures
        forall|a: Seq<u8>, b: Seq<u8>| #[trigger] spec_tx_key(a) == #[trigger] spec_tx_key(b) ==> a == b,
        forall|a: Seq<u8>, b: Seq<u8>| #[trigger] spec_receipt_key(a) == #[trigger] spec_receipt_key(b) ==> a == b,
        forall|a: Seq<u8>, b: Seq<u8>| #[trigger] spec_block_hash_key(a) == #[trigger] spec_block_hash_key(b) ==> a == b,
        forall|a: Seq<u8>, b: Seq<u8>| #[trigger] spec_scalar_key(a) == #[trigger] spec_scalar_key(b) ==> a == b,
{
    assert forall|a: Seq<u8>, b: Seq<u8>| #[trigger] spec_tx_key(a) == #[trigger] spec_tx_key(b) implies a == b by {
        assert(a =~= spec_tx_key(a).skip(1));
        assert(b =~= spec_tx_key(b).skip(1));
    }
    assert forall|a: Seq<u8>, b: Seq<u8>| #[trigger] spec_receipt_key(a) == #[trigger] spec_receipt_key(b) implies a == b by {
        assert(a =~= spec_receipt_key(a).skip(1));
        assert(b =~= spec_receipt_key(b).skip(1));
    }
    assert forall|a: Seq<u8>, b: Seq<u8>| #[trigger] spec_block_hash_key(a) == #[trigger] spec_block_hash_key(b) implies a == b by {
        assert(a =~= spec_block_hash_key(a).skip(1));
        assert(b =~= spec_block_hash_key(b).skip(1));
    }
    assert forall|a: Seq<u8>, b: Seq<u8>| #[trigger] spec_scalar_key(a) == #[trigger] spec_scalar_key(b) implies a == b by {
        assert(a =~= spec_scalar_key(a).skip(1));
        assert(b =~= spec_scalar_key(b).skip(1));
    }
}

} // verus!
