//! The storage engine and the facade over it. An engine is one of the
//! interchangeable backends behind a single byte-level map model; the
//! facade owns exactly one engine, adds the chain-height bookkeeping,
//! and is the only thing the rest of a node calls.
//!
//! Callers that share one facade across tasks wrap it in their own
//! mutual-exclusion lock, so at most one operation runs at a time; the
//! contracts here describe each operation against the engine state it
//! observes.

use vstd::prelude::*;
use vstd::string::StringExecFns;
use crate::codec::{spec_u64_of_be, u64_of_be, copy_range, lemma_u64_be_bytes};
use crate::felt::{Felt, spec_u64_be, u64_be};
use crate::entities::{
    Transaction, TransactionV, tx_v_wf, spec_tx_bytes, encode_transaction, decode_transaction,
    MaybePendingTransactionReceipt, MaybePendingReceiptV, receipt_v_wf, receipt_hash,
    spec_receipt_bytes, encode_receipt, decode_receipt,
    MaybePendingBlockWithTxs, MaybePendingBlockV, block_v_wf, spec_block_bytes, encode_block,
    decode_block,
};
use crate::error::StoreError;
use crate::keys::{
    spec_tx_key, spec_receipt_key, spec_block_hash_key, spec_block_height_key, spec_scalar_key,
    spec_pending_block_key, spec_height_key, tx_key, receipt_key, block_hash_key,
    block_height_key, scalar_key, pending_block_key, height_key,
};
use crate::kv::{InMemoryKv, SledKv};

verus! {

/// Which backend a store is built on.
pub enum EngineType {
    RocksDB,
    Sled,
    InMemory,
}

/// A concrete storage backend. Every backend answers the same capability
/// contract below, stated over the byte map `kv()`; which one is active
/// is fixed at construction and invisible to callers of the facade.
pub enum StoreEngine {
    InMemory(InMemoryKv),
    Sled(SledKv),
}

/// The height slot read back from a byte map: present only when the
/// slot holds exactly 8 bytes, their big-endian value.
pub open spec fn spec_height_of(kv: Map<Seq<u8>, Seq<u8>>) -> Option<u64> {
    if kv.contains_key(spec_height_key()) && kv[spec_height_key()].len() == 8 {
        Some(spec_u64_of_be(kv[spec_height_key()]))
    } else {
        None
    }
}

impl StoreEngine {
    /// The byte map this engine holds.
    pub open spec fn kv(&self) -> Map<Seq<u8>, Seq<u8>> {
        match self {
            StoreEngine::InMemory(m) => m@,
            StoreEngine::Sled(s) => s@,
        }
    }

    /// Whether this engine forgets everything with the process. A
    /// volatile engine's medium cannot fail, so its operations never
    /// return a medium error.
    pub open spec fn is_volatile(&self) -> bool {
        self is InMemory
    }

    /// Sets one key of the byte map. On an error the write may or may
    /// not have taken effect; nothing else ever changes.
    fn kv_set(&mut self, key: Vec<u8>, value: Vec<u8>) -> (r: Result<(), StoreError>)
        ensures
            final(self).is_volatile() == old(self).is_volatile(),
            r is Ok ==> final(self).kv() == old(self).kv().insert(key@, value@),
            r is Err ==> final(self).kv() == old(self).kv() || final(self).kv() == old(self).kv().insert(key@, value@),
            r is Err ==> r == Err::<(), StoreError>(StoreError::MediumFailure),
            old(self).is_volatile() ==> r is Ok,
    {
        match self {
            StoreEngine::InMemory(m) => {
                m.set(key, value);
                Ok(())
            },
            StoreEngine::Sled(s) => s.set(&key, &value),
        }
    }

    /// Reads one key of the byte map.
    fn kv_get(&self, key: &Vec<u8>) -> (r: Result<Option<Vec<u8>>, StoreError>)
        ensures
            match r {
                Ok(o) => match o {
                    Some(v) => self.kv().contains_key(key@) && v@ == self.kv()[key@],
                    None => !self.kv().contains_key(key@),
                },
                Err(e) => e == StoreError::MediumFailure && !self.is_volatile(),
            },
    {
        match self {
            StoreEngine::InMemory(m) => Ok(m.get(key)),
            StoreEngine::Sled(s) => s.get(key),
        }
    }

    /// Files the transaction under its hash.
    pub fn add_transaction(&mut self, transaction: Transaction) -> (r: Result<(), StoreError>)
        ensures
            final(self).is_volatile() == old(self).is_volatile(),
            r is Ok ==> final(self).kv() == old(self).kv().insert(spec_tx_key(transaction@.transaction_hash), spec_tx_bytes(transaction@)),
            r is Err ==> final(self).kv() == old(self).kv() || final(self).kv() == old(self).kv().insert(spec_tx_key(transaction@.transaction_hash), spec_tx_bytes(transaction@)),
            r matches Err(e) ==> e == StoreError::MediumFailure,
            old(self).is_volatile() ==> r is Ok,
    {
        let key = tx_key(&transaction.transaction_hash);
        let val = encode_transaction(&transaction);
        self.kv_set(key, val)
    }

    /// The transaction filed under the hash: `None` when nothing is,
    /// the transaction when one is, an error when the medium fails or
    /// the stored bytes are no transaction.
    pub fn get_transaction(&self, tx_hash: Felt) -> (r: Result<Option<Transaction>, StoreError>)
        ensures
            match r {
                Ok(o) => match o {
                    Some(t) => tx_v_wf(t@) && self.kv().contains_key(spec_tx_key(tx_hash@)) && self.kv()[spec_tx_key(tx_hash@)] == spec_tx_bytes(t@),
                    None => !self.kv().contains_key(spec_tx_key(tx_hash@)),
                },
                Err(e) => {
                    &&& e != StoreError::OpenFailed
                    &&& e == StoreError::CorruptValue ==> self.kv().contains_key(spec_tx_key(tx_hash@))
                        && (forall|q: TransactionV| tx_v_wf(q) ==> self.kv()[spec_tx_key(tx_hash@)] != #[trigger] spec_tx_bytes(q))
                    &&& self.is_volatile() ==> e == StoreError::CorruptValue
                },
            },
    {
        let key = tx_key(&tx_hash);
        match self.kv_get(&key) {
            Err(e) => Err(e),
            Ok(None) => Ok(None),
            Ok(Some(v)) => match decode_transaction(&v) {
                Some(t) => Ok(Some(t)),
                None => Err(StoreError::CorruptValue),
            },
        }
    }

    /// Files a block. A finalized block goes under both its hash and its
    /// height, the same record under each; the pending block goes to the
    /// single pending slot.
    pub fn add_block(&mut self, block: MaybePendingBlockWithTxs) -> (r: Result<(), StoreError>)
        ensures
            final(self).is_volatile() == old(self).is_volatile(),
            old(self).is_volatile() ==> r is Ok,
            r is Ok ==> match block@ {
                MaybePendingBlockV::Block(x) => final(self).kv() == old(self).kv()
                    .insert(spec_block_hash_key(x.block_hash), spec_block_bytes(block@))
                    .insert(spec_block_height_key(x.block_number), spec_block_bytes(block@)),
                MaybePendingBlockV::Pending(_) => final(self).kv() == old(self).kv()
                    .insert(spec_pending_block_key(), spec_block_bytes(block@)),
            },
            r is Err ==> match block@ {
                MaybePendingBlockV::Block(x) => final(self).kv() == old(self).kv()
                    || final(self).kv() == old(self).kv().insert(spec_block_hash_key(x.block_hash), spec_block_bytes(block@))
                    || final(self).kv() == old(self).kv().insert(spec_block_hash_key(x.block_hash), spec_block_bytes(block@)).insert(spec_block_height_key(x.block_number), spec_block_bytes(block@)),
                MaybePendingBlockV::Pending(_) => final(self).kv() == old(self).kv()
                    || final(self).kv() == old(self).kv().insert(spec_pending_block_key(), spec_block_bytes(block@)),
            },
            r matches Err(e) ==> e == StoreError::MediumFailure,
    {
        let val = encode_block(&block);
        match &block {
            MaybePendingBlockWithTxs::Block(b) => {
                let k1 = block_hash_key(&b.block_hash);
                let k2 = block_height_key(b.block_number);
                let vlen: usize = val.len();
                let val2 = copy_range(&val, 0, vlen);
                proof {
                    assert(val2@ =~= val@);
                }
                match self.kv_set(k1, val) {
                    Ok(()) => self.kv_set(k2, val2),
                    Err(e) => Err(e),
                }
            },
            MaybePendingBlockWithTxs::Pending(_) => {
                let kp = pending_block_key();
                self.kv_set(kp, val)
            },
        }
    }

    /// The block filed under the hash, if any.
    pub fn get_block_by_hash(&self, block_hash: Felt) -> (r: Result<Option<MaybePendingBlockWithTxs>, StoreError>)
        ensures
            match r {
                Ok(o) => match o {
                    Some(b) => block_v_wf(b@) && self.kv().contains_key(spec_block_hash_key(block_hash@)) && self.kv()[spec_block_hash_key(block_hash@)] == spec_block_bytes(b@),
                    None => !self.kv().contains_key(spec_block_hash_key(block_hash@)),
                },
                Err(e) => {
                    &&& e != StoreError::OpenFailed
                    &&& e == StoreError::CorruptValue ==> self.kv().contains_key(spec_block_hash_key(block_hash@))
                        && (forall|q: MaybePendingBlockV| block_v_wf(q) ==> self.kv()[spec_block_hash_key(block_hash@)] != #[trigger] spec_block_bytes(q))
                    &&& self.is_volatile() ==> e == StoreError::CorruptValue
                },
            },
    {
        let key = block_hash_key(&block_hash);
        match self.kv_get(&key) {
            Err(e) => Err(e),
            Ok(None) => Ok(None),
            Ok(Some(v)) => match decode_block(&v) {
                Some(b) => Ok(Some(b)),
                None => Err(StoreError::CorruptValue),
            },
        }
    }

    /// The block filed under the height, if any.
    pub fn get_block_by_height(&self, block_height: u64) -> (r: Result<Option<MaybePendingBlockWithTxs>, StoreError>)
        ensures
            match r {
                Ok(o) => match o {
                    Some(b) => block_v_wf(b@) && self.kv().contains_key(spec_block_height_key(block_height)) && self.kv()[spec_block_height_key(block_height)] == spec_block_bytes(b@),
                    None => !self.kv().contains_key(spec_block_height_key(block_height)),
                },
                Err(e) => {
                    &&& e != StoreError::OpenFailed
                    &&& e == StoreError::CorruptValue ==> self.kv().contains_key(spec_block_height_key(block_height))
                        && (forall|q: MaybePendingBlockV| block_v_wf(q) ==> self.kv()[spec_block_height_key(block_height)] != #[trigger] spec_block_bytes(q))
                    &&& self.is_volatile() ==> e == StoreError::CorruptValue
                },
            },
    {
        let key = block_height_key(block_height);
        match self.kv_get(&key) {
            Err(e) => Err(e),
            Ok(None) => Ok(None),
            Ok(Some(v)) => match decode_block(&v) {
                Some(b) => Ok(Some(b)),
                None => Err(StoreError::CorruptValue),
            },
        }
    }

    /// The block last filed as pending, if one ever was.
    pub fn get_pending_block(&self) -> (r: Result<Option<MaybePendingBlockWithTxs>, StoreError>)
        ensures
            match r {
                Ok(o) => match o {
                    Some(b) => block_v_wf(b@) && self.kv().contains_key(spec_pending_block_key()) && self.kv()[spec_pending_block_key()] == spec_block_bytes(b@),
                    None => !self.kv().contains_key(spec_pending_block_key()),
                },
                Err(e) => {
                    &&& e != StoreError::OpenFailed
                    &&& e == StoreError::CorruptValue ==> self.kv().contains_key(spec_pending_block_key())
                        && (forall|q: MaybePendingBlockV| block_v_wf(q) ==> self.kv()[spec_pending_block_key()] != #[trigger] spec_block_bytes(q))
                    &&& self.is_volatile() ==> e == StoreError::CorruptValue
                },
            },
    {
        let key = pending_block_key();
        match self.kv_get(&key) {
            Err(e) => Err(e),
            Ok(None) => Ok(None),
            Ok(Some(v)) => match decode_block(&v) {
                Some(b) => Ok(Some(b)),
                None => Err(StoreError::CorruptValue),
            },
        }
    }

    /// Sets one scalar entry. Scalar keys live in their own namespace:
    /// no scalar write can touch a transaction, receipt, block or
    /// metadata slot.
    pub fn set_value(&mut self, key: Vec<u8>, value: Vec<u8>) -> (r: Result<(), StoreError>)
        ensures
            final(self).is_volatile() == old(self).is_volatile(),
            r is Ok ==> final(self).kv() == old(self).kv().insert(spec_scalar_key(key@), value@),
            r is Err ==> final(self).kv() == old(self).kv() || final(self).kv() == old(self).kv().insert(spec_scalar_key(key@), value@),
            r matches Err(e) ==> e == StoreError::MediumFailure,
            old(self).is_volatile() ==> r is Ok,
    {
        let k = scalar_key(key);
        self.kv_set(k, value)
    }

    /// Reads one scalar entry; `None` when the key was never set.
    pub fn get_value(&self, key: Vec<u8>) -> (r: Result<Option<Vec<u8>>, StoreError>)
        ensures
            match r {
                Ok(o) => match o {
                    Some(v) => self.kv().contains_key(spec_scalar_key(key@)) && v@ == self.kv()[spec_scalar_key(key@)],
                    None => !self.kv().contains_key(spec_scalar_key(key@)),
                },
                Err(e) => e == StoreError::MediumFailure && !self.is_volatile(),
            },
    {
        let k = scalar_key(key);
        self.kv_get(&k)
    }

    /// Files the receipt under its transaction hash, replacing any
    /// earlier receipt for that hash.
    pub fn add_transaction_receipt(&mut self, transaction_receipt: MaybePendingTransactionReceipt) -> (r: Result<(), StoreError>)
        ensures
            final(self).is_volatile() == old(self).is_volatile(),
            r is Ok ==> final(self).kv() == old(self).kv().insert(spec_receipt_key(receipt_hash(transaction_receipt@)), spec_receipt_bytes(transaction_receipt@)),
            r is Err ==> final(self).kv() == old(self).kv() || final(self).kv() == old(self).kv().insert(spec_receipt_key(receipt_hash(transaction_receipt@)), spec_receipt_bytes(transaction_receipt@)),
            r matches Err(e) ==> e == StoreError::MediumFailure,
            old(self).is_volatile() ==> r is Ok,
    {
        let key = receipt_key(transaction_receipt.transaction_hash());
        let val = encode_receipt(&transaction_receipt);
        self.kv_set(key, val)
    }

    /// The receipt filed under the transaction hash, if any.
    pub fn get_transaction_receipt(&self, transaction_id: Felt) -> (r: Result<Option<MaybePendingTransactionReceipt>, StoreError>)
        ensures
            match r {
                Ok(o) => match o {
                    Some(x) => receipt_v_wf(x@) && self.kv().contains_key(spec_receipt_key(transaction_id@)) && self.kv()[spec_receipt_key(transaction_id@)] == spec_receipt_bytes(x@),
                    None => !self.kv().contains_key(spec_receipt_key(transaction_id@)),
                },
                Err(e) => {
                    &&& e != StoreError::OpenFailed
                    &&& e == StoreError::CorruptValue ==> self.kv().contains_key(spec_receipt_key(transaction_id@))
                        && (forall|q: MaybePendingReceiptV| receipt_v_wf(q) ==> self.kv()[spec_receipt_key(transaction_id@)] != #[trigger] spec_receipt_bytes(q))
                    &&& self.is_volatile() ==> e == StoreError::CorruptValue
                },
            },
    {
        let key = receipt_key(&transaction_id);
        match self.kv_get(&key) {
            Err(e) => Err(e),
            Ok(None) => Ok(None),
            Ok(Some(v)) => match decode_receipt(&v) {
                Some(x) => Ok(Some(x)),
                None => Err(StoreError::CorruptValue),
            },
        }
    }
}

/// The facade the rest of a node holds: one engine, chosen at
/// construction, plus the height bookkeeping. After construction the
/// height slot is always present.
pub struct Store {
    engine: StoreEngine,
}

impl Store {
    /// The byte map of the underlying engine.
    pub closed spec fn kv(&self) -> Map<Seq<u8>, Seq<u8>> {
        self.engine.kv()
    }

    /// Whether the underlying engine is the volatile one.
    pub closed spec fn is_volatile(&self) -> bool {
        self.engine.is_volatile()
    }

    /// Builds the chosen backend at a path derived from `path` by a
    /// backend-specific suffix, then makes sure the height slot exists,
    /// initializing it to zero on a fresh medium. The log-structured
    /// backend is not available in this build, so choosing it fails.
    pub fn new(path: &str, engine_type: EngineType) -> (r: Result<Store, StoreError>)
        ensures
            match r {
                Ok(s) => {
                    &&& spec_height_of(s.kv()) is Some
                    &&& (engine_type is InMemory ==> s.is_volatile() && s.kv() == Map::<Seq<u8>, Seq<u8>>::empty().insert(spec_height_key(), spec_u64_be(0)))
                    &&& (engine_type is Sled ==> !s.is_volatile())
                },
                Err(e) => e == StoreError::OpenFailed || e == StoreError::MediumFailure,
            },
            engine_type is InMemory ==> r is Ok,
            engine_type is RocksDB ==> r is Err,
    {
        let engine = match engine_type {
            EngineType::InMemory => StoreEngine::InMemory(InMemoryKv::new()),
            EngineType::Sled => {
                let mut p = path.to_owned();
                p.append(".sled");
                match SledKv::open(p.as_str()) {
                    Ok(kv) => StoreEngine::Sled(kv),
                    Err(_) => {
                        return Err(StoreError::OpenFailed);
                    },
                }
            },
            EngineType::RocksDB => {
                return Err(StoreError::OpenFailed);
            },
        };
        let mut store = Store { engine };
        proof {
            lemma_u64_be_bytes();
        }
        match store.get_height() {
            Some(_) => Ok(store),
            None => match store.set_height(0) {
                Ok(()) => Ok(store),
                Err(_) => Err(StoreError::MediumFailure),
            },
        }
    }

    /// Files the transaction under its hash.
    pub fn add_transaction(&mut self, transaction: Transaction) -> (r: Result<(), StoreError>)
        ensures
            final(self).is_volatile() == old(self).is_volatile(),
            r is Ok ==> final(self).kv() == old(self).kv().insert(spec_tx_key(transaction@.transaction_hash), spec_tx_bytes(transaction@)),
            r is Err ==> final(self).kv() == old(self).kv() || final(self).kv() == old(self).kv().insert(spec_tx_key(transaction@.transaction_hash), spec_tx_bytes(transaction@)),
            r matches Err(e) ==> e == StoreError::MediumFailure,
            old(self).is_volatile() ==> r is Ok,
    {
        self.engine.add_transaction(transaction)
    }

    /// The transaction filed under the hash, if any.
    pub fn get_transaction(&self, tx_hash: Felt) -> (r: Result<Option<Transaction>, StoreError>)
        ensures
            match r {
                Ok(o) => match o {
                    Some(t) => tx_v_wf(t@) && self.kv().contains_key(spec_tx_key(tx_hash@)) && self.kv()[spec_tx_key(tx_hash@)] == spec_tx_bytes(t@),
                    None => !self.kv().contains_key(spec_tx_key(tx_hash@)),
                },
                Err(e) => {
                    &&& e != StoreError::OpenFailed
                    &&& e == StoreError::CorruptValue ==> self.kv().contains_key(spec_tx_key(tx_hash@))
                        && (forall|q: TransactionV| tx_v_wf(q) ==> self.kv()[spec_tx_key(tx_hash@)] != #[trigger] spec_tx_bytes(q))
                    &&& self.is_volatile() ==> e == StoreError::CorruptValue
                },
            },
    {
        self.engine.get_transaction(tx_hash)
    }

    /// Files a block under both of its indices (or the pending slot).
    pub fn add_block(&mut self, block: MaybePendingBlockWithTxs) -> (r: Result<(), StoreError>)
        ensures
            final(self).is_volatile() == old(self).is_volatile(),
            old(self).is_volatile() ==> r is Ok,
            r is Ok ==> match block@ {
                MaybePendingBlockV::Block(x) => final(self).kv() == old(self).kv()
                    .insert(spec_block_hash_key(x.block_hash), spec_block_bytes(block@))
                    .insert(spec_block_height_key(x.block_number), spec_block_bytes(block@)),
                MaybePendingBlockV::Pending(_) => final(self).kv() == old(self).kv()
                    .insert(spec_pending_block_key(), spec_block_bytes(block@)),
            },
            r is Err ==> match block@ {
                MaybePendingBlockV::Block(x) => final(self).kv() == old(self).kv()
                    || final(self).kv() == old(self).kv().insert(spec_block_hash_key(x.block_hash), spec_block_bytes(block@))
                    || final(self).kv() == old(self).kv().insert(spec_block_hash_key(x.block_hash), spec_block_bytes(block@)).insert(spec_block_height_key(x.block_number), spec_block_bytes(block@)),
                MaybePendingBlockV::Pending(_) => final(self).kv() == old(self).kv()
                    || final(self).kv() == old(self).kv().insert(spec_pending_block_key(), spec_block_bytes(block@)),
            },
            r matches Err(e) ==> e == StoreError::MediumFailure,
    {
        self.engine.add_block(block)
    }

    /// The block filed under the height, if any.
    pub fn get_block_by_height(&self, block_height: u64) -> (r: Result<Option<MaybePendingBlockWithTxs>, StoreError>)
        ensures
            match r {
                Ok(o) => match o {
                    Some(b) => block_v_wf(b@) && self.kv().contains_key(spec_block_height_key(block_height)) && self.kv()[spec_block_height_key(block_height)] == spec_block_bytes(b@),
                    None => !self.kv().contains_key(spec_block_height_key(block_height)),
                },
                Err(e) => {
                    &&& e != StoreError::OpenFailed
                    &&& e == StoreError::CorruptValue ==> self.kv().contains_key(spec_block_height_key(block_height))
                        && (forall|q: MaybePendingBlockV| block_v_wf(q) ==> self.kv()[spec_block_height_key(block_height)] != #[trigger] spec_block_bytes(q))
                    &&& self.is_volatile() ==> e == StoreError::CorruptValue
                },
            },
    {
        self.engine.get_block_by_height(block_height)
    }

    /// The block filed under the hash, if any.
    pub fn get_block_by_hash(&self, block_hash: Felt) -> (r: Result<Option<MaybePendingBlockWithTxs>, StoreError>)
        ensures
            match r {
                Ok(o) => match o {
                    Some(b) => block_v_wf(b@) && self.kv().contains_key(spec_block_hash_key(block_hash@)) && self.kv()[spec_block_hash_key(block_hash@)] == spec_block_bytes(b@),
                    None => !self.kv().contains_key(spec_block_hash_key(block_hash@)),
                },
                Err(e) => {
                    &&& e != StoreError::OpenFailed
                    &&& e == StoreError::CorruptValue ==> self.kv().contains_key(spec_block_hash_key(block_hash@))
                        && (forall|q: MaybePendingBlockV| block_v_wf(q) ==> self.kv()[spec_block_hash_key(block_hash@)] != #[trigger] spec_block_bytes(q))
                    &&& self.is_volatile() ==> e == StoreError::CorruptValue
                },
            },
    {
        self.engine.get_block_by_hash(block_hash)
    }

    /// The block last filed as pending, if one ever was.
    pub fn get_pending_block(&self) -> (r: Result<Option<MaybePendingBlockWithTxs>, StoreError>)
        ensures
            match r {
                Ok(o) => match o {
                    Some(b) => block_v_wf(b@) && self.kv().contains_key(spec_pending_block_key()) && self.kv()[spec_pending_block_key()] == spec_block_bytes(b@),
                    None => !self.kv().contains_key(spec_pending_block_key()),
                },
                Err(e) => {
                    &&& e != StoreError::OpenFailed
                    &&& e == StoreError::CorruptValue ==> self.kv().contains_key(spec_pending_block_key())
                        && (forall|q: MaybePendingBlockV| block_v_wf(q) ==> self.kv()[spec_pending_block_key()] != #[trigger] spec_block_bytes(q))
                    &&& self.is_volatile() ==> e == StoreError::CorruptValue
                },
            },
    {
        self.engine.get_pending_block()
    }

    /// Sets the chain height, stored as 8 big-endian bytes in the
    /// reserved metadata slot.
    pub fn set_height(&mut self, value: u64) -> (r: Result<(), StoreError>)
        ensures
            final(self).is_volatile() == old(self).is_volatile(),
            r is Ok ==> final(self).kv() == old(self).kv().insert(spec_height_key(), spec_u64_be(value)),
            r is Err ==> final(self).kv() == old(self).kv() || final(self).kv() == old(self).kv().insert(spec_height_key(), spec_u64_be(value)),
            r matches Err(e) ==> e == StoreError::MediumFailure,
            old(self).is_volatile() ==> r is Ok,
    {
        let k = height_key();
        let v = u64_be(value);
        self.engine.kv_set(k, v)
    }

    /// The chain height, or `None` when the slot is absent, malformed,
    /// or the medium failed: a malformed slot is deliberately folded
    /// into `None` rather than reported, matching the facade's callers.
    pub fn get_height(&self) -> (r: Option<u64>)
        ensures
            r matches Some(v) ==> spec_height_of(self.kv()) == Some(v),
            self.is_volatile() ==> r == spec_height_of(self.kv()),
    {
        let k = height_key();
        match self.engine.kv_get(&k) {
            Ok(Some(v)) => {
                if v.len() == 8 {
                    let n: u64 = u64_of_be(&v, 0);
                    proof {
                        assert(v@.subrange(0, 8) =~= v@);
                    }
                    Some(n)
                } else {
                    None
                }
            },
            Ok(None) => None,
            Err(_) => None,
        }
    }

    /// Files the receipt under its transaction hash, replacing any
    /// earlier one.
    pub fn add_transaction_receipt(&mut self, transaction_receipt: MaybePendingTransactionReceipt) -> (r: Result<(), StoreError>)
        ensures
            final(self).is_volatile() == old(self).is_volatile(),
            r is Ok ==> final(self).kv() == old(self).kv().insert(spec_receipt_key(receipt_hash(transaction_receipt@)), spec_receipt_bytes(transaction_receipt@)),
            r is Err ==> final(self).kv() == old(self).kv() || final(self).kv() == old(self).kv().insert(spec_receipt_key(receipt_hash(transaction_receipt@)), spec_receipt_bytes(transaction_receipt@)),
            r matches Err(e) ==> e == StoreError::MediumFailure,
            old(self).is_volatile() ==> r is Ok,
    {
        self.engine.add_transaction_receipt(transaction_receipt)
    }

    /// The receipt filed under the transaction hash, if any.
    pub fn get_transaction_receipt(&self, transaction_id: Felt) -> (r: Result<Option<MaybePendingTransactionReceipt>, StoreError>)
        ensures
            match r {
                Ok(o) => match o {
                    Some(x) => receipt_v_wf(x@) && self.kv().contains_key(spec_receipt_key(transaction_id@)) && self.kv()[spec_receipt_key(transaction_id@)] == spec_receipt_bytes(x@),
                    None => !self.kv().contains_key(spec_receipt_key(transaction_id@)),
                },
                Err(e) => {
                    &&& e != StoreError::OpenFailed
                    &&& e == StoreError::CorruptValue ==> self.kv().contains_key(spec_receipt_key(transaction_id@))
                        && (forall|q: MaybePendingReceiptV| receipt_v_wf(q) ==> self.kv()[spec_receipt_key(transaction_id@)] != #[trigger] spec_receipt_bytes(q))
                    &&& self.is_volatile() ==> e == StoreError::CorruptValue
                },
            },
    {
        self.engine.get_transaction_receipt(transaction_id)
    }
}


} // verus!
