//! The byte-level key-value engines underneath the store: a verified
//! in-memory one, and a durable one backed by an embedded tree whose
//! calls are trusted at this boundary. Each is modelled as a map from
//! byte-string keys to byte-string values.

use vstd::prelude::*;
use crate::error::StoreError;
use crate::codec::copy_range;

verus! {

/// Whether two byte vectors hold the same bytes.
pub fn bytes_eq(a: &Vec<u8>, b: &Vec<u8>) -> (r: bool)
    ensures
        r <==> a@ == b@,
{
    if a.len() != b.len() {
        return false;
    }
    let n: usize = a.len();
    let mut i: usize = 0;
    while i < n
        invariant
            n == a@.len(),
            n == b@.len(),
            i <= n,
            forall|j: int| 0 <= j < i ==> a@[j] == b@[j],
        decreases n - i,
    {
        if a[i] != b[i] {
            return false;
        }
        i = i + 1;
    }
    proof {
        assert(a@ =~= b@);
    }
    true
}

/// The map an entry list stands for: later entries win.
pub open spec fn assoc_view(s: Seq<(Vec<u8>, Vec<u8>)>) -> Map<Seq<u8>, Seq<u8>>
    decreases s.len(),
{
    if s.len() == 0 {
        Map::empty()
    } else {
        assoc_view(s.drop_last()).insert(s.last().0@, s.last().1@)
    }
}

/// The volatile engine: an append-only entry list where a later write to
/// a key shadows the earlier ones. Discarded with the process.
pub struct InMemoryKv {
    entries: Vec<(Vec<u8>, Vec<u8>)>,
}

impl View for InMemoryKv {
    type V = Map<Seq<u8>, Seq<u8>>;

    closed spec fn view(&self) -> Map<Seq<u8>, Seq<u8>> {
        assoc_view(self.entries@)
    }
}

impl InMemoryKv {
    /// A fresh, empty engine.
    pub fn new() -> (r: InMemoryKv)
        ensures
            r@ == Map::<Seq<u8>, Seq<u8>>::empty(),
    {
        InMemoryKv { entries: Vec::new() }
    }

    /// Sets the key to the value.
    pub fn set(&mut self, key: Vec<u8>, value: Vec<u8>)
        ensures
            final(self)@ == old(self)@.insert(key@, value@),
    {
        let ghost old_entries = self.entries@;
        self.entries.push((key, value));
        proof {
            assert(self.entries@.drop_last() =~= old_entries);
        }
    }

    /// The value last set for the key, if any.
    pub fn get(&self, key: &Vec<u8>) -> (r: Option<Vec<u8>>)
        ensures
            match r {
                Some(v) => self@.contains_key(key@) && v@ == self@[key@],
                None => !self@.contains_key(key@),
            },
    {
        let n: usize = self.entries.len();
        let mut i: usize = n;
        proof {
            assert(self.entries@.take(n as int) =~= self.entries@);
        }
        while i > 0
            invariant
                i <= n,
                n == self.entries@.len(),
                self@.contains_key(key@) == assoc_view(self.entries@.take(i as int)).contains_key(key@),
                self@.contains_key(key@) ==> self@[key@] == assoc_view(self.entries@.take(i as int))[key@],
            decreases i,
        {
            let hit = bytes_eq(&self.entries[i - 1].0, key);
            proof {
                assert(self.entries@.take(i as int).drop_last() =~= self.entries@.take(i - 1));
                assert(self.entries@.take(i as int).last() == self.entries@[i - 1]);
            }
            if hit {
                let vlen: usize = self.entries[i - 1].1.len();
                let v = copy_range(&self.entries[i - 1].1, 0, vlen);
                proof {
                    assert(v@ =~= self.entries@[i - 1].1@);
                }
                return Some(v);
            }
            i = i - 1;
        }
        proof {
            assert(self.entries@.take(0) =~= Seq::<(Vec<u8>, Vec<u8>)>::empty());
        }
        None
    }
}

#[verifier::external_type_specification]
#[verifier::external_body]
pub struct ExSledDb(sled::Db);

/// The durable engine: an embedded on-disk tree. The handle is owned
/// exclusively (the library never clones it, and the tree's own file
/// lock keeps a second process out), so its contents can be tracked as
/// a ghost map that the trusted calls below update.
pub struct SledKv {
    db: sled::Db,
    contents: Ghost<Map<Seq<u8>, Seq<u8>>>,
}

impl View for SledKv {
    type V = Map<Seq<u8>, Seq<u8>>;

    closed spec fn view(&self) -> Map<Seq<u8>, Seq<u8>> {
        self.contents@
    }
}

impl SledKv {
    /// Relies on sled::open: opens or creates the tree rooted at `path`,
    /// failing if the medium cannot be opened. Nothing is assumed about
    /// what the tree already holds.
    #[verifier::external_body]
    pub fn open(path: &str) -> (r: Result<SledKv, StoreError>)
        ensures
            r matches Err(e) ==> e == StoreError::OpenFailed,
    {
        match sled::open(path) {
            Ok(db) => Ok(SledKv { db, contents: Ghost(Map::empty()) }),
            Err(_) => Err(StoreError::OpenFailed),
        }
    }

    /// Relies on sled::Tree::insert: on success the key maps to the value
    /// and nothing else changes; on failure the write may or may not have
    /// taken effect.
    #[verifier::external_body]
    fn insert(&mut self, key: &Vec<u8>, value: &Vec<u8>) -> (r: Result<(), StoreError>)
        ensures
            r is Ok ==> final(self)@ == old(self)@.insert(key@, value@),
            r is Err ==> final(self)@ == old(self)@ || final(self)@ == old(self)@.insert(key@, value@),
            r matches Err(e) ==> e == StoreError::MediumFailure,
    {
        match self.db.insert(key.as_slice(), value.as_slice()) {
            Ok(_) => Ok(()),
            Err(_) => Err(StoreError::MediumFailure),
        }
    }

    /// Relies on sled::Tree::flush: forces earlier writes to disk and
    /// changes no contents.
    #[verifier::external_body]
    fn flush(&mut self) -> (r: Result<(), StoreError>)
        ensures
            final(self)@ == old(self)@,
            r matches Err(e) ==> e == StoreError::MediumFailure,
    {
        match self.db.flush() {
            Ok(_) => Ok(()),
            Err(_) => Err(StoreError::MediumFailure),
        }
    }

    /// Sets the key to the value, durably: the write is flushed before
    /// this returns success.
    pub fn set(&mut self, key: &Vec<u8>, value: &Vec<u8>) -> (r: Result<(), StoreError>)
        ensures
            r is Ok ==> final(self)@ == old(self)@.insert(key@, value@),
            r is Err ==> final(self)@ == old(self)@ || final(self)@ == old(self)@.insert(key@, value@),
            r matches Err(e) ==> e == StoreError::MediumFailure,
    {
        match self.insert(key, value) {
            Ok(()) => self.flush(),
            Err(e) => Err(e),
        }
    }

    /// Relies on sled::Tree::get: the value the key maps to, if any;
    /// a failure reads nothing.
    #[verifier::external_body]
    pub fn get(&self, key: &Vec<u8>) -> (r: Result<Option<Vec<u8>>, StoreError>)
        ensures
            match r {
                Ok(o) => match o {
                    Some(v) => self@.contains_key(key@) && v@ == self@[key@],
                    None => !self@.contains_key(key@),
                },
                Err(e) => e == StoreError::MediumFailure,
            },
    {
        match self.db.get(key.as_slice()) {
            Ok(Some(iv)) => Ok(Some(iv.to_vec())),
            Ok(None) => Ok(None),
            Err(_) => Err(StoreError::MediumFailure),
        }
    }
}

} // verus!
