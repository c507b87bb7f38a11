//! The 252-bit field-element keys that the protocol layer derives for
//! transactions, receipts and blocks. The store never computes with them:
//! it only carries them around and indexes by them, so they are held as
//! their canonical 32-byte big-endian representation.

use vstd::prelude::*;
use vstd::bytes::{spec_u64_to_le_bytes, u64_to_le_bytes};

verus! {

/// Big-endian bytes of a `u64`, as a spec-level sequence.
pub open spec fn spec_u64_be(x: u64) -> Seq<u8> {
    spec_u64_to_le_bytes(x).reverse()
}

/// Big-endian bytes of a `u64`.
pub fn u64_be(x: u64) -> (r: Vec<u8>)
    ensures
        r@ == spec_u64_be(x),
        r@.len() == 8,
{
    let le = u64_to_le_bytes(x);
    let mut out: Vec<u8> = Vec::new();
    let mut i: usize = 0;
    while i < 8
        invariant
            le@.len() == 8,
            le@ == spec_u64_to_le_bytes(x),
            i <= 8,
            out@.len() == i,
            forall|j: int| 0 <= j < i ==> out@[j] == le@[7 - j],
        decreases 8 - i,
    {
        out.push(le[8 - 1 - i]);
        i = i + 1;
    }
    proof {
        assert(out@ =~= le@.reverse());
    }
    out
}

/// A key value: exactly 32 bytes, big-endian. The invariant is kept by
/// construction, so callers never have to state it.
#[derive(Debug)]
pub struct Felt {
    bytes: Vec<u8>,
}

impl View for Felt {
    type V = Seq<u8>;

    closed spec fn view(&self) -> Seq<u8> {
        self.bytes@
    }
}

#[verifier::type_invariant]
pub closed spec fn felt_inv(f: Felt) -> bool {
    f@.len() == 32
}

/// The 32-byte sequence that stands for a small integer: 24 zero bytes
/// followed by the integer's 8 big-endian bytes.
pub open spec fn spec_felt_of_u64(v: u64) -> Seq<u8> {
    Seq::new(24, |i: int| 0u8) + spec_u64_be(v)
}

impl Felt {
    /// The field element whose numeric value is the given integer.
    pub fn from_u64(v: u64) -> (r: Felt)
        ensures
            r@ == spec_felt_of_u64(v),
            r@.len() == 32,
    {
        let mut bytes: Vec<u8> = Vec::new();
        let mut i: usize = 0;
        while i < 24
            invariant
                i <= 24,
                bytes@.len() == i,
                forall|j: int| 0 <= j < i ==> bytes@[j] == 0u8,
            decreases 24 - i,
        {
            bytes.push(0u8);
            i = i + 1;
        }
        let mut tail = u64_be(v);
        bytes.append(&mut tail);
        proof {
            assert(bytes@ =~= spec_felt_of_u64(v));
        }
        Felt { bytes }
    }

    /// The field element with exactly the given 32 bytes, or `None` when the
    /// length is wrong.
    pub fn from_bytes(bytes: Vec<u8>) -> (r: Option<Felt>)
        ensures
            match r {
                Some(f) => f@ == bytes@ && bytes@.len() == 32,
                None => bytes@.len() != 32,
            },
    {
        if bytes.len() == 32 {
            Some(Felt { bytes })
        } else {
            None
        }
    }

    /// The 32 bytes of this field element.
    pub fn as_bytes(&self) -> (r: &Vec<u8>)
        ensures
            r@ == self@,
            self@.len() == 32,
    {
        proof {
            use_type_invariant(self);
        }
        &self.bytes
    }

    /// A fresh vector holding this field element's 32 bytes.
    pub fn to_vec(&self) -> (r: Vec<u8>)
        ensures
            r@ == self@,
            r@.len() == 32,
    {
        proof {
            use_type_invariant(self);
        }
        let src = self.as_bytes();
        let mut bytes: Vec<u8> = Vec::new();
        let mut i: usize = 0;
        while i < 32
            invariant
                src@.len() == 32,
                src@ == self@,
                i <= 32,
                bytes@.len() == i,
                forall|j: int| 0 <= j < i ==> bytes@[j] == src@[j],
            decreases 32 - i,
        {
            bytes.push(src[i]);
            i = i + 1;
        }
        proof {
            assert(bytes@ =~= self@);
        }
        bytes
    }

    /// A copy of this field element.
    pub fn duplicate(&self) -> (r: Felt)
        ensures
            r@ == self@,
    {
        Felt { bytes: self.to_vec() }
    }
}

impl PartialEq for Felt {
    fn eq(&self, other: &Felt) -> (r: bool) {
        proof {
            use_type_invariant(self);
            use_type_invariant(other);
        }
        let a = self.as_bytes();
        let b = other.as_bytes();
        let mut i: usize = 0;
        while i < 32
            invariant
                a@.len() == 32,
                b@.len() == 32,
                a@ == self@,
                b@ == other@,
                i <= 32,
                forall|j: int| 0 <= j < i ==> a@[j] == b@[j],
            decreases 32 - i,
        {
            if a[i] != b[i] {
                return false;
            }
            i = i + 1;
        }
        proof {
            assert(self@ =~= other@);
        }
        true
    }
}

impl Eq for Felt {}

impl vstd::std_specs::cmp::PartialEqSpecImpl for Felt {
    open spec fn obeys_eq_spec() -> bool {
        true
    }

    open spec fn eq_spec(&self, other: &Felt) -> bool {
        self@ == other@
    }
}

} // verus!
