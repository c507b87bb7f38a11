//! The wire format for everything the store persists. A record is a list of
//! byte strings: an 8-byte big-endian count, then each part as an 8-byte
//! big-endian length followed by the part's bytes. Entity codecs are built
//! on records alone, so the round-trip and uniqueness results proved here
//! carry over to every entity.

use vstd::prelude::*;
use vstd::bytes::{spec_u64_to_le_bytes, spec_u64_from_le_bytes, lemma_auto_spec_u64_to_from_le_bytes, u64_from_le_bytes};
use crate::felt::{spec_u64_be, u64_be};

verus! {

/// The integer the 8 given big-endian bytes stand for.
pub open spec fn spec_u64_of_be(s: Seq<u8>) -> u64 {
    spec_u64_from_le_bytes(s.reverse())
}

/// Big-endian 8-byte encoding round-trips and is unique.
pub proof fn lemma_u64_be_bytes()
    ensures
        forall|x: u64| (#[trigger] spec_u64_be(x)).len() == 8,
        forall|x: u64| spec_u64_of_be(#[trigger] spec_u64_be(x)) == x,
        forall|s: Seq<u8>| s.len() == 8 ==> spec_u64_be(#[trigger] spec_u64_of_be(s)) == s,
{
    lemma_auto_spec_u64_to_from_le_bytes();
    assert forall|x: u64| (#[trigger] spec_u64_be(x)).len() == 8 by {
        assert(spec_u64_to_le_bytes(x).len() == 8);
    }
    assert forall|x: u64| spec_u64_of_be(#[trigger] spec_u64_be(x)) == x by {
        assert(spec_u64_to_le_bytes(x).reverse().reverse() =~= spec_u64_to_le_bytes(x));
    }
    assert forall|s: Seq<u8>| s.len() == 8 implies spec_u64_be(#[trigger] spec_u64_of_be(s)) == s by {
        assert(spec_u64_to_le_bytes(spec_u64_from_le_bytes(s.reverse())) == s.reverse());
        assert(s.reverse().reverse() =~= s);
    }
}

/// Reads the 8 bytes at `off` as a big-endian integer.
pub fn u64_of_be(v: &Vec<u8>, off: usize) -> (r: u64)
    requires
        off + 8 <= v@.len(),
    ensures
        r == spec_u64_of_be(v@.subrange(off as int, off as int + 8)),
{
    let n: usize = v.len();
    let mut le: Vec<u8> = Vec::new();
    let mut i: usize = 0;
    while i < 8
        invariant
            off + 8 <= n,
            n == v@.len(),
            i <= 8,
            le@.len() == i,
            forall|j: int| 0 <= j < i ==> le@[j] == v@[off + 7 - j],
        decreases 8 - i,
    {
        le.push(v[off + 7 - i]);
        i = i + 1;
    }
    proof {
        assert(le@ =~= v@.subrange(off as int, off as int + 8).reverse());
    }
    u64_from_le_bytes(le.as_slice())
}

/// A copy of `v[off .. off + len]`.
pub fn copy_range(v: &Vec<u8>, off: usize, len: usize) -> (r: Vec<u8>)
    requires
        off + len <= v@.len(),
    ensures
        r@ == v@.subrange(off as int, off as int + len as int),
{
    let n: usize = v.len();
    let mut out: Vec<u8> = Vec::new();
    let mut i: usize = 0;
    while i < len
        invariant
            off + len <= n,
            n == v@.len(),
            i <= len,
            out@.len() == i,
            forall|j: int| 0 <= j < i ==> out@[j] == v@[off + j],
        decreases len - i,
    {
        out.push(v[off + i]);
        i = i + 1;
    }
    proof {
        assert(out@ =~= v@.subrange(off as int, off as int + len as int));
    }
    out
}

/// The body of a record: each part's length, then the part, in order.
pub open spec fn chunks_bytes(parts: Seq<Seq<u8>>) -> Seq<u8>
    decreases parts.len(),
{
    if parts.len() == 0 {
        Seq::empty()
    } else {
        chunks_bytes(parts.drop_last()) + spec_u64_be(parts.last().len() as u64) + parts.last()
    }
}

/// Whether a part list can be written down: the count and every length
/// fit the 8-byte prefixes.
pub open spec fn rec_wf(parts: Seq<Seq<u8>>) -> bool {
    &&& parts.len() < 0x1_0000_0000_0000_0000
    &&& forall|i: int| 0 <= i < parts.len() ==> (#[trigger] parts[i]).len() < 0x1_0000_0000_0000_0000
}

/// The full record: the part count, then the body.
pub open spec fn rec_bytes(parts: Seq<Seq<u8>>) -> Seq<u8> {
    spec_u64_be(parts.len() as u64) + chunks_bytes(parts)
}

/// The body splits at any part boundary.
pub proof fn lemma_chunks_decompose(parts: Seq<Seq<u8>>, i: int)
    requires
        0 <= i <= parts.len(),
    ensures
        chunks_bytes(parts) == chunks_bytes(parts.take(i)) + chunks_bytes(parts.skip(i)),
    decreases parts.len() - i,
{
    if i == parts.len() {
        assert(parts.take(i) =~= parts);
        assert(parts.skip(i) =~= Seq::<Seq<u8>>::empty());
        assert(chunks_bytes(parts) =~= chunks_bytes(parts) + chunks_bytes(parts.skip(i)));
    } else {
        let d = parts.drop_last();
        lemma_chunks_decompose(d, i);
        assert(d.take(i) =~= parts.take(i));
        assert(parts.skip(i).drop_last() =~= d.skip(i));
        assert(parts.skip(i).last() == parts.last());
        assert(parts.skip(i).len() > 0);
        assert(chunks_bytes(parts.skip(i)) == chunks_bytes(d.skip(i)) + spec_u64_be(parts.last().len() as u64) + parts.last());
        assert(chunks_bytes(parts) == chunks_bytes(d) + spec_u64_be(parts.last().len() as u64) + parts.last());
        assert(chunks_bytes(parts.take(i)) + chunks_bytes(parts.skip(i)) =~= (chunks_bytes(parts.take(i)) + chunks_bytes(d.skip(i))) + spec_u64_be(parts.last().len() as u64) + parts.last());
        assert(chunks_bytes(parts) =~= chunks_bytes(parts.take(i)) + chunks_bytes(parts.skip(i)));
    }
}

/// The body of a non-empty part list starts with its first part.
pub proof fn lemma_chunks_head(parts: Seq<Seq<u8>>)
    requires
        parts.len() > 0,
    ensures
        chunks_bytes(parts) == spec_u64_be(parts[0].len() as u64) + parts[0] + chunks_bytes(parts.drop_first()),
{
    lemma_chunks_decompose(parts, 1);
    let one = parts.take(1);
    assert(one.len() == 1);
    assert(one.drop_last() =~= Seq::<Seq<u8>>::empty());
    assert(chunks_bytes(one.drop_last()) == Seq::<u8>::empty());
    assert(one.last() == parts[0]);
    assert(chunks_bytes(one) == chunks_bytes(one.drop_last()) + spec_u64_be(one.last().len() as u64) + one.last());
    assert(chunks_bytes(one) =~= spec_u64_be(parts[0].len() as u64) + parts[0]);
    assert(parts.skip(1) =~= parts.drop_first());
    assert(chunks_bytes(parts) == chunks_bytes(one) + chunks_bytes(parts.drop_first()));
    assert(chunks_bytes(parts) =~= spec_u64_be(parts[0].len() as u64) + parts[0] + chunks_bytes(parts.drop_first()));
}

/// Two part lists of the same length with the same body are the same list.
pub proof fn lemma_chunks_injective(a: Seq<Seq<u8>>, b: Seq<Seq<u8>>)
    requires
        rec_wf(a),
        rec_wf(b),
        a.len() == b.len(),
        chunks_bytes(a) == chunks_bytes(b),
    ensures
        a == b,
    decreases a.len(),
{
    lemma_u64_be_bytes();
    if a.len() == 0 {
        assert(a =~= b);
    } else {
        lemma_chunks_head(a);
        lemma_chunks_head(b);
        let ca = chunks_bytes(a);
        let la = a[0].len() as u64;
        let lb = b[0].len() as u64;
        assert(ca.subrange(0, 8) =~= spec_u64_be(la));
        assert(ca.subrange(0, 8) =~= spec_u64_be(lb));
        assert(spec_u64_of_be(spec_u64_be(la)) == la);
        assert(spec_u64_of_be(spec_u64_be(lb)) == lb);
        assert(a[0].len() == b[0].len());
        assert(a[0] =~= ca.subrange(8, 8 + a[0].len() as int));
        assert(b[0] =~= ca.subrange(8, 8 + a[0].len() as int));
        let off = 8 + a[0].len() as int;
        assert(chunks_bytes(a.drop_first()) =~= ca.subrange(off, ca.len() as int));
        assert(chunks_bytes(b.drop_first()) =~= ca.subrange(off, ca.len() as int));
        assert(rec_wf(a.drop_first())) by {
            assert(forall|k: int| 0 <= k < a.drop_first().len() ==> #[trigger] a.drop_first()[k] == a[k + 1]);
        }
        assert(rec_wf(b.drop_first())) by {
            assert(forall|k: int| 0 <= k < b.drop_first().len() ==> #[trigger] b.drop_first()[k] == b[k + 1]);
        }
        lemma_chunks_injective(a.drop_first(), b.drop_first());
        assert forall|k: int| 0 <= k < a.len() implies a[k] == b[k] by {
            if k > 0 {
                assert(a[k] == a.drop_first()[k - 1]);
                assert(b[k] == b.drop_first()[k - 1]);
            }
        }
        assert(a =~= b);
    }
}

/// No two distinct part lists have the same record bytes.
pub proof fn lemma_rec_bytes_injective(a: Seq<Seq<u8>>, b: Seq<Seq<u8>>)
    requires
        rec_wf(a),
        rec_wf(b),
        rec_bytes(a) == rec_bytes(b),
    ensures
        a == b,
{
    lemma_u64_be_bytes();
    let ra = rec_bytes(a);
    assert(ra.subrange(0, 8) =~= spec_u64_be(a.len() as u64));
    assert(ra.subrange(0, 8) =~= spec_u64_be(b.len() as u64));
    assert(spec_u64_of_be(spec_u64_be(a.len() as u64)) == a.len() as u64);
    assert(spec_u64_of_be(spec_u64_be(b.len() as u64)) == b.len() as u64);
    assert(a.len() == b.len());
    assert(chunks_bytes(a) =~= ra.subrange(8, ra.len() as int));
    assert(chunks_bytes(b) =~= ra.subrange(8, ra.len() as int));
    lemma_chunks_injective(a, b);
}

/// Writes a record.
pub fn encode_record(parts: &Vec<Vec<u8>>) -> (r: Vec<u8>)
    ensures
        r@ == rec_bytes(parts@.map_values(|p: Vec<u8>| p@)),
{
    let ghost views = parts@.map_values(|p: Vec<u8>| p@);
    let mut out: Vec<u8> = u64_be(parts.len() as u64);
    let mut i: usize = 0;
    proof {
        assert(views.take(0) =~= Seq::<Seq<u8>>::empty());
    }
    while i < parts.len()
        invariant
            views == parts@.map_values(|p: Vec<u8>| p@),
            i <= parts@.len(),
            views.len() == parts@.len(),
            out@ == spec_u64_be(parts@.len() as u64) + chunks_bytes(views.take(i as int)),
        decreases parts@.len() - i,
    {
        let mut len_bytes = u64_be(parts[i].len() as u64);
        out.append(&mut len_bytes);
        let mut body = copy_range(&parts[i], 0, parts[i].len());
        out.append(&mut body);
        proof {
            assert(views.take(i + 1).drop_last() =~= views.take(i as int));
            assert(views.take(i + 1).last() == views[i as int]);
            assert(parts@[i as int]@.subrange(0, parts@[i as int]@.len() as int) =~= views[i as int]);
            assert(out@ =~= spec_u64_be(parts@.len() as u64) + chunks_bytes(views.take(i + 1)));
        }
        i = i + 1;
    }
    proof {
        assert(views.take(views.len() as int) =~= views);
    }
    out
}

/// Reads a record back. Returns the part list whose record the input is,
/// and `None` exactly when the input is no record at all.
pub fn decode_record(bytes: &Vec<u8>) -> (r: Option<Vec<Vec<u8>>>)
    ensures
        match r {
            Some(parts) => {
                &&& rec_wf(parts@.map_values(|p: Vec<u8>| p@))
                &&& bytes@ == rec_bytes(parts@.map_values(|p: Vec<u8>| p@))
            },
            None => forall|q: Seq<Seq<u8>>| rec_wf(q) ==> bytes@ != rec_bytes(q),
        },
{
    proof {
        lemma_u64_be_bytes();
    }
    if bytes.len() < 8 {
        proof {
            assert forall|q: Seq<Seq<u8>>| rec_wf(q) implies bytes@ != rec_bytes(q) by {
                assert(rec_bytes(q).len() >= 8);
            }
        }
        return None;
    }
    let n: u64 = u64_of_be(bytes, 0);
    let mut parts: Vec<Vec<u8>> = Vec::new();
    let mut c: usize = 8;
    let mut i: u64 = 0;
    proof {
        assert forall|q: Seq<Seq<u8>>| rec_wf(q) && bytes@ == rec_bytes(q) implies q.len() == n && q.take(0) == parts@.map_values(|p: Vec<u8>| p@) by {
            assert(rec_bytes(q).subrange(0, 8) =~= spec_u64_be(q.len() as u64));
            assert(spec_u64_of_be(spec_u64_be(q.len() as u64)) == q.len() as u64);
            assert(q.take(0) =~= Seq::<Seq<u8>>::empty());
            assert(parts@.map_values(|p: Vec<u8>| p@) =~= Seq::<Seq<u8>>::empty());
        }
        assert(chunks_bytes(parts@.map_values(|p: Vec<u8>| p@)) =~= bytes@.subrange(8, 8));
    }
    while i < n
        invariant
            8 <= c <= bytes@.len(),
            i <= n,
            i == parts@.len(),
            chunks_bytes(parts@.map_values(|p: Vec<u8>| p@)) == bytes@.subrange(8, c as int),
            rec_wf(parts@.map_values(|p: Vec<u8>| p@)),
            forall|q: Seq<Seq<u8>>| rec_wf(q) && bytes@ == #[trigger] rec_bytes(q) ==> q.len() == n && q.take(i as int) == parts@.map_values(|p: Vec<u8>| p@),
        decreases n - i,
    {
        let ghost pviews = parts@.map_values(|p: Vec<u8>| p@);
        proof {
            lemma_u64_be_bytes();
            assert forall|q: Seq<Seq<u8>>| rec_wf(q) && bytes@ == #[trigger] rec_bytes(q) implies bytes@.subrange(c as int, bytes@.len() as int) == chunks_bytes(q.skip(i as int)) && q.skip(i as int).len() > 0 by {
                lemma_chunks_decompose(q, i as int);
                assert(q.take(i as int) == pviews);
                assert(chunks_bytes(q) =~= bytes@.subrange(8, bytes@.len() as int));
                assert(chunks_bytes(q.take(i as int)).len() == c - 8);
                assert(bytes@.subrange(c as int, bytes@.len() as int) =~= chunks_bytes(q.skip(i as int)));
            }
        }
        if bytes.len() - c < 8 {
            proof {
                assert forall|q: Seq<Seq<u8>>| rec_wf(q) implies bytes@ != rec_bytes(q) by {
                    if bytes@ == rec_bytes(q) {
                        lemma_chunks_head(q.skip(i as int));
                        assert(chunks_bytes(q.skip(i as int)).len() >= 8);
                    }
                }
            }
            return None;
        }
        let l: u64 = u64_of_be(bytes, c);
        proof {
            assert forall|q: Seq<Seq<u8>>| rec_wf(q) && bytes@ == #[trigger] rec_bytes(q) implies q[i as int].len() == l && q[i as int] == bytes@.subrange(c + 8, c + 8 + l) && bytes@.len() - c - 8 >= l by {
                lemma_chunks_head(q.skip(i as int));
                let rest = bytes@.subrange(c as int, bytes@.len() as int);
                let h = q.skip(i as int)[0];
                assert(h == q[i as int]);
                assert(rest.subrange(0, 8) =~= spec_u64_be(h.len() as u64));
                assert(bytes@.subrange(c as int, c + 8) =~= rest.subrange(0, 8));
                assert(spec_u64_of_be(spec_u64_be(h.len() as u64)) == h.len() as u64);
                assert(h.len() == l);
                assert(h =~= rest.subrange(8, 8 + h.len() as int));
                assert(q[i as int] =~= bytes@.subrange(c + 8, c + 8 + l));
            }
        }
        if l > (bytes.len() - c - 8) as u64 {
            proof {
                assert forall|q: Seq<Seq<u8>>| rec_wf(q) implies bytes@ != rec_bytes(q) by {
                }
            }
            return None;
        }
        let lu: usize = l as usize;
        let part = copy_range(bytes, c + 8, lu);
        parts.push(part);
        proof {
            let nviews = parts@.map_values(|p: Vec<u8>| p@);
            assert(nviews.drop_last() =~= pviews);
            assert(nviews.last() == bytes@.subrange(c + 8, c + 8 + l));
            assert(chunks_bytes(nviews) == chunks_bytes(pviews) + spec_u64_be(l) + bytes@.subrange(c + 8, c + 8 + l));
            assert(bytes@.subrange(c as int, c + 8) =~= spec_u64_be(l)) by {
                assert(spec_u64_be(spec_u64_of_be(bytes@.subrange(c as int, c + 8))) == bytes@.subrange(c as int, c + 8));
            }
            assert(chunks_bytes(nviews) =~= bytes@.subrange(8, c + 8 + l));
            assert(rec_wf(nviews)) by {
                assert(nviews.last().len() == l);
                assert(forall|k: int| 0 <= k < nviews.len() - 1 ==> #[trigger] nviews[k] == pviews[k]);
            }
            assert forall|q: Seq<Seq<u8>>| rec_wf(q) && bytes@ == #[trigger] rec_bytes(q) implies q.take(i + 1) == nviews by {
                assert(q.take(i + 1).drop_last() =~= q.take(i as int));
                assert(q.take(i + 1).last() == q[i as int]);
                assert(q.take(i + 1) =~= nviews);
            }
        }
        c = c + 8 + lu;
        i = i + 1;
    }
    let ghost pviews = parts@.map_values(|p: Vec<u8>| p@);
    if c != bytes.len() {
        proof {
            assert forall|q: Seq<Seq<u8>>| rec_wf(q) implies bytes@ != rec_bytes(q) by {
                if bytes@ == rec_bytes(q) {
                    assert(q.take(i as int) =~= q);
                    assert(chunks_bytes(q) == bytes@.subrange(8, c as int));
                    assert(rec_bytes(q).len() == c);
                }
            }
        }
        return None;
    }
    proof {
        assert(spec_u64_be(pviews.len() as u64) =~= bytes@.subrange(0, 8)) by {
            assert(spec_u64_be(spec_u64_of_be(bytes@.subrange(0, 8))) == bytes@.subrange(0, 8));
        }
        assert(bytes@ =~= rec_bytes(pviews));
    }
    Some(parts)
}

} // verus!
