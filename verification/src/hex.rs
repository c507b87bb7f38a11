//! Hexadecimal text form of field elements, as the node's wire
//! adapters use it: lowercase digits, a `0x` prefix, leading zeroes
//! suppressed. The encoder and decoder here are exact inverses on that
//! canonical form; the surrounding serialization plumbing lives with
//! the I/O code, outside this crate's core.

use vstd::prelude::*;
use vstd::string::StringExecFns;
use vstd::string::StrSliceExecFns;
use crate::felt::Felt;

verus! {

/// The sixteen digit characters, in value order.
pub open spec fn hex_digits() -> Seq<char> {
    seq!['0', '1', '2', '3', '4', '5', '6', '7', '8', '9', 'a', 'b', 'c', 'd', 'e', 'f']
}

/// The two digit values of one byte, high first.
pub open spec fn nibbles_of(s: Seq<u8>) -> Seq<u8>
    decreases s.len(),
{
    if s.len() == 0 {
        Seq::empty()
    } else {
        nibbles_of(s.drop_last()) + seq![s.last() / 16, s.last() % 16]
    }
}

/// Digit values with leading zeroes removed; a lone zero stays.
pub open spec fn strip_leading_zeros(d: Seq<u8>) -> Seq<u8>
    decreases d.len(),
{
    if d.len() <= 1 {
        d
    } else if d[0] == 0 {
        strip_leading_zeros(d.drop_first())
    } else {
        d
    }
}

/// The canonical digit characters of a 32-byte value, without a prefix.
pub open spec fn spec_felt_hex_digits(s: Seq<u8>) -> Seq<char> {
    strip_leading_zeros(nibbles_of(s)).map_values(|d: u8| hex_digits()[d as int])
}

/// The canonical hex text of a 32-byte value.
pub open spec fn spec_felt_hex(s: Seq<u8>) -> Seq<char> {
    seq!['0', 'x'] + spec_felt_hex_digits(s)
}

/// When everything before `i` is zero and `i` is the last chance or a
/// non-zero digit, stripping is skipping to `i`.
proof fn lemma_strip_is_skip(d: Seq<u8>, i: int)
    requires
        0 <= i < d.len(),
        forall|j: int| 0 <= j < i ==> d[j] == 0,
        i == d.len() - 1 || d[i] != 0,
    ensures
        strip_leading_zeros(d) == d.skip(i),
    decreases i,
{
    if i == 0 {
        assert(d.skip(0) =~= d);
    } else {
        lemma_strip_is_skip(d.drop_first(), i - 1);
        assert(d.drop_first().skip(i - 1) =~= d.skip(i));
    }
}

/// What stripping leaves: a non-empty suffix, preceded by zeroes only,
/// and itself starting with a non-zero digit unless it is a lone digit.
proof fn lemma_strip_props(d: Seq<u8>)
    requires
        d.len() >= 1,
    ensures
        1 <= strip_leading_zeros(d).len() <= d.len(),
        strip_leading_zeros(d) == d.skip(d.len() - strip_leading_zeros(d).len()),
        forall|j: int| 0 <= j < d.len() - strip_leading_zeros(d).len() ==> d[j] == 0,
        strip_leading_zeros(d).len() > 1 ==> strip_leading_zeros(d)[0] != 0,
    decreases d.len(),
{
    if d.len() <= 1 {
        assert(d.skip(0) =~= d);
    } else if d[0] == 0 {
        lemma_strip_props(d.drop_first());
        let s = strip_leading_zeros(d);
        assert(s == strip_leading_zeros(d.drop_first()));
        assert(d.drop_first().skip(d.len() - 1 - s.len()) =~= d.skip(d.len() - s.len()));
        assert forall|j: int| 0 <= j < d.len() - s.len() implies d[j] == 0 by {
            if j > 0 {
                assert(d[j] == d.drop_first()[j - 1]);
            }
        }
    } else {
        assert(d.skip(0) =~= d);
    }
}

/// Every digit value a byte yields is below sixteen.
proof fn lemma_nibbles_bounded(s: Seq<u8>)
    ensures
        nibbles_of(s).len() == 2 * s.len(),
        forall|j: int| 0 <= j < nibbles_of(s).len() ==> #[trigger] nibbles_of(s)[j] < 16,
    decreases s.len(),
{
    if s.len() > 0 {
        lemma_nibbles_bounded(s.drop_last());
        let sub = nibbles_of(s.drop_last());
        assert(nibbles_of(s) == sub + seq![s.last() / 16, s.last() % 16]);
        assert forall|j: int| 0 <= j < nibbles_of(s).len() implies #[trigger] nibbles_of(s)[j] < 16 by {
            if j < sub.len() {
                assert(nibbles_of(s)[j] == sub[j]);
            } else {
                assert(s.last() / 16 < 16);
            }
        }
    }
}

/// Two byte strings of one length with the same digit values are equal.
proof fn lemma_nibbles_injective(a: Seq<u8>, b: Seq<u8>)
    requires
        a.len() == b.len(),
        nibbles_of(a) == nibbles_of(b),
    ensures
        a == b,
    decreases a.len(),
{
    if a.len() > 0 {
        lemma_nibbles_bounded(a.drop_last());
        lemma_nibbles_bounded(b.drop_last());
        let na = nibbles_of(a);
        assert(na == nibbles_of(a.drop_last()) + seq![a.last() / 16, a.last() % 16]);
        assert(na == nibbles_of(b.drop_last()) + seq![b.last() / 16, b.last() % 16]);
        assert(nibbles_of(a.drop_last()) =~= na.take(na.len() - 2));
        assert(nibbles_of(b.drop_last()) =~= na.take(na.len() - 2));
        assert(a.last() / 16 == b.last() / 16 && a.last() % 16 == b.last() % 16) by {
            assert(a.last() / 16 == na[na.len() - 2] && a.last() % 16 == na[na.len() - 1]);
            assert(b.last() / 16 == na[na.len() - 2] && b.last() % 16 == na[na.len() - 1]);
        }
        lemma_nibbles_injective(a.drop_last(), b.drop_last());
        assert(a.last() == b.last()) by {
            let la = a.last() as int;
            let lb = b.last() as int;
            vstd::arithmetic::div_mod::lemma_fundamental_div_mod(la, 16);
            vstd::arithmetic::div_mod::lemma_fundamental_div_mod(lb, 16);
        }
        assert forall|i2: int| 0 <= i2 < a.len() implies a[i2] == b[i2] by {
            if i2 < a.len() - 1 {
                assert(a[i2] == a.drop_last()[i2]);
                assert(b[i2] == b.drop_last()[i2]);
            } else {
                assert(a[i2] == a.last() && b[i2] == b.last());
            }
        }
        assert(a =~= b);
    } else {
        assert(a =~= b);
    }
}

/// No two 32-byte values share a canonical hex text.
pub proof fn lemma_felt_hex_injective(a: Seq<u8>, b: Seq<u8>)
    requires
        a.len() == 32,
        b.len() == 32,
        spec_felt_hex(a) == spec_felt_hex(b),
    ensures
        a == b,
{
    lemma_nibbles_bounded(a);
    lemma_nibbles_bounded(b);
    lemma_strip_props(nibbles_of(a));
    lemma_strip_props(nibbles_of(b));
    let da = strip_leading_zeros(nibbles_of(a));
    let db = strip_leading_zeros(nibbles_of(b));
    assert(spec_felt_hex(a).len() == 2 + da.map_values(|d: u8| hex_digits()[d as int]).len());
    assert(spec_felt_hex(b).len() == 2 + db.map_values(|d: u8| hex_digits()[d as int]).len());
    assert(da.len() == db.len());
    assert forall|j: int| 0 <= j < da.len() implies da[j] == db[j] by {
        assert(da[j] == nibbles_of(a)[j + 64 - da.len()]);
        assert(db[j] == nibbles_of(b)[j + 64 - db.len()]);
        assert(hex_digits()[da[j] as int] == spec_felt_hex(a)[j + 2]);
        assert(hex_digits()[db[j] as int] == spec_felt_hex(b)[j + 2]);
        assert(da[j] < 16 && db[j] < 16);
    }
    assert(da =~= db);
    assert forall|j: int| 0 <= j < 64 implies nibbles_of(a)[j] == nibbles_of(b)[j] by {
        if j < 64 - da.len() {
            assert(nibbles_of(a)[j] == 0 && nibbles_of(b)[j] == 0);
        } else {
            assert(nibbles_of(a)[j] == da[j - (64 - da.len())]);
            assert(nibbles_of(b)[j] == db[j - (64 - db.len())]);
        }
    }
    assert(nibbles_of(a) =~= nibbles_of(b));
    lemma_nibbles_injective(a, b);
}

/// The two-character text of one digit value.
fn digit_str(d: u8) -> (r: &'static str)
    requires
        d < 16,
    ensures
        r@ == seq![hex_digits()[d as int]],
{
    proof {
        reveal_strlit("0");
        reveal_strlit("1");
        reveal_strlit("2");
        reveal_strlit("3");
        reveal_strlit("4");
        reveal_strlit("5");
        reveal_strlit("6");
        reveal_strlit("7");
        reveal_strlit("8");
        reveal_strlit("9");
        reveal_strlit("a");
        reveal_strlit("b");
        reveal_strlit("c");
        reveal_strlit("d");
        reveal_strlit("e");
        reveal_strlit("f");
    }
    if d == 0 {
        "0"
    } else if d == 1 {
        "1"
    } else if d == 2 {
        "2"
    } else if d == 3 {
        "3"
    } else if d == 4 {
        "4"
    } else if d == 5 {
        "5"
    } else if d == 6 {
        "6"
    } else if d == 7 {
        "7"
    } else if d == 8 {
        "8"
    } else if d == 9 {
        "9"
    } else if d == 10 {
        "a"
    } else if d == 11 {
        "b"
    } else if d == 12 {
        "c"
    } else if d == 13 {
        "d"
    } else if d == 14 {
        "e"
    } else {
        "f"
    }
}

/// What the canonical text of any 32-byte value looks like: its length
/// range, its prefix, that every later character is a digit character,
/// and that the first digit of a multi-digit text is not `0`.
proof fn lemma_canonical_shape(g: Seq<u8>)
    requires
        g.len() == 32,
    ensures
        3 <= spec_felt_hex(g).len() <= 66,
        spec_felt_hex(g)[0] == '0',
        spec_felt_hex(g)[1] == 'x',
        forall|k: int| 2 <= k < spec_felt_hex(g).len() ==> exists|d: int| 0 <= d < 16 && #[trigger] spec_felt_hex(g)[k] == hex_digits()[d],
        spec_felt_hex(g).len() > 3 ==> spec_felt_hex(g)[2] != '0',
{
    lemma_nibbles_bounded(g);
    lemma_strip_props(nibbles_of(g));
    let dg = strip_leading_zeros(nibbles_of(g));
    assert(forall|j: int| 0 <= j < dg.len() ==> #[trigger] dg[j] < 16) by {
        assert(forall|j: int| 0 <= j < dg.len() ==> dg[j] == nibbles_of(g)[j + 64 - dg.len()]);
    }
    assert forall|k: int| 2 <= k < spec_felt_hex(g).len() implies exists|d: int| 0 <= d < 16 && #[trigger] spec_felt_hex(g)[k] == hex_digits()[d] by {
        let d = dg[k - 2] as int;
        assert(0 <= d < 16 && spec_felt_hex(g)[k] == hex_digits()[d]);
    }
    if spec_felt_hex(g).len() > 3 {
        assert(dg[0] != 0);
        assert(spec_felt_hex(g)[2] == hex_digits()[dg[0] as int]);
        assert(hex_digits()[0] == '0');
    }
}

/// The digit value of one character, and of no other character.
fn nibble_of_char(c: char) -> (r: Option<u8>)
    ensures
        match r {
            Some(d) => d < 16 && c == hex_digits()[d as int],
            None => forall|d: int| 0 <= d < 16 ==> c != hex_digits()[d],
        },
{
    if c == '0' {
        Some(0)
    } else if c == '1' {
        Some(1)
    } else if c == '2' {
        Some(2)
    } else if c == '3' {
        Some(3)
    } else if c == '4' {
        Some(4)
    } else if c == '5' {
        Some(5)
    } else if c == '6' {
        Some(6)
    } else if c == '7' {
        Some(7)
    } else if c == '8' {
        Some(8)
    } else if c == '9' {
        Some(9)
    } else if c == 'a' {
        Some(10)
    } else if c == 'b' {
        Some(11)
    } else if c == 'c' {
        Some(12)
    } else if c == 'd' {
        Some(13)
    } else if c == 'e' {
        Some(14)
    } else if c == 'f' {
        Some(15)
    } else {
        None
    }
}

/// The hex text adapter for field elements.
pub struct FeltHex;

impl FeltHex {
    /// The canonical hex text of a field element.
    pub fn encode(f: &Felt) -> (r: String)
        ensures
            r@ == spec_felt_hex(f@),
    {
        let bytes = f.as_bytes();
        let ghost s = f@;
        let mut nibs: Vec<u8> = Vec::new();
        let mut i: usize = 0;
        while i < 32
            invariant
                bytes@ == s,
                s.len() == 32,
                i <= 32,
                nibs@ == nibbles_of(s.take(i as int)),
                nibs@.len() == 2 * i,
                forall|j: int| 0 <= j < nibs@.len() ==> #[trigger] nibs@[j] < 16,
            decreases 32 - i,
        {
            let b = bytes[i];
            nibs.push(b / 16);
            nibs.push(b % 16);
            proof {
                assert(s.take(i + 1).drop_last() =~= s.take(i as int));
                assert(s.take(i + 1).last() == s[i as int]);
                assert(nibs@ =~= nibbles_of(s.take(i + 1)));
            }
            i = i + 1;
        }
        proof {
            assert(s.take(32) =~= s);
        }
        let mut start: usize = 0;
        while start < 64 - 1 && nibs[start] == 0
            invariant
                nibs@.len() == 64,
                start <= 63,
                forall|j: int| 0 <= j < start ==> nibs@[j] == 0,
            decreases 64 - start,
        {
            start = start + 1;
        }
        proof {
            lemma_strip_is_skip(nibs@, start as int);
        }
        let ghost digits = strip_leading_zeros(nibs@);
        let mut out: String = String::from_str("0x");
        proof {
            reveal_strlit("0x");
            assert(out@ =~= seq!['0', 'x'] + digits.take(0).map_values(|d: u8| hex_digits()[d as int]));
        }
        let mut k: usize = start;
        while k < 64
            invariant
                nibs@.len() == 64,
                start <= k <= 64,
                digits == nibs@.skip(start as int),
                forall|j: int| 0 <= j < nibs@.len() ==> #[trigger] nibs@[j] < 16,
                out@ == seq!['0', 'x'] + digits.take(k - start).map_values(|d: u8| hex_digits()[d as int]),
            decreases 64 - k,
        {
            out.append(digit_str(nibs[k]));
            proof {
                let t = k - start + 1;
                assert(digits.take(t).drop_last() =~= digits.take(t - 1));
                assert(digits.take(t).last() == nibs@[k as int]);
                assert(digits.take(t).map_values(|d: u8| hex_digits()[d as int]).drop_last() =~= digits.take(t - 1).map_values(|d: u8| hex_digits()[d as int]));
                assert(out@ =~= seq!['0', 'x'] + digits.take(t).map_values(|d: u8| hex_digits()[d as int]));
            }
            k = k + 1;
        }
        proof {
            assert(digits.take(64 - start) =~= digits);
        }
        out
    }

    /// The field element whose canonical hex text this is; `None` for
    /// any other string.
    pub fn decode(s: &str) -> (r: Option<Felt>)
        ensures
            match r {
                Some(f) => f@.len() == 32 && s@ == spec_felt_hex(f@),
                None => forall|g: Seq<u8>| g.len() == 32 ==> s@ != #[trigger] spec_felt_hex(g),
            },
    {
        let n: usize = s.unicode_len();
        if n < 3 || n > 66 {
            proof {
                assert forall|g: Seq<u8>| g.len() == 32 implies s@ != spec_felt_hex(g) by {
                    lemma_canonical_shape(g);
                }
            }
            return None;
        }
        if s.get_char(0) != '0' || s.get_char(1) != 'x' {
            proof {
                assert forall|g: Seq<u8>| g.len() == 32 implies s@ != spec_felt_hex(g) by {
                    lemma_canonical_shape(g);
                }
            }
            return None;
        }
        let mut nibs: Vec<u8> = Vec::new();
        let mut k: usize = 2;
        while k < n
            invariant
                3 <= n <= 66,
                n == s@.len(),
                2 <= k <= n,
                nibs@.len() == k - 2,
                forall|j: int| 0 <= j < k - 2 ==> #[trigger] nibs@[j] < 16 && s@[j + 2] == hex_digits()[nibs@[j] as int],
            decreases n - k,
        {
            match nibble_of_char(s.get_char(k)) {
                Some(d) => {
                    nibs.push(d);
                },
                None => {
                    proof {
                        assert forall|g: Seq<u8>| g.len() == 32 implies s@ != spec_felt_hex(g) by {
                            lemma_canonical_shape(g);
                            if s@ == spec_felt_hex(g) {
                                assert(exists|d: int| 0 <= d < 16 && s@[k as int] == hex_digits()[d]);
                            }
                        }
                    }
                    return None;
                },
            }
            k = k + 1;
        }
        let nd: usize = n - 2;
        if nd > 1 && nibs[0] == 0 {
            proof {
                assert forall|g: Seq<u8>| g.len() == 32 implies s@ != spec_felt_hex(g) by {
                    lemma_canonical_shape(g);
                    if s@ == spec_felt_hex(g) {
                        assert(s@[2] == hex_digits()[0]);
                        assert(s@[2] == '0');
                    }
                }
            }
            return None;
        }
        let mut full: Vec<u8> = Vec::new();
        let pad: usize = 64 - nd;
        let mut z: usize = 0;
        while z < pad
            invariant
                z <= pad,
                full@.len() == z,
                forall|j: int| 0 <= j < z ==> full@[j] == 0u8,
            decreases pad - z,
        {
            full.push(0u8);
            z = z + 1;
        }
        let mut t: usize = 0;
        while t < nd
            invariant
                t <= nd,
                nd == nibs@.len(),
                pad == 64 - nd,
                full@.len() == pad + t,
                forall|j: int| 0 <= j < pad ==> full@[j] == 0u8,
                forall|j: int| 0 <= j < t ==> full@[pad + j] == nibs@[j],
            decreases nd - t,
        {
            full.push(nibs[t]);
            t = t + 1;
        }
        proof {
            assert(full@.skip(pad as int) =~= nibs@);
            assert(forall|j: int| 0 <= j < 64 ==> #[trigger] full@[j] < 16) by {
                assert(forall|j: int| pad <= j < 64 ==> full@[j] == nibs@[j - pad]);
            }
        }
        let mut bytes: Vec<u8> = Vec::new();
        let mut i: usize = 0;
        while i < 32
            invariant
                full@.len() == 64,
                forall|j: int| 0 <= j < 64 ==> #[trigger] full@[j] < 16,
                i <= 32,
                bytes@.len() == i,
                nibbles_of(bytes@) == full@.take(2 * i),
            decreases 32 - i,
        {
            let hi = full[2 * i];
            let lo = full[2 * i + 1];
            let b: u8 = hi * 16 + lo;
            let ghost prev = bytes@;
            bytes.push(b);
            proof {
                assert(b / 16 == hi && b % 16 == lo) by (nonlinear_arith)
                    requires
                        hi < 16,
                        lo < 16,
                        b == hi * 16 + lo,
                ;
                assert(bytes@.drop_last() =~= prev);
                assert(nibbles_of(bytes@) =~= full@.take(2 * (i + 1)));
            }
            i = i + 1;
        }
        match Felt::from_bytes(bytes) {
            Some(f) => {
                proof {
                    assert(full@.take(64) =~= full@);
                    if nd > 1 {
                        lemma_strip_is_skip(full@, pad as int);
                    } else {
                        lemma_strip_is_skip(full@, 63);
                    }
                    let digits = strip_leading_zeros(full@);
                    assert(digits == nibs@);
                    assert forall|k2: int| 0 <= k2 < s@.len() implies s@[k2] == spec_felt_hex(f@)[k2] by {
                        if k2 >= 2 {
                            assert(s@[k2] == hex_digits()[nibs@[k2 - 2] as int]);
                        }
                    }
                    assert(s@ =~= spec_felt_hex(f@));
                }
                Some(f)
            },
            None => {
                proof {
                    assert(false);
                }
                None
            },
        }
    }
}

/// A digit sequence is never empty, so the empty text marks absence
/// without ambiguity.
proof fn lemma_digits_nonempty(g: Seq<u8>)
    requires
        g.len() == 32,
    ensures
        spec_felt_hex_digits(g).len() >= 1,
{
    lemma_nibbles_bounded(g);
    lemma_strip_props(nibbles_of(g));
}

/// The hex text adapter for optional field elements: an absent value
/// has no text at all, a present one its bare digits, without a prefix.
pub struct FeltHexOption;

impl FeltHexOption {
    /// The digits of the value, or nothing.
    pub fn encode(v: &Option<Felt>) -> (r: Option<String>)
        ensures
            match v {
                Some(f) => (r matches Some(s) && s@ == spec_felt_hex_digits(f@)),
                None => r is None,
            },
    {
        match v {
            Some(f) => Some(felt_hex_digits(f)),
            None => None,
        }
    }

    /// `Some(None)` for the empty text, the decoded value for canonical
    /// digits, and `None` for anything else.
    pub fn decode(s: &str) -> (r: Option<Option<Felt>>)
        ensures
            match r {
                Some(o) => match o {
                    Some(f) => f@.len() == 32 && s@ == spec_felt_hex_digits(f@),
                    None => s@.len() == 0,
                },
                None => s@.len() != 0 && (forall|g: Seq<u8>| g.len() == 32 ==> s@ != #[trigger] spec_felt_hex_digits(g)),
            },
    {
        if s.unicode_len() == 0 {
            Some(None)
        } else {
            match felt_of_hex_digits(s) {
                Some(f) => Some(Some(f)),
                None => None,
            }
        }
    }
}

/// The texts that stand for "no block hash yet" on the wire: an empty
/// string, or one of the two markers the node's peers send.
pub open spec fn is_pending_hash_marker(s: Seq<char>) -> bool {
    ||| s.len() == 0
    ||| s == ("pending")@
    ||| s == ("None")@
}

/// The hex text adapter for a block hash that may still be pending:
/// like `FeltHexOption`, except that the marker texts `pending` and
/// `None` also stand for absence when reading.
pub struct FeltPendingBlockHash;

impl FeltPendingBlockHash {
    /// The digits of the hash, or nothing while it is pending.
    pub fn encode(v: &Option<Felt>) -> (r: Option<String>)
        ensures
            match v {
                Some(f) => (r matches Some(s) && s@ == spec_felt_hex_digits(f@)),
                None => r is None,
            },
    {
        FeltHexOption::encode(v)
    }

    /// `Some(None)` for a pending marker, the decoded hash for canonical
    /// digits, and `None` for anything else.
    pub fn decode(s: &str) -> (r: Option<Option<Felt>>)
        ensures
            match r {
                Some(o) => match o {
                    Some(f) => f@.len() == 32 && s@ == spec_felt_hex_digits(f@),
                    None => is_pending_hash_marker(s@),
                },
                None => !is_pending_hash_marker(s@) && (forall|g: Seq<u8>| g.len() == 32 ==> s@ != #[trigger] spec_felt_hex_digits(g)),
            },
    {
        let own = String::from_str(s);
        if s.unicode_len() == 0 || own == String::from_str("pending") || own == String::from_str("None") {
            return Some(None);
        }
        match felt_of_hex_digits(s) {
            Some(f) => Some(Some(f)),
            None => None,
        }
    }
}

/// The digits of one field element, with no prefix.
fn felt_hex_digits(f: &Felt) -> (r: String)
    ensures
        r@ == spec_felt_hex_digits(f@),
{
    let t = FeltHex::encode(f);
    let n: usize = t.as_str().unicode_len();
    let d = t.as_str().substring_char(2, n);
    proof {
        assert(d@ =~= spec_felt_hex_digits(f@));
    }
    String::from_str(d)
}

/// The field element whose bare canonical digits these are, if any.
fn felt_of_hex_digits(s: &str) -> (r: Option<Felt>)
    ensures
        match r {
            Some(f) => f@.len() == 32 && s@ == spec_felt_hex_digits(f@),
            None => forall|g: Seq<u8>| g.len() == 32 ==> s@ != #[trigger] spec_felt_hex_digits(g),
        },
{
    let mut t = String::from_str("0x");
    t.append(s);
    proof {
        reveal_strlit("0x");
        assert(("0x")@ =~= seq!['0', 'x']);
    }
    match FeltHex::decode(t.as_str()) {
        Some(f) => {
            proof {
                let d = spec_felt_hex_digits(f@);
                assert(t@ == seq!['0', 'x'] + s@);
                assert(t@ == seq!['0', 'x'] + d);
                assert(s@.len() == d.len());
                assert forall|i: int| 0 <= i < s@.len() implies s@[i] == d[i] by {
                    assert(s@[i] == t@[i + 2]);
                    assert(d[i] == t@[i + 2]);
                }
                assert(s@ =~= d);
            }
            Some(f)
        },
        None => {
            proof {
                assert forall|g: Seq<u8>| g.len() == 32 implies s@ != spec_felt_hex_digits(g) by {
                    if s@ == spec_felt_hex_digits(g) {
                        assert(t@ =~= spec_felt_hex(g));
                    }
                }
            }
            None
        },
    }
}

} // verus!
