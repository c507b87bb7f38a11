//! The records the store persists: transactions, their receipts, and
//! blocks, each with a pending variant where the protocol has one. The
//! protocol layer defines what the fields mean; here they are plain
//! values with an exact, invertible wire form.

use vstd::prelude::*;
use crate::felt::{Felt, spec_u64_be, u64_be};
use crate::codec::{rec_bytes, rec_wf, spec_u64_of_be, encode_record, decode_record, copy_range, u64_of_be, lemma_rec_bytes_injective, lemma_u64_be_bytes};

verus! {

/// The views of a list of field elements.
pub open spec fn felt_views(s: Seq<Felt>) -> Seq<Seq<u8>> {
    s.map_values(|f: Felt| f@)
}

/// A part list in which every part is one 32-byte field element, small
/// enough for its record to be written down.
pub open spec fn felt_seq_wf(s: Seq<Seq<u8>>) -> bool {
    &&& rec_wf(s)
    &&& rec_bytes(s).len() < 0x1_0000_0000_0000_0000
    &&& forall|i: int| 0 <= i < s.len() ==> (#[trigger] s[i]).len() == 32
}

/// An invoke-style transaction record, keyed by its hash.
pub struct Transaction {
    pub transaction_hash: Felt,
    pub max_fee: Felt,
    pub signature: Vec<Felt>,
    pub nonce: Felt,
    pub sender_address: Felt,
    pub calldata: Vec<Felt>,
}

/// What a transaction is mathematically: its fields as byte sequences.
#[verifier::ext_equal]
pub struct TransactionV {
    pub transaction_hash: Seq<u8>,
    pub max_fee: Seq<u8>,
    pub signature: Seq<Seq<u8>>,
    pub nonce: Seq<u8>,
    pub sender_address: Seq<u8>,
    pub calldata: Seq<Seq<u8>>,
}

impl View for Transaction {
    type V = TransactionV;

    open spec fn view(&self) -> TransactionV {
        TransactionV {
            transaction_hash: self.transaction_hash@,
            max_fee: self.max_fee@,
            signature: felt_views(self.signature@),
            nonce: self.nonce@,
            sender_address: self.sender_address@,
            calldata: felt_views(self.calldata@),
        }
    }
}

pub open spec fn tx_v_wf(t: TransactionV) -> bool {
    &&& t.transaction_hash.len() == 32
    &&& t.max_fee.len() == 32
    &&& t.nonce.len() == 32
    &&& t.sender_address.len() == 32
    &&& felt_seq_wf(t.signature)
    &&& felt_seq_wf(t.calldata)
}

/// The parts of a transaction's record, in field order.
pub open spec fn tx_parts(t: TransactionV) -> Seq<Seq<u8>> {
    seq![
        t.transaction_hash,
        t.max_fee,
        rec_bytes(t.signature),
        t.nonce,
        t.sender_address,
        rec_bytes(t.calldata),
    ]
}

/// The wire form of a transaction.
pub open spec fn spec_tx_bytes(t: TransactionV) -> Seq<u8> {
    rec_bytes(tx_parts(t))
}

pub proof fn lemma_tx_parts_wf(t: TransactionV)
    requires
        tx_v_wf(t),
    ensures
        rec_wf(tx_parts(t)),
{
}

/// No two distinct transactions share a wire form.
pub proof fn lemma_tx_bytes_injective(a: TransactionV, b: TransactionV)
    requires
        tx_v_wf(a),
        tx_v_wf(b),
        spec_tx_bytes(a) == spec_tx_bytes(b),
    ensures
        a == b,
{
    lemma_tx_parts_wf(a);
    lemma_tx_parts_wf(b);
    lemma_rec_bytes_injective(tx_parts(a), tx_parts(b));
    assert(tx_parts(a)[2] == tx_parts(b)[2]);
    lemma_rec_bytes_injective(a.signature, b.signature);
    assert(tx_parts(a)[5] == tx_parts(b)[5]);
    lemma_rec_bytes_injective(a.calldata, b.calldata);
    assert(a =~= b);
}

/// Writes a list of field elements as one record.
pub fn encode_felt_list(fs: &Vec<Felt>) -> (r: Vec<u8>)
    ensures
        r@ == rec_bytes(felt_views(fs@)),
        felt_seq_wf(felt_views(fs@)),
{
    let flen: usize = fs.len();
    let mut parts: Vec<Vec<u8>> = Vec::new();
    let mut i: usize = 0;
    while i < flen
        invariant
            flen == fs@.len(),
            i <= flen,
            parts@.len() == i,
            forall|j: int| 0 <= j < i ==> (#[trigger] parts@[j])@ == felt_views(fs@)[j] && parts@[j]@.len() == 32,
        decreases flen - i,
    {
        parts.push(fs[i].to_vec());
        i = i + 1;
    }
    proof {
        assert forall|j: int| 0 <= j < flen implies parts@.map_values(|p: Vec<u8>| p@)[j] == #[trigger] felt_views(fs@)[j] by {
            assert(parts@[j]@ == felt_views(fs@)[j]);
        }
        assert(parts@.map_values(|p: Vec<u8>| p@) =~= felt_views(fs@));
    }
    let out = encode_record(&parts);
    let outlen: usize = out.len();
    proof {
        assert(rec_bytes(felt_views(fs@)).len() == outlen);
        assert(outlen <= usize::MAX);
        assert(forall|j: int| 0 <= j < felt_views(fs@).len() ==> (#[trigger] felt_views(fs@)[j]).len() == 32);
    }
    out
}

/// Reads a list of field elements back; `None` exactly when the bytes are
/// no such record.
pub fn decode_felt_list(bytes: &Vec<u8>) -> (r: Option<Vec<Felt>>)
    ensures
        match r {
            Some(fs) => felt_seq_wf(felt_views(fs@)) && bytes@ == rec_bytes(felt_views(fs@)),
            None => forall|q: Seq<Seq<u8>>| felt_seq_wf(q) ==> bytes@ != rec_bytes(q),
        },
{
    let parts_opt = decode_record(bytes);
    match parts_opt {
        None => None,
        Some(parts) => {
            let ghost pviews = parts@.map_values(|p: Vec<u8>| p@);
            let mut fs: Vec<Felt> = Vec::new();
            let mut i: usize = 0;
            while i < parts.len()
                invariant
                    i <= parts@.len(),
                    fs@.len() == i,
                    pviews == parts@.map_values(|p: Vec<u8>| p@),
                    rec_wf(pviews),
                    bytes@ == rec_bytes(pviews),
                    forall|j: int| 0 <= j < i ==> felt_views(fs@)[j] == pviews[j] && (#[trigger] pviews[j]).len() == 32,
                decreases parts@.len() - i,
            {
                let plen = parts[i].len();
                let pc = copy_range(&parts[i], 0, plen);
                proof {
                    assert(pc@ =~= pviews[i as int]);
                }
                match Felt::from_bytes(pc) {
                    Some(f) => {
                        fs.push(f);
                        proof {
                            assert(forall|j: int| 0 <= j < i ==> felt_views(fs@)[j] == pviews[j]);
                            assert(felt_views(fs@)[i as int] == pviews[i as int]);
                        }
                    },
                    None => {
                        proof {
                            assert forall|q: Seq<Seq<u8>>| felt_seq_wf(q) implies bytes@ != rec_bytes(q) by {
                                if bytes@ == rec_bytes(q) {
                                    lemma_rec_bytes_injective(q, pviews);
                                }
                            }
                        }
                        return None;
                    },
                }
                i = i + 1;
            }
            let blen: usize = bytes.len();
            proof {
                assert(felt_views(fs@) =~= pviews);
                assert(rec_bytes(pviews).len() == blen);
                assert(blen <= usize::MAX);
            }
            Some(fs)
        },
    }
}

/// Writes a transaction's record.
pub fn encode_transaction(t: &Transaction) -> (r: Vec<u8>)
    ensures
        r@ == spec_tx_bytes(t@),
        tx_v_wf(t@),
{
    proof {
        use_type_invariant(&t.transaction_hash);
        use_type_invariant(&t.max_fee);
        use_type_invariant(&t.nonce);
        use_type_invariant(&t.sender_address);
    }
    let mut parts: Vec<Vec<u8>> = Vec::new();
    parts.push(t.transaction_hash.to_vec());
    parts.push(t.max_fee.to_vec());
    parts.push(encode_felt_list(&t.signature));
    parts.push(t.nonce.to_vec());
    parts.push(t.sender_address.to_vec());
    parts.push(encode_felt_list(&t.calldata));
    proof {
        assert(parts@.map_values(|p: Vec<u8>| p@) =~= tx_parts(t@));
    }
    encode_record(&parts)
}

/// Reads a transaction back; `None` exactly when the bytes encode none.
pub fn decode_transaction(bytes: &Vec<u8>) -> (r: Option<Transaction>)
    ensures
        match r {
            Some(t) => tx_v_wf(t@) && bytes@ == spec_tx_bytes(t@),
            None => forall|q: TransactionV| tx_v_wf(q) ==> bytes@ != #[trigger] spec_tx_bytes(q),
        },
{
    let parts_opt = decode_record(bytes);
    let parts = match parts_opt {
        None => {
            proof {
                assert forall|q: TransactionV| tx_v_wf(q) implies bytes@ != spec_tx_bytes(q) by {
                    lemma_tx_parts_wf(q);
                }
            }
            return None;
        },
        Some(parts) => parts,
    };
    let ghost pviews = parts@.map_values(|p: Vec<u8>| p@);
    if parts.len() != 6 {
        proof {
            assert forall|q: TransactionV| tx_v_wf(q) implies bytes@ != spec_tx_bytes(q) by {
                if bytes@ == spec_tx_bytes(q) {
                    lemma_tx_parts_wf(q);
                    lemma_rec_bytes_injective(tx_parts(q), pviews);
                }
            }
        }
        return None;
    }
    let hash_b = copy_range(&parts[0], 0, parts[0].len());
    let fee_b = copy_range(&parts[1], 0, parts[1].len());
    let sig_b = copy_range(&parts[2], 0, parts[2].len());
    let nonce_b = copy_range(&parts[3], 0, parts[3].len());
    let sender_b = copy_range(&parts[4], 0, parts[4].len());
    let cal_b = copy_range(&parts[5], 0, parts[5].len());
    proof {
        assert(hash_b@ =~= pviews[0]);
        assert(fee_b@ =~= pviews[1]);
        assert(sig_b@ =~= pviews[2]);
        assert(nonce_b@ =~= pviews[3]);
        assert(sender_b@ =~= pviews[4]);
        assert(cal_b@ =~= pviews[5]);
    }
    let hash_f = Felt::from_bytes(hash_b);
    let fee_f = Felt::from_bytes(fee_b);
    let nonce_f = Felt::from_bytes(nonce_b);
    let sender_f = Felt::from_bytes(sender_b);
    let sig = decode_felt_list(&sig_b);
    let cal = decode_felt_list(&cal_b);
    match (hash_f, fee_f, nonce_f, sender_f, sig, cal) {
        (Some(transaction_hash), Some(max_fee), Some(nonce), Some(sender_address), Some(signature), Some(calldata)) => {
            let t = Transaction { transaction_hash, max_fee, signature, nonce, sender_address, calldata };
            proof {
                assert(tx_parts(t@) =~= pviews);
            }
            Some(t)
        },
        _ => {
            proof {
                assert forall|q: TransactionV| tx_v_wf(q) implies bytes@ != spec_tx_bytes(q) by {
                    if bytes@ == spec_tx_bytes(q) {
                        lemma_tx_parts_wf(q);
                        lemma_rec_bytes_injective(tx_parts(q), pviews);
                        assert(pviews[0].len() == 32);
                        assert(pviews[1].len() == 32);
                        assert(pviews[3].len() == 32);
                        assert(pviews[4].len() == 32);
                        assert(felt_seq_wf(q.signature) && sig_b@ == rec_bytes(q.signature));
                        assert(felt_seq_wf(q.calldata) && cal_b@ == rec_bytes(q.calldata));
                    }
                }
            }
            None
        },
    }
}

/// The execution outcome of a transaction, keyed by the transaction's hash.
pub struct TransactionReceipt {
    pub transaction_hash: Felt,
    pub actual_fee: Felt,
    pub block_hash: Felt,
    pub block_number: u64,
}

/// A receipt not yet tied to a numbered block.
pub struct PendingTransactionReceipt {
    pub transaction_hash: Felt,
    pub actual_fee: Felt,
}

pub enum MaybePendingTransactionReceipt {
    Receipt(TransactionReceipt),
    Pending(PendingTransactionReceipt),
}

#[verifier::ext_equal]
pub struct ReceiptV {
    pub transaction_hash: Seq<u8>,
    pub actual_fee: Seq<u8>,
    pub block_hash: Seq<u8>,
    pub block_number: u64,
}

#[verifier::ext_equal]
pub struct PendingReceiptV {
    pub transaction_hash: Seq<u8>,
    pub actual_fee: Seq<u8>,
}

#[verifier::ext_equal]
pub enum MaybePendingReceiptV {
    Receipt(ReceiptV),
    Pending(PendingReceiptV),
}

impl View for MaybePendingTransactionReceipt {
    type V = MaybePendingReceiptV;

    open spec fn view(&self) -> MaybePendingReceiptV {
        match self {
            MaybePendingTransactionReceipt::Receipt(r) => MaybePendingReceiptV::Receipt(ReceiptV {
                transaction_hash: r.transaction_hash@,
                actual_fee: r.actual_fee@,
                block_hash: r.block_hash@,
                block_number: r.block_number,
            }),
            MaybePendingTransactionReceipt::Pending(r) => MaybePendingReceiptV::Pending(PendingReceiptV {
                transaction_hash: r.transaction_hash@,
                actual_fee: r.actual_fee@,
            }),
        }
    }
}

pub open spec fn receipt_v_wf(r: MaybePendingReceiptV) -> bool {
    match r {
        MaybePendingReceiptV::Receipt(x) => x.transaction_hash.len() == 32 && x.actual_fee.len() == 32 && x.block_hash.len() == 32,
        MaybePendingReceiptV::Pending(x) => x.transaction_hash.len() == 32 && x.actual_fee.len() == 32,
    }
}

/// The transaction hash a receipt is filed under.
pub open spec fn receipt_hash(r: MaybePendingReceiptV) -> Seq<u8> {
    match r {
        MaybePendingReceiptV::Receipt(x) => x.transaction_hash,
        MaybePendingReceiptV::Pending(x) => x.transaction_hash,
    }
}

pub open spec fn receipt_parts(r: MaybePendingReceiptV) -> Seq<Seq<u8>> {
    match r {
        MaybePendingReceiptV::Receipt(x) => seq![
            seq![0u8],
            x.transaction_hash,
            x.actual_fee,
            x.block_hash,
            spec_u64_be(x.block_number),
        ],
        MaybePendingReceiptV::Pending(x) => seq![
            seq![1u8],
            x.transaction_hash,
            x.actual_fee,
        ],
    }
}

/// The wire form of a receipt.
pub open spec fn spec_receipt_bytes(r: MaybePendingReceiptV) -> Seq<u8> {
    rec_bytes(receipt_parts(r))
}

pub proof fn lemma_receipt_parts_wf(r: MaybePendingReceiptV)
    requires
        receipt_v_wf(r),
    ensures
        rec_wf(receipt_parts(r)),
{
    lemma_u64_be_bytes();
}

/// No two distinct receipts share a wire form.
pub proof fn lemma_receipt_bytes_injective(a: MaybePendingReceiptV, b: MaybePendingReceiptV)
    requires
        receipt_v_wf(a),
        receipt_v_wf(b),
        spec_receipt_bytes(a) == spec_receipt_bytes(b),
    ensures
        a == b,
{
    lemma_u64_be_bytes();
    lemma_receipt_parts_wf(a);
    lemma_receipt_parts_wf(b);
    lemma_rec_bytes_injective(receipt_parts(a), receipt_parts(b));
    match (a, b) {
        (MaybePendingReceiptV::Receipt(x), MaybePendingReceiptV::Receipt(y)) => {
            assert(receipt_parts(a)[1] == receipt_parts(b)[1]);
            assert(receipt_parts(a)[2] == receipt_parts(b)[2]);
            assert(receipt_parts(a)[3] == receipt_parts(b)[3]);
            assert(receipt_parts(a)[4] == receipt_parts(b)[4]);
            assert(spec_u64_of_be(spec_u64_be(x.block_number)) == x.block_number);
            assert(spec_u64_of_be(spec_u64_be(y.block_number)) == y.block_number);
            assert(x =~= y);
        },
        (MaybePendingReceiptV::Pending(x), MaybePendingReceiptV::Pending(y)) => {
            assert(receipt_parts(a)[1] == receipt_parts(b)[1]);
            assert(receipt_parts(a)[2] == receipt_parts(b)[2]);
            assert(x =~= y);
        },
        (MaybePendingReceiptV::Receipt(x), MaybePendingReceiptV::Pending(y)) => {
            assert(receipt_parts(a).len() != receipt_parts(b).len());
        },
        (MaybePendingReceiptV::Pending(x), MaybePendingReceiptV::Receipt(y)) => {
            assert(receipt_parts(a).len() != receipt_parts(b).len());
        },
    }
}

/// A one-byte part holding the given tag.
fn tag_part(tag: u8) -> (r: Vec<u8>)
    ensures
        r@ == seq![tag],
{
    let mut v: Vec<u8> = Vec::new();
    v.push(tag);
    proof {
        assert(v@ =~= seq![tag]);
    }
    v
}

impl MaybePendingTransactionReceipt {
    /// The transaction hash this receipt is filed under.
    pub fn transaction_hash(&self) -> (r: &Felt)
        ensures
            r@ == receipt_hash(self@),
    {
        match self {
            MaybePendingTransactionReceipt::Receipt(x) => &x.transaction_hash,
            MaybePendingTransactionReceipt::Pending(x) => &x.transaction_hash,
        }
    }
}

/// Writes a receipt's record.
pub fn encode_receipt(r: &MaybePendingTransactionReceipt) -> (out: Vec<u8>)
    ensures
        out@ == spec_receipt_bytes(r@),
        receipt_v_wf(r@),
{
    let mut parts: Vec<Vec<u8>> = Vec::new();
    match r {
        MaybePendingTransactionReceipt::Receipt(x) => {
            proof {
                use_type_invariant(&x.transaction_hash);
                use_type_invariant(&x.actual_fee);
                use_type_invariant(&x.block_hash);
            }
            parts.push(tag_part(0u8));
            parts.push(x.transaction_hash.to_vec());
            parts.push(x.actual_fee.to_vec());
            parts.push(x.block_hash.to_vec());
            parts.push(u64_be(x.block_number));
        },
        MaybePendingTransactionReceipt::Pending(x) => {
            proof {
                use_type_invariant(&x.transaction_hash);
                use_type_invariant(&x.actual_fee);
            }
            parts.push(tag_part(1u8));
            parts.push(x.transaction_hash.to_vec());
            parts.push(x.actual_fee.to_vec());
        },
    }
    proof {
        assert(parts@.map_values(|p: Vec<u8>| p@) =~= receipt_parts(r@));
    }
    encode_record(&parts)
}

/// Reads a receipt back; `None` exactly when the bytes encode none.
pub fn decode_receipt(bytes: &Vec<u8>) -> (r: Option<MaybePendingTransactionReceipt>)
    ensures
        match r {
            Some(x) => receipt_v_wf(x@) && bytes@ == spec_receipt_bytes(x@),
            None => forall|q: MaybePendingReceiptV| receipt_v_wf(q) ==> bytes@ != #[trigger] spec_receipt_bytes(q),
        },
{
    proof {
        lemma_u64_be_bytes();
    }
    let parts_opt = decode_record(bytes);
    let parts = match parts_opt {
        None => {
            proof {
                assert forall|q: MaybePendingReceiptV| receipt_v_wf(q) implies bytes@ != spec_receipt_bytes(q) by {
                    lemma_receipt_parts_wf(q);
                }
            }
            return None;
        },
        Some(parts) => parts,
    };
    let ghost pviews = parts@.map_values(|p: Vec<u8>| p@);
    let ok_shape: bool =
        (parts.len() == 5 && parts[0].len() == 1 && parts[0][0] == 0u8
            && parts[1].len() == 32 && parts[2].len() == 32 && parts[3].len() == 32 && parts[4].len() == 8)
        || (parts.len() == 3 && parts[0].len() == 1 && parts[0][0] == 1u8
            && parts[1].len() == 32 && parts[2].len() == 32);
    if !ok_shape {
        proof {
            assert forall|q: MaybePendingReceiptV| receipt_v_wf(q) implies bytes@ != spec_receipt_bytes(q) by {
                if bytes@ == spec_receipt_bytes(q) {
                    lemma_receipt_parts_wf(q);
                    lemma_rec_bytes_injective(receipt_parts(q), pviews);
                    assert(pviews[0] == receipt_parts(q)[0]);
                    assert(pviews[0].len() == 1);
                }
            }
        }
        return None;
    }
    if parts.len() == 5 {
        let hash_f = Felt::from_bytes(copy_range(&parts[1], 0, 32));
        let fee_f = Felt::from_bytes(copy_range(&parts[2], 0, 32));
        let bh_f = Felt::from_bytes(copy_range(&parts[3], 0, 32));
        let num: u64 = u64_of_be(&parts[4], 0);
        proof {
            assert(parts@[1]@.subrange(0, 32) =~= pviews[1]);
            assert(parts@[2]@.subrange(0, 32) =~= pviews[2]);
            assert(parts@[3]@.subrange(0, 32) =~= pviews[3]);
            assert(parts@[4]@.subrange(0, 8) =~= pviews[4]);
        }
        match (hash_f, fee_f, bh_f) {
            (Some(transaction_hash), Some(actual_fee), Some(block_hash)) => {
                let out = MaybePendingTransactionReceipt::Receipt(TransactionReceipt {
                    transaction_hash,
                    actual_fee,
                    block_hash,
                    block_number: num,
                });
                proof {
                    assert(spec_u64_be(num) =~= pviews[4]);
                    assert(seq![0u8] =~= pviews[0]);
                    assert(receipt_parts(out@) =~= pviews);
                }
                Some(out)
            },
            _ => {
                proof {
                    assert(false);
                }
                None
            },
        }
    } else {
        let hash_f = Felt::from_bytes(copy_range(&parts[1], 0, 32));
        let fee_f = Felt::from_bytes(copy_range(&parts[2], 0, 32));
        proof {
            assert(parts@[1]@.subrange(0, 32) =~= pviews[1]);
            assert(parts@[2]@.subrange(0, 32) =~= pviews[2]);
        }
        match (hash_f, fee_f) {
            (Some(transaction_hash), Some(actual_fee)) => {
                let out = MaybePendingTransactionReceipt::Pending(PendingTransactionReceipt {
                    transaction_hash,
                    actual_fee,
                });
                proof {
                    assert(seq![1u8] =~= pviews[0]);
                    assert(receipt_parts(out@) =~= pviews);
                }
                Some(out)
            },
            _ => {
                proof {
                    assert(false);
                }
                None
            },
        }
    }
}

/// The views of a list of transactions.
pub open spec fn tx_views(s: Seq<Transaction>) -> Seq<TransactionV> {
    s.map_values(|t: Transaction| t@)
}

/// The record parts of a transaction list: one part per transaction.
pub open spec fn tx_list_parts(ts: Seq<TransactionV>) -> Seq<Seq<u8>> {
    ts.map_values(|t: TransactionV| spec_tx_bytes(t))
}

pub open spec fn tx_list_wf(ts: Seq<TransactionV>) -> bool {
    &&& rec_wf(tx_list_parts(ts))
    &&& rec_bytes(tx_list_parts(ts)).len() < 0x1_0000_0000_0000_0000
    &&& forall|i: int| 0 <= i < ts.len() ==> tx_v_wf(#[trigger] ts[i])
}

/// The wire form of a transaction list.
pub open spec fn spec_tx_list_bytes(ts: Seq<TransactionV>) -> Seq<u8> {
    rec_bytes(tx_list_parts(ts))
}

/// No two distinct transaction lists share a wire form.
pub proof fn lemma_tx_list_bytes_injective(a: Seq<TransactionV>, b: Seq<TransactionV>)
    requires
        tx_list_wf(a),
        tx_list_wf(b),
        spec_tx_list_bytes(a) == spec_tx_list_bytes(b),
    ensures
        a == b,
{
    lemma_rec_bytes_injective(tx_list_parts(a), tx_list_parts(b));
    assert forall|i: int| 0 <= i < a.len() implies a[i] == b[i] by {
        assert(tx_list_parts(a)[i] == tx_list_parts(b)[i]);
        lemma_tx_bytes_injective(a[i], b[i]);
    }
    assert(a =~= b);
}

/// Writes a list of transactions as one record.
pub fn encode_tx_list(ts: &Vec<Transaction>) -> (r: Vec<u8>)
    ensures
        r@ == spec_tx_list_bytes(tx_views(ts@)),
        tx_list_wf(tx_views(ts@)),
{
    let tlen: usize = ts.len();
    let mut parts: Vec<Vec<u8>> = Vec::new();
    let mut i: usize = 0;
    while i < tlen
        invariant
            tlen == ts@.len(),
            i <= tlen,
            parts@.len() == i,
            forall|j: int| 0 <= j < i ==> (#[trigger] parts@[j])@ == tx_list_parts(tx_views(ts@))[j] && tx_v_wf(tx_views(ts@)[j]) && parts@[j]@.len() <= usize::MAX,
        decreases tlen - i,
    {
        let e = encode_transaction(&ts[i]);
        let elen: usize = e.len();
        parts.push(e);
        proof {
            assert(tx_views(ts@)[i as int] == ts@[i as int]@);
            assert(tx_list_parts(tx_views(ts@))[i as int] == spec_tx_bytes(ts@[i as int]@));
            assert(parts@[i as int]@.len() == elen);
        }
        i = i + 1;
    }
    proof {
        assert forall|j: int| 0 <= j < tlen implies parts@.map_values(|p: Vec<u8>| p@)[j] == #[trigger] tx_list_parts(tx_views(ts@))[j] by {
            assert(parts@[j]@ == tx_list_parts(tx_views(ts@))[j]);
        }
        assert(parts@.map_values(|p: Vec<u8>| p@) =~= tx_list_parts(tx_views(ts@)));
    }
    let out = encode_record(&parts);
    let outlen: usize = out.len();
    proof {
        assert(rec_bytes(tx_list_parts(tx_views(ts@))).len() == outlen);
        assert(outlen <= usize::MAX);
        assert forall|j: int| 0 <= j < tlen implies (#[trigger] tx_list_parts(tx_views(ts@))[j]).len() < 0x1_0000_0000_0000_0000 by {
            assert(parts@[j]@ == tx_list_parts(tx_views(ts@))[j]);
            assert(parts@[j]@.len() <= usize::MAX);
        }
        assert forall|j: int| 0 <= j < tlen implies tx_v_wf(#[trigger] tx_views(ts@)[j]) by {
            assert(parts@[j]@ == tx_list_parts(tx_views(ts@))[j]);
        }
    }
    out
}

/// Reads a list of transactions back; `None` exactly when the bytes are
/// no such record.
pub fn decode_tx_list(bytes: &Vec<u8>) -> (r: Option<Vec<Transaction>>)
    ensures
        match r {
            Some(ts) => tx_list_wf(tx_views(ts@)) && bytes@ == spec_tx_list_bytes(tx_views(ts@)),
            None => forall|q: Seq<TransactionV>| tx_list_wf(q) ==> bytes@ != #[trigger] spec_tx_list_bytes(q),
        },
{
    let parts_opt = decode_record(bytes);
    let parts = match parts_opt {
        None => {
            return None;
        },
        Some(parts) => parts,
    };
    let ghost pviews = parts@.map_values(|p: Vec<u8>| p@);
    let plen: usize = parts.len();
    let mut ts: Vec<Transaction> = Vec::new();
    let mut i: usize = 0;
    while i < plen
        invariant
            plen == parts@.len(),
            i <= plen,
            ts@.len() == i,
            pviews == parts@.map_values(|p: Vec<u8>| p@),
            rec_wf(pviews),
            bytes@ == rec_bytes(pviews),
            forall|j: int| 0 <= j < i ==> tx_v_wf(#[trigger] tx_views(ts@)[j]) && spec_tx_bytes(tx_views(ts@)[j]) == pviews[j],
        decreases plen - i,
    {
        let ghost old_ts = ts@;
        match decode_transaction(&parts[i]) {
            Some(t) => {
                proof {
                    assert(pviews[i as int] == parts@[i as int]@);
                }
                ts.push(t);
                proof {
                    assert forall|j: int| 0 <= j < i implies #[trigger] tx_views(ts@)[j] == tx_views(old_ts)[j] by {
                        assert(ts@[j] == old_ts[j]);
                    }
                    assert(tx_views(ts@)[i as int] == t@);
                }
            },
            None => {
                proof {
                    assert forall|q: Seq<TransactionV>| tx_list_wf(q) implies bytes@ != spec_tx_list_bytes(q) by {
                        if bytes@ == spec_tx_list_bytes(q) {
                            lemma_rec_bytes_injective(q.map_values(|t: TransactionV| spec_tx_bytes(t)), pviews);
                            assert(tx_list_parts(q)[i as int] == pviews[i as int]);
                            assert(tx_v_wf(q[i as int]));
                            assert(bytes@ != rec_bytes(pviews) || spec_tx_bytes(q[i as int]) != parts@[i as int]@);
                        }
                    }
                }
                return None;
            },
        }
        i = i + 1;
    }
    let blen: usize = bytes.len();
    proof {
        assert forall|j: int| 0 <= j < plen implies tx_list_parts(tx_views(ts@))[j] == #[trigger] pviews[j] by {
            assert(spec_tx_bytes(tx_views(ts@)[j]) == pviews[j]);
        }
        assert(tx_list_parts(tx_views(ts@)) =~= pviews);
        assert(rec_bytes(pviews).len() == blen);
        assert(blen <= usize::MAX);
    }
    Some(ts)
}

/// A finalized block: header fields and its transaction list, keyed by
/// hash and by height.
pub struct BlockWithTxs {
    pub block_hash: Felt,
    pub parent_hash: Felt,
    pub block_number: u64,
    pub transactions: Vec<Transaction>,
}

/// The block still being built: not yet numbered or hashed.
pub struct PendingBlockWithTxs {
    pub parent_hash: Felt,
    pub transactions: Vec<Transaction>,
}

pub enum MaybePendingBlockWithTxs {
    Block(BlockWithTxs),
    Pending(PendingBlockWithTxs),
}

#[verifier::ext_equal]
pub struct BlockV {
    pub block_hash: Seq<u8>,
    pub parent_hash: Seq<u8>,
    pub block_number: u64,
    pub transactions: Seq<TransactionV>,
}

#[verifier::ext_equal]
pub struct PendingBlockV {
    pub parent_hash: Seq<u8>,
    pub transactions: Seq<TransactionV>,
}

#[verifier::ext_equal]
pub enum MaybePendingBlockV {
    Block(BlockV),
    Pending(PendingBlockV),
}

impl View for MaybePendingBlockWithTxs {
    type V = MaybePendingBlockV;

    open spec fn view(&self) -> MaybePendingBlockV {
        match self {
            MaybePendingBlockWithTxs::Block(b) => MaybePendingBlockV::Block(BlockV {
                block_hash: b.block_hash@,
                parent_hash: b.parent_hash@,
                block_number: b.block_number,
                transactions: tx_views(b.transactions@),
            }),
            MaybePendingBlockWithTxs::Pending(b) => MaybePendingBlockV::Pending(PendingBlockV {
                parent_hash: b.parent_hash@,
                transactions: tx_views(b.transactions@),
            }),
        }
    }
}

pub open spec fn block_v_wf(b: MaybePendingBlockV) -> bool {
    match b {
        MaybePendingBlockV::Block(x) => x.block_hash.len() == 32 && x.parent_hash.len() == 32 && tx_list_wf(x.transactions),
        MaybePendingBlockV::Pending(x) => x.parent_hash.len() == 32 && tx_list_wf(x.transactions),
    }
}

pub open spec fn block_parts(b: MaybePendingBlockV) -> Seq<Seq<u8>> {
    match b {
        MaybePendingBlockV::Block(x) => seq![
            seq![0u8],
            x.block_hash,
            x.parent_hash,
            spec_u64_be(x.block_number),
            spec_tx_list_bytes(x.transactions),
        ],
        MaybePendingBlockV::Pending(x) => seq![
            seq![1u8],
            x.parent_hash,
            spec_tx_list_bytes(x.transactions),
        ],
    }
}

/// The wire form of a block.
pub open spec fn spec_block_bytes(b: MaybePendingBlockV) -> Seq<u8> {
    rec_bytes(block_parts(b))
}

pub proof fn lemma_block_parts_wf(b: MaybePendingBlockV)
    requires
        block_v_wf(b),
    ensures
        rec_wf(block_parts(b)),
{
    lemma_u64_be_bytes();
}

/// No two distinct blocks share a wire form.
pub proof fn lemma_block_bytes_injective(a: MaybePendingBlockV, b: MaybePendingBlockV)
    requires
        block_v_wf(a),
        block_v_wf(b),
        spec_block_bytes(a) == spec_block_bytes(b),
    ensures
        a == b,
{
    lemma_u64_be_bytes();
    lemma_block_parts_wf(a);
    lemma_block_parts_wf(b);
    lemma_rec_bytes_injective(block_parts(a), block_parts(b));
    match (a, b) {
        (MaybePendingBlockV::Block(x), MaybePendingBlockV::Block(y)) => {
            assert(block_parts(a)[1] == block_parts(b)[1]);
            assert(block_parts(a)[2] == block_parts(b)[2]);
            assert(block_parts(a)[3] == block_parts(b)[3]);
            assert(block_parts(a)[4] == block_parts(b)[4]);
            assert(spec_u64_of_be(spec_u64_be(x.block_number)) == x.block_number);
            assert(spec_u64_of_be(spec_u64_be(y.block_number)) == y.block_number);
            lemma_tx_list_bytes_injective(x.transactions, y.transactions);
            assert(x =~= y);
        },
        (MaybePendingBlockV::Pending(x), MaybePendingBlockV::Pending(y)) => {
            assert(block_parts(a)[1] == block_parts(b)[1]);
            assert(block_parts(a)[2] == block_parts(b)[2]);
            lemma_tx_list_bytes_injective(x.transactions, y.transactions);
            assert(x =~= y);
        },
        (MaybePendingBlockV::Block(x), MaybePendingBlockV::Pending(y)) => {
            assert(block_parts(a).len() != block_parts(b).len());
        },
        (MaybePendingBlockV::Pending(x), MaybePendingBlockV::Block(y)) => {
            assert(block_parts(a).len() != block_parts(b).len());
        },
    }
}

/// Writes a block's record.
pub fn encode_block(b: &MaybePendingBlockWithTxs) -> (out: Vec<u8>)
    ensures
        out@ == spec_block_bytes(b@),
        block_v_wf(b@),
{
    let mut parts: Vec<Vec<u8>> = Vec::new();
    match b {
        MaybePendingBlockWithTxs::Block(x) => {
            proof {
                use_type_invariant(&x.block_hash);
                use_type_invariant(&x.parent_hash);
            }
            parts.push(tag_part(0u8));
            parts.push(x.block_hash.to_vec());
            parts.push(x.parent_hash.to_vec());
            parts.push(u64_be(x.block_number));
            parts.push(encode_tx_list(&x.transactions));
        },
        MaybePendingBlockWithTxs::Pending(x) => {
            proof {
                use_type_invariant(&x.parent_hash);
            }
            parts.push(tag_part(1u8));
            parts.push(x.parent_hash.to_vec());
            parts.push(encode_tx_list(&x.transactions));
        },
    }
    proof {
        assert(parts@.map_values(|p: Vec<u8>| p@) =~= block_parts(b@));
    }
    encode_record(&parts)
}

/// Reads a block back; `None` exactly when the bytes encode none.
pub fn decode_block(bytes: &Vec<u8>) -> (r: Option<MaybePendingBlockWithTxs>)
    ensures
        match r {
            Some(x) => block_v_wf(x@) && bytes@ == spec_block_bytes(x@),
            None => forall|q: MaybePendingBlockV| block_v_wf(q) ==> bytes@ != #[trigger] spec_block_bytes(q),
        },
{
    proof {
        lemma_u64_be_bytes();
    }
    let parts_opt = decode_record(bytes);
    let parts = match parts_opt {
        None => {
            proof {
                assert forall|q: MaybePendingBlockV| block_v_wf(q) implies bytes@ != spec_block_bytes(q) by {
                    lemma_block_parts_wf(q);
                }
            }
            return None;
        },
        Some(parts) => parts,
    };
    let ghost pviews = parts@.map_values(|p: Vec<u8>| p@);
    let ok_shape: bool =
        (parts.len() == 5 && parts[0].len() == 1 && parts[0][0] == 0u8
            && parts[1].len() == 32 && parts[2].len() == 32 && parts[3].len() == 8)
        || (parts.len() == 3 && parts[0].len() == 1 && parts[0][0] == 1u8
            && parts[1].len() == 32);
    if !ok_shape {
        proof {
            assert forall|q: MaybePendingBlockV| block_v_wf(q) implies bytes@ != spec_block_bytes(q) by {
                if bytes@ == spec_block_bytes(q) {
                    lemma_block_parts_wf(q);
                    lemma_rec_bytes_injective(block_parts(q), pviews);
                    assert(pviews[0] == block_parts(q)[0]);
                    assert(pviews[0].len() == 1);
                }
            }
        }
        return None;
    }
    if parts.len() == 5 {
        let bh_f = Felt::from_bytes(copy_range(&parts[1], 0, 32));
        let ph_f = Felt::from_bytes(copy_range(&parts[2], 0, 32));
        let num: u64 = u64_of_be(&parts[3], 0);
        let txs = decode_tx_list(&parts[4]);
        proof {
            assert(parts@[1]@.subrange(0, 32) =~= pviews[1]);
            assert(parts@[2]@.subrange(0, 32) =~= pviews[2]);
            assert(parts@[3]@.subrange(0, 8) =~= pviews[3]);
        }
        match (bh_f, ph_f, txs) {
            (Some(block_hash), Some(parent_hash), Some(transactions)) => {
                let out = MaybePendingBlockWithTxs::Block(BlockWithTxs {
                    block_hash,
                    parent_hash,
                    block_number: num,
                    transactions,
                });
                proof {
                    assert(spec_u64_be(num) =~= pviews[3]);
                    assert(seq![0u8] =~= pviews[0]);
                    assert(block_parts(out@) =~= pviews);
                }
                Some(out)
            },
            _ => {
                proof {
                    assert forall|q: MaybePendingBlockV| block_v_wf(q) implies bytes@ != spec_block_bytes(q) by {
                        if bytes@ == spec_block_bytes(q) {
                            lemma_block_parts_wf(q);
                            lemma_rec_bytes_injective(block_parts(q), pviews);
                            assert(pviews[0] == block_parts(q)[0]);
                            assert(q is Block);
                            assert(spec_tx_list_bytes(q->Block_0.transactions) == pviews[4]);
                        }
                    }
                }
                None
            },
        }
    } else {
        let ph_f = Felt::from_bytes(copy_range(&parts[1], 0, 32));
        let txs = decode_tx_list(&parts[2]);
        proof {
            assert(parts@[1]@.subrange(0, 32) =~= pviews[1]);
        }
        match (ph_f, txs) {
            (Some(parent_hash), Some(transactions)) => {
                let out = MaybePendingBlockWithTxs::Pending(PendingBlockWithTxs {
                    parent_hash,
                    transactions,
                });
                proof {
                    assert(seq![1u8] =~= pviews[0]);
                    assert(block_parts(out@) =~= pviews);
                }
                Some(out)
            },
            _ => {
                proof {
                    assert forall|q: MaybePendingBlockV| block_v_wf(q) implies bytes@ != spec_block_bytes(q) by {
                        if bytes@ == spec_block_bytes(q) {
                            lemma_block_parts_wf(q);
                            lemma_rec_bytes_injective(block_parts(q), pviews);
                            assert(pviews[0] == block_parts(q)[0]);
                            assert(q is Pending);
                            assert(spec_tx_list_bytes(q->Pending_0.transactions) == pviews[2]);
                        }
                    }
                }
                None
            },
        }
    }
}

} // verus!
