//! The verification primitive: recompute the receipts trie root and compare
//! it with the root the header commits to.

use alloy_consensus::{
    Eip658Value, Header, Receipt as ConsensusReceipt, ReceiptEnvelope, ReceiptWithBloom, TxType,
};
use alloy_eips::eip2718::Encodable2718;
use alloy_primitives::{Log as PrimitiveLog, B256, U256};
use vstd::prelude::*;

use crate::error::VerifyError;

verus! {

/// One log entry as committed to the receipts trie: emitting address,
/// topics and data. RPC-only metadata (transaction hash, indices) is not part
/// of it.
#[derive(Clone, Debug)]
pub struct Log {
    pub address: [u8; 20],
    pub topics: Vec<[u8; 32]>,
    pub data: Vec<u8>,
}

pub struct LogView {
    pub address: Seq<u8>,
    pub topics: Seq<Seq<u8>>,
    pub data: Seq<u8>,
}

impl View for Log {
    type V = LogView;

    open spec fn view(&self) -> LogView {
        LogView {
            address: self.address@,
            topics: self.topics@.map_values(|t: [u8; 32]| t@),
            data: self.data@,
        }
    }
}

/// The outcome field of a receipt: an EIP-658 status flag, or, before
/// Byzantium, the post-transaction state root.
#[derive(Clone, Copy, Debug)]
pub enum ReceiptStatus {
    Eip658(bool),
    PostState([u8; 32]),
}

pub enum ReceiptStatusView {
    Eip658(bool),
    PostState(Seq<u8>),
}

impl View for ReceiptStatus {
    type V = ReceiptStatusView;

    open spec fn view(&self) -> ReceiptStatusView {
        match self {
            ReceiptStatus::Eip658(ok) => ReceiptStatusView::Eip658(*ok),
            ReceiptStatus::PostState(root) => ReceiptStatusView::PostState(root@),
        }
    }
}

/// The EIP-2718 transaction type a receipt belongs to, in type-id order
/// (legacy is 0, EIP-7702 is 4).
#[derive(Clone, Copy, Debug, PartialEq, Eq, Structural)]
pub enum ReceiptKind {
    Legacy,
    Eip2930,
    Eip1559,
    Eip4844,
    Eip7702,
}

/// The consensus form of a transaction receipt: exactly the fields the
/// receipts trie commits to.
#[derive(Clone, Debug)]
pub struct Receipt {
    pub kind: ReceiptKind,
    pub status: ReceiptStatus,
    pub cumulative_gas_used: u64,
    pub logs_bloom: [u8; 256],
    pub logs: Vec<Log>,
}

pub struct ReceiptView {
    pub kind: ReceiptKind,
    pub status: ReceiptStatusView,
    pub cumulative_gas_used: u64,
    pub logs_bloom: Seq<u8>,
    pub logs: Seq<LogView>,
}

impl View for Receipt {
    type V = ReceiptView;

    open spec fn view(&self) -> ReceiptView {
        ReceiptView {
            kind: self.kind,
            status: self.status@,
            cumulative_gas_used: self.cumulative_gas_used,
            logs_bloom: self.logs_bloom@,
            logs: self.logs@.map_values(|l: Log| l@),
        }
    }
}

/// The EIP-2718 encoding of a receipt as `alloy_consensus` produces it: the
/// type byte for typed receipts, then the RLP of status, cumulative gas,
/// bloom and logs.
pub uninterp spec fn receipt_encoding_2718(receipt: ReceiptView) -> Seq<u8>;

/// The root of the ordered Merkle-Patricia trie whose key for the value at
/// index `i` is the RLP of `i`, as `alloy_trie` computes it.
pub uninterp spec fn ordered_trie_root(values: Seq<Seq<u8>>) -> Seq<u8>;

/// The root of the empty trie: keccak-256 of the RLP of the empty string.
pub open spec fn empty_root_hash() -> Seq<u8> {
    seq![
        0x56u8, 0xe8, 0x1f, 0x17, 0x1b, 0xcc, 0x55, 0xa6, 0xff, 0x83, 0x45, 0xe6, 0x92, 0xc0,
        0xf8, 0x6e, 0x5b, 0x48, 0xe0, 0x1b, 0x99, 0x6c, 0xad, 0xc0, 0x01, 0x62, 0x2f, 0xb5,
        0xe3, 0x63, 0xb4, 0x21,
    ]
}

/// The views of a sequence of receipts.
pub open spec fn receipt_views(receipts: Seq<Receipt>) -> Seq<ReceiptView> {
    receipts.map_values(|r: Receipt| r@)
}

/// The receipts root that a block with these receipts must commit to: the
/// ordered trie over their EIP-2718 encodings.
pub open spec fn receipts_root_of(receipts: Seq<ReceiptView>) -> Seq<u8> {
    ordered_trie_root(receipts.map_values(|r: ReceiptView| receipt_encoding_2718(r)))
}

/// Appends `bytes` to `out`.
pub fn append_bytes(out: &mut Vec<u8>, bytes: &Vec<u8>)
    ensures
        final(out)@ == old(out)@ + bytes@,
{
    let n = bytes.len();
    for i in 0..n
        invariant
            n == bytes@.len(),
            out@ == old(out)@ + bytes@.subrange(0, i as int),
    {
        out.push(bytes[i]);
        assert(bytes@.subrange(0, i + 1) =~= bytes@.subrange(0, i as int).push(bytes@[i as int]));
    }
    assert(bytes@.subrange(0, n as int) =~= bytes@);
}

/// `alloy_eips::eip2718::Encodable2718::encoded_2718` on the
/// `alloy_consensus::ReceiptEnvelope` that holds this receipt. The contract
/// claims only that the bytes are the named encoding of the receipt.
#[verifier::external_body]
fn encode_2718(r: &Receipt) -> (bytes: Vec<u8>)
    ensures
        bytes@ == receipt_encoding_2718(r@),
{
    let logs = r.logs.iter().map(|l| PrimitiveLog::new_unchecked(l.address.into(), l.topics.iter().map(|t| B256::from(*t)).collect(), l.data.clone().into())).collect();
    let status = match r.status { ReceiptStatus::Eip658(ok) => Eip658Value::Eip658(ok), ReceiptStatus::PostState(root) => Eip658Value::PostState(root.into()) };
    let inner = ReceiptWithBloom::new(ConsensusReceipt { status, cumulative_gas_used: r.cumulative_gas_used, logs }, r.logs_bloom.into());
    ReceiptEnvelope::from_typed(TxType::try_from(r.kind as u8).unwrap(), inner).encoded_2718()
}

/// `alloy_trie::root::ordered_trie_root_with_encoder` over already encoded
/// values, each handed to the trie unchanged. The contract names the root and
/// states what the source returns for no values: `EMPTY_ROOT_HASH`.
#[verifier::external_body]
fn trie_root_of_encoded(values: &Vec<Vec<u8>>) -> (root: [u8; 32])
    ensures
        root@ == ordered_trie_root(values@.map_values(|v: Vec<u8>| v@)),
        values@.len() == 0 ==> root@ == empty_root_hash(),
{
    alloy_trie::root::ordered_trie_root_with_encoder(values, |value, out| append_bytes(out, value)).0
}

/// Recomputes the receipts trie root from the receipts themselves: key = RLP
/// of the receipt's index, value = the receipt's EIP-2718 encoding.
pub fn compute_receipts_root(receipts: &[Receipt]) -> (root: [u8; 32])
    ensures
        root@ == receipts_root_of(receipt_views(receipts@)),
        receipts@.len() == 0 ==> root@ == empty_root_hash(),
{
    let n = receipts.len();
    let mut encoded: Vec<Vec<u8>> = Vec::new();
    for i in 0..n
        invariant
            n == receipts@.len(),
            encoded@.len() == i,
            forall|j: int|
                0 <= j < i ==> (#[trigger] encoded@[j])@ == receipt_encoding_2718(receipts@[j]@),
    {
        let bytes = encode_2718(&receipts[i]);
        encoded.push(bytes);
    }
    assert(encoded@.map_values(|v: Vec<u8>| v@) =~= receipt_views(receipts@).map_values(
        |r: ReceiptView| receipt_encoding_2718(r),
    ));
    trie_root_of_encoded(&encoded)
}

/// The header fields of a block, as the consensus header carries them.
/// `difficulty` is the big-endian form of the 256-bit value; the optional
/// fields are those later forks added.
#[derive(Clone, Debug)]
pub struct BlockHeader {
    pub parent_hash: [u8; 32],
    pub ommers_hash: [u8; 32],
    pub beneficiary: [u8; 20],
    pub state_root: [u8; 32],
    pub transactions_root: [u8; 32],
    pub receipts_root: [u8; 32],
    pub logs_bloom: [u8; 256],
    pub difficulty: [u8; 32],
    pub number: u64,
    pub gas_limit: u64,
    pub gas_used: u64,
    pub timestamp: u64,
    pub extra_data: Vec<u8>,
    pub mix_hash: [u8; 32],
    pub nonce: [u8; 8],
    pub base_fee_per_gas: Option<u64>,
    pub withdrawals_root: Option<[u8; 32]>,
    pub blob_gas_used: Option<u64>,
    pub excess_blob_gas: Option<u64>,
    pub parent_beacon_block_root: Option<[u8; 32]>,
    pub requests_hash: Option<[u8; 32]>,
}

pub struct BlockHeaderView {
    pub parent_hash: Seq<u8>,
    pub ommers_hash: Seq<u8>,
    pub beneficiary: Seq<u8>,
    pub state_root: Seq<u8>,
    pub transactions_root: Seq<u8>,
    pub receipts_root: Seq<u8>,
    pub logs_bloom: Seq<u8>,
    pub difficulty: Seq<u8>,
    pub number: u64,
    pub gas_limit: u64,
    pub gas_used: u64,
    pub timestamp: u64,
    pub extra_data: Seq<u8>,
    pub mix_hash: Seq<u8>,
    pub nonce: Seq<u8>,
    pub base_fee_per_gas: Option<u64>,
    pub withdrawals_root: Option<Seq<u8>>,
    pub blob_gas_used: Option<u64>,
    pub excess_blob_gas: Option<u64>,
    pub parent_beacon_block_root: Option<Seq<u8>>,
    pub requests_hash: Option<Seq<u8>>,
}

pub open spec fn optional_bytes_view(v: Option<[u8; 32]>) -> Option<Seq<u8>> {
    match v {
        Some(b) => Some(b@),
        None => None,
    }
}

impl View for BlockHeader {
    type V = BlockHeaderView;

    open spec fn view(&self) -> BlockHeaderView {
        BlockHeaderView {
            parent_hash: self.parent_hash@,
            ommers_hash: self.ommers_hash@,
            beneficiary: self.beneficiary@,
            state_root: self.state_root@,
            transactions_root: self.transactions_root@,
            receipts_root: self.receipts_root@,
            logs_bloom: self.logs_bloom@,
            difficulty: self.difficulty@,
            number: self.number,
            gas_limit: self.gas_limit,
            gas_used: self.gas_used,
            timestamp: self.timestamp,
            extra_data: self.extra_data@,
            mix_hash: self.mix_hash@,
            nonce: self.nonce@,
            base_fee_per_gas: self.base_fee_per_gas,
            withdrawals_root: optional_bytes_view(self.withdrawals_root),
            blob_gas_used: self.blob_gas_used,
            excess_blob_gas: self.excess_blob_gas,
            parent_beacon_block_root: optional_bytes_view(self.parent_beacon_block_root),
            requests_hash: optional_bytes_view(self.requests_hash),
        }
    }
}

/// The block hash, as `alloy_consensus::Header::hash_slow` computes it:
/// keccak-256 of the header's RLP encoding.
pub uninterp spec fn header_hash(header: BlockHeaderView) -> Seq<u8>;

/// `alloy_consensus::Header::hash_slow` on the consensus header with these
/// fields. The contract claims only that the result is the named hash.
#[verifier::external_body]
pub(crate) fn hash_slow(h: &BlockHeader) -> (hash: [u8; 32])
    ensures
        hash@ == header_hash(h@),
{
    let &BlockHeader { number, gas_limit, gas_used, timestamp, base_fee_per_gas, blob_gas_used, excess_blob_gas, .. } = h;
    *Header { parent_hash: h.parent_hash.into(), ommers_hash: h.ommers_hash.into(), beneficiary: h.beneficiary.into(),
        state_root: h.state_root.into(), transactions_root: h.transactions_root.into(), receipts_root: h.receipts_root.into(),
        logs_bloom: h.logs_bloom.into(), difficulty: U256::from_be_bytes(h.difficulty), number, gas_limit, gas_used, timestamp,
        extra_data: h.extra_data.clone().into(), mix_hash: h.mix_hash.into(), nonce: h.nonce.into(), base_fee_per_gas,
        withdrawals_root: h.withdrawals_root.map(B256::from), blob_gas_used, excess_blob_gas,
        parent_beacon_block_root: h.parent_beacon_block_root.map(B256::from), requests_hash: h.requests_hash.map(B256::from),
    }.hash_slow()
}

/// Whether two 32-byte values are equal.
pub fn bytes32_eq(a: &[u8; 32], b: &[u8; 32]) -> (eq: bool)
    ensures
        eq == (a@ == b@),
{
    let mut i: usize = 0;
    while i < 32
        invariant
            i <= 32,
            a@.len() == 32,
            b@.len() == 32,
            forall|j: int| 0 <= j < i ==> a@[j] == b@[j],
        decreases 32 - i,
    {
        if a[i] != b[i] {
            return false;
        }
        i = i + 1;
    }
    assert(a@ =~= b@);
    true
}

/// What a verification of `computed` against `header` yields: the computed
/// root where it equals the header's `receipts_root`, else a mismatch that
/// carries the block number and both roots.
pub open spec fn root_check_outcome(header: BlockHeaderView, computed: Seq<u8>, res: Result<[u8; 32], VerifyError>) -> bool {
    if computed == header.receipts_root {
        res matches Ok(root) && root@ == computed
    } else {
        res matches Err(VerifyError::RootMismatch { block, expected, computed: c })
            && block == header.number && expected@ == header.receipts_root && c@ == computed
    }
}

/// Compares an already computed receipts root with the header's claim.
/// On a match the computed root is returned; otherwise a `RootMismatch`
/// carrying the block number, the header's root and the computed one.
pub fn check_receipts_root(header: &BlockHeader, computed: [u8; 32]) -> (res: Result<[u8; 32], VerifyError>)
    ensures
        root_check_outcome(header@, computed@, res),
{
    if !bytes32_eq(&computed, &header.receipts_root) {
        return Err(VerifyError::RootMismatch {
            block: header.number,
            expected: header.receipts_root,
            computed,
        });
    }
    Ok(computed)
}

/// Recomputes the receipts trie root from the receipts and compares it with
/// the header's `receipts_root`. On a match it returns the *computed* root;
/// otherwise `RootMismatch` with the block number and both roots.
pub fn verify_receipts_root(header: &BlockHeader, receipts: &[Receipt]) -> (res: Result<[u8; 32], VerifyError>)
    ensures
        root_check_outcome(header@, receipts_root_of(receipt_views(receipts@)), res),
        receipts@.len() == 0 ==> root_check_outcome(header@, empty_root_hash(), res),
{
    let computed = compute_receipts_root(receipts);
    check_receipts_root(header, computed)
}

/// A verification that succeeds returns the header's own receipts root, and
/// that root is the recomputed one: success means they are equal.
pub proof fn law_success_means_roots_agree(
    header: BlockHeaderView,
    computed: Seq<u8>,
    res: Result<[u8; 32], VerifyError>,
)
    requires
        root_check_outcome(header, computed, res),
    ensures
        res is Ok <==> computed == header.receipts_root,
        res matches Ok(root) ==> root@ == header.receipts_root && root@ == computed,
{
}

/// A verification fails exactly when the recomputed root differs from the
/// header's, and then with a root mismatch naming the block, the header's root
/// and the recomputed one, which differ.
pub proof fn law_mismatch_reports_both_roots(
    header: BlockHeaderView,
    computed: Seq<u8>,
    res: Result<[u8; 32], VerifyError>,
)
    requires
        root_check_outcome(header, computed, res),
    ensures
        res is Err <==> computed != header.receipts_root,
        res is Err ==> (res matches Err(VerifyError::RootMismatch { block, expected, computed: c })
            && block == header.number && expected@ == header.receipts_root && c@ == computed
            && c@ != expected@),
{
}

/// Two receipt lists whose trie roots differ cannot both verify against the
/// same header.
pub proof fn law_at_most_one_root_verifies(
    header: BlockHeaderView,
    first: Seq<ReceiptView>,
    second: Seq<ReceiptView>,
    res1: Result<[u8; 32], VerifyError>,
    res2: Result<[u8; 32], VerifyError>,
)
    requires
        root_check_outcome(header, receipts_root_of(first), res1),
        root_check_outcome(header, receipts_root_of(second), res2),
        receipts_root_of(first) != receipts_root_of(second),
    ensures
        res1 is Err || res2 is Err,
{
}

} // verus!
