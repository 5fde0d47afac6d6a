//! `GET /v1/blocks/{block_number}/receipts`: what is answered once the
//! provider has been asked for the block and its receipts.

use vstd::prelude::*;
use vstd::utf8::encode_utf8;

use crate::error::VerifyError;
use crate::text::{decimal_bytes, decimal_chars, lemma_encode_utf8_concat, push_str_bytes, string_of_encoded};
use crate::verify::{
    check_receipts_root, compute_receipts_root, hash_slow, header_hash, receipt_views, receipts_root_of,
    BlockHeader, Receipt,
};

verus! {

/// Phase 1 never anchors the header, and says so in every response.
#[derive(Clone, Copy, Debug, PartialEq, Eq, Structural)]
pub enum Anchor {
    Unanchored,
}

/// A block's receipts, returned only after their root was recomputed and
/// found equal to the header's.
#[derive(Debug)]
pub struct VerifiedReceipts<R> {
    pub block_number: u64,
    /// Recomputed from the received header, not echoed from the provider.
    pub block_hash: [u8; 32],
    /// Always the value this service computed, never the header's claim.
    pub receipts_root: [u8; 32],
    pub anchor: Anchor,
    pub receipt_count: usize,
    pub receipts: Vec<R>,
}

/// What the provider answered, or `BlockNotFound` where it had nothing for
/// this block (for the header as for the receipts).
pub fn require_found<T>(block_number: u64, fetched: Option<T>) -> (res: Result<T, VerifyError>)
    ensures
        match fetched {
            Some(v) => res == Ok::<T, VerifyError>(v),
            None => res matches Err(VerifyError::BlockNotFound(n)) && n == block_number,
        },
{
    match fetched {
        Some(v) => Ok(v),
        None => Err(VerifyError::BlockNotFound(block_number)),
    }
}

/// The upstream detail logged when the provider answers with another block.
pub open spec fn wrong_block_detail(asked: u64, answered: u64) -> Seq<char> {
    "asked for block "@ + decimal_chars(asked as nat) + ", provider answered with block "@
        + decimal_chars(answered as nat)
}

fn wrong_block_message(asked: u64, answered: u64) -> (detail: String)
    ensures
        detail@ == wrong_block_detail(asked, answered),
{
    let ghost a = decimal_chars(asked as nat);
    let ghost b = decimal_chars(answered as nat);
    let prefix = "asked for block ";
    let middle = ", provider answered with block ";
    let mut bytes: Vec<u8> = Vec::new();
    push_str_bytes(&mut bytes, prefix);
    let asked_digits = decimal_bytes(asked);
    crate::verify::append_bytes(&mut bytes, &asked_digits);
    push_str_bytes(&mut bytes, middle);
    let answered_digits = decimal_bytes(answered);
    crate::verify::append_bytes(&mut bytes, &answered_digits);
    proof {
        lemma_encode_utf8_concat(prefix@, a);
        lemma_encode_utf8_concat(prefix@ + a, middle@);
        lemma_encode_utf8_concat(prefix@ + a + middle@, b);
        assert(bytes@ =~= encode_utf8(prefix@ + a + middle@ + b));
        reveal_strlit("asked for block ");
        reveal_strlit(", provider answered with block ");
    }
    string_of_encoded(bytes, Ghost(prefix@ + a + middle@ + b))
}

/// What `verified_receipts` answers: an upstream error when the provider
/// answered with another block; otherwise, where the recomputed root equals
/// the header's, the verified receipts with the recomputed root and block
/// hash, and a root mismatch where it does not.
pub open spec fn verified_receipts_outcome<R>(
    block_number: u64,
    header: &BlockHeader,
    consensus: Seq<Receipt>,
    receipts: Seq<R>,
    res: Result<VerifiedReceipts<R>, VerifyError>,
) -> bool {
    let computed = receipts_root_of(receipt_views(consensus));
    if header.number != block_number {
        res matches Err(VerifyError::Upstream { detail }) && detail@ == wrong_block_detail(
            block_number,
            header.number,
        )
    } else if computed == header.receipts_root@ {
        res matches Ok(v) && v.block_number == header.number && v.block_hash@ == header_hash(header@)
            && v.receipts_root@ == computed && v.anchor == Anchor::Unanchored && v.receipt_count
            == receipts.len() && v.receipts@ == receipts
    } else {
        res matches Err(VerifyError::RootMismatch { block, expected, computed: c }) && block
            == header.number && expected@ == header.receipts_root@ && c@ == computed
    }
}

/// The answer for block `block_number` once the provider has sent `header`
/// and the receipts: `consensus` is their consensus form, the one the trie
/// commits to, and `receipts` the form they are returned in, one for one.
pub fn verified_receipts<R>(
    block_number: u64,
    header: &BlockHeader,
    consensus: &[Receipt],
    receipts: Vec<R>,
) -> (res: Result<VerifiedReceipts<R>, VerifyError>)
    requires
        consensus@.len() == receipts@.len(),
    ensures
        verified_receipts_outcome(block_number, header, consensus@, receipts@, res),
{
    if header.number != block_number {
        return Err(VerifyError::upstream(wrong_block_message(block_number, header.number)));
    }
    let computed = compute_receipts_root(consensus);
    let root = match check_receipts_root(header, computed) {
        Ok(root) => root,
        Err(e) => return Err(e),
    };
    let receipt_count = receipts.len();
    Ok(VerifiedReceipts {
        block_number: header.number,
        block_hash: hash_slow(header),
        receipts_root: root,
        anchor: Anchor::Unanchored,
        receipt_count,
        receipts,
    })
}

/// There is no success path that returns unverified receipts: whenever the
/// receipts are answered, the block is the one asked for, the recomputed root
/// equals the header's, the answered root is that root, the header is marked
/// unanchored and the count is the number of receipts answered.
pub proof fn law_answered_receipts_are_verified<R>(
    block_number: u64,
    header: &BlockHeader,
    consensus: Seq<Receipt>,
    receipts: Seq<R>,
    res: Result<VerifiedReceipts<R>, VerifyError>,
)
    requires
        verified_receipts_outcome(block_number, header, consensus, receipts, res),
    ensures
        res matches Ok(v) ==> {
            &&& header.number == block_number
            &&& receipts_root_of(receipt_views(consensus)) == header.receipts_root@
            &&& v.receipts_root@ == header.receipts_root@
            &&& v.anchor == Anchor::Unanchored
            &&& v.receipt_count == receipts.len()
            &&& v.receipts@ == receipts
        },
{
}

/// A block that is the one asked for but whose receipts do not hash to its
/// root is answered with a root mismatch (a 502), never with receipts.
pub proof fn law_tampered_receipts_are_refused<R>(
    block_number: u64,
    header: &BlockHeader,
    consensus: Seq<Receipt>,
    receipts: Seq<R>,
    res: Result<VerifiedReceipts<R>, VerifyError>,
)
    requires
        verified_receipts_outcome(block_number, header, consensus, receipts, res),
        header.number == block_number,
        receipts_root_of(receipt_views(consensus)) != header.receipts_root@,
    ensures
        res matches Err(e) && e is RootMismatch && e.spec_http_status() == 502,
{
}

} // verus!
