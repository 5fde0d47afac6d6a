//! The placeholder `/{block_number}` endpoint: it answers fixed values and
//! verifies nothing.

use vstd::prelude::*;

use crate::models::JobError;
use crate::state::AppState;

verus! {

/// The anchor of a header: none in this phase.
#[derive(Clone, Copy, Debug, PartialEq, Eq, Structural)]
pub enum Anchor {
    Unanchored,
}

/// The placeholder response shape.
#[derive(Debug)]
pub struct VerifiedReceipts {
    pub block_number: u64,
    pub block_hash: u64,
    pub receipts_root: u64,
    pub anchor: Anchor,
    pub receipt_count: usize,
}

/// Answers the fixed placeholder values for any block.
pub fn verify_handler(state: &AppState, block_number: u64) -> (res: Result<VerifiedReceipts, JobError>)
    ensures
        res matches Ok(v) && v.block_number == block_number && v.block_hash == 0x1233123
            && v.receipts_root == 0x33123213 && v.anchor == Anchor::Unanchored && v.receipt_count == 2,
{
    Ok(VerifiedReceipts {
        block_number,
        block_hash: 0x1233123,
        receipts_root: 0x33123213,
        anchor: Anchor::Unanchored,
        receipt_count: 2,
    })
}

} // verus!
