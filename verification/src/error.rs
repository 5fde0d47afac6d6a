use vstd::prelude::*;
use vstd::utf8::encode_utf8;

use crate::text::{decimal_bytes, decimal_chars, lemma_encode_utf8_concat, push_str_bytes, string_of_encoded};
use crate::verify::append_bytes;

verus! {

/// Why a block's receipts could not be returned.
#[derive(Debug)]
pub enum VerifyError {
    /// The provider has no block with this number.
    BlockNotFound(u64),
    /// The one error that returns full detail: neither root is secret, and
    /// both are exactly what a caller needs to investigate.
    RootMismatch { block: u64, expected: [u8; 32], computed: [u8; 32] },
    /// Transport / decode failures. The detail (which can contain the provider
    /// URL, and provider URLs carry API keys) is logged, never returned.
    Upstream { detail: String },
}

impl VerifyError {
    /// An upstream failure carrying the rendered cause.
    pub fn upstream(detail: String) -> (err: VerifyError)
        ensures
            err matches VerifyError::Upstream { detail: d } && d@ == detail@,
    {
        VerifyError::Upstream { detail }
    }

    pub open spec fn spec_code(&self) -> Seq<char> {
        match self {
            VerifyError::BlockNotFound(_) => "block_not_found"@,
            VerifyError::RootMismatch { .. } => "root_mismatch"@,
            VerifyError::Upstream { .. } => "upstream_error"@,
        }
    }

    /// Stable, machine-readable identifier for each failure mode.
    pub fn code(&self) -> (code: &'static str)
        ensures
            code@ == self.spec_code(),
    {
        match self {
            VerifyError::BlockNotFound(_) => "block_not_found",
            VerifyError::RootMismatch { .. } => "root_mismatch",
            VerifyError::Upstream { .. } => "upstream_error",
        }
    }

    /// The human-readable message of the error envelope.
    pub open spec fn spec_message(&self) -> Seq<char> {
        match self {
            VerifyError::BlockNotFound(n) => "block "@ + decimal_chars(*n as nat) + " not found"@,
            VerifyError::RootMismatch { block, .. } => "receipts root mismatch for block "@ + decimal_chars(
                *block as nat,
            ),
            VerifyError::Upstream { .. } => "upstream rpc failure"@,
        }
    }

    /// The human-readable message; the upstream detail is never part of it.
    pub fn message(&self) -> (message: String)
        ensures
            message@ == self.spec_message(),
    {
        match self {
            VerifyError::BlockNotFound(n) => {
                let head = "block ";
                let tail = " not found";
                let digits = decimal_bytes(*n);
                let mut bytes: Vec<u8> = Vec::new();
                push_str_bytes(&mut bytes, head);
                append_bytes(&mut bytes, &digits);
                push_str_bytes(&mut bytes, tail);
                let ghost d = decimal_chars(*n as nat);
                proof {
                    lemma_encode_utf8_concat(head@, d);
                    lemma_encode_utf8_concat(head@ + d, tail@);
                    assert(bytes@ =~= encode_utf8(head@ + d + tail@));
                }
                string_of_encoded(bytes, Ghost(head@ + d + tail@))
            },
            VerifyError::RootMismatch { block, .. } => {
                let head = "receipts root mismatch for block ";
                let digits = decimal_bytes(*block);
                let mut bytes: Vec<u8> = Vec::new();
                push_str_bytes(&mut bytes, head);
                append_bytes(&mut bytes, &digits);
                let ghost d = decimal_chars(*block as nat);
                proof {
                    lemma_encode_utf8_concat(head@, d);
                }
                string_of_encoded(bytes, Ghost(head@ + d))
            },
            VerifyError::Upstream { .. } => "upstream rpc failure".to_string(),
        }
    }

    pub open spec fn spec_http_status(&self) -> u16 {
        match self {
            VerifyError::BlockNotFound(_) => 404,
            VerifyError::RootMismatch { .. } => 502,
            VerifyError::Upstream { .. } => 502,
        }
    }

    /// The HTTP status the error is answered with: 404 when the provider has
    /// no such block, 502 whenever the blame is upstream (a root mismatch or
    /// a transport / decode failure).
    pub fn http_status(&self) -> (status: u16)
        ensures
            status == self.spec_http_status(),
    {
        match self {
            VerifyError::BlockNotFound(_) => 404,
            VerifyError::RootMismatch { .. } => 502,
            VerifyError::Upstream { .. } => 502,
        }
    }

    /// The structured facts returned with the error: the block number for a
    /// missing block, the block number and both roots for a mismatch, and
    /// nothing for an upstream failure (its detail is never returned).
    pub fn details(&self) -> (details: ErrorDetails)
        ensures
            match self {
                VerifyError::BlockNotFound(n) => details == ErrorDetails::BlockNumber(*n),
                VerifyError::RootMismatch { block, expected, computed } => details matches ErrorDetails::Roots {
                    block_number,
                    header_receipts_root,
                    computed_receipts_root,
                } && block_number == *block && header_receipts_root@ == expected@
                    && computed_receipts_root@ == computed@,
                VerifyError::Upstream { .. } => details == ErrorDetails::Null,
            },
    {
        match self {
            VerifyError::BlockNotFound(n) => ErrorDetails::BlockNumber(*n),
            VerifyError::RootMismatch { block, expected, computed } => ErrorDetails::Roots {
                block_number: *block,
                header_receipts_root: *expected,
                computed_receipts_root: *computed,
            },
            VerifyError::Upstream { .. } => ErrorDetails::Null,
        }
    }
}

/// The `details` member of the error envelope.
#[derive(Debug, PartialEq, Eq)]
pub enum ErrorDetails {
    BlockNumber(u64),
    Roots { block_number: u64, header_receipts_root: [u8; 32], computed_receipts_root: [u8; 32] },
    Null,
}

} // verus!
