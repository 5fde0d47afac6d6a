//! The verification primitive against a set of blocks: a pre-Byzantium block
//! whose receipts carry post-state roots, a block with every typed receipt
//! kind, and an empty block. Each header's receipts root is computed by
//! `alloy_consensus::proofs::calculate_receipt_root` on the alloy form of the
//! same receipts.

use alloy_consensus::proofs::calculate_receipt_root;
use alloy_consensus::{Eip658Value, Receipt as AlloyReceipt, ReceiptEnvelope, TxType};
use alloy_primitives::{Log as AlloyLog, B256};
use receipt_verifier::error::VerifyError;
use receipt_verifier::verify::{
    compute_receipts_root, verify_receipts_root, BlockHeader, Log, Receipt, ReceiptKind, ReceiptStatus,
};

struct Fixture {
    name: &'static str,
    header: BlockHeader,
    receipts: Vec<Receipt>,
}

impl Fixture {
    fn envelopes(&self) -> Vec<ReceiptEnvelope> {
        envelopes_of(&self.receipts)
    }
}

fn alloy_log(l: &Log) -> AlloyLog {
    AlloyLog::new_unchecked(
        l.address.into(),
        l.topics.iter().map(|t| B256::from(*t)).collect(),
        l.data.clone().into(),
    )
}

fn alloy_status(s: &ReceiptStatus) -> Eip658Value {
    match s {
        ReceiptStatus::Eip658(ok) => Eip658Value::Eip658(*ok),
        ReceiptStatus::PostState(root) => Eip658Value::PostState((*root).into()),
    }
}

fn tx_type(kind: ReceiptKind) -> TxType {
    match kind {
        ReceiptKind::Legacy => TxType::Legacy,
        ReceiptKind::Eip2930 => TxType::Eip2930,
        ReceiptKind::Eip1559 => TxType::Eip1559,
        ReceiptKind::Eip4844 => TxType::Eip4844,
        ReceiptKind::Eip7702 => TxType::Eip7702,
    }
}

fn envelope_of(r: &Receipt) -> ReceiptEnvelope {
    let inner = AlloyReceipt {
        status: alloy_status(&r.status),
        cumulative_gas_used: r.cumulative_gas_used,
        logs: r.logs.iter().map(alloy_log).collect(),
    };
    let with_bloom = alloy_consensus::ReceiptWithBloom::new(inner, r.logs_bloom.into());
    ReceiptEnvelope::from_typed(tx_type(r.kind), with_bloom)
}

fn envelopes_of(receipts: &[Receipt]) -> Vec<ReceiptEnvelope> {
    receipts.iter().map(envelope_of).collect()
}

fn log(seed: u8, topics: usize, data_len: usize) -> Log {
    Log {
        address: [seed; 20],
        topics: (0..topics).map(|i| [seed.wrapping_add(i as u8 + 1); 32]).collect(),
        data: (0..data_len).map(|i| seed.wrapping_mul(7).wrapping_add(i as u8)).collect(),
    }
}

fn receipt(kind: ReceiptKind, status: ReceiptStatus, gas: u64, logs: Vec<Log>) -> Receipt {
    let mut r = Receipt { kind, status, cumulative_gas_used: gas, logs_bloom: [0u8; 256], logs };
    let bloom = AlloyReceipt {
        status: alloy_status(&r.status),
        cumulative_gas_used: gas,
        logs: r.logs.iter().map(alloy_log).collect::<Vec<_>>(),
    }
    .bloom_slow();
    r.logs_bloom = bloom.0 .0;
    r
}

fn header(number: u64, receipts_root: [u8; 32]) -> BlockHeader {
    BlockHeader {
        parent_hash: [1; 32],
        ommers_hash: [2; 32],
        beneficiary: [3; 20],
        state_root: [4; 32],
        transactions_root: [5; 32],
        receipts_root,
        logs_bloom: [0; 256],
        difficulty: [0; 32],
        number,
        gas_limit: 30_000_000,
        gas_used: 21_000,
        timestamp: 1_700_000_000,
        extra_data: vec![0xde, 0xad],
        mix_hash: [6; 32],
        nonce: [0; 8],
        base_fee_per_gas: Some(7),
        withdrawals_root: None,
        blob_gas_used: None,
        excess_blob_gas: None,
        parent_beacon_block_root: None,
        requests_hash: None,
    }
}

fn fixture(name: &'static str, number: u64, receipts: Vec<Receipt>) -> Fixture {
    let root = calculate_receipt_root(&envelopes_of(&receipts));
    Fixture { name, header: header(number, root.0), receipts }
}

fn load_all() -> Vec<Fixture> {
    vec![
        fixture(
            "pre_byzantium_261653",
            261_653,
            vec![
                receipt(ReceiptKind::Legacy, ReceiptStatus::PostState([0x11; 32]), 21_000, vec![]),
                receipt(
                    ReceiptKind::Legacy,
                    ReceiptStatus::PostState([0x22; 32]),
                    74_000,
                    vec![log(9, 2, 64)],
                ),
                receipt(
                    ReceiptKind::Legacy,
                    ReceiptStatus::PostState([0x33; 32]),
                    120_000,
                    vec![log(4, 1, 32), log(5, 3, 0)],
                ),
            ],
        ),
        fixture(
            "synthetic_typed_21000000",
            21_000_000,
            vec![
                receipt(ReceiptKind::Legacy, ReceiptStatus::Eip658(true), 21_000, vec![]),
                receipt(ReceiptKind::Eip2930, ReceiptStatus::Eip658(true), 60_000, vec![log(1, 1, 8)]),
                receipt(
                    ReceiptKind::Eip1559,
                    ReceiptStatus::Eip658(true),
                    150_000,
                    vec![log(2, 3, 96), log(3, 0, 1)],
                ),
                receipt(ReceiptKind::Eip4844, ReceiptStatus::Eip658(false), 171_000, vec![log(6, 2, 40)]),
                receipt(ReceiptKind::Eip7702, ReceiptStatus::Eip658(true), 230_000, vec![]),
            ],
        ),
        fixture("empty_19000042", 19_000_042, vec![]),
    ]
}

/// Flips the last hex digit of one log's data between `0` and `1`, as a lying
/// provider would at the JSON level: that digit of the `0x…` text is the low
/// nibble of the last data byte, so the change is made on that nibble.
fn tamper_one_log_byte(receipts: &mut [Receipt]) {
    for r in receipts.iter_mut() {
        for l in r.logs.iter_mut() {
            if let Some(last) = l.data.last_mut() {
                *last = if *last & 0x0f == 0 { (*last & 0xf0) | 1 } else { *last & 0xf0 };
                return;
            }
        }
    }
    panic!("no log with data found to tamper — fixture too bare");
}

/// Every fixture verifies, and the returned root equals the header's
/// `receipts_root`.
#[test]
fn happy_path_all_fixtures_verify() {
    for fx in load_all() {
        let root = verify_receipts_root(&fx.header, &fx.receipts)
            .unwrap_or_else(|e| panic!("{}: {e:?}", fx.name));
        assert_eq!(root, fx.header.receipts_root, "{}", fx.name);
    }
}

/// Flip one byte in one log's data: verification must fail with
/// `RootMismatch`.
#[test]
fn tampered_log_byte_is_caught() {
    for fx in load_all() {
        let has_log_data = fx.receipts.iter().any(|r| r.logs.iter().any(|l| !l.data.is_empty()));
        if !has_log_data {
            continue;
        }
        let mut receipts = fx.receipts.clone();
        tamper_one_log_byte(&mut receipts);
        match verify_receipts_root(&fx.header, &receipts) {
            Err(VerifyError::RootMismatch { block, expected, computed }) => {
                assert_eq!(block, fx.header.number, "{}", fx.name);
                assert_eq!(expected, fx.header.receipts_root, "{}", fx.name);
                assert_ne!(computed, expected, "{}", fx.name);
            },
            other => panic!("{}: tampered data must produce RootMismatch, got {other:?}", fx.name),
        }
    }
}

/// The trie construction agrees with
/// `alloy_consensus::proofs::calculate_receipt_root` on every fixture.
#[test]
fn differential_against_alloy_proofs() {
    for fx in load_all() {
        let envelopes = fx.envelopes();
        assert_eq!(compute_receipts_root(&fx.receipts), calculate_receipt_root(&envelopes).0, "{}", fx.name);
    }
}

/// Receipts carrying a post-state root (no status byte) verify.
#[test]
fn pre_byzantium_post_state_receipts_verify() {
    let fixtures: Vec<_> = load_all().into_iter().filter(|fx| fx.header.number < 4_370_000).collect();
    assert!(!fixtures.is_empty(), "no pre-Byzantium fixture present");
    for fx in fixtures {
        let envelopes = fx.envelopes();
        assert!(
            envelopes
                .iter()
                .all(|e| matches!(e.as_receipt().map(|r| &r.status), Some(Eip658Value::PostState(_)))),
            "{}: pre-Byzantium fixture must carry post-state roots, not status bytes",
            fx.name
        );
        verify_receipts_root(&fx.header, &fx.receipts).unwrap_or_else(|e| panic!("{}: {e:?}", fx.name));
    }
}

/// A block containing EIP-1559 and EIP-4844 receipts verifies.
#[test]
fn typed_transaction_block_verifies() {
    let fixtures: Vec<_> = load_all()
        .into_iter()
        .filter(|fx| {
            fx.receipts.iter().any(|r| r.kind == ReceiptKind::Eip1559)
                && fx.receipts.iter().any(|r| r.kind == ReceiptKind::Eip4844)
        })
        .collect();
    assert!(!fixtures.is_empty(), "no fixture with both EIP-1559 and EIP-4844 receipts present");
    for fx in fixtures {
        verify_receipts_root(&fx.header, &fx.receipts).unwrap_or_else(|e| panic!("{}: {e:?}", fx.name));
    }
}
