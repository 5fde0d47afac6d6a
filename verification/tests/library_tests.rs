//! Concrete scenarios for the library: the answers of the receipts endpoint,
//! the error envelope, the job store, the configuration and the chaos proxy's
//! corruption.

use alloy_consensus::proofs::calculate_receipt_root;
use alloy_consensus::{Eip658Value, Header, Receipt as AlloyReceipt, ReceiptEnvelope, TxType};
use alloy_primitives::{Log as AlloyLog, B256, U256};
use receipt_verifier::api::blocks::{require_found, verified_receipts, Anchor};
use receipt_verifier::api::jobs::{create_job, get_job, list_jobs};
use receipt_verifier::chaos::{
    collect_hex_pointers, corrupt_response, corrupt_response_with, corruption_is_safe_for, corruption_targets,
    is_receipts_request, request_method, scramble, scramble_at, target_flippable, try_scramble, ChaosOutcome,
};
use receipt_verifier::config::{
    banner_host, bind_addr_from_setting, chaos_bind_addr_text, chaos_rate_from_setting, parse_u64,
    rpc_url_from_setting, upstream_url_from_setting, BindAddr, ConfigError, ParsedUrl,
};
use receipt_verifier::error::{ErrorDetails, VerifyError};
use receipt_verifier::json::{parse_index_bytes, pointer_string, split_pointer, unescape, JsonMember, JsonValue};
use receipt_verifier::models::{Job, JobError, NewJob};
use receipt_verifier::state::AppState;
use receipt_verifier::text::{contains_bytes, decimal_bytes, ends_with_bytes};
use receipt_verifier::verify::{
    check_receipts_root, compute_receipts_root, verify_receipts_root, BlockHeader, Log, Receipt, ReceiptKind,
    ReceiptStatus,
};

const EMPTY_ROOT: [u8; 32] = [
    0x56, 0xe8, 0x1f, 0x17, 0x1b, 0xcc, 0x55, 0xa6, 0xff, 0x83, 0x45, 0xe6, 0x92, 0xc0, 0xf8, 0x6e, 0x5b, 0x48,
    0xe0, 0x1b, 0x99, 0x6c, 0xad, 0xc0, 0x01, 0x62, 0x2f, 0xb5, 0xe3, 0x63, 0xb4, 0x21,
];

fn sample_header(number: u64, receipts_root: [u8; 32]) -> BlockHeader {
    BlockHeader {
        parent_hash: [1; 32],
        ommers_hash: [2; 32],
        beneficiary: [3; 20],
        state_root: [4; 32],
        transactions_root: [5; 32],
        receipts_root,
        logs_bloom: [0; 256],
        difficulty: [0; 32],
        number,
        gas_limit: 30_000_000,
        gas_used: 21_000,
        timestamp: 1_700_000_000,
        extra_data: vec![0xde, 0xad],
        mix_hash: [6; 32],
        nonce: [0; 8],
        base_fee_per_gas: Some(7),
        withdrawals_root: Some([8; 32]),
        blob_gas_used: Some(131_072),
        excess_blob_gas: Some(0),
        parent_beacon_block_root: Some([9; 32]),
        requests_hash: None,
    }
}

fn alloy_header(h: &BlockHeader) -> Header {
    Header {
        parent_hash: h.parent_hash.into(),
        ommers_hash: h.ommers_hash.into(),
        beneficiary: h.beneficiary.into(),
        state_root: h.state_root.into(),
        transactions_root: h.transactions_root.into(),
        receipts_root: h.receipts_root.into(),
        logs_bloom: h.logs_bloom.into(),
        difficulty: U256::from_be_bytes(h.difficulty),
        number: h.number,
        gas_limit: h.gas_limit,
        gas_used: h.gas_used,
        timestamp: h.timestamp,
        extra_data: h.extra_data.clone().into(),
        mix_hash: h.mix_hash.into(),
        nonce: h.nonce.into(),
        base_fee_per_gas: h.base_fee_per_gas,
        withdrawals_root: h.withdrawals_root.map(B256::from),
        blob_gas_used: h.blob_gas_used,
        excess_blob_gas: h.excess_blob_gas,
        parent_beacon_block_root: h.parent_beacon_block_root.map(B256::from),
        requests_hash: h.requests_hash.map(B256::from),
    }
}

fn sample_receipts() -> Vec<Receipt> {
    vec![
        Receipt {
            kind: ReceiptKind::Eip1559,
            status: ReceiptStatus::Eip658(true),
            cumulative_gas_used: 50_000,
            logs_bloom: [0; 256],
            logs: vec![Log { address: [0xaa; 20], topics: vec![[0xbb; 32]], data: vec![1, 2, 3, 4] }],
        },
        Receipt {
            kind: ReceiptKind::Legacy,
            status: ReceiptStatus::Eip658(false),
            cumulative_gas_used: 71_000,
            logs_bloom: [0; 256],
            logs: vec![],
        },
    ]
}

fn alloy_envelope(r: &Receipt) -> ReceiptEnvelope {
    let status = match r.status {
        ReceiptStatus::Eip658(ok) => Eip658Value::Eip658(ok),
        ReceiptStatus::PostState(root) => Eip658Value::PostState(root.into()),
    };
    let logs = r
        .logs
        .iter()
        .map(|l| {
            AlloyLog::new_unchecked(
                l.address.into(),
                l.topics.iter().map(|t| B256::from(*t)).collect(),
                l.data.clone().into(),
            )
        })
        .collect();
    let inner = alloy_consensus::ReceiptWithBloom::new(
        AlloyReceipt { status, cumulative_gas_used: r.cumulative_gas_used, logs },
        r.logs_bloom.into(),
    );
    let ty = match r.kind {
        ReceiptKind::Legacy => TxType::Legacy,
        ReceiptKind::Eip2930 => TxType::Eip2930,
        ReceiptKind::Eip1559 => TxType::Eip1559,
        ReceiptKind::Eip4844 => TxType::Eip4844,
        ReceiptKind::Eip7702 => TxType::Eip7702,
    };
    ReceiptEnvelope::from_typed(ty, inner)
}

fn alloy_root(receipts: &[Receipt]) -> [u8; 32] {
    let envelopes: Vec<ReceiptEnvelope> = receipts.iter().map(alloy_envelope).collect();
    calculate_receipt_root(&envelopes).0
}

// ---------------------------------------------------------------- receipts

#[test]
fn empty_receipts_have_the_empty_trie_root() {
    assert_eq!(compute_receipts_root(&[]), EMPTY_ROOT);
}

#[test]
fn receipt_root_depends_on_receipt_order() {
    let receipts = sample_receipts();
    let reversed: Vec<Receipt> = receipts.iter().rev().cloned().collect();
    assert_ne!(compute_receipts_root(&receipts), compute_receipts_root(&reversed));
    assert_eq!(compute_receipts_root(&reversed), alloy_root(&reversed));
}

#[test]
fn receipt_kind_changes_the_root() {
    let receipts = sample_receipts();
    let mut retyped = receipts.clone();
    retyped[0].kind = ReceiptKind::Eip4844;
    assert_ne!(compute_receipts_root(&receipts), compute_receipts_root(&retyped));
    assert_eq!(compute_receipts_root(&retyped), alloy_root(&retyped));
}

#[test]
fn dropping_a_receipt_is_caught() {
    let receipts = sample_receipts();
    let header = sample_header(42, alloy_root(&receipts));
    assert!(verify_receipts_root(&header, &receipts).is_ok());
    match verify_receipts_root(&header, &receipts[..1]) {
        Err(VerifyError::RootMismatch { block, expected, computed }) => {
            assert_eq!(block, 42);
            assert_eq!(expected, header.receipts_root);
            assert_eq!(computed, alloy_root(&receipts[..1]));
        },
        other => panic!("expected RootMismatch, got {other:?}"),
    }
}

#[test]
fn check_receipts_root_on_given_roots() {
    let header = sample_header(7, [0x11; 32]);
    assert_eq!(check_receipts_root(&header, [0x11; 32]).unwrap(), [0x11; 32]);
    match check_receipts_root(&header, [0x12; 32]) {
        Err(VerifyError::RootMismatch { block, expected, computed }) => {
            assert_eq!(block, 7);
            assert_eq!(expected, [0x11; 32]);
            assert_eq!(computed, [0x12; 32]);
        },
        other => panic!("expected RootMismatch, got {other:?}"),
    }
}

#[test]
fn verified_receipts_answers_the_computed_root_and_hash() {
    let receipts = sample_receipts();
    let header = sample_header(19_000_042, alloy_root(&receipts));
    let rpc_shaped = vec!["first", "second"];
    let v = verified_receipts(19_000_042, &header, &receipts, rpc_shaped).expect("verifies");
    assert_eq!(v.block_number, 19_000_042);
    assert_eq!(v.receipts_root, header.receipts_root);
    assert_eq!(v.block_hash, alloy_header(&header).hash_slow().0);
    assert_eq!(v.anchor, Anchor::Unanchored);
    assert_eq!(v.receipt_count, 2);
    assert_eq!(v.receipts, vec!["first", "second"]);
}

#[test]
fn verified_receipts_refuses_another_block() {
    let receipts = sample_receipts();
    let header = sample_header(6, alloy_root(&receipts));
    match verified_receipts(5, &header, &receipts, vec![(), ()]) {
        Err(VerifyError::Upstream { detail }) => {
            assert_eq!(detail, "asked for block 5, provider answered with block 6");
        },
        other => panic!("expected Upstream, got {other:?}"),
    }
}

#[test]
fn verified_receipts_refuses_tampered_receipts() {
    let receipts = sample_receipts();
    let header = sample_header(9, alloy_root(&receipts));
    let mut tampered = receipts.clone();
    tampered[1].cumulative_gas_used += 1;
    match verified_receipts(9, &header, &tampered, vec![1, 2]) {
        Err(e) => {
            assert_eq!(e.code(), "root_mismatch");
            assert_eq!(e.http_status(), 502);
        },
        Ok(_) => panic!("tampered receipts must not verify"),
    }
}

#[test]
fn require_found_maps_missing_to_block_not_found() {
    assert_eq!(require_found(3, Some(10)).unwrap(), 10);
    match require_found::<u8>(3, None) {
        Err(VerifyError::BlockNotFound(n)) => assert_eq!(n, 3),
        other => panic!("expected BlockNotFound, got {other:?}"),
    }
}

// ------------------------------------------------------------------ errors

#[test]
fn error_codes_statuses_and_details() {
    let missing = VerifyError::BlockNotFound(12);
    assert_eq!(missing.code(), "block_not_found");
    assert_eq!(missing.http_status(), 404);
    assert_eq!(missing.details(), ErrorDetails::BlockNumber(12));

    let mismatch = VerifyError::RootMismatch { block: 261_653, expected: [1; 32], computed: [2; 32] };
    assert_eq!(mismatch.code(), "root_mismatch");
    assert_eq!(mismatch.http_status(), 502);
    assert_eq!(
        mismatch.details(),
        ErrorDetails::Roots {
            block_number: 261_653,
            header_receipts_root: [1; 32],
            computed_receipts_root: [2; 32]
        }
    );

    let upstream = VerifyError::upstream("connection refused by https://key@provider".to_string());
    assert_eq!(upstream.code(), "upstream_error");
    assert_eq!(upstream.http_status(), 502);
    assert_eq!(upstream.details(), ErrorDetails::Null);
}

#[test]
fn error_messages() {
    assert_eq!(VerifyError::BlockNotFound(12).message(), "block 12 not found");
    assert_eq!(
        VerifyError::RootMismatch { block: 261_653, expected: [1; 32], computed: [2; 32] }.message(),
        "receipts root mismatch for block 261653"
    );
    assert_eq!(VerifyError::upstream("secret-key".to_string()).message(), "upstream rpc failure");
    assert_eq!(ConfigError::Missing("RPC_URL").message(), "missing required environment variable: RPC_URL");
    assert_eq!(
        ConfigError::Invalid("BIND_ADDR", "nowhere".to_string()).message(),
        "invalid value for BIND_ADDR: nowhere"
    );
}

#[test]
fn decimal_rendering() {
    assert_eq!(decimal_bytes(0), b"0".to_vec());
    assert_eq!(decimal_bytes(4_370_000), b"4370000".to_vec());
    assert_eq!(decimal_bytes(u64::MAX), b"18446744073709551615".to_vec());
}

#[test]
fn byte_searches() {
    assert!(contains_bytes(b"/result/0/logs/1/data", b"/logs/"));
    assert!(!contains_bytes(b"/result/0/logsBloom", b"/logs/"));
    assert!(contains_bytes(b"abc", b""));
    assert!(ends_with_bytes(b"/result/0/logs/1/data", b"/data"));
    assert!(!ends_with_bytes(b"ata", b"/data"));
}

// ------------------------------------------------------------------ config

#[test]
fn rpc_url_setting() {
    match rpc_url_from_setting(None) {
        Err(ConfigError::Missing(name)) => assert_eq!(name, "RPC_URL"),
        other => panic!("expected Missing, got {other:?}"),
    }
    let url = rpc_url_from_setting(Some("https://eth.example.org/v2/key".to_string())).expect("parses");
    assert_eq!(url.host.as_deref(), Some("eth.example.org"));
    assert_eq!(url.serialization, "https://eth.example.org/v2/key");
    let url = rpc_url_from_setting(Some("https://rpc.example.com".to_string())).expect("parses");
    assert_eq!(url.serialization, "https://rpc.example.com/");
    assert_eq!(url.host.as_deref(), Some("rpc.example.com"));
    match rpc_url_from_setting(Some("eth.example.org".to_string())) {
        Err(ConfigError::Invalid(name, detail)) => {
            assert_eq!(name, "RPC_URL");
            assert_eq!(detail, "relative URL without a base — did you forget the http:// or https:// prefix?");
        },
        other => panic!("expected Invalid, got {other:?}"),
    }
    match rpc_url_from_setting(Some("http://".to_string())) {
        Err(ConfigError::Invalid(name, detail)) => {
            assert_eq!(name, "RPC_URL");
            assert_eq!(detail, "empty host");
        },
        other => panic!("expected Invalid, got {other:?}"),
    }
}

#[test]
fn bind_addr_setting() {
    match bind_addr_from_setting::<u32>(None, None) {
        Ok(BindAddr::Default(ip, port)) => {
            assert_eq!(ip, [127, 0, 0, 1]);
            assert_eq!(port, 3000);
        },
        other => panic!("expected the default, got {other:?}"),
    }
    assert_eq!(bind_addr_from_setting(Some("0.0.0.0:8080".to_string()), Some(7u32)).unwrap(), BindAddr::Given(7));
    match bind_addr_from_setting::<u32>(Some("not an address".to_string()), None) {
        Err(ConfigError::Invalid(name, detail)) => {
            assert_eq!(name, "BIND_ADDR");
            assert_eq!(detail, "not an address");
        },
        other => panic!("expected Invalid, got {other:?}"),
    }
}

#[test]
fn chaos_proxy_settings() {
    match upstream_url_from_setting(None) {
        Err(ConfigError::Missing(name)) => assert_eq!(name, "CHAOS_UPSTREAM_URL"),
        other => panic!("expected Missing, got {other:?}"),
    }
    let url = upstream_url_from_setting(Some("https://eth.example.org".to_string())).expect("parses");
    assert_eq!(url.serialization, "https://eth.example.org/");
    assert_eq!(url.host.as_deref(), Some("eth.example.org"));
    match upstream_url_from_setting(Some("eth.example.org".to_string())) {
        Err(ConfigError::Invalid(name, detail)) => {
            assert_eq!(name, "CHAOS_UPSTREAM_URL");
            assert_eq!(detail, "relative URL without a base");
        },
        other => panic!("expected Invalid, got {other:?}"),
    }
    assert_eq!(chaos_rate_from_setting(None), 10);
    assert_eq!(chaos_rate_from_setting(Some("3".to_string())), 3);
    assert_eq!(chaos_rate_from_setting(Some("+25".to_string())), 25);
    assert_eq!(chaos_rate_from_setting(Some("ten".to_string())), 10);
    assert_eq!(chaos_rate_from_setting(Some(" 3".to_string())), 10);
    assert_eq!(chaos_bind_addr_text(None), "127.0.0.1:8547");
    assert_eq!(chaos_bind_addr_text(Some("0.0.0.0:9000".to_string())), "0.0.0.0:9000");
}

#[test]
fn parse_u64_follows_std() {
    for text in ["0", "007", "+1", "18446744073709551615", "18446744073709551616", "", "+", "-1", "1_000", "٣", "12a"] {
        assert_eq!(parse_u64(text.as_bytes()), text.parse::<u64>().ok(), "{text:?}");
    }
}

#[test]
fn banner_shows_the_upstream_host() {
    let url = rpc_url_from_setting(Some("https://eth.example.org:8545/v2/key".to_string())).expect("parses");
    assert_eq!(banner_host(&url), "eth.example.org");
    let no_host = rpc_url_from_setting(Some("data:text/plain,hello".to_string())).expect("parses");
    assert_eq!(no_host.host, None);
    assert_eq!(banner_host(&no_host), "<unknown>");
    let made = ParsedUrl { serialization: "http://h/".to_string(), host: Some("h".to_string()) };
    assert_eq!(banner_host(&made), "h");
}

// -------------------------------------------------------------------- jobs

#[test]
fn jobs_push_list_and_find() {
    let mut state = AppState::new();
    assert!(list_jobs(&state).is_empty());
    create_job(&mut state, NewJob { id: 1, name: "index".to_string() }).unwrap();
    create_job(&mut state, NewJob { id: 2, name: "prove".to_string() }).unwrap();
    create_job(&mut state, NewJob { id: 1, name: "again".to_string() }).unwrap();
    assert_eq!(
        list_jobs(&state),
        vec![
            Job { id: 1, name: "index".to_string() },
            Job { id: 2, name: "prove".to_string() },
            Job { id: 1, name: "again".to_string() },
        ]
    );
    assert_eq!(get_job(&state, 2).unwrap(), Job { id: 2, name: "prove".to_string() });
    assert_eq!(state.find_by_id(1).unwrap(), Job { id: 1, name: "index".to_string() });
    assert_eq!(get_job(&state, 3), Err(JobError::NotFound(3)));
}

#[test]
fn placeholder_verify_handler() {
    let state = AppState::new();
    let v = receipt_verifier::api::verify::verify_handler(&state, 77).unwrap();
    assert_eq!(v.block_number, 77);
    assert_eq!(v.block_hash, 0x1233123);
    assert_eq!(v.receipts_root, 0x33123213);
    assert_eq!(v.receipt_count, 2);
}

// ------------------------------------------------------------------- chaos

fn s(text: &str) -> JsonValue {
    JsonValue::String(text.to_string())
}

fn member(key: &str, value: JsonValue) -> JsonMember {
    JsonMember { key: key.to_string(), value }
}

fn receipts_response(with_log_data: bool) -> JsonValue {
    let logs = if with_log_data {
        JsonValue::Array(vec![JsonValue::Object(vec![
            member("address", s("0x00000000000000000000000000000000000000aa")),
            member("topics", JsonValue::Array(vec![s("0x1111111111111111")])),
            member("data", s("0xdeadbeefdeadbeef")),
            member("transactionHash", s("0x9999999999999999")),
        ])])
    } else {
        JsonValue::Array(vec![])
    };
    JsonValue::Object(vec![
        member("jsonrpc", s("2.0")),
        member("id", JsonValue::Number("1".to_string())),
        member(
            "result",
            JsonValue::Array(vec![JsonValue::Object(vec![
                member("cumulativeGasUsed", s("0x5208")),
                member("logs", logs),
                member("logsBloom", s("0x0000000000000000")),
                member("status", s("0x1")),
                member("transactionHash", s("0xabcdefabcdefabcd")),
            ])]),
        ),
    ])
}

fn path_strings(pointers: &[(Vec<u8>, usize)]) -> Vec<(String, usize)> {
    pointers.iter().map(|(p, n)| (String::from_utf8(p.clone()).unwrap(), *n)).collect()
}

fn string_at<'a>(v: &'a JsonValue, pointer: &str) -> &'a str {
    match pointer_string(v, pointer.as_bytes()) {
        Some((_, _)) => {},
        None => panic!("no string at {pointer}"),
    }
    let mut cur = v;
    for token in pointer.split('/').skip(1) {
        cur = match cur {
            JsonValue::Object(ms) => &ms.iter().find(|m| m.key == token).unwrap().value,
            JsonValue::Array(items) => &items[token.parse::<usize>().unwrap()],
            _ => panic!("bad pointer"),
        };
    }
    match cur {
        JsonValue::String(text) => text,
        _ => panic!("not a string"),
    }
}

#[test]
fn hex_pointers_in_document_order() {
    let response = receipts_response(true);
    let mut out = Vec::new();
    if let JsonValue::Object(ms) = &response {
        collect_hex_pointers(&ms[2].value, b"/result".to_vec(), &mut out);
    }
    assert_eq!(
        path_strings(&out),
        vec![
            ("/result/0/cumulativeGasUsed".to_string(), 6),
            ("/result/0/logs/0/address".to_string(), 42),
            ("/result/0/logs/0/topics/0".to_string(), 18),
            ("/result/0/logs/0/data".to_string(), 18),
            ("/result/0/logs/0/transactionHash".to_string(), 18),
            ("/result/0/logsBloom".to_string(), 18),
            ("/result/0/transactionHash".to_string(), 18),
        ]
    );
}

#[test]
fn collected_pointers_lead_back_to_their_strings() {
    let response = receipts_response(true);
    let mut out = Vec::new();
    if let JsonValue::Object(ms) = &response {
        collect_hex_pointers(&ms[2].value, b"/result".to_vec(), &mut out);
    }
    assert!(!out.is_empty());
    for (pointer, len) in &out {
        match pointer_string(&response, pointer) {
            Some((_, text)) => {
                assert_eq!(text.len(), *len);
                assert!(text.starts_with("0x"));
            },
            None => panic!("pointer {:?} leads nowhere", String::from_utf8(pointer.clone())),
        }
    }
}

#[test]
fn corruption_prefers_log_payloads() {
    let targets: Vec<String> = corruption_targets(&receipts_response(true))
        .into_iter()
        .map(|p| String::from_utf8(p).unwrap())
        .collect();
    assert_eq!(targets, vec!["/result/0/logs/0/data".to_string()]);
    let targets: Vec<String> = corruption_targets(&receipts_response(false))
        .into_iter()
        .map(|p| String::from_utf8(p).unwrap())
        .collect();
    assert_eq!(targets, vec!["/result/0/cumulativeGasUsed".to_string(), "/result/0/logsBloom".to_string()]);
}

#[test]
fn scramble_flips_three_hex_digits_of_log_data() {
    for _ in 0..50 {
        let mut response = receipts_response(true);
        assert!(corruption_is_safe_for(&response));
        assert_eq!(scramble(&mut response), Some(3));
        let before = receipts_response(true);
        let old = string_at(&before, "/result/0/logs/0/data");
        let new = string_at(&response, "/result/0/logs/0/data");
        assert_ne!(old, new);
        assert_eq!(old.len(), new.len());
        assert!(new.starts_with("0x"));
        let changed: Vec<usize> = (0..old.len()).filter(|&i| old.as_bytes()[i] != new.as_bytes()[i]).collect();
        assert!(!changed.is_empty() && changed.len() <= 3);
        assert!(changed.iter().all(|&i| i >= 2 && new.as_bytes()[i].is_ascii_hexdigit()));
        for other in ["/result/0/logs/0/topics/0", "/result/0/logsBloom", "/result/0/transactionHash"] {
            assert_eq!(string_at(&before, other), string_at(&response, other));
        }
    }
}

#[test]
fn scramble_without_targets_changes_nothing() {
    let mut response = JsonValue::Object(vec![member("result", JsonValue::Array(vec![s("0x12")]))]);
    assert_eq!(scramble(&mut response), None);
    assert_eq!(response, JsonValue::Object(vec![member("result", JsonValue::Array(vec![s("0x12")]))]));
    let mut no_result = JsonValue::Array(vec![s("0xdeadbeef")]);
    assert_eq!(scramble(&mut no_result), None);
}

#[test]
fn only_receipt_responses_are_corrupted() {
    let mut response = receipts_response(true);
    assert_eq!(
        corrupt_response(&"eth_getBlockByNumber".to_string(), 1, &mut response),
        ChaosOutcome::Untouched
    );
    assert_eq!(response, receipts_response(true));
    assert_eq!(
        corrupt_response(&"eth_getBlockReceipts".to_string(), 1, &mut response),
        ChaosOutcome::Scrambled(3)
    );
    assert_ne!(response, receipts_response(true));
}

#[test]
fn the_coin_decides_the_corruption() {
    let receipts = "eth_getBlockReceipts".to_string();
    assert!(is_receipts_request(&receipts));
    assert!(!is_receipts_request(&"eth_getBlockByNumber".to_string()));
    for coin in [1u64, 2, 9, u64::MAX] {
        let mut response = receipts_response(true);
        assert_eq!(corrupt_response_with(&receipts, coin, &mut response), ChaosOutcome::PassedThrough);
        assert_eq!(response, receipts_response(true));
    }
    for _ in 0..20 {
        let mut response = receipts_response(true);
        assert_eq!(corrupt_response(&receipts, 1, &mut response), ChaosOutcome::Scrambled(3));
        assert_ne!(response, receipts_response(true));
    }
    let mut response = receipts_response(true);
    assert_eq!(corrupt_response_with(&receipts, 0, &mut response), ChaosOutcome::Scrambled(3));
    assert_ne!(response, receipts_response(true));
    let mut response = receipts_response(true);
    assert_eq!(
        corrupt_response_with(&"eth_call".to_string(), 0, &mut response),
        ChaosOutcome::Untouched
    );
    assert_eq!(response, receipts_response(true));
    let empty = || JsonValue::Object(vec![member("result", JsonValue::Array(vec![]))]);
    let mut response = empty();
    assert_eq!(corrupt_response_with(&receipts, 0, &mut response), ChaosOutcome::NoTarget);
    assert_eq!(response, empty());
}

#[test]
fn an_unflippable_target_is_reported_not_scrambled() {
    let make = || {
        JsonValue::Object(vec![member(
            "result",
            JsonValue::Array(vec![JsonValue::Object(vec![
                member("x/cumulativeGasUsed", s("0x12345")),
                member("x", JsonValue::Object(vec![member("cumulativeGasUsed", s("0x"))])),
            ])]),
        )])
    };
    let mut response = make();
    assert!(!corruption_is_safe_for(&response));
    assert_eq!(
        corrupt_response(&"eth_getBlockReceipts".to_string(), 1, &mut response),
        ChaosOutcome::Unflippable
    );
    assert_eq!(response, make());
    assert_eq!(
        corrupt_response_with(&"eth_getBlockReceipts".to_string(), 0, &mut response),
        ChaosOutcome::Unflippable
    );
    assert_eq!(response, make());
    assert_eq!(
        corrupt_response_with(&"eth_getBlockReceipts".to_string(), 3, &mut response),
        ChaosOutcome::PassedThrough
    );
}

#[test]
fn only_the_drawn_target_must_be_flippable() {
    let make = || {
        JsonValue::Object(vec![member(
            "result",
            JsonValue::Array(vec![JsonValue::Object(vec![
                member("x/cumulativeGasUsed", s("0x12345")),
                member("x", JsonValue::Object(vec![member("cumulativeGasUsed", s("0x"))])),
                member("logsBloom", s("0xabcdef")),
            ])]),
        )])
    };
    let response = make();
    assert!(!corruption_is_safe_for(&response));
    assert!(!target_flippable(&response, b"/result/0/x/cumulativeGasUsed"));
    assert!(target_flippable(&response, b"/result/0/logsBloom"));
    assert!(target_flippable(&response, b"/result/9"));
    let mut response = make();
    assert_eq!(scramble_at(&mut response, b"/result/0/logsBloom"), Some(3));
    assert_ne!(string_at(&response, "/result/0/logsBloom"), "0xabcdef");
    assert_eq!(string_at(&response, "/result/0/x/cumulativeGasUsed"), "0x");
    let mut response = make();
    assert_eq!(scramble_at(&mut response, b"/result/0/receiptsRoot"), None);
    assert_eq!(response, make());
    let (mut scrambled, mut refused) = (0, 0);
    for _ in 0..200 {
        let mut response = make();
        match try_scramble(&mut response) {
            ChaosOutcome::Scrambled(3) => {
                scrambled += 1;
                assert_ne!(response, make());
            },
            ChaosOutcome::Unflippable => {
                refused += 1;
                assert_eq!(response, make());
            },
            other => panic!("unexpected {other:?}"),
        }
    }
    assert!(scrambled > 0 && refused > 0);
}

#[test]
fn request_method_of_a_request() {
    let request = JsonValue::Object(vec![member("method", s("eth_getBlockReceipts")), member("id", s("1"))]);
    assert_eq!(request_method(&request), "eth_getBlockReceipts");
    let no_method = JsonValue::Object(vec![member("id", s("1"))]);
    assert_eq!(request_method(&no_method), "?");
    let number_method = JsonValue::Object(vec![member("method", JsonValue::Number("3".to_string()))]);
    assert_eq!(request_method(&number_method), "?");
}

#[test]
fn pointer_tokens_and_indices() {
    let tokens: Vec<Vec<u8>> = split_pointer(b"/a//b~1c");
    assert_eq!(tokens, vec![b"".to_vec(), b"a".to_vec(), b"".to_vec(), b"b~1c".to_vec()]);
    assert_eq!(unescape(&b"b~1c~0~01".to_vec()), b"b/c~~1".to_vec());
    assert_eq!(parse_index_bytes(b"0"), Some(0));
    assert_eq!(parse_index_bytes(b"12"), Some(12));
    assert_eq!(parse_index_bytes(b"012"), None);
    assert_eq!(parse_index_bytes(b"+1"), None);
    assert_eq!(parse_index_bytes(b""), None);
    assert_eq!(parse_index_bytes(b"1a"), None);
    assert_eq!(parse_index_bytes(b"99999999999999999999999"), None);
}

#[test]
fn pointers_resolve_escaped_member_names() {
    let doc = JsonValue::Object(vec![member("a/b", s("slash")), member("m~n", JsonValue::Array(vec![s("x"), s("y")]))]);
    assert_eq!(pointer_string(&doc, b"/a~1b").map(|(loc, v)| (loc, v)), Some((vec![0], "slash".to_string())));
    assert_eq!(pointer_string(&doc, b"/m~0n/1"), Some((vec![1, 1], "y".to_string())));
    assert_eq!(pointer_string(&doc, b"/a/b"), None);
    assert_eq!(pointer_string(&doc, b"/m~0n/2"), None);
    assert_eq!(pointer_string(&doc, b"m~0n"), None);
    assert_eq!(pointer_string(&doc, b""), None);
}
