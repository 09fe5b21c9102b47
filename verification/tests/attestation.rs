use tee_attest::addresser::{simulate_encrypt_blob_id, snapshot_entries};
use tee_attest::assembler::analyze_snapshot;
use tee_attest::crypto::{
    compute_report_hash, generate_tee_nonce, sha256_hex_prefixed, verify_payload, EnclaveKey,
};
use tee_attest::json::{canonical_json_bytes, canonicalize, JsonValue};
use tee_attest::models::{payload_to_json, report_to_json, AnalyzeDatasetRequest, ComplianceFinding};
use tee_attest::resolver::resolve_dataset_path;
use tee_attest::scanner::{compute_verdict_and_score, scan_dataset_for_pii};
use tee_attest::FileEntry;

fn s(x: &str) -> String {
    x.to_string()
}

fn entry(path: &str, data: &[u8]) -> FileEntry {
    FileEntry { path: s(path), data: data.to_vec() }
}

fn small_object(order_one: bool) -> JsonValue {
    let inner = JsonValue::Array(vec![
        JsonValue::Bool(true),
        JsonValue::Null,
        JsonValue::Text(s("x")),
    ]);
    let mut pairs: Vec<(String, JsonValue)> = Vec::new();
    if order_one {
        pairs.push((s("beta"), JsonValue::Int(1)));
        pairs.push((s("alpha"), inner));
    } else {
        pairs.push((s("alpha"), inner));
        pairs.push((s("beta"), JsonValue::Int(1)));
    }
    JsonValue::Object(pairs)
}

#[test]
fn canonical_bytes_exact() {
    let v = small_object(true);
    let bytes = canonical_json_bytes(&v);
    assert_eq!(bytes, b"{\"alpha\":[true,null,\"x\"],\"beta\":1}".to_vec());
}

#[test]
fn canonicalization_is_order_independent() {
    let b1 = canonical_json_bytes(&small_object(true));
    let b2 = canonical_json_bytes(&small_object(false));
    assert_eq!(b1, b2);
}

#[test]
fn canonicalization_is_idempotent() {
    let v = small_object(true);
    let once = canonicalize(&v);
    let b1 = canonical_json_bytes(&once);
    let b2 = canonical_json_bytes(&v);
    assert_eq!(b1, b2);
}

#[test]
fn canonical_integers() {
    assert_eq!(canonical_json_bytes(&JsonValue::Int(0)), b"0".to_vec());
    assert_eq!(canonical_json_bytes(&JsonValue::Int(-45)), b"-45".to_vec());
    assert_eq!(
        canonical_json_bytes(&JsonValue::Int(i64::MIN)),
        b"-9223372036854775808".to_vec()
    );
}

#[test]
fn canonical_string_escapes() {
    let v = JsonValue::Text(s("a\"b\\c\n"));
    assert_eq!(canonical_json_bytes(&v), b"\"a\\\"b\\\\c\\u000a\"".to_vec());
}

#[test]
fn verdict_rules() {
    let f = |n: usize| -> Vec<ComplianceFinding> {
        (0..n)
            .map(|i| ComplianceFinding {
                finding_type: s("EMAIL"),
                path: s("p"),
                detail: format!("d{}", i),
            })
            .collect()
    };
    let empty = f(0);
    let two = f(2);
    let three = f(3);
    let (v0, s0) = compute_verdict_and_score(&empty);
    assert_eq!((v0.as_str(), s0), ("ALLOW", 100));
    let (v2, s2) = compute_verdict_and_score(&two);
    assert_eq!((v2.as_str(), s2), ("WARN", 70));
    let (v3, s3) = compute_verdict_and_score(&three);
    assert_eq!((v3.as_str(), s3), ("BLOCK", 20));
}

#[test]
fn sha256_known_value() {
    let h = sha256_hex_prefixed(b"abc");
    assert_eq!(
        h.as_str(),
        "0xba7816bf8f01cfea414140de5dae2223b00361a396177a9cb410ff61f20015ad"
    );
}

#[test]
fn nonce_shape() {
    let n1 = generate_tee_nonce();
    let n2 = generate_tee_nonce();
    assert_eq!(n1.len(), 66);
    assert!(n1.starts_with("0x"));
    assert_ne!(n1, n2);
}

#[test]
fn handle_is_deterministic() {
    let entries = vec![entry("a.txt", b"hello"), entry("b/c.txt", b"world")];
    let h1 = simulate_encrypt_blob_id(&entries, "exec-1");
    let h2 = simulate_encrypt_blob_id(&entries, "exec-1");
    assert_eq!(h1, h2);
    assert!(h1.starts_with("walrus://0x"));
    assert_eq!(h1.len(), "walrus://0x".len() + 64);
    let h3 = simulate_encrypt_blob_id(&entries, "exec-2");
    assert_ne!(h1, h3);
}

#[test]
fn snapshot_isolation() {
    let mut source = vec![entry("a.txt", b"original"), entry("b.txt", b"bytes")];
    let snapshot = snapshot_entries(&source);
    let h_before = simulate_encrypt_blob_id(&snapshot, "exec-9");
    // mutate and then delete the original source content
    source[0].data = b"tampered".to_vec();
    source.clear();
    let h_after = simulate_encrypt_blob_id(&snapshot, "exec-9");
    assert_eq!(h_before, h_after);
}

#[test]
fn signature_round_trip() {
    let key = EnclaveKey::generate();
    let payload = small_object(true);
    let sig = key.sign_payload(&payload);
    let pk = key.enclave_public_key_hex();
    assert!(verify_payload(&payload, sig.as_str(), pk.as_str()));
}

#[test]
fn signature_rejects_tampering() {
    let key = EnclaveKey::generate();
    let payload = small_object(true);
    let sig = key.sign_payload(&payload);
    let pk = key.enclave_public_key_hex();
    // a payload differing in one byte of canonical content fails
    let other = JsonValue::Text(s("other"));
    assert!(!verify_payload(&other, sig.as_str(), pk.as_str()));
    // a signature with one corrupted digit fails
    let mut corrupt: String = sig.chars().collect();
    let last = if corrupt.ends_with('0') { '1' } else { '0' };
    corrupt.pop();
    corrupt.push(last);
    assert!(!verify_payload(&payload, corrupt.as_str(), pk.as_str()));
}

#[test]
fn scanner_finds_patterns() {
    let entries = vec![
        entry("empty.txt", b""),
        entry("mail.txt", b"contact alice@example.com today"),
        entry("money.txt", b"iban DE44500105175407324931 on file"),
    ];
    let findings = scan_dataset_for_pii(&entries).unwrap();
    // the digit run of the IBAN also matches the phone-like pattern
    assert_eq!(findings.len(), 3);
    assert_eq!(findings[0].finding_type.as_str(), "EMAIL");
    assert_eq!(findings[0].path.as_str(), "mail.txt");
    assert_eq!(findings[0].detail.as_str(), "alice@example.com");
    assert_eq!(findings[1].finding_type.as_str(), "PHONE");
    assert_eq!(findings[1].detail.as_str(), "44500105175407324931");
    assert_eq!(findings[2].finding_type.as_str(), "IBAN");
    assert_eq!(findings[2].detail.as_str(), "DE44500105175407324931");
}

#[test]
fn resolver_contains_traversal() {
    let base = vec![s("srv"), s("dev_datasets")];
    let escape = vec![s("etc"), s("passwd")];
    let r = resolve_dataset_path(&base, &escape);
    assert_eq!(r, base);
    let inside = vec![s("srv"), s("dev_datasets"), s("clean")];
    let r2 = resolve_dataset_path(&base, &inside);
    assert_eq!(r2, inside);
}

fn request() -> AnalyzeDatasetRequest {
    AnalyzeDatasetRequest {
        dataset_id: s("ds-1"),
        dataset_merkle_root: s("0xroot"),
        encrypted_data_blob_id: s("clean"),
        policy_version: s("p1"),
        model_version: s("m1"),
    }
}

#[test]
fn clean_dataset_allows() {
    let entries = vec![entry("notes.txt", b"just some plain notes")];
    let key = EnclaveKey::generate();
    let resp = analyze_snapshot(&request(), "exec-clean", &entries, Vec::new(), &key).unwrap();
    assert_eq!(resp.report.verdict.as_str(), "ALLOW");
    assert_eq!(resp.report.score, 100);
    assert!(resp.report.findings.is_empty());
    // the report hash is the hash of the canonical form of the exact report
    let recomputed = compute_report_hash(&report_to_json(&resp.report));
    assert_eq!(resp.payload.report_hash, recomputed);
    // nonce binding and signature verifiability
    assert_eq!(resp.attestation.tee_nonce, resp.payload.tee_nonce);
    let payload_json = payload_to_json(&resp.payload);
    assert!(verify_payload(
        &payload_json,
        resp.signature.as_str(),
        resp.attestation.enclave_pub_key.as_str()
    ));
    // the handle derived for the re-encrypted output
    assert_eq!(
        resp.payload.encrypted_data_blob_id,
        simulate_encrypt_blob_id(&entries, "exec-clean")
    );
}

#[test]
fn leaky_dataset_blocks() {
    let entries = vec![
        entry("a_mail.txt", b"reach alice@example.com please"),
        entry("b_phones.txt", b"call 0123-456-7890 and 0987-654-3210"),
    ];
    let key = EnclaveKey::generate();
    let resp = analyze_snapshot(&request(), "exec-leaky", &entries, Vec::new(), &key).unwrap();
    assert_eq!(resp.report.findings.len(), 3);
    assert_eq!(resp.report.verdict.as_str(), "BLOCK");
    assert_eq!(resp.report.score, 20);
}

#[test]
fn weapon_finding_merges_into_verdict() {
    let entries = vec![entry("img_note.txt", b"reach alice@example.com please")];
    let weapon = vec![
        ComplianceFinding {
            finding_type: s("WEAPON"),
            path: s("img.jpg"),
            detail: s("confidence 0.91"),
        },
        ComplianceFinding {
            finding_type: s("WEAPON"),
            path: s("img2.jpg"),
            detail: s("confidence 0.77"),
        },
    ];
    let key = EnclaveKey::generate();
    let resp = analyze_snapshot(&request(), "exec-w", &entries, weapon, &key).unwrap();
    assert_eq!(resp.report.findings.len(), 3);
    assert_eq!(resp.report.verdict.as_str(), "BLOCK");
    assert_eq!(resp.report.findings[2].finding_type.as_str(), "WEAPON");
}

#[test]
fn report_hash_stable_across_runs() {
    let entries = vec![entry("notes.txt", b"plain")];
    let key = EnclaveKey::generate();
    let r1 = analyze_snapshot(&request(), "exec-same", &entries, Vec::new(), &key).unwrap();
    let r2 = analyze_snapshot(&request(), "exec-same", &entries, Vec::new(), &key).unwrap();
    // same snapshot, same execution identity: same report hash and handle,
    // while the nonces are fresh
    assert_eq!(r1.payload.report_hash, r2.payload.report_hash);
    assert_eq!(
        r1.payload.encrypted_data_blob_id,
        r2.payload.encrypted_data_blob_id
    );
    assert_ne!(r1.payload.tee_nonce, r2.payload.tee_nonce);
}
