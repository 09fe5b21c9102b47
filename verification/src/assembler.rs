//! Orchestration of the attestation pipeline over a completed snapshot:
//! scan, verdict, report, canonical hash, content handle, nonce, signature
//! and the final envelope.  Any failure aborts the whole pipeline; no
//! partial response is ever produced.

use vstd::prelude::*;
use vstd::string::*;

use crate::addresser::{handle_of, paths_sorted, simulate_encrypt_blob_id};
use crate::crypto::{
    compute_report_hash, generate_tee_nonce, pubkey_hex_of, report_hash_of, sig_of, sig_verifies,
    signature_hex_of, vk_of, EnclaveKey,
};
use crate::json::canon_bytes;
use crate::models::{
    finding_view, payload_rep, payload_to_json, report_rep, report_to_json, AnalyzeDatasetRequest,
    AnalyzeDatasetResponse, Attestation, ComplianceFinding, ComplianceReport, TeeError, TeePayload,
};
use crate::scanner::{
    compute_verdict_and_score, entries_view, patterns_ok, scan_dataset_for_pii, scan_findings,
    score_of, verdict_of,
};
use crate::FileEntry;

verus! {

/// The fixed measurement string of the local substitute enclave.
pub open spec fn enclave_measurement() -> Seq<char> {
    "substitute-local-dev-nautilus-v1"@
}

fn enclave_measurement_str() -> (r: &'static str)
    ensures
        r@ == enclave_measurement(),
{
    "substitute-local-dev-nautilus-v1"
}

/// The fixed provider tag of the local substitute enclave.
pub open spec fn provider_tag() -> Seq<char> {
    "local-dev-substitute"@
}

fn provider_tag_str() -> (r: &'static str)
    ensures
        r@ == provider_tag(),
{
    "local-dev-substitute"
}

/// The findings of a run: everything the scanner found in the snapshot,
/// followed by the externally detected findings.
pub open spec fn merged_findings(
    es: Seq<(Seq<char>, Seq<u8>)>,
    extra: Seq<(Seq<char>, Seq<char>, Seq<char>)>,
) -> Seq<(Seq<char>, Seq<char>, Seq<char>)> {
    scan_findings(es) + extra
}

/// Analyze a completed snapshot and assemble the signed attestation
/// envelope.
///
/// The snapshot is scanned for sensitive patterns; externally detected
/// findings (for example weapon detections) are merged into the same
/// sequence; the verdict is a function of the total count alone.  The
/// report aggregates the request fields with verdict, score and findings;
/// its hash is the hash of the report's canonical form.  The payload binds
/// the report hash, the content handle derived from the snapshot, and a
/// fresh nonce; the signature is over the payload's canonical bytes and
/// verifies under the enclave public key.  The attestation repeats the
/// same nonce.
pub fn analyze_snapshot(
    req: &AnalyzeDatasetRequest,
    execution_id: &str,
    entries: &Vec<FileEntry>,
    extra_findings: Vec<ComplianceFinding>,
    key: &EnclaveKey,
) -> (r: Result<AnalyzeDatasetResponse, TeeError>)
    requires
        key.valid(),
        paths_sorted(entries_view(entries@)),
    ensures
        (r is Ok) == patterns_ok(),
        r matches Ok(resp) ==> {
            &&& resp.report.dataset_id@ == req.dataset_id@
            &&& resp.report.dataset_merkle_root@ == req.dataset_merkle_root@
            &&& resp.report.encrypted_data_blob_id@ == req.encrypted_data_blob_id@
            &&& resp.report.policy_version@ == req.policy_version@
            &&& resp.report.model_version@ == req.model_version@
            &&& resp.report.findings@.map_values(|f: ComplianceFinding| finding_view(f))
                == merged_findings(
                entries_view(entries@),
                extra_findings@.map_values(|f: ComplianceFinding| finding_view(f)),
            )
            &&& resp.report.verdict@ == verdict_of(resp.report.findings@.len())
            &&& resp.report.score as int == score_of(resp.report.findings@.len())
            &&& resp.payload.report_hash@ == report_hash_of(report_rep(resp.report))
            &&& resp.payload.dataset_merkle_root@ == req.dataset_merkle_root@
            &&& resp.payload.policy_version@ == req.policy_version@
            &&& resp.payload.model_version@ == req.model_version@
            &&& resp.payload.encrypted_data_blob_id@ == handle_of(
                execution_id@,
                entries_view(entries@),
            )
            &&& resp.payload.tee_nonce@.len() == 66
            &&& resp.attestation.tee_nonce@ == resp.payload.tee_nonce@
            &&& resp.attestation.enclave_pub_key@ == pubkey_hex_of(key.key_bytes())
            &&& resp.attestation.tee_measurement@ == enclave_measurement()
            &&& resp.attestation.provider@ == provider_tag()
            &&& resp.signature@ == signature_hex_of(key.key_bytes(), payload_rep(resp.payload))
            &&& sig_verifies(
                vk_of(key.key_bytes()),
                canon_bytes(payload_rep(resp.payload)),
                sig_of(key.key_bytes(), canon_bytes(payload_rep(resp.payload))),
            )
        },
{
    // scan the snapshot, then merge the externally detected findings
    let mut findings = match scan_dataset_for_pii(entries) {
        Ok(fs) => fs,
        Err(e) => {
            return Err(e);
        },
    };
    let ghost scanned = findings@.map_values(|f: ComplianceFinding| finding_view(f));
    let mut extra = extra_findings;
    let ghost extra_view = extra@.map_values(|f: ComplianceFinding| finding_view(f));
    findings.append(&mut extra);
    proof {
        assert(findings@.map_values(|f: ComplianceFinding| finding_view(f)) =~= scanned
            + extra_view);
    }

    // reduce the findings to a verdict
    let (verdict, score) = compute_verdict_and_score(&findings);

    // build the report and hash its canonical form
    let report = ComplianceReport {
        dataset_id: string_copy(&req.dataset_id),
        dataset_merkle_root: string_copy(&req.dataset_merkle_root),
        encrypted_data_blob_id: string_copy(&req.encrypted_data_blob_id),
        policy_version: string_copy(&req.policy_version),
        model_version: string_copy(&req.model_version),
        verdict,
        score,
        findings,
    };
    let report_json = report_to_json(&report);
    let report_hash = compute_report_hash(&report_json);

    // derive the content handle from the snapshot, never the live source
    let encrypted_blob_handle = simulate_encrypt_blob_id(entries, execution_id);

    // bind everything with a fresh nonce and sign the payload
    let tee_nonce = generate_tee_nonce();
    let payload = TeePayload {
        dataset_merkle_root: string_copy(&req.dataset_merkle_root),
        encrypted_data_blob_id: encrypted_blob_handle,
        policy_version: string_copy(&req.policy_version),
        report_hash,
        model_version: string_copy(&req.model_version),
        tee_nonce,
    };
    let payload_json = payload_to_json(&payload);
    let signature = key.sign_payload(&payload_json);

    let attestation = Attestation {
        tee_measurement: String::from_str(enclave_measurement_str()),
        tee_nonce: string_copy(&payload.tee_nonce),
        enclave_pub_key: key.enclave_public_key_hex(),
        provider: String::from_str(provider_tag_str()),
    };

    Ok(AnalyzeDatasetResponse { attestation, payload, signature, report })
}

/// Copy a string.
fn string_copy(s: &String) -> (r: String)
    ensures
        r@ == s@,
{
    s.clone()
}

} // verus!
