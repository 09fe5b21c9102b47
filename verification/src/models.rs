//! The data model of the attestation pipeline.

use vstd::prelude::*;
use vstd::string::*;

use crate::json::{rep, rep_list, rep_pairs, lemma_rep_list, lemma_rep_pairs, lemma_wf_arr_intro,
    lemma_wf_leaf, lemma_wf_obj_intro, distinct_keys, wf, JsonRep, JsonValue};

verus! {

broadcast use vstd::string::group_string_axioms;

/// Request for a dataset analysis: opaque caller-supplied strings.
pub struct AnalyzeDatasetRequest {
    pub dataset_id: String,
    pub dataset_merkle_root: String,
    pub encrypted_data_blob_id: String,
    pub policy_version: String,
    pub model_version: String,
}

/// A single compliance finding within the dataset.
pub struct ComplianceFinding {
    pub finding_type: String,
    pub path: String,
    pub detail: String,
}

/// High-level compliance report derived from scanning.
pub struct ComplianceReport {
    pub dataset_id: String,
    pub dataset_merkle_root: String,
    pub encrypted_data_blob_id: String,
    pub policy_version: String,
    pub model_version: String,
    pub verdict: String,
    pub score: i32,
    pub findings: Vec<ComplianceFinding>,
}

/// Payload that is signed by the enclave keypair.
pub struct TeePayload {
    pub dataset_merkle_root: String,
    pub encrypted_data_blob_id: String,
    pub policy_version: String,
    pub report_hash: String,
    pub model_version: String,
    pub tee_nonce: String,
}

/// Substitute attestation returned alongside the signed payload.
pub struct Attestation {
    pub tee_measurement: String,
    pub tee_nonce: String,
    pub enclave_pub_key: String,
    pub provider: String,
}

/// Full response of a dataset analysis.
pub struct AnalyzeDatasetResponse {
    pub attestation: Attestation,
    pub payload: TeePayload,
    pub signature: String,
    pub report: ComplianceReport,
}

/// The error taxonomy of the pipeline: a dataset reference that does not
/// resolve, a snapshot copy failure, a failed external capability, or a
/// value that cannot be canonically serialized.
#[derive(Debug)]
pub enum TeeError {
    NotFound,
    IoFailure(String),
    ExternalService(String),
    Serialization(String),
}

/// The mathematical content of a finding.
pub open spec fn finding_view(f: ComplianceFinding) -> (Seq<char>, Seq<char>, Seq<char>) {
    (f.finding_type@, f.path@, f.detail@)
}

/// The structured value of one finding.
pub open spec fn finding_rep(f: ComplianceFinding) -> JsonRep {
    JsonRep::Obj(
        seq![
            ("type"@, JsonRep::Text(f.finding_type@)),
            ("path"@, JsonRep::Text(f.path@)),
            ("detail"@, JsonRep::Text(f.detail@)),
        ],
    )
}

/// The structured value of a report, over which its canonical hash is
/// defined.
pub open spec fn report_rep(r: ComplianceReport) -> JsonRep {
    JsonRep::Obj(
        seq![
            ("datasetId"@, JsonRep::Text(r.dataset_id@)),
            ("datasetMerkleRoot"@, JsonRep::Text(r.dataset_merkle_root@)),
            ("encryptedDataBlobId"@, JsonRep::Text(r.encrypted_data_blob_id@)),
            ("policyVersion"@, JsonRep::Text(r.policy_version@)),
            ("modelVersion"@, JsonRep::Text(r.model_version@)),
            ("verdict"@, JsonRep::Text(r.verdict@)),
            ("score"@, JsonRep::Int(r.score as int)),
            ("findings"@, JsonRep::Arr(r.findings@.map_values(|f: ComplianceFinding| finding_rep(f)))),
        ],
    )
}

/// The structured value of the signed payload.
pub open spec fn payload_rep(p: TeePayload) -> JsonRep {
    JsonRep::Obj(
        seq![
            ("datasetMerkleRoot"@, JsonRep::Text(p.dataset_merkle_root@)),
            ("encryptedDataBlobId"@, JsonRep::Text(p.encrypted_data_blob_id@)),
            ("policyVersion"@, JsonRep::Text(p.policy_version@)),
            ("reportHash"@, JsonRep::Text(p.report_hash@)),
            ("modelVersion"@, JsonRep::Text(p.model_version@)),
            ("teeNonce"@, JsonRep::Text(p.tee_nonce@)),
        ],
    )
}

/// Build the structured value of one finding.
pub fn finding_to_json(f: &ComplianceFinding) -> (j: JsonValue)
    ensures
        rep(j) == finding_rep(*f),
        wf(finding_rep(*f)),
{
    let mut pairs: Vec<(String, JsonValue)> = Vec::new();
    pairs.push((String::from_str("type"), JsonValue::Text(f.finding_type.clone())));
    pairs.push((String::from_str("path"), JsonValue::Text(f.path.clone())));
    pairs.push((String::from_str("detail"), JsonValue::Text(f.detail.clone())));
    let j = JsonValue::Object(pairs);
    proof {
        lemma_rep_pairs(pairs@);
        let ps = finding_rep(*f)->Obj_0;
        assert(rep_pairs(pairs@) =~= ps);
        reveal_strlit("type");
        reveal_strlit("path");
        reveal_strlit("detail");
        assert("type"@.len() == 4 && "path"@.len() == 4 && "detail"@.len() == 6);
        assert("type"@[0] != "path"@[0]);
        assert(distinct_keys(ps));
        assert forall|i: int| 0 <= i < ps.len() implies wf(#[trigger] ps[i].1) by {
            lemma_wf_leaf(ps[i].1);
        }
        lemma_wf_obj_intro(ps);
    }
    j
}

/// Build the structured value of a report.
#[verifier::rlimit(60)]
pub fn report_to_json(r: &ComplianceReport) -> (j: JsonValue)
    ensures
        rep(j) == report_rep(*r),
        wf(report_rep(*r)),
{
    let mut findings: Vec<JsonValue> = Vec::new();
    let mut i: usize = 0;
    while i < r.findings.len()
        invariant
            i <= r.findings.len(),
            findings@.len() == i,
            forall|k: int|
                0 <= k < i ==> rep(#[trigger] findings@[k]) == finding_rep(r.findings@[k]) && wf(
                    finding_rep(r.findings@[k]),
                ),
        decreases r.findings.len() - i,
    {
        let fj = finding_to_json(&r.findings[i]);
        findings.push(fj);
        i += 1;
    }
    let mut pairs: Vec<(String, JsonValue)> = Vec::new();
    pairs.push((String::from_str("datasetId"), JsonValue::Text(r.dataset_id.clone())));
    pairs.push((
        String::from_str("datasetMerkleRoot"),
        JsonValue::Text(r.dataset_merkle_root.clone()),
    ));
    pairs.push((
        String::from_str("encryptedDataBlobId"),
        JsonValue::Text(r.encrypted_data_blob_id.clone()),
    ));
    pairs.push((String::from_str("policyVersion"), JsonValue::Text(r.policy_version.clone())));
    pairs.push((String::from_str("modelVersion"), JsonValue::Text(r.model_version.clone())));
    pairs.push((String::from_str("verdict"), JsonValue::Text(r.verdict.clone())));
    pairs.push((String::from_str("score"), JsonValue::Int(r.score as i64)));
    pairs.push((String::from_str("findings"), JsonValue::Array(findings)));
    let j = JsonValue::Object(pairs);
    proof {
        lemma_rep_pairs(pairs@);
        lemma_rep_list(findings@);
        assert(rep_list(findings@) =~= r.findings@.map_values(
            |f: ComplianceFinding| finding_rep(f),
        ));
        let ps = report_rep(*r)->Obj_0;
        assert(rep_pairs(pairs@) =~= ps);
        reveal_strlit("datasetId");
        reveal_strlit("datasetMerkleRoot");
        reveal_strlit("encryptedDataBlobId");
        reveal_strlit("policyVersion");
        reveal_strlit("modelVersion");
        reveal_strlit("verdict");
        reveal_strlit("score");
        reveal_strlit("findings");
        assert("datasetId"@.len() == 9 && "datasetMerkleRoot"@.len() == 17
            && "encryptedDataBlobId"@.len() == 19 && "policyVersion"@.len() == 13
            && "modelVersion"@.len() == 12 && "verdict"@.len() == 7 && "score"@.len() == 5
            && "findings"@.len() == 8);
        assert(distinct_keys(ps));
        let frs = r.findings@.map_values(|f: ComplianceFinding| finding_rep(f));
        assert forall|k: int| 0 <= k < frs.len() implies wf(#[trigger] frs[k]) by {
            assert(frs[k] == finding_rep(r.findings@[k]));
        }
        lemma_wf_arr_intro(frs);
        assert forall|i: int| 0 <= i < ps.len() implies wf(#[trigger] ps[i].1) by {
            if i < 7 {
                lemma_wf_leaf(ps[i].1);
            }
        }
        lemma_wf_obj_intro(ps);
    }
    j
}

/// Build the structured value of the signed payload.
pub fn payload_to_json(p: &TeePayload) -> (j: JsonValue)
    ensures
        rep(j) == payload_rep(*p),
        wf(payload_rep(*p)),
{
    let mut pairs: Vec<(String, JsonValue)> = Vec::new();
    pairs.push((
        String::from_str("datasetMerkleRoot"),
        JsonValue::Text(p.dataset_merkle_root.clone()),
    ));
    pairs.push((
        String::from_str("encryptedDataBlobId"),
        JsonValue::Text(p.encrypted_data_blob_id.clone()),
    ));
    pairs.push((String::from_str("policyVersion"), JsonValue::Text(p.policy_version.clone())));
    pairs.push((String::from_str("reportHash"), JsonValue::Text(p.report_hash.clone())));
    pairs.push((String::from_str("modelVersion"), JsonValue::Text(p.model_version.clone())));
    pairs.push((String::from_str("teeNonce"), JsonValue::Text(p.tee_nonce.clone())));
    let j = JsonValue::Object(pairs);
    proof {
        lemma_rep_pairs(pairs@);
        let ps = payload_rep(*p)->Obj_0;
        assert(rep_pairs(pairs@) =~= ps);
        reveal_strlit("datasetMerkleRoot");
        reveal_strlit("encryptedDataBlobId");
        reveal_strlit("policyVersion");
        reveal_strlit("reportHash");
        reveal_strlit("modelVersion");
        reveal_strlit("teeNonce");
        assert("datasetMerkleRoot"@.len() == 17 && "encryptedDataBlobId"@.len() == 19
            && "policyVersion"@.len() == 13 && "reportHash"@.len() == 10
            && "modelVersion"@.len() == 12 && "teeNonce"@.len() == 8);
        assert(distinct_keys(ps));
        assert forall|i: int| 0 <= i < ps.len() implies wf(#[trigger] ps[i].1) by {
            lemma_wf_leaf(ps[i].1);
        }
        lemma_wf_obj_intro(ps);
    }
    j
}

} // verus!
