//! Canonical field protocol shared by sidecar and clients.

use vstd::prelude::*;

use crate::policies::{PolicyEdit, PolicyScope};
use crate::sessions::SessionKey;

verus! {

pub const PROTOCOL_VERSION: u32 = 1;

pub struct StatusResponse {
    pub status: &'static str,
    pub protocol_version: u32,
    pub sidecar_version: &'static str,
}

#[derive(Clone, Debug, PartialEq, Eq)]
pub struct RequestNamespace {
    pub profile_id: String,
    pub session_id: String,
    pub request_id: String,
}

impl RequestNamespace {
    /// The session a request belongs to: its profile and session, never its
    /// request id.
    pub fn session_key(&self) -> (k: SessionKey)
        ensures
            k.profile_id@ == self.profile_id@,
            k.session_id@ == self.session_id@,
    {
        SessionKey::new(self.profile_id.as_str(), self.session_id.as_str())
    }
}

#[derive(Clone, Debug, PartialEq, Eq)]
pub struct TextField {
    pub path: String,
    pub text: String,
}

#[derive(Debug)]
pub struct CleanRequest {
    pub namespace: RequestNamespace,
    pub fields: Vec<TextField>,
}

#[derive(Debug)]
pub struct RestoreRequest {
    pub namespace: RequestNamespace,
    pub fields: Vec<TextField>,
}

#[derive(Clone, Debug, PartialEq, Eq)]
pub struct DetectionCount {
    pub class: String,
    pub count: u64,
}

#[derive(Debug)]
pub struct CleanResponse {
    pub fields: Vec<TextField>,
    pub detections: Vec<DetectionCount>,
    pub policy_version: String,
}

#[derive(Debug)]
pub struct RestoreResponse {
    pub fields: Vec<TextField>,
}

#[derive(Debug)]
pub struct PolicyDocumentRequest {
    pub toml: String,
}

#[derive(Debug)]
pub struct PolicyApplyRequest {
    pub scope: PolicyScope,
    pub expected_hash: String,
    pub toml: String,
}

#[derive(Debug)]
pub struct PolicyEditRequest {
    pub scope: PolicyScope,
    pub expected_hash: String,
    pub edit: PolicyEdit,
}

#[derive(Debug)]
pub struct PolicyTestRequest {
    pub namespace: RequestNamespace,
    pub fields: Vec<TextField>,
}

#[derive(Debug)]
pub struct EffectivePolicyResponse {
    pub toml: String,
    pub hash: String,
}

#[derive(Debug)]
pub struct PolicyTestFieldResult {
    pub path: String,
    pub original_present: bool,
    pub protected: String,
    pub restored: String,
    pub round_trip_ok: bool,
}

impl PolicyTestFieldResult {
    /// The report for one tested field: whether protection changed it, and
    /// whether restoring the protected text gave the original back.
    pub fn new(path: String, original: String, protected: String, restored: String) -> (r: Self)
        ensures
            r.path@ == path@,
            r.protected@ == protected@,
            r.restored@ == restored@,
            r.original_present == (protected@ != original@),
            r.round_trip_ok == (restored@ == original@),
    {
        let original_present = !(protected == original);
        let round_trip_ok = restored == original;
        PolicyTestFieldResult { path, original_present, protected, round_trip_ok, restored }
    }
}

#[derive(Debug)]
pub struct PolicyTestResponse {
    pub fields: Vec<PolicyTestFieldResult>,
}

/// The query of the effective-policy endpoint.
#[derive(Debug, Clone)]
pub struct EffectiveQuery {
    pub profile_id: Option<String>,
}

} // verus!
