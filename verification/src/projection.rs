//! Status of one world-model projection.
use vstd::prelude::*;

use crate::embedded::Summary;
use crate::text::str_eq;

verus! {

/// Status of a projection and the reason that qualifies it.
#[derive(Clone, Debug)]
pub struct ProjectionStatus {
    pub status: &'static str,
    pub reason: Option<String>,
}

/// Projection status: `failed` with the recorded error when one was
/// recorded, otherwise `not_run` when the projection is absent, otherwise
/// `complete` or `partial` by semantic completeness.
pub fn projection_status(
    present: bool,
    recorded_error: Option<&str>,
    semantically_complete: bool,
    reason: Option<String>,
) -> (r: ProjectionStatus)
    ensures
        recorded_error matches Some(e) ==> r.status@ == "failed"@ && (r.reason matches Some(s)
            && s@ == e@),
        recorded_error is None && !present ==> r.status@ == "not_run"@ && r.reason == reason,
        recorded_error is None && present && semantically_complete ==> r.status@ == "complete"@
            && r.reason == reason,
        recorded_error is None && present && !semantically_complete ==> r.status@ == "partial"@
            && r.reason == reason,
{
    if let Some(error) = recorded_error {
        return ProjectionStatus { status: "failed", reason: Some(error.to_owned()) };
    }
    if !present {
        return ProjectionStatus { status: "not_run", reason };
    }
    ProjectionStatus {
        status: if semantically_complete {
            "complete"
        } else {
            "partial"
        },
        reason,
    }
}

/// Projection status of an embedded scan: `complete` only for a complete
/// scan without refused graphs or unresolved current rows, `partial` for
/// another complete scan, `unsupported` for an unqualified profile, and
/// `failed` otherwise.
pub fn embedded_projection_status(summary: &Summary) -> (r: ProjectionStatus)
    ensures
        summary.status@ == "complete"@ && summary.unsupported_graph_records == 0
            && summary.unresolved_current_rows@.len() == 0 ==> r.status@ == "complete"@,
        summary.status@ == "complete"@ && !(summary.unsupported_graph_records == 0
            && summary.unresolved_current_rows@.len() == 0) ==> r.status@ == "partial"@,
        summary.status@ != "complete"@ && summary.status@ == "unsupported_profile"@ ==> r.status@
            == "unsupported"@,
        summary.status@ != "complete"@ && summary.status@ != "unsupported_profile"@ ==> r.status@
            == "failed"@,
        r.reason == summary.reason,
{
    let status = if str_eq(summary.status.as_str(), "complete") {
        if summary.unsupported_graph_records == 0 && summary.unresolved_current_rows.len() == 0 {
            "complete"
        } else {
            "partial"
        }
    } else if str_eq(summary.status.as_str(), "unsupported_profile") {
        "unsupported"
    } else {
        "failed"
    };
    let reason = match &summary.reason {
        Some(text) => Some(text.clone()),
        None => None,
    };
    ProjectionStatus { status, reason }
}

} // verus!
