//! A person's approval of a generated candidate: no candidate enters the
//! library before it. Approving is idempotent and claimed under a condition,
//! so two approvals never both promote the same candidate; these are the
//! decisions taken between the store's reads and writes.
use vstd::prelude::*;
use crate::error::AppError;
use crate::needs::{NeedCoverage, VisualNeed};
use crate::text::push_str;
use crate::visual::eq_lit;

verus! {

/// What approving a candidate does first.
pub enum ApprovalStep {
    /// It was approved already: the asset it became.
    ReturnExisting(String),
    /// It cannot be approved.
    Refuse(AppError),
    /// It may be claimed for approval.
    Claim,
}

/// An approved-asset id that is there and not empty.
pub open spec fn has_id(o: Option<String>) -> bool {
    o matches Some(a) && a@.len() > 0
}

/// A candidate status from which approval is refused.
pub open spec fn final_status(s: Seq<char>) -> bool {
    s == "rejected"@ || s == "discarded"@ || s == "approved"@
}

/// The first step of an approval, from the candidate's stored status and
/// approved asset: an approved asset (a non-empty id) is returned as it is;
/// a rejected, discarded or approved candidate is refused; otherwise the
/// candidate is to be claimed.
pub fn approval_start(status: &str, approved_asset_id: &Option<String>) -> (r: ApprovalStep)
    ensures
        has_id(*approved_asset_id) ==> (r matches ApprovalStep::ReturnExisting(id) && id@ == approved_asset_id->0@),
        !has_id(*approved_asset_id) && final_status(status@) ==> (r matches ApprovalStep::Refuse(
            AppError::Invalid(m),
        ) && m@ == "Candidato en estado '"@ + status@ + "' no se puede aprobar de nuevo."@),
        !has_id(*approved_asset_id) && !final_status(status@) ==> r matches ApprovalStep::Claim,
{
    match approved_asset_id {
        Some(a) => {
            if a.unicode_len() > 0 {
                return ApprovalStep::ReturnExisting(a.clone());
            }
        },
        None => {},
    }
    let sc = crate::text::to_chars(status);
    if eq_lit(&sc, "rejected") || eq_lit(&sc, "discarded") || eq_lit(&sc, "approved") {
        let mut m = String::from_str("Candidato en estado '");
        push_str(&mut m, status);
        push_str(&mut m, "' no se puede aprobar de nuevo.");
        return ApprovalStep::Refuse(AppError::Invalid(m));
    }
    ApprovalStep::Claim
}

/// After the conditional claim: it holds only when it changed a row;
/// otherwise another approval is under way.
pub fn after_claim(rows: u64) -> (r: Result<(), AppError>)
    ensures
        r is Ok <==> rows > 0,
        r matches Err(e) ==> (e matches AppError::Invalid(m) && m@ == "Otro proceso ya está aprobando este candidato."@),
{
    if rows > 0 {
        Ok(())
    } else {
        Err(AppError::Invalid(String::from_str("Otro proceso ya está aprobando este candidato.")))
    }
}

/// What is done with a candidate whose image file is gone: it is marked
/// with this status, and the approval fails with this error.
pub struct MissingFile {
    pub status: &'static str,
    pub error: AppError,
}

/// A claimed candidate's image must still be a file: when it is not, the
/// candidate is rejected and the approval fails as `NotFound` with its path.
pub fn check_candidate_file(is_file: bool, path: &str) -> (r: Result<(), MissingFile>)
    ensures
        is_file ==> r is Ok,
        !is_file ==> (r matches Err(x) && x.status@ == "rejected"@ && (x.error matches AppError::NotFound(m) && m@ == path@)),
{
    if is_file {
        Ok(())
    } else {
        Err(MissingFile { status: "rejected", error: AppError::NotFound(String::from_str(path)) })
    }
}

/// After the conditional finalization: done when it changed a row; when
/// another writer won, its asset (a non-empty id) is the answer; otherwise
/// the approval fails.
pub fn after_finalize(rows: u64, existing: Option<String>) -> (r: Result<Option<String>, AppError>)
    ensures
        rows > 0 ==> r matches Ok(None),
        rows == 0 && has_id(existing) ==> (r matches Ok(Some(id)) && id@ == existing->0@),
        rows == 0 && !has_id(existing) ==> (r matches Err(AppError::Invalid(m))
            && m@ == "No se pudo finalizar la aprobación del candidato."@),
{
    if rows > 0 {
        return Ok(None);
    }
    match existing {
        Some(a) => {
            if a.unicode_len() > 0 {
                return Ok(Some(a));
            }
        },
        None => {},
    }
    Err(AppError::Invalid(String::from_str("No se pudo finalizar la aprobación del candidato.")))
}

/// The need a candidate was generated for, once its asset is approved:
/// covered by the asset, stamped `now`, otherwise unchanged.
pub fn approved_need(need: &mut VisualNeed, asset_id: &str, now: &str)
    ensures
        final(need).matched_asset_id matches Some(a) && a@ == asset_id@,
        final(need).coverage == NeedCoverage::Covered,
        final(need).updated_at@ == now@,
        (VisualNeed { matched_asset_id: final(need).matched_asset_id, coverage: final(need).coverage,
            updated_at: final(need).updated_at, ..*old(need) }) == *final(need),
{
    need.matched_asset_id = Some(String::from_str(asset_id));
    need.coverage = NeedCoverage::Covered;
    need.updated_at = String::from_str(now);
}

/// The daily-feed metrics an approval counts: an approval and a concept
/// covered when the candidate came from the daily feed, none otherwise.
pub fn approval_metrics(origin: &str) -> (r: Vec<&'static str>)
    ensures
        origin@ == "daily_feed"@ ==> (r@.len() == 2 && r@[0]@ == "approved"@ && r@[1]@ == "concepts_covered"@),
        origin@ != "daily_feed"@ ==> r@.len() == 0,
{
    let oc = crate::text::to_chars(origin);
    if eq_lit(&oc, "daily_feed") {
        vec!["approved", "concepts_covered"]
    } else {
        Vec::new()
    }
}

} // verus!
