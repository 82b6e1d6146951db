//! Queueing an image generation for a need, and a person's rejection of a
//! generated candidate: the decisions taken between the store's reads and
//! writes. Each request is keyed for idempotency, so asking twice joins the
//! job already there.
use vstd::prelude::*;
use crate::error::AppError;
use crate::generation::CostKind;
use crate::needs::{NeedCoverage, VisualNeed};
use crate::text::{push_str, str_eq};

verus! {

/// How a queued job is paid for: the local mock provider costs nothing, a
/// paid provider is paid, any other is free as configured.
pub open spec fn queued_cost_kind(provider_name: Seq<char>, is_paid: bool) -> CostKind {
    if provider_name == "mock"@ {
        CostKind::Local
    } else if is_paid {
        CostKind::Paid
    } else {
        CostKind::FreeConfigured
    }
}

/// The cost kind recorded on a queued job.
pub fn queue_cost_kind(provider_name: &str, is_paid: bool) -> (k: CostKind)
    ensures
        k == queued_cost_kind(provider_name@, is_paid),
{
    if str_eq(provider_name, "mock") {
        CostKind::Local
    } else if is_paid {
        CostKind::Paid
    } else {
        CostKind::FreeConfigured
    }
}

/// A need whose request the cost gate refused: skipped, with the policy's
/// reason noted after its other reasons, stamped `now`; otherwise unchanged.
pub fn refused_by_gate(need: &mut VisualNeed, reason: &str, now: &str)
    ensures
        final(need).coverage == NeedCoverage::Skipped,
        final(need).match_reasons@.len() == old(need).match_reasons@.len() + 1,
        final(need).match_reasons@.drop_last() == old(need).match_reasons@,
        final(need).match_reasons@.last()@ == "policy:"@ + reason@,
        final(need).updated_at@ == now@,
        (VisualNeed { coverage: final(need).coverage, match_reasons: final(need).match_reasons,
            updated_at: final(need).updated_at, ..*old(need) }) == *final(need),
{
    let mut note = String::from_str("policy:");
    push_str(&mut note, reason);
    need.coverage = NeedCoverage::Skipped;
    need.match_reasons.push(note);
    need.updated_at = String::from_str(now);
    proof {
        assert(final(need).match_reasons@.drop_last() =~= old(need).match_reasons@);
    }
}

/// The coverage of a need whose request joins a job already there: covered
/// when the job succeeded, generating while it neither failed nor was
/// cancelled, otherwise as it was.
pub open spec fn joined_coverage(old_coverage: NeedCoverage, job_status: Seq<char>) -> NeedCoverage {
    if job_status == "succeeded"@ {
        NeedCoverage::Covered
    } else if job_status != "failed"@ && job_status != "cancelled"@ {
        NeedCoverage::Generating
    } else {
        old_coverage
    }
}

/// A request whose idempotency key names an existing job: the need points at
/// that job and takes the coverage its status gives.
pub fn joined_existing_job(need: &mut VisualNeed, job_id: &str, job_status: &str)
    ensures
        final(need).generation_job_id matches Some(j) && j@ == job_id@,
        final(need).coverage == joined_coverage(old(need).coverage, job_status@),
        (VisualNeed { generation_job_id: final(need).generation_job_id, coverage: final(need).coverage,
            ..*old(need) }) == *final(need),
{
    need.generation_job_id = Some(String::from_str(job_id));
    if str_eq(job_status, "succeeded") {
        need.coverage = NeedCoverage::Covered;
    } else if !str_eq(job_status, "failed") && !str_eq(job_status, "cancelled") {
        need.coverage = NeedCoverage::Generating;
    }
}

/// A need has one generation in flight at most: with `active` jobs queued or
/// running for it, a new one is refused.
pub fn second_job_check(active: i64) -> (r: Result<(), AppError>)
    ensures
        r is Ok <==> active <= 0,
        r matches Err(e) ==> (e matches AppError::Invalid(m) && m@ == "Ya hay una generación en curso para esta necesidad."@),
{
    if active > 0 {
        return Err(AppError::Invalid(String::from_str("Ya hay una generación en curso para esta necesidad.")));
    }
    Ok(())
}

/// The need once its job is queued: it points at the job, is generating and
/// is stamped `now`.
pub fn job_queued(need: &mut VisualNeed, job_id: &str, now: &str)
    ensures
        final(need).generation_job_id matches Some(j) && j@ == job_id@,
        final(need).coverage == NeedCoverage::Generating,
        final(need).updated_at@ == now@,
        (VisualNeed { generation_job_id: final(need).generation_job_id, coverage: final(need).coverage,
            updated_at: final(need).updated_at, ..*old(need) }) == *final(need),
{
    need.generation_job_id = Some(String::from_str(job_id));
    need.coverage = NeedCoverage::Generating;
    need.updated_at = String::from_str(now);
}

/// The need a rejected candidate was generated for: uncovered again, stamped
/// `now`, otherwise unchanged.
pub fn rejected_need(need: &mut VisualNeed, now: &str)
    ensures
        final(need).coverage == NeedCoverage::Uncovered,
        final(need).updated_at@ == now@,
        (VisualNeed { coverage: final(need).coverage, updated_at: final(need).updated_at, ..*old(need) }) == *final(need),
{
    need.coverage = NeedCoverage::Uncovered;
    need.updated_at = String::from_str(now);
}

/// The daily-feed metric a rejection counts: "rejected" when the candidate
/// came from the daily feed, none otherwise.
pub fn rejection_metric(origin: &str) -> (r: Option<&'static str>)
    ensures
        origin@ == "daily_feed"@ ==> (r matches Some(m) && m@ == "rejected"@),
        origin@ != "daily_feed"@ ==> r is None,
{
    if str_eq(origin, "daily_feed") {
        Some("rejected")
    } else {
        None
    }
}

} // verus!
