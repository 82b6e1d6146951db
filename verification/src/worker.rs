//! Generation job worker: the decisions taken around one claimed job —
//! before generating, after a failed generation, and after the review of
//! the generated image.
use vstd::prelude::*;
use crate::needs::NeedCoverage;
use crate::qa::QaCheckResult;
use crate::text::{push_str, str_eq};

verus! {

/// State of a generation job.
#[derive(Clone, Copy, Debug, PartialEq, Eq, Structural)]
pub enum JobStatus {
    Queued,
    Running,
    Succeeded,
    Failed,
    Cancelled,
    BlockedPolicy,
}

pub open spec fn job_status_text(s: JobStatus) -> Seq<char> {
    match s {
        JobStatus::Queued => "queued"@,
        JobStatus::Running => "running"@,
        JobStatus::Succeeded => "succeeded"@,
        JobStatus::Failed => "failed"@,
        JobStatus::Cancelled => "cancelled"@,
        JobStatus::BlockedPolicy => "blocked_policy"@,
    }
}

pub open spec fn job_stage_text(s: JobStatus) -> Seq<char> {
    match s {
        JobStatus::Cancelled => "cancelled"@,
        JobStatus::Succeeded => "succeeded"@,
        JobStatus::Failed => "failed"@,
        JobStatus::BlockedPolicy => "blocked"@,
        JobStatus::Queued => "queued"@,
        JobStatus::Running => "running"@,
    }
}

impl JobStatus {
    /// The stored name of the status.
    pub fn as_str(self) -> (r: &'static str)
        ensures
            r@ == job_status_text(self),
    {
        match self {
            JobStatus::Queued => "queued",
            JobStatus::Running => "running",
            JobStatus::Succeeded => "succeeded",
            JobStatus::Failed => "failed",
            JobStatus::Cancelled => "cancelled",
            JobStatus::BlockedPolicy => "blocked_policy",
        }
    }

    /// The stage shown while a job is in this status.
    pub fn stage(self) -> (r: &'static str)
        ensures
            r@ == job_stage_text(self),
    {
        match self {
            JobStatus::Cancelled => "cancelled",
            JobStatus::Succeeded => "succeeded",
            JobStatus::Failed => "failed",
            JobStatus::BlockedPolicy => "blocked",
            JobStatus::Queued => "queued",
            JobStatus::Running => "running",
        }
    }
}

/// State of a generated image.
#[derive(Clone, Copy, Debug, PartialEq, Eq, Structural)]
pub enum CandidateStatus {
    Generated,
    AutomatedReview,
    NeedsHumanReview,
    Approved,
    Rejected,
    Discarded,
}

/// Whether a claimed job stops before generating, and how: a paid job
/// while paid providers are off is blocked; a job whose cancel was requested
/// is cancelled.
pub fn job_precheck(is_paid: bool, paid_enabled: bool, cancel_requested: bool) -> (r: Option<(JobStatus, &'static str)>)
    ensures
        is_paid && !paid_enabled ==> (r matches Some((s, m)) && s == JobStatus::BlockedPolicy && m@ == "paid disabled"@),
        !(is_paid && !paid_enabled) && cancel_requested ==> (r matches Some((s, m)) && s == JobStatus::Cancelled
            && m@ == "cancelled by user"@),
        !(is_paid && !paid_enabled) && !cancel_requested ==> r is None,
{
    if is_paid && !paid_enabled {
        Some((JobStatus::BlockedPolicy, "paid disabled"))
    } else if cancel_requested {
        Some((JobStatus::Cancelled, "cancelled by user"))
    } else {
        None
    }
}

/// What happens to a job, its image and its need after one attempt.
pub struct JobOutcome {
    pub job_status: JobStatus,
    pub job_error: Option<String>,
    pub candidate_status: Option<CandidateStatus>,
    /// The new coverage of the job's need, when it changes.
    pub need_coverage: Option<NeedCoverage>,
    /// The image becomes a library asset.
    pub promote: bool,
    /// Count the image among the daily feed's images awaiting review.
    pub count_needs_review: bool,
}

/// After a failed generation (attempt `attempt` of `max_attempts`): the job
/// fails for good, and its need with it, once the attempts are spent;
/// otherwise it goes back to the queue with the error.
pub fn after_generation_error(attempt: u32, max_attempts: u32, msg: String) -> (r: JobOutcome)
    ensures
        r.job_error == Some(msg),
        r.candidate_status is None && !r.promote && !r.count_needs_review,
        attempt >= max_attempts ==> r.job_status == JobStatus::Failed && r.need_coverage == Some(NeedCoverage::Failed),
        attempt < max_attempts ==> r.job_status == JobStatus::Queued && r.need_coverage is None,
{
    if attempt >= max_attempts {
        JobOutcome {
            job_status: JobStatus::Failed,
            job_error: Some(msg),
            candidate_status: None,
            need_coverage: Some(NeedCoverage::Failed),
            promote: false,
            count_needs_review: false,
        }
    } else {
        JobOutcome {
            job_status: JobStatus::Queued,
            job_error: Some(msg),
            candidate_status: None,
            need_coverage: None,
            promote: false,
            count_needs_review: false,
        }
    }
}

/// Generated images must be seen by a person: an approval becomes a request
/// for human review, with a note in the reason.
pub fn require_human_review(check: &mut QaCheckResult, require_human: bool)
    ensures
        final(check).technical_quality == old(check).technical_quality,
        final(check).semantic_alignment == old(check).semantic_alignment,
        final(check).forbidden_detected == old(check).forbidden_detected,
        require_human && old(check).decision@ == "approve"@ ==> final(check).decision@ == "needs_human"@
            && final(check).reason@ == old(check).reason@ + " — revisión humana requerida para imágenes generadas"@,
        !(require_human && old(check).decision@ == "approve"@) ==> final(check).decision == old(check).decision
            && final(check).reason == old(check).reason,
{
    if require_human && str_eq(check.decision.as_str(), "approve") {
        check.decision = String::from_str("needs_human");
        push_str(&mut check.reason, " — revisión humana requerida para imágenes generadas");
    }
}

/// After the review of a generated image (`decision`, `reason`): an approval
/// (with no human review required) promotes it, the job succeeds and the
/// need is covered; an approval or a request for human review leaves it for
/// a person, the job succeeds and the need awaits review; a rejection fails
/// the job and its need once the attempts are spent, else requeues the job
/// with the reason.
pub fn after_review(decision: &str, reason: &str, require_human: bool, attempt: u32, max_attempts: u32, origin: &str) -> (r: JobOutcome)
    requires
        attempt < u32::MAX,
    ensures
        require_human ==> !r.promote,
        decision@ == "approve"@ && !require_human ==> {
            &&& r.job_status == JobStatus::Succeeded && r.job_error is None
            &&& r.candidate_status == Some(CandidateStatus::Approved)
            &&& r.need_coverage == Some(NeedCoverage::Covered) && r.promote && !r.count_needs_review
        },
        (decision@ == "needs_human"@ || (decision@ == "approve"@ && require_human)) ==> {
            &&& r.job_status == JobStatus::Succeeded && r.job_error is None
            &&& r.candidate_status == Some(CandidateStatus::NeedsHumanReview)
            &&& r.need_coverage == Some(NeedCoverage::NeedsReview) && !r.promote
            &&& r.count_needs_review == (origin@ == "daily_feed"@)
        },
        decision@ != "approve"@ && decision@ != "needs_human"@ ==> {
            &&& r.candidate_status == Some(CandidateStatus::Rejected) && !r.promote && !r.count_needs_review
            &&& r.job_error matches Some(e) && e@ == reason@
            &&& attempt + 1 >= max_attempts ==> r.job_status == JobStatus::Failed && r.need_coverage == Some(NeedCoverage::Failed)
            &&& attempt + 1 < max_attempts ==> r.job_status == JobStatus::Queued && r.need_coverage is None
        },
{
    proof {
        reveal_strlit("approve");
        reveal_strlit("needs_human");
        assert("approve"@.len() != "needs_human"@.len());
    }
    let approve = str_eq(decision, "approve");
    let human = str_eq(decision, "needs_human");
    if approve && !require_human {
        JobOutcome {
            job_status: JobStatus::Succeeded,
            job_error: None,
            candidate_status: Some(CandidateStatus::Approved),
            need_coverage: Some(NeedCoverage::Covered),
            promote: true,
            count_needs_review: false,
        }
    } else if human || approve {
        JobOutcome {
            job_status: JobStatus::Succeeded,
            job_error: None,
            candidate_status: Some(CandidateStatus::NeedsHumanReview),
            need_coverage: Some(NeedCoverage::NeedsReview),
            promote: false,
            count_needs_review: str_eq(origin, "daily_feed"),
        }
    } else if attempt + 1 >= max_attempts {
        JobOutcome {
            job_status: JobStatus::Failed,
            job_error: Some(String::from_str(reason)),
            candidate_status: Some(CandidateStatus::Rejected),
            need_coverage: Some(NeedCoverage::Failed),
            promote: false,
            count_needs_review: false,
        }
    } else {
        JobOutcome {
            job_status: JobStatus::Queued,
            job_error: Some(String::from_str(reason)),
            candidate_status: Some(CandidateStatus::Rejected),
            need_coverage: None,
            promote: false,
            count_needs_review: false,
        }
    }
}

pub open spec fn candidate_status_of(s: Seq<char>) -> CandidateStatus {
    if s == "automated_review"@ {
        CandidateStatus::AutomatedReview
    } else if s == "needs_human_review"@ {
        CandidateStatus::NeedsHumanReview
    } else if s == "approved"@ {
        CandidateStatus::Approved
    } else if s == "rejected"@ {
        CandidateStatus::Rejected
    } else if s == "discarded"@ {
        CandidateStatus::Discarded
    } else {
        CandidateStatus::Generated
    }
}

impl CandidateStatus {
    /// The status named by a stored text (an unknown name reads as generated).
    pub fn parse(s: &str) -> (r: CandidateStatus)
        ensures
            r == candidate_status_of(s@),
    {
        if str_eq(s, "automated_review") {
            CandidateStatus::AutomatedReview
        } else if str_eq(s, "needs_human_review") {
            CandidateStatus::NeedsHumanReview
        } else if str_eq(s, "approved") {
            CandidateStatus::Approved
        } else if str_eq(s, "rejected") {
            CandidateStatus::Rejected
        } else if str_eq(s, "discarded") {
            CandidateStatus::Discarded
        } else {
            CandidateStatus::Generated
        }
    }
}

pub open spec fn job_status_of(s: Seq<char>) -> JobStatus {
    if s == "running"@ {
        JobStatus::Running
    } else if s == "succeeded"@ {
        JobStatus::Succeeded
    } else if s == "failed"@ {
        JobStatus::Failed
    } else if s == "cancelled"@ {
        JobStatus::Cancelled
    } else if s == "blocked_policy"@ {
        JobStatus::BlockedPolicy
    } else {
        JobStatus::Queued
    }
}

impl JobStatus {
    /// The status named by a stored text (an unknown name reads as queued).
    pub fn parse(s: &str) -> (r: JobStatus)
        ensures
            r == job_status_of(s@),
    {
        if str_eq(s, "running") {
            JobStatus::Running
        } else if str_eq(s, "succeeded") {
            JobStatus::Succeeded
        } else if str_eq(s, "failed") {
            JobStatus::Failed
        } else if str_eq(s, "cancelled") {
            JobStatus::Cancelled
        } else if str_eq(s, "blocked_policy") {
            JobStatus::BlockedPolicy
        } else {
            JobStatus::Queued
        }
    }
}

/// The words shown for a running job at a stage.
pub open spec fn stage_label(stage: Seq<char>) -> Seq<char> {
    if stage == "preparing"@ {
        "Preparando solicitud"@
    } else if stage == "waiting_provider"@ {
        "Esperando proveedor"@
    } else if stage == "downloading"@ {
        "Descargando"@
    } else if stage == "file_review"@ {
        "Revisando archivo"@
    } else if stage == "evaluating"@ {
        "Evaluando imagen"@
    } else if stage == "cancelling"@ {
        "Cancelando…"@
    } else {
        "Generando imagen"@
    }
}

/// The state, words and action the panel shows for a need, from its latest
/// image, else its latest job, else its coverage.
pub open spec fn ui_state(cov: NeedCoverage, job: Option<(JobStatus, bool, Seq<char>)>, cand: Option<CandidateStatus>) -> (Seq<char>, Seq<char>, Seq<char>) {
    let by_need = match cov {
        NeedCoverage::Matched => ("approved"@, "Cubierta"@, "use"@),
        NeedCoverage::Covered => ("approved"@, "Cubierta"@, "use"@),
        NeedCoverage::Generating => ("queued"@, "Esperando turno"@, "cancel"@),
        NeedCoverage::NeedsReview => ("needs_human_review"@, "Necesita tu revisión"@, "review"@),
        NeedCoverage::Failed => ("failed"@, "No se pudo generar"@, "retry"@),
        NeedCoverage::Skipped => ("skipped"@, "Sin imagen"@, "generate"@),
        NeedCoverage::Uncovered => ("uncovered"@, "Falta una imagen"@, "generate"@),
    };
    let by_job = match job {
        Some((s, cancel, stage)) => match s {
            JobStatus::Queued => Some(("queued"@, "Esperando turno"@, "cancel"@)),
            JobStatus::Running => if cancel || stage == "cancelling"@ {
                Some(("cancelling"@, "Cancelando…"@, "wait"@))
            } else {
                Some(("processing"@, stage_label(stage), "cancel"@))
            },
            JobStatus::Failed => Some(("failed"@, "No se pudo generar"@, "retry"@)),
            JobStatus::BlockedPolicy => Some(("failed"@, "No se pudo generar"@, "retry"@)),
            JobStatus::Cancelled => Some(("cancelled"@, "Generación cancelada"@, "generate"@)),
            JobStatus::Succeeded => None,
        },
        None => None,
    };
    let by_cand = match cand {
        Some(CandidateStatus::NeedsHumanReview) => Some(("needs_human_review"@, "Necesita tu revisión"@, "review"@)),
        Some(CandidateStatus::AutomatedReview) => Some(("needs_human_review"@, "Necesita tu revisión"@, "review"@)),
        Some(CandidateStatus::Approved) => Some(("approved"@, "Lista para usar"@, "use"@)),
        Some(CandidateStatus::Rejected) => Some(("rejected"@, "Rechazada"@, "regenerate"@)),
        Some(CandidateStatus::Discarded) => Some(("rejected"@, "Rechazada"@, "regenerate"@)),
        _ => None,
    };
    match by_cand {
        Some(t) => t,
        None => match by_job {
            Some(t) => t,
            None => by_need,
        },
    }
}

fn triple(a: &str, b: &str, c: &str) -> (r: (String, String, String))
    ensures
        r.0@ == a@ && r.1@ == b@ && r.2@ == c@,
{
    (String::from_str(a), String::from_str(b), String::from_str(c))
}

fn stage_words(stage: &str) -> (r: &'static str)
    ensures
        r@ == stage_label(stage@),
{
    if str_eq(stage, "preparing") {
        "Preparando solicitud"
    } else if str_eq(stage, "waiting_provider") {
        "Esperando proveedor"
    } else if str_eq(stage, "downloading") {
        "Descargando"
    } else if str_eq(stage, "file_review") {
        "Revisando archivo"
    } else if str_eq(stage, "evaluating") {
        "Evaluando imagen"
    } else if str_eq(stage, "cancelling") {
        "Cancelando…"
    } else {
        "Generando imagen"
    }
}

/// The state, words and action the supervision panel shows for a need, given
/// its latest job and the status of its latest image.
pub fn map_ui_state(
    need: &crate::needs::VisualNeed,
    job: Option<&crate::supervisor::JobView>,
    candidate_status: Option<&str>,
) -> (r: (String, String, String))
    ensures
        ({
            let j = match job {
                Some(j) => Some((job_status_of(j.status@), j.cancel_requested, j.stage@)),
                None => None,
            };
            let c = match candidate_status {
                Some(c) => Some(candidate_status_of(c@)),
                None => None,
            };
            let t = ui_state(need.coverage, j, c);
            r.0@ == t.0 && r.1@ == t.1 && r.2@ == t.2
        }),
{
    match candidate_status {
        Some(cs) => match CandidateStatus::parse(cs) {
            CandidateStatus::NeedsHumanReview | CandidateStatus::AutomatedReview => {
                return triple("needs_human_review", "Necesita tu revisión", "review");
            },
            CandidateStatus::Approved => {
                return triple("approved", "Lista para usar", "use");
            },
            CandidateStatus::Rejected | CandidateStatus::Discarded => {
                return triple("rejected", "Rechazada", "regenerate");
            },
            _ => {},
        },
        None => {},
    }
    match job {
        Some(j) => match JobStatus::parse(j.status.as_str()) {
            JobStatus::Queued => {
                return triple("queued", "Esperando turno", "cancel");
            },
            JobStatus::Running => {
                if j.cancel_requested || str_eq(j.stage.as_str(), "cancelling") {
                    return triple("cancelling", "Cancelando…", "wait");
                }
                let w = stage_words(j.stage.as_str());
                return triple("processing", w, "cancel");
            },
            JobStatus::Failed | JobStatus::BlockedPolicy => {
                return triple("failed", "No se pudo generar", "retry");
            },
            JobStatus::Cancelled => {
                return triple("cancelled", "Generación cancelada", "generate");
            },
            JobStatus::Succeeded => {},
        },
        None => {},
    }
    match need.coverage {
        NeedCoverage::Matched | NeedCoverage::Covered => triple("approved", "Cubierta", "use"),
        NeedCoverage::Generating => triple("queued", "Esperando turno", "cancel"),
        NeedCoverage::NeedsReview => triple("needs_human_review", "Necesita tu revisión", "review"),
        NeedCoverage::Failed => triple("failed", "No se pudo generar", "retry"),
        NeedCoverage::Skipped => triple("skipped", "Sin imagen", "generate"),
        NeedCoverage::Uncovered => triple("uncovered", "Falta una imagen", "generate"),
    }
}

} // verus!
