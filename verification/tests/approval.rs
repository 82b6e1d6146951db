use vigilcut::approval::{
    after_claim, after_finalize, approval_metrics, approval_start, approved_need, check_candidate_file, ApprovalStep,
};
use vigilcut::error::AppError;
use vigilcut::library::hamming_hex;
use vigilcut::layout::FitMode;
use vigilcut::needs::{NeedCoverage, VisualNeed};

#[test]
fn double_approve_returns_existing_asset() {
    match approval_start("approved", &Some("asset-9".to_string())) {
        ApprovalStep::ReturnExisting(id) => assert_eq!(id, "asset-9"),
        _ => panic!("an approved candidate gives its asset"),
    }
    match approval_start("rejected", &Some(String::new())) {
        ApprovalStep::Refuse(AppError::Invalid(m)) => {
            assert_eq!(m, "Candidato en estado 'rejected' no se puede aprobar de nuevo.")
        }
        _ => panic!("a rejected candidate is refused"),
    }
    assert!(matches!(approval_start("needs_human_review", &None), ApprovalStep::Claim));
    assert!(after_claim(1).is_ok());
    match after_claim(0) {
        Err(AppError::Invalid(m)) => assert_eq!(m, "Otro proceso ya está aprobando este candidato."),
        _ => panic!("a lost claim is refused"),
    }
    match check_candidate_file(false, "/lib/c.png") {
        Err(x) => {
            assert_eq!(x.status, "rejected");
            assert!(matches!(x.error, AppError::NotFound(ref p) if p == "/lib/c.png"));
        }
        Ok(()) => panic!("a missing file fails the approval"),
    }
    assert!(check_candidate_file(true, "/lib/c.png").is_ok());
    assert_eq!(after_finalize(1, None).unwrap(), None);
    assert_eq!(after_finalize(0, Some("a2".to_string())).unwrap(), Some("a2".to_string()));
    match after_finalize(0, Some(String::new())) {
        Err(AppError::Invalid(m)) => assert_eq!(m, "No se pudo finalizar la aprobación del candidato."),
        _ => panic!("nothing to return"),
    }
    let mut n = VisualNeed::from_label("p", "x", "t0");
    approved_need(&mut n, "a1", "t1");
    assert_eq!(n.coverage, NeedCoverage::Covered);
    assert_eq!(n.matched_asset_id.as_deref(), Some("a1"));
    assert_eq!(approval_metrics("daily_feed"), vec!["approved", "concepts_covered"]);
    assert!(approval_metrics("video_need").is_empty());
}

#[test]
fn hash_distance_examples() {
    assert_eq!(hamming_hex("ff", "0f"), Some(4));
    assert_eq!(hamming_hex("abc", "abc"), Some(0));
    assert_eq!(hamming_hex("ffffffffffffffff", "0"), Some(64));
    assert_eq!(hamming_hex("xyz", "0"), None);
}

#[test]
fn fit_names_round_trip() {
    for m in [FitMode::Contain, FitMode::Cover] {
        assert_eq!(FitMode::parse(m.as_str()), m);
    }
    assert_eq!(FitMode::parse("CONTAIN"), FitMode::Contain);
    assert_eq!(FitMode::parse("crop"), FitMode::Cover);
}

use vigilcut::clip_run::{transcript_source_step, SourceEvent, SourceStep};
use vigilcut::generation::{after_failed_attempt, attempt_limit, paid_gate, AttemptStep, ProviderError};

#[test]
fn transcript_source_chain() {
    let (n, w) = transcript_source_step(SourceStep::Explicit, &SourceEvent::File(Some(Err("bad".into()))), "a.srt", true, false);
    assert_eq!(n, SourceStep::Sidecar);
    assert_eq!(w.as_deref(), Some("Transcript import failed (bad)"));
    let (n, w) = transcript_source_step(SourceStep::Sidecar, &SourceEvent::File(Some(Ok(12))), "v.srt", true, false);
    assert_eq!(n, SourceStep::Finished);
    assert_eq!(w.as_deref(), Some("Transcripción: v.srt"));
    let (n, w) = transcript_source_step(SourceStep::Sidecar, &SourceEvent::File(None), "", false, true);
    assert_eq!((n, w), (SourceStep::Reuse, None));
    let (n, w) = transcript_source_step(SourceStep::Whisper, &SourceEvent::Whisper(Err("no whisper".into())), "", true, false);
    assert_eq!(n, SourceStep::Analyze);
    assert_eq!(w.as_deref(), Some("Whisper failed: no whisper"));
    let (n, w) = transcript_source_step(SourceStep::Reuse, &SourceEvent::Speech(Ok(0)), "", true, true);
    assert_eq!(n, SourceStep::Finished);
    assert_eq!(w.as_deref(), Some("Análisis reutilizado sin bloques de habla"));
    let (_, w) = transcript_source_step(SourceStep::Analyze, &SourceEvent::Speech(Err("x".into())), "", true, false);
    assert_eq!(w.as_deref(), Some("Speech analysis failed: x"));
}

#[test]
fn provider_attempts() {
    assert!(matches!(paid_gate(false, &None), Err(ProviderError::PaidDisabled)));
    assert!(paid_gate(false, &Some("TRUE".to_string())).is_ok());
    assert!(paid_gate(false, &Some("1".to_string())).is_ok());
    assert!(paid_gate(false, &Some("yes".to_string())).is_err());
    assert!(paid_gate(true, &None).is_ok());
    assert_eq!(attempt_limit(None), 3);
    assert_eq!(attempt_limit(Some(1)), 1);
    assert_eq!(attempt_limit(Some(9)), 3);
    assert!(matches!(after_failed_attempt(2, &ProviderError::RateLimited), AttemptStep::Retry { backoff_ms: 874 }));
    let e = ProviderError::Http { status: 503, message: String::new() };
    assert!(matches!(after_failed_attempt(1, &e), AttemptStep::Retry { backoff_ms: 600 }));
    assert!(matches!(after_failed_attempt(0, &ProviderError::Timeout), AttemptStep::Stop));
}
