use vigilcut::clip_run::{clipping_summary, drop_weak_candidates, unit_max_duration};
use vigilcut::clipping::{
    ClipCandidate, ClipFraming, ClipReviewStatus, ClipScoreBreakdown, ClippingOptions,
};
use vigilcut::compose::VisualSession;
use vigilcut::concepts::{economy_theme, seed_economy_theme};
use vigilcut::error::AppError;
use vigilcut::needs::{
    detect_needs_from_semantics, merge_need, CoverageSummary, NeedCoverage, SemanticEvent,
    SemanticKind, VisualNeed,
};
use vigilcut::qa::{
    decision_to_qa_status, review_image, ImageFacts, QaStatus, QaThresholds, SemanticHints,
};
use vigilcut::render::{active_placements, overlay_filter_graph, plan_end, render_args};
use vigilcut::session::{
    create_manual_placement, invalidate_if_edl_changed, manual_placement_interval,
    update_placement, ManualPlacement, PlacementEdit,
};
use vigilcut::state::{app_data_dir, cache_dir, data_subdirs};
use vigilcut::timeline::Span;
use vigilcut::transcript::TranscriptSourceKind;
use vigilcut::visual::{PlacementLayout, PlacementMode, ProtectedRange, VisualPlacement, VisualPlan};
use vigilcut::worker::{
    after_generation_error, after_review, job_precheck, map_ui_state, CandidateStatus, JobStatus,
};

fn facts(w: u32, h: u32, n: u64, sum: u64, sq: u64) -> ImageFacts {
    ImageFacts {
        file_bytes: 10_000,
        mime_ok: true,
        width: w,
        height: h,
        pixels: n,
        luma_sum: sum,
        luma_sq_sum: sq,
        near_duplicate: None,
    }
}

#[test]
fn rejects_tiny() {
    let r = review_image(&facts(32, 32, 1024, 1024 * 118, 1024 * 118 * 118), &None, &QaThresholds::default_thresholds());
    assert_eq!(r.decision, "reject");
    assert_eq!(r.reason, "low_res: resolución insuficiente 32x32");
    assert_eq!(decision_to_qa_status(&r.decision), QaStatus::Rejected);
}

#[test]
fn approves_gradient() {
    // a 64x36 thumbnail whose luma spreads widely: mean 100, variance 2500
    let n = 64 * 36;
    let f = facts(640, 360, n, n * 100, n * (100 * 100 + 2500));
    let hints = SemanticHints {
        label: "supermercado precios".to_string(),
        meanings: vec!["inflación".to_string()],
        hard_exclusions: vec!["criptomonedas".to_string()],
        negative_contexts: vec![],
    };
    let r = review_image(&f, &Some(hints), &QaThresholds::default_thresholds());
    assert!(r.decision == "approve" || r.decision == "needs_human");
    assert_eq!(r.technical_quality, 900);
    assert_eq!(r.semantic_alignment, 620);
    assert_eq!(r.decision, "needs_human");
}

#[test]
fn dark_flat_and_excluded_images() {
    let n = 100;
    let dark = review_image(&facts(640, 360, n, n * 2, n * 4), &None, &QaThresholds::default_thresholds());
    assert_eq!(dark.forbidden_detected, vec!["near_black".to_string(), "low_detail".to_string()]);
    assert_eq!(dark.technical_quality, 150);
    assert_eq!(dark.decision, "reject");
    let hints = SemanticHints {
        label: "Cripto y lujo".to_string(),
        meanings: vec![],
        hard_exclusions: vec!["lujo".to_string()],
        negative_contexts: vec![],
    };
    let f = facts(640, 360, n, n * 100, n * (100 * 100 + 2500));
    let r = review_image(&f, &Some(hints), &QaThresholds::default_thresholds());
    assert_eq!(r.forbidden_detected, vec!["exclusion_in_brief:lujo".to_string()]);
    assert_eq!(r.decision, "reject");
    assert_eq!(r.reason, "exclusión dura detectada en brief");
    let mut empty = facts(640, 360, n, n * 100, n * 12_600);
    empty.file_bytes = 0;
    assert_eq!(review_image(&empty, &None, &QaThresholds::default_thresholds()).reason, "empty_file: archivo vacío");
}

fn cand(id: &str, score: u32, status: ClipReviewStatus, primary: bool, confidence: u32) -> ClipCandidate {
    ClipCandidate {
        id: id.to_string(),
        analysis_run_id: "r".to_string(),
        source_media_path: "m".to_string(),
        start: 0,
        end: 20_000,
        duration: 20_000,
        transcript: "x".to_string(),
        title: "t".to_string(),
        summary: "s".to_string(),
        score,
        confidence,
        breakdown: ClipScoreBreakdown::zero(),
        reasons: vec![],
        warnings: vec![],
        strengths: vec![],
        risks: vec![],
        status,
        variant_group_id: id.to_string(),
        is_primary_variant: primary,
        framing: ClipFraming::default_framing(),
        original_start: 0,
        original_end: 20_000,
        export_path: None,
        error: None,
    }
}

#[test]
fn weak_clips_are_dropped_and_summarized() {
    let mut warnings = vec![];
    let kept = drop_weak_candidates(
        vec![
            cand("a", 800, ClipReviewStatus::Preselected, true, 700),
            cand("b", 400, ClipReviewStatus::Suggested, true, 500),
            cand("c", 600, ClipReviewStatus::Suggested, false, 500),
        ],
        &mut warnings,
    );
    assert_eq!(kept.iter().map(|c| c.id.as_str()).collect::<Vec<_>>(), vec!["a", "c"]);
    assert_eq!(warnings, vec!["Omitidos 1 clips con score < 50".to_string()]);
    let s = clipping_summary(&kept, 100_000, 1_500, TranscriptSourceKind::SrtFile, warnings);
    assert_eq!(s.candidates_found, 1);
    assert_eq!(s.preselected, 1);
    assert_eq!(s.high_confidence, 1);
    assert_eq!(s.needs_review, 1);
    assert_eq!(s.best_score, 800);
    assert_eq!(s.selected_total_duration, 20_000);
    assert_eq!(s.warnings.len(), 1);
    let none = clipping_summary(&vec![], 1, 1, TranscriptSourceKind::SrtFile, vec![]);
    assert_eq!(none.warnings, vec!["Ningún clip superó el score mínimo (50)".to_string()]);
    assert_eq!(unit_max_duration(&ClippingOptions::default_options()), 72_000);
}

fn ev(id: &str, label: &str, score: u32, out: Option<Span>) -> SemanticEvent {
    SemanticEvent {
        id: id.to_string(),
        run_id: "r".to_string(),
        kind: SemanticKind::Keyword,
        source_span: Span::new(1_000, 5_000),
        output_span: out,
        label: label.to_string(),
        terms: vec![label.to_lowercase()],
        score,
        transcript_segment_ids: vec![],
        method: "freq_keyword_es".to_string(),
    }
}

#[test]
fn needs_from_semantic_events() {
    let events = vec![
        ev("e1", "Inflación", 550, Some(Span::new(1_000, 9_000))),
        ev("e2", "inflación", 780, Some(Span::new(2_000, 2_500))),
        ev("e3", "ipc", 900, None),
        ev("e4", "Alimentos", 600, None),
    ];
    let needs = detect_needs_from_semantics("pk", Some("m.mp4"), &events, 5, "now");
    // "ipc" is too short; the two "inflación" fold into the better one
    assert_eq!(needs.len(), 2);
    assert_eq!(needs[0].semantic_event_id.as_deref(), Some("e2"));
    assert_eq!(needs[0].priority, 78);
    assert_eq!(needs[0].output_start, Some(2_000));
    assert_eq!(needs[0].output_end, Some(5_500));
    assert_eq!(needs[0].approx_duration_ms, 3_500);
    assert_eq!(needs[1].label, "Alimentos");
    assert_eq!(needs[1].media_path.as_deref(), Some("m.mp4"));
    let capped = detect_needs_from_semantics("pk", None, &events, 1, "now");
    assert_eq!(capped.len(), 1);
    let summary = CoverageSummary::from_needs(&needs);
    assert_eq!((summary.total, summary.uncovered), (2, 2));
}

#[test]
fn merge_keeps_covered_need() {
    let mut prev = VisualNeed::from_label("pk", "inflacion", "t0");
    prev.coverage = NeedCoverage::Covered;
    prev.matched_asset_id = Some("asset-1".to_string());
    let mut fresh = VisualNeed::from_label("pk", "inflacion", "t1");
    fresh.priority = 99;
    assert!(merge_need(&prev, fresh, "t1").is_none());
    let prev2 = VisualNeed::from_label("pk", "otro", "t0");
    let mut fresh2 = VisualNeed::from_label("pk", "otro", "t1");
    fresh2.priority = 10;
    let m = merge_need(&prev2, fresh2, "t2").unwrap();
    assert_eq!(m.id, prev2.id);
    assert_eq!(m.priority, 10);
    assert_eq!(m.updated_at, "t2");
    assert_eq!(m.created_at, "t0");
}

#[test]
fn worker_decisions() {
    assert_eq!(job_precheck(true, false, false).map(|x| x.0), Some(JobStatus::BlockedPolicy));
    assert_eq!(job_precheck(false, false, true).map(|x| x.1), Some("cancelled by user"));
    assert!(job_precheck(true, true, false).is_none());
    let e = after_generation_error(3, 3, "boom".to_string());
    assert_eq!(e.job_status, JobStatus::Failed);
    assert_eq!(e.need_coverage, Some(NeedCoverage::Failed));
    assert_eq!(after_generation_error(1, 3, "boom".to_string()).job_status, JobStatus::Queued);
    let ok = after_review("approve", "fine", false, 0, 3, "video_need");
    assert!(ok.promote);
    assert_eq!(ok.candidate_status, Some(CandidateStatus::Approved));
    let human = after_review("approve", "fine", true, 0, 3, "daily_feed");
    assert!(!human.promote);
    assert!(human.count_needs_review);
    assert_eq!(human.need_coverage, Some(NeedCoverage::NeedsReview));
    let rej = after_review("reject", "calidad insuficiente", true, 2, 3, "video_need");
    assert_eq!(rej.job_status, JobStatus::Failed);
    assert_eq!(rej.job_error.as_deref(), Some("calidad insuficiente"));
    assert_eq!(after_review("reject", "x", true, 0, 3, "v").job_status, JobStatus::Queued);
    assert_eq!(JobStatus::BlockedPolicy.as_str(), "blocked_policy");
    assert_eq!(JobStatus::BlockedPolicy.stage(), "blocked");
}

#[test]
fn supervision_ui_states() {
    let need = VisualNeed::from_label("p", "x", "t");
    let (s, l, a) = map_ui_state(&need, None, Some("automated_review"));
    assert_eq!((s.as_str(), l.as_str(), a.as_str()), ("needs_human_review", "Necesita tu revisión", "review"));
    let (s, _, a) = map_ui_state(&need, None, None);
    assert_eq!((s.as_str(), a.as_str()), ("uncovered", "generate"));
}

fn pip(start: u64, end: u64) -> VisualPlacement {
    VisualPlacement::manual(
        "a",
        start,
        end,
        PlacementMode::PictureInPicture,
        PlacementLayout::for_mode(PlacementMode::PictureInPicture),
        "cover",
        None,
    )
}

#[test]
fn render_graph_and_args() {
    let mut plan = VisualPlan::new("r", "m.mp4", "fp");
    plan.placements.push(pip(1_000, 2_500));
    let mut off = pip(3_000, 4_000);
    off.status = "disabled".to_string();
    plan.placements.push(off);
    let idx = active_placements(&plan).unwrap();
    assert_eq!(idx, vec![0]);
    let (g, last) = overlay_filter_graph(&vec![pip(1_000, 2_500)], 1280, 720);
    assert!(g.starts_with("[0:v]scale=1280:720:force_original_aspect_ratio=decrease"));
    assert!(g.contains("[base0][ov0]overlay="));
    assert!(g.contains(":enable='between(t\\,1.000\\,2.500)'[v0]"));
    assert_eq!(last, "[v0]");
    let args = render_args(&vec!["cut.mp4".to_string(), "img.png".to_string()], "G", "[v0]", "tmp.mp4");
    assert_eq!(&args[..7], &["-y", "-i", "cut.mp4", "-loop", "1", "-i", "img.png"]);
    assert_eq!(args.last().unwrap(), "tmp.mp4");
    assert_eq!(plan_end(&plan), 4_000);
    let empty = VisualPlan::new("r", "m.mp4", "fp");
    assert!(matches!(active_placements(&empty), Err(AppError::Invalid(_))));
}

fn manual(start: u64, end: u64) -> ManualPlacement {
    ManualPlacement {
        asset_id: "asset-1".to_string(),
        asset_title: "Mercado".to_string(),
        output_start: start,
        output_end: end,
        display_mode: "pip".to_string(),
        position_x: Some(300),
        position_y: None,
        size_w: None,
        fit: None,
        label: None,
    }
}

#[test]
fn manual_placements_and_edits() {
    assert_eq!(manual_placement_interval(10_000, 2_000, 2_100).unwrap(), (2_000, 5_500));
    assert_eq!(manual_placement_interval(10_000, 9_000, 12_000).unwrap(), (9_000, 10_000));
    assert!(manual_placement_interval(10_000, 12_000, 13_000).is_err());
    let mut s = VisualSession::new();
    create_manual_placement(&mut s, "fp1", "m.mp4", 10_000, &manual(1_000, 3_000)).unwrap();
    {
        let p = s.plan.as_ref().unwrap();
        assert_eq!(p.placements.len(), 1);
        assert_eq!(p.placements[0].layout.x, 300);
        assert_eq!(p.placements[0].label.as_deref(), Some("Mercado"));
        assert_eq!(p.placements[0].fit, "cover");
    }
    assert_eq!(s.edl_fp.as_deref(), Some("fp1"));
    let id = s.plan.as_ref().unwrap().placements[0].id.clone();
    let edit = PlacementEdit {
        output_start: Some(1_500),
        output_end: Some(1_600),
        display_mode: None,
        position_x: None,
        position_y: None,
        size_w: Some(400),
        size_h: None,
        fit: Some("contain".to_string()),
        status: None,
        review_status: Some("OK".to_string()),
        manual_override: None,
        related_text: None,
        restore_ai: None,
        opacity: None,
    };
    update_placement(&mut s, &id, edit).unwrap();
    {
        let pl = &s.plan.as_ref().unwrap().placements[0];
        assert_eq!((pl.output_start, pl.output_end), (1_500, 1_750));
        assert_eq!(pl.layout.w, 400);
        assert!(pl.manual_override);
        assert_eq!(pl.fit, "contain");
    }
    // protect the interval: a new placement there is refused
    s.plan.as_mut().unwrap().protected_ranges.push(ProtectedRange::new(5_000, 6_000, "intro".to_string()));
    assert!(create_manual_placement(&mut s, "fp1", "m.mp4", 10_000, &manual(5_200, 5_800)).is_err());
    // the cut changed: placements go, the version grows
    assert!(invalidate_if_edl_changed(&mut s, "fp2"));
    assert!(!invalidate_if_edl_changed(&mut s, "fp2"));
    let p = s.plan.as_ref().unwrap();
    assert!(p.placements.is_empty());
    assert_eq!(p.version, 2);
}

#[test]
fn data_dirs() {
    assert_eq!(app_data_dir(Some("/home/u/.local/share")).unwrap(), "/home/u/.local/share/VigilCut");
    assert_eq!(cache_dir(Some("/data/")).unwrap(), "/data/VigilCut/cache");
    assert!(matches!(cache_dir(None), Err(AppError::Message(_))));
    assert_eq!(data_subdirs().len(), 6);
}

#[test]
fn economy_seeds() {
    let seeds = seed_economy_theme();
    assert_eq!(seeds.len(), 5);
    assert_eq!(seeds[0].title, "Persona comparando precios en supermercado");
    assert!(seeds.iter().all(|c| c.priority == 80));
    assert_eq!(seeds[4].hard_exclusions, vec!["hacking".to_string(), "criptomonedas".to_string()]);
    assert_eq!(economy_theme().0, "economia-dinero-negocios");
}
