use vigilcut::transcript::cues_from_speech_events;
use vigilcut::edl::Edl;
use vigilcut::engine::{recompile_run, resolve_exception, AnalysisRun, AnalysisStats};
use vigilcut::events::{Event, EventPayload, EventType};
use vigilcut::export::{
    build_export_filter, keep_ranges_from_segments, merge_keep_ranges, resolve_keep_ranges,
    AudioEnhanceOptions, ColorOptions,
};
use vigilcut::policy::{
    apply_policies, effective_removes, EditOp, ExceptionItem, ExceptionReason, ExceptionResolution,
    PolicyConfig,
};
use vigilcut::segments::{Segment, SegmentDecision, SegmentKind};
use vigilcut::structure::chapters_from_events;
use vigilcut::timeline::Span;

// Times in milliseconds, scores in thousandths.

fn payload() -> EventPayload {
    EventPayload::empty()
}

fn ev(t: EventType, start: u64, end: u64, score: u32) -> Event {
    Event::new("r", t, "test", Span::new(start, end), score, payload())
}

fn chapter(at: u64, index: Option<u64>, title: &str) -> Event {
    let mut p = payload();
    p.index = index;
    p.title = Some(title.to_string());
    Event::new("r", EventType::StructureChapter, "t", Span::new(at, at), 800, p)
}

#[test]
fn policy_auto_cuts_high_score() {
    let events = vec![
        ev(EventType::AudioSpeech, 0, 2_000, 900),
        ev(EventType::AudioSilence, 2_000, 3_500, 950),
        ev(EventType::AudioSpeech, 3_500, 10_000, 900),
    ];
    let mut policy = PolicyConfig::default_config();
    policy.auto_approve_min_score = 800;
    let out = apply_policies(&events, &policy);
    assert_eq!(out.ops.len(), 1);
    assert!(out.ops[0].auto_applied);
    assert!(out.exceptions.is_empty());
}

#[test]
fn policy_exception_on_low_score() {
    let events = vec![ev(EventType::AudioSilence, 1_000, 1_600, 700)];
    let policy = PolicyConfig::default_config();
    let out = apply_policies(&events, &policy);
    assert!(out.ops.is_empty());
    assert_eq!(out.exceptions.len(), 1);
    assert!(out.exceptions[0].is_pending());
}

#[test]
fn edl_removes_gap() {
    let edl = Edl::from_remove_spans("x.mp4", 10_000, &vec![(2_000, 3_000)]);
    assert_eq!(edl.output_duration, 9_000);
    assert_eq!(edl.video_track.len(), 2);
}

#[test]
fn recompile_after_accept_updates_edl() {
    let events = vec![ev(EventType::AudioSilence, 2_000, 3_000, 500)];
    let policy = PolicyConfig::default_config();
    let out = apply_policies(&events, &policy);
    assert_eq!(out.exceptions.len(), 1);
    let mut run = AnalysisRun {
        id: "r".to_string(),
        media_path: "x.mp4".to_string(),
        duration: 10_000,
        method: "test".to_string(),
        policy,
        events,
        edit_ops: out.ops,
        exceptions: out.exceptions,
        edl: Edl::from_remove_spans("x.mp4", 10_000, &vec![]),
        segments: vec![],
        stats: AnalysisStats {
            event_count: 0,
            silence_event_count: 0,
            auto_cut_count: 0,
            exception_count: 0,
            pending_exception_count: 0,
            speech_duration: 0,
            silence_duration: 0,
            auto_removed_duration: 0,
            output_duration: 0,
        },
        artifacts: vec![],
    };
    run = recompile_run(run);
    // pending: the whole source is kept
    assert_eq!(run.edl.output_duration, 10_000);
    let ex_id = run.exceptions[0].id.clone();
    run = resolve_exception(run, &ex_id, true);
    assert_eq!(run.edl.output_duration, 9_000);
}

#[test]
fn rejected_exception_keeps_source() {
    let events = vec![ev(EventType::AudioSilence, 2_000, 3_000, 500)];
    let policy = PolicyConfig::default_config();
    let out = apply_policies(&events, &policy);
    let run = AnalysisRun {
        id: "r".to_string(),
        media_path: "x.mp4".to_string(),
        duration: 10_000,
        method: "test".to_string(),
        policy,
        events,
        edit_ops: out.ops,
        exceptions: out.exceptions,
        edl: Edl::from_remove_spans("x.mp4", 10_000, &vec![]),
        segments: vec![],
        stats: AnalysisStats {
            event_count: 0,
            silence_event_count: 0,
            auto_cut_count: 0,
            exception_count: 0,
            pending_exception_count: 0,
            speech_duration: 0,
            silence_duration: 0,
            auto_removed_duration: 0,
            output_duration: 0,
        },
        artifacts: vec![],
    };
    let ex_id = run.exceptions[0].id.clone();
    let run = resolve_exception(run, &ex_id, false);
    assert_eq!(run.exceptions[0].resolution, ExceptionResolution::Rejected);
    assert_eq!(run.edl.output_duration, 10_000);
    assert_eq!(run.stats.pending_exception_count, 0);
}

#[test]
fn silence_auto_and_exception() {
    let events = vec![
        ev(EventType::AudioSilence, 1_000, 2_000, 950),
        ev(EventType::AudioSilence, 3_000, 3_500, 600),
        ev(EventType::AudioSpeech, 0, 1_000, 900),
    ];
    let out = apply_policies(&events, &PolicyConfig::default_config());
    assert_eq!(out.ops.len(), 1);
    assert_eq!(out.exceptions.len(), 1);
}

#[test]
fn pending_exception_does_not_remove() {
    let ops = vec![EditOp::remove(
        Span::new(1_000, 2_000),
        vec!["a".to_string()],
        "auto".to_string(),
        true,
    )];
    let ex = ExceptionItem::new(
        vec!["b".to_string()],
        ExceptionReason::LowConfidence,
        Span::new(5_000, 6_000),
        500,
        "?".to_string(),
    );
    let mut ex2 = ExceptionItem::new(
        vec!["b".to_string()],
        ExceptionReason::LowConfidence,
        Span::new(5_000, 6_000),
        500,
        "?".to_string(),
    );
    // still pending
    let rem = effective_removes(&ops, &vec![ex]);
    assert_eq!(rem.len(), 1);
    assert_eq!(rem[0].0, 1_000);

    ex2.resolution = ExceptionResolution::Accepted;
    let rem2 = effective_removes(&ops, &vec![ex2]);
    assert_eq!(rem2.len(), 2);
}

#[test]
fn merge_adjacent() {
    let m = merge_keep_ranges(&vec![(0, 1_000), (1_050, 2_000), (5_000, 6_000)]);
    assert_eq!(m.len(), 2);
    assert_eq!(m[0].1, 2_000);
}

#[test]
fn filter_escapes_commas() {
    let f = build_export_filter(
        &vec![(1_000, 2_000), (5_000, 6_000)],
        true,
        &ColorOptions::default_options(),
        None,
    )
    .unwrap();
    assert!(f.contains("between(t\\,"));
    assert!(f.contains("[vout]"));
    assert!(f.contains("[aout]"));
}

#[test]
fn audio_enhance_appended_to_chain() {
    let mut audio = AudioEnhanceOptions::default_options();
    audio.enabled = true;
    audio.denoise = true;
    audio.normalize = true;
    audio.highpass_hz = Some(80);
    let f = build_export_filter(
        &vec![(0, 5_000)],
        true,
        &ColorOptions::default_options(),
        Some(&audio),
    )
    .unwrap();
    assert!(f.contains("highpass=f=80"));
    assert!(f.contains("afftdn="));
    assert!(f.contains("loudnorm="));
    assert!(f.contains("[aout]"));
}

#[test]
fn resolve_prefers_explicit_then_edl_then_segments() {
    let edl = Edl::from_remove_spans("x.mp4", 10_000, &vec![(2_000, 3_000)]);
    let segs = vec![Segment::new(0, 10_000, SegmentKind::Speech, SegmentDecision::Keep)];

    let k = resolve_keep_ranges(None, None, Some(vec![(0, 1_000), (2_000, 3_000)])).unwrap();
    assert_eq!(k.len(), 2);

    let k2 = resolve_keep_ranges(Some(&edl), Some(&segs), None).unwrap();
    assert!(!k2.is_empty());
    let dur: u64 = k2.iter().map(|(s, e)| e - s).sum();
    assert_eq!(dur, 9_000);

    let k3 = resolve_keep_ranges(None, Some(&segs), None).unwrap();
    assert_eq!(k3.len(), 1);
}

#[test]
fn resolve_without_any_source_is_invalid() {
    assert!(resolve_keep_ranges(None, None, None).is_err());
}

#[test]
fn pending_segments_count_as_keep() {
    let segs = vec![
        Segment::new(0, 1_000, SegmentKind::Speech, SegmentDecision::Keep),
        Segment::new(1_000, 2_000, SegmentKind::Silence, SegmentDecision::Pending),
        Segment::new(2_000, 3_000, SegmentKind::Speech, SegmentDecision::Keep),
        Segment::new(3_000, 4_000, SegmentKind::Silence, SegmentDecision::Cut),
    ];
    let k = keep_ranges_from_segments(&segs);
    assert_eq!(k.len(), 1);
    assert_eq!(k[0].0, 0);
    assert_eq!(k[0].1, 3_000);
}

#[test]
fn maps_chapter_into_output_timeline() {
    let events = vec![chapter(0, Some(0), "Inicio"), chapter(5_000, Some(1), "Parte 2")];
    // Keep [0,2] and [4,6]: source 5 s maps into the second keep at output 2+(5-4)=3 s
    let keep = vec![(0, 2_000), (4_000, 6_000)];
    let chapters = chapters_from_events(&events, &keep);
    assert_eq!(chapters.len(), 2);
    assert_eq!(chapters[0].at_output, 0);
    assert_eq!(chapters[1].at_output, 3_000);
    assert_eq!(chapters[1].title, "Parte 2");
}

#[test]
fn drops_chapter_inside_removed_span_maps_to_boundary() {
    // A chapter at 3 s lies in the removed gap (2,4); it maps to the start of the next keep: output 2 s
    let events = vec![chapter(3_000, None, "Mid")];
    let keep = vec![(0, 2_000), (4_000, 6_000)];
    let chapters = chapters_from_events(&events, &keep);
    assert_eq!(chapters.len(), 1);
    assert_eq!(chapters[0].at_output, 2_000);
}

#[test]
fn speech_placeholders_round_like_the_stored_seconds() {
    let events = vec![
        ev(EventType::AudioSpeech, 1_150, 2_000, 900),
        ev(EventType::AudioSilence, 2_000, 3_000, 900),
        ev(EventType::AudioSpeech, 1_250, 3_350, 900),
    ];
    let cues = cues_from_speech_events(&events);
    assert_eq!(cues.len(), 2);
    assert_eq!(cues[0].text, "[habla 1.1s–2.0s]");
    assert_eq!(cues[1].text, "[habla 1.2s–3.4s]");
    assert_eq!(cues[0].text, format!("[habla {:.1}s–{:.1}s]", 1.15f64, 2.0f64));
    assert_eq!(cues[1].text, format!("[habla {:.1}s–{:.1}s]", 1.25f64, 3.35f64));
}
