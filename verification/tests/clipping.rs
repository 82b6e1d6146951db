use vigilcut::clipping::{
    apply_preselection, dedupe_and_group, finalize_clip_titles, score_unit, ClipCandidate,
    ClipFraming, ClipReviewStatus, ClipScoreBreakdown, ClippingOptions, SelectionProfile,
    MIN_CLIP_SCORE,
};
use vigilcut::timeline::Span;
use vigilcut::transcript::{cues_to_semantic_units, parse_srt_cues, SemanticUnit};

// Times in milliseconds; clip scores in tenths of a point (0..=1000).

fn cand(id: &str, start: u64, end: u64, text: &str, score: u32, primary: bool, gid: &str) -> ClipCandidate {
    ClipCandidate {
        id: id.to_string(),
        analysis_run_id: "r".to_string(),
        source_media_path: "m.mp4".to_string(),
        start,
        end,
        duration: end - start,
        transcript: text.to_string(),
        title: text.to_string(),
        summary: text.to_string(),
        score,
        confidence: 500,
        breakdown: ClipScoreBreakdown::zero(),
        reasons: vec![],
        warnings: vec![],
        strengths: vec![],
        risks: vec![],
        status: ClipReviewStatus::Suggested,
        variant_group_id: gid.to_string(),
        is_primary_variant: primary,
        framing: ClipFraming::default_framing(),
        original_start: start,
        original_end: end,
        export_path: None,
        error: None,
    }
}

#[test]
fn groups_overlap() {
    let list = vec![
        cand("a", 0, 30_000, "hola mundo importante", 800, true, "a"),
        cand("b", 5_000, 35_000, "hola mundo importante hoy", 700, true, "b"),
        cand("c", 100_000, 130_000, "otro tema totalmente distinto aquí", 600, true, "c"),
    ];
    let out = dedupe_and_group(list);
    assert_eq!(out.len(), 3);
    let primaries = out.iter().filter(|c| c.is_primary_variant).count();
    assert_eq!(primaries, 2);
    // best score first; the weaker overlapping variant joins its group
    assert_eq!(out[0].id, "a");
    let b = out.iter().find(|c| c.id == "b").unwrap();
    assert!(!b.is_primary_variant);
    assert_eq!(b.variant_group_id, "a");
}

#[test]
fn equal_scores_keep_their_order() {
    // "b" and "d" overlap and share a group led by "b"; "a", "c" stand alone.
    // All four score the same, so the groups come in the order of their
    // leaders and each group lists its leader first.
    let list = vec![
        cand("a", 0, 10_000, "uno", 500, true, "a"),
        cand("b", 50_000, 60_000, "dos", 500, true, "b"),
        cand("c", 100_000, 110_000, "tres", 500, true, "c"),
        cand("d", 51_000, 61_000, "cuatro", 500, true, "d"),
    ];
    let out = dedupe_and_group(list);
    let ids: Vec<&str> = out.iter().map(|c| c.id.as_str()).collect();
    assert_eq!(ids, vec!["a", "b", "d", "c"]);
    assert_eq!(out[2].variant_group_id, "b");
    assert!(!out[2].is_primary_variant);
}

fn pre(id: &str, score: u32, primary: bool, gid: &str) -> ClipCandidate {
    let mut c = cand(id, 0, 20_000, "x", score, primary, gid);
    c.title = "t".to_string();
    c.summary = "s".to_string();
    c.confidence = 600;
    c
}

#[test]
fn preselects_top_under_balanced() {
    let mut list = vec![
        pre("a", 900, true, "g1"),
        pre("b", 800, true, "g2"),
        pre("c", 400, true, "g3"),
        pre("a2", 700, false, "g1"),
    ];
    let mut opts = ClippingOptions::default_options();
    opts.selection_profile = SelectionProfile::Balanced;
    apply_preselection(&mut list, &opts);
    let pre_n = list.iter().filter(|x| x.status == ClipReviewStatus::Preselected).count();
    assert!(pre_n >= 1);
    assert!(pre_n <= 8);
    // below MIN_CLIP_SCORE: discarded
    assert_eq!(list.iter().find(|x| x.id == "c").unwrap().status, ClipReviewStatus::Discarded);
    // a secondary variant stays secondary
    assert!(!list.iter().find(|x| x.id == "a2").unwrap().is_primary_variant);
}

#[test]
fn never_preselects_or_suggests_below_min_score() {
    let mut list = vec![pre("low", 499, true, "g1"), pre("edge", 500, true, "g2"), pre("ok", 610, true, "g3")];
    let mut opts = ClippingOptions::default_options();
    opts.selection_profile = SelectionProfile::Exploratory;
    apply_preselection(&mut list, &opts);
    assert_eq!(list.iter().find(|x| x.id == "low").unwrap().status, ClipReviewStatus::Discarded);
    let edge = list.iter().find(|x| x.id == "edge").unwrap();
    assert_ne!(edge.status, ClipReviewStatus::Discarded);
    assert!(edge.score >= MIN_CLIP_SCORE);
    let ok = list.iter().find(|x| x.id == "ok").unwrap();
    assert_ne!(ok.status, ClipReviewStatus::Discarded);
}

#[test]
fn scores_question_hook_higher() {
    let u = SemanticUnit {
        id: "1".to_string(),
        span: Span::new(0, 25_000),
        text: "¿Por qué fallan la mayoría de creadores? Porque no editan con intención clara."
            .to_string(),
        cue_ids: vec![],
        energy: 800,
    };
    let s = score_unit(&u, 25_000, 30_000, 20_000, 40_000, true);
    assert!(s.score > 550, "score={}", s.score);
    assert!(!s.strengths.is_empty());
}

fn titled(id: &str, start: u64, text: &str, primary: bool) -> ClipCandidate {
    let mut c = cand(id, start, start + 20_000, text, 700, primary, id);
    c.title = text.to_string();
    c.summary = text.to_string();
    c
}

#[test]
fn numbers_placeholder_speech() {
    let mut list = vec![
        titled("a", 10_000, "[habla 10.0s–30.0s]", true),
        titled("b", 40_000, "[habla 40.0s–60.0s] [habla 61.0s–70.0s]", true),
    ];
    finalize_clip_titles(&mut list);
    assert_eq!(list[0].title, "Clip 01");
    assert_eq!(list[1].title, "Clip 02");
    assert!(list[0].summary.contains("0:10"));
}

#[test]
fn uses_transcript_words() {
    let mut list = vec![titled(
        "a",
        0,
        "La clave del marketing es escuchar al cliente antes de vender.",
        true,
    )];
    finalize_clip_titles(&mut list);
    assert!(list[0].title.starts_with("01. "));
    assert!(
        list[0].title.to_lowercase().contains("clave")
            || list[0].title.to_lowercase().contains("marketing")
    );
}

#[test]
fn parses_srt_and_merges_units() {
    let srt = "1
00:00:00,000 --> 00:00:02,000
Hola a todos

2
00:00:02,200 --> 00:00:05,000
hoy les cuento un truco

3
00:00:12,000 --> 00:00:15,000
otro bloque
";
    let cues = parse_srt_cues(srt);
    assert_eq!(cues.len(), 3);
    let units = cues_to_semantic_units(&cues, 1_000, 30_000);
    assert_eq!(units.len(), 2);
    assert!(units[0].text.contains("Hola"));
    assert_eq!(units[0].span.start, 0);
    assert_eq!(units[0].span.end, 5_000);
    assert_eq!(units[1].span.start, 12_000);
}
