use vigilcut::match_rank::{rank_suggestions, MatchConfig, SuggestionStatus};
use vigilcut::matching::{AssetStatus, LicenseStatus, MediaAsset};
use vigilcut::needs::{SemanticEvent, SemanticKind};
use vigilcut::timeline::Span;

fn asset(id: &str, concepts: &[&str]) -> MediaAsset {
    MediaAsset {
        id: id.to_string(),
        title: concepts.join(" "),
        managed_path: "/x.jpg".to_string(),
        thumbnail_path: None,
        status: AssetStatus::Active,
        license_status: LicenseStatus::Owned,
        tags: concepts.iter().map(|s| s.to_string()).collect(),
        concepts: concepts.iter().map(|s| s.to_string()).collect(),
        meanings: vec![],
        literal_description: vec![],
        positive_contexts: vec![],
        negative_contexts: vec![],
        hard_exclusions: vec![],
        aspect_ratio: None,
        allow_same_video_repeat: false,
        times_used: 0,
        technical_score: None,
        quality_score: Some(800),
    }
}

fn event(id: &str, label: &str, terms: &[&str], score: u32, out: (u64, u64)) -> SemanticEvent {
    SemanticEvent {
        id: id.to_string(),
        run_id: "r".to_string(),
        kind: SemanticKind::Concept,
        source_span: Span::new(out.0 + 2_000, out.1 + 2_000),
        output_span: Some(Span::new(out.0, out.1)),
        label: label.to_string(),
        terms: terms.iter().map(|s| s.to_string()).collect(),
        score,
        transcript_segment_ids: vec![],
        method: "test".to_string(),
    }
}

#[test]
fn ranks_matching_concept() {
    let ev = event("e1", "inflacion", &["inflación", "precios"], 800, (8_000, 12_000));
    let assets = vec![asset("a1", &["inflacion", "economia"]), asset("a2", &["viaje", "playa"])];
    let s = rank_suggestions(&vec![ev], &assets, 120_000, &MatchConfig::default_config());
    assert!(!s.is_empty());
    assert_eq!(s[0].asset_id, "a1");
    assert!(s[0].match_reasons.iter().any(|r| r.starts_with("concept:")));
}

#[test]
fn suggestion_score_and_span() {
    let ev = event("e1", "inflacion", &["inflación", "precios"], 800, (8_000, 12_000));
    let assets = vec![asset("a1", &["inflacion", "economia"])];
    let s = rank_suggestions(&vec![ev], &assets, 120_000, &MatchConfig::default_config());
    assert_eq!(s.len(), 1);
    // concept 0.45 + tag 0.25 (the label mentions it) + 0.05 * 0.8 quality
    assert_eq!(s[0].match_score, 9_000 + 5_000 + 800);
    assert_eq!(s[0].match_reasons, vec!["concept:inflacion".to_string(), "tag:inflacion".to_string()]);
    assert_eq!(s[0].output_span, Span::new(8_000, 12_000));
    assert_eq!(s[0].source_span, Span::new(10_000, 14_000));
    assert_eq!(s[0].semantic_event_id, "e1");
    assert_eq!(s[0].status, SuggestionStatus::Suggested);
    assert_eq!(s[0].asset_title.as_deref(), Some("inflacion economia"));
    assert_eq!(s[0].id.len(), 36);
}

#[test]
fn weak_images_are_not_suggested() {
    let ev = event("e1", "inflacion", &["inflación"], 800, (8_000, 12_000));
    let assets = vec![asset("a2", &["viaje", "playa"])];
    let s = rank_suggestions(&vec![ev], &assets, 120_000, &MatchConfig::default_config());
    assert!(s.is_empty());
}

#[test]
fn suggestions_keep_a_gap_and_do_not_repeat_images() {
    let evs = vec![
        event("e1", "inflacion", &["precios"], 500, (20_000, 24_000)),
        event("e2", "inflacion", &["precios"], 900, (10_000, 14_000)),
        event("e3", "inflacion", &["precios"], 700, (40_000, 44_000)),
    ];
    let assets = vec![asset("a1", &["inflacion"]), asset("a2", &["inflacion", "precios"])];
    let s = rank_suggestions(&evs, &assets, 120_000, &MatchConfig::default_config());
    // e2 first (highest score) takes a2, the better image; e3 takes a1;
    // e1 starts before e3's end plus the gap, and is dropped
    assert_eq!(s.len(), 2);
    assert_eq!(s[0].semantic_event_id, "e2");
    assert_eq!(s[0].asset_id, "a2");
    assert_eq!(s[1].semantic_event_id, "e3");
    assert_eq!(s[1].asset_id, "a1");
}

#[test]
fn suggestion_is_cut_at_the_end_of_the_output() {
    let ev = event("e1", "inflacion", &["precios"], 800, (9_000, 12_000));
    let assets = vec![asset("a1", &["inflacion"])];
    let s = rank_suggestions(&vec![event("e1", "inflacion", &["precios"], 800, (9_000, 12_000))], &assets, 11_000, &MatchConfig::default_config());
    assert_eq!(s.len(), 1);
    assert_eq!(s[0].output_span, Span::new(9_000, 11_000));
    let s2 = rank_suggestions(&vec![ev], &assets, 10_000, &MatchConfig::default_config());
    assert!(s2.is_empty());
}
