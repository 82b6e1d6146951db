use vigilcut::needs::SemanticKind;
use vigilcut::semantic::{extract_semantic_events, tokenize};
use vigilcut::time_map::TimeMap;
use vigilcut::timeline::Span;
use vigilcut::transcript::TranscriptCue;

fn cue(id: &str, start: u64, end: u64, text: &str) -> TranscriptCue {
    TranscriptCue { id: id.to_string(), span: Span::new(start, end), text: text.to_string() }
}

fn s(cs: &[char]) -> String {
    cs.iter().collect()
}

#[test]
fn extracts_concept_inflacion() {
    let segs = vec![cue(
        "seg-1",
        1_000,
        5_000,
        "La inflación aumenta el costo de los alimentos en el mercado",
    )];
    let map = TimeMap::identity(60_000);
    let ev = extract_semantic_events(&segs, "run1", &map);
    assert!(ev.iter().any(|e| e.label.contains("inflacion")
        || e.terms.iter().any(|t| t.contains("inflación") || t.contains("alimentos"))));
}

#[test]
fn tokenize_drops_stop_words_and_short_words() {
    let toks: Vec<String> = tokenize("La inflación, y el costo!").iter().map(|t| s(t)).collect();
    assert_eq!(toks, vec!["inflación".to_string(), "costo".to_string()]);
}

#[test]
fn events_are_sorted_by_score_and_stamped() {
    let segs = vec![cue(
        "seg-1",
        1_000,
        5_000,
        "La inflación aumenta el costo de los alimentos en el mercado",
    )];
    let map = TimeMap::identity(60_000);
    let ev = extract_semantic_events(&segs, "run1", &map);
    assert!(!ev.is_empty());
    for w in ev.windows(2) {
        assert!(w[0].score >= w[1].score);
    }
    for e in &ev {
        assert_eq!(e.run_id, "run1");
        assert_eq!(e.id.len(), 36);
        assert_eq!(e.output_span, Some(Span::new(1_000, 5_000)));
    }
    assert!(ev.iter().any(|e| e.kind == SemanticKind::Concept && e.label == "alimentos"));
}

#[test]
fn segment_inside_a_cut_gives_no_events() {
    let segs = vec![cue("seg-1", 12_000, 14_000, "inflación inflación precios")];
    let map = TimeMap::from_keep_ranges(&vec![(0, 10_000), (20_000, 30_000)], 30_000);
    let ev = extract_semantic_events(&segs, "run1", &map);
    assert!(ev.is_empty());
}
