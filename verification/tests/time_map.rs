use vigilcut::time_map::TimeMap;
use vigilcut::timeline::Span;

// Times are milliseconds.
fn map_cut_middle() -> TimeMap {
    // keep 0-10 s and 20-30 s: output 0-10 s then 10-20 s
    TimeMap::from_keep_ranges(&vec![(0, 10_000), (20_000, 30_000)], 30_000)
}

#[test]
fn identity_maps() {
    let m = TimeMap::identity(60_000);
    assert_eq!(m.source_to_output(12_500), Some(12_500));
    assert_eq!(m.output_to_source(12_500), Some(12_500));
}

#[test]
fn cut_region_returns_none() {
    let m = map_cut_middle();
    assert!(m.source_to_output(15_000).is_none());
    assert_eq!(m.source_to_output(5_000), Some(5_000));
    assert_eq!(m.source_to_output(25_000), Some(15_000));
}

#[test]
fn span_split_across_cut() {
    let m = map_cut_middle();
    let parts = m.map_source_span(Span::new(8_000, 22_000));
    assert_eq!(parts.len(), 2);
    assert_eq!(parts[0].start, 8_000);
    assert_eq!(parts[0].end, 10_000);
    assert_eq!(parts[1].start, 10_000);
    assert_eq!(parts[1].end, 12_000);
}

#[test]
fn fully_removed_span() {
    let m = map_cut_middle();
    assert!(m.is_fully_removed(Span::new(11_000, 19_000)));
}

#[test]
fn empty_keep() {
    let m = TimeMap::from_keep_ranges(&vec![], 10_000);
    assert!(m.source_to_output(1_000).is_none());
    assert!(m.map_source_span(Span::new(0, 5_000)).is_empty());
}

#[test]
fn no_cuts_full_keep() {
    let m = TimeMap::from_keep_ranges(&vec![(0, 10_000)], 10_000);
    let p = m.map_source_span(Span::new(2_000, 4_000));
    assert_eq!(p.len(), 1);
    assert_eq!(p[0].duration(), 2_000);
}

#[test]
fn invalid_and_zero_span() {
    let m = map_cut_middle();
    assert!(m.map_source_span(Span::new(5_000, 5_000)).is_empty());
    assert!(m.map_source_span(Span::new(6_000, 4_000)).is_empty());
}

#[test]
fn exact_keep_boundary() {
    let m = map_cut_middle();
    // start of second keep
    assert_eq!(m.source_to_output(20_000), Some(10_000));
    // end of first keep
    assert_eq!(m.source_to_output(10_000), Some(10_000));
}

#[test]
fn partial_removal_primary_span() {
    let m = map_cut_middle();
    // 8-15 s: only 8-10 s survives in the first keep
    let p = m.primary_output_span(Span::new(8_000, 15_000)).unwrap();
    assert_eq!(p.start, 8_000);
    assert_eq!(p.end, 10_000);
}

#[test]
fn roundtrip_kept_points() {
    let m = map_cut_middle();
    for t in [0u64, 3_500, 9_900, 20_100, 29_000] {
        let o = m.source_to_output(t).unwrap();
        let back = m.output_to_source(o).unwrap();
        assert_eq!(back, t, "t={t} o={o} back={back}");
    }
}

#[test]
fn skips_inverted_keep_entries() {
    let m = TimeMap::from_keep_ranges(&vec![(5_000, 3_000), (0, 2_000)], 10_000);
    assert_eq!(m.output_duration, 2_000);
    assert!(m.source_to_output(1_000).is_some());
    assert!(m.source_to_output(4_000).is_none());
}

#[test]
fn output_end_maps_back_to_range_end() {
    let m = map_cut_middle();
    assert_eq!(m.output_to_source(10_000), Some(10_000));
    assert_eq!(m.output_to_source(20_000), Some(30_000));
    assert_eq!(m.output_to_source(20_001), None);
}

#[test]
fn longest_piece_is_primary() {
    let m = map_cut_middle();
    let p = m.primary_output_span(Span::new(9_000, 25_000)).unwrap();
    assert_eq!((p.start, p.end), (10_000, 15_000));
    assert!(m.primary_output_span(Span::new(12_000, 18_000)).is_none());
}
