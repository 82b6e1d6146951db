use vigilcut::matching::{
    apply_best_match, match_need_against, score_asset, AssetStatus, LicenseStatus, MatchOptions,
    MediaAsset,
};
use vigilcut::needs::{NeedCoverage, VisualNeed};

// Match scores are in twenty-thousandths (20000 = 1.0).

fn s(v: &[&str]) -> Vec<String> {
    v.iter().map(|x| x.to_string()).collect()
}

fn asset(id: &str, title: &str, concepts: &[&str]) -> MediaAsset {
    MediaAsset {
        id: id.to_string(),
        title: title.to_string(),
        managed_path: "/tmp/x.png".to_string(),
        thumbnail_path: None,
        status: AssetStatus::Active,
        license_status: LicenseStatus::Owned,
        tags: s(concepts),
        concepts: s(concepts),
        meanings: s(&["inflación"]),
        literal_description: s(concepts),
        positive_contexts: s(&["economía doméstica"]),
        negative_contexts: s(&["criptomonedas"]),
        hard_exclusions: s(&["marcas comerciales"]),
        aspect_ratio: Some("16:9".to_string()),
        allow_same_video_repeat: false,
        times_used: 0,
        technical_score: Some(900),
        quality_score: Some(800),
    }
}

fn need(label: &str) -> VisualNeed {
    VisualNeed::from_label("p1", label, "2024-01-01T00:00:00Z")
}

#[test]
fn matches_concept_and_excludes() {
    let a = asset("a1", "Super precios", &["supermercado", "precios"]);
    let mut n = need("supermercado");
    n.required_contexts = s(&["economía doméstica"]);
    let ranked = match_need_against(&n, &vec![a], &MatchOptions::default_options());
    assert!(!ranked.is_empty());
    assert!(ranked[0].score > 6000);

    let n2 = need("marcas comerciales");
    let a2 = asset("a2", "x", &["foo"]);
    let ranked4 = match_need_against(&n2, &vec![a2], &MatchOptions::default_options());
    assert!(ranked4.is_empty());
}

#[test]
fn penalty_same_project() {
    let a = asset("a1", "Super", &["inflacion"]);
    let n = need("inflacion");
    let mut opts = MatchOptions::default_options();
    opts.used_in_project = vec!["a1".to_string()];
    let ranked = match_need_against(&n, &vec![a], &opts);
    if let Some(r) = ranked.first() {
        assert!(r.reasons.iter().any(|x| x.contains("same_project")));
    }
}

#[test]
fn exact_score_and_reasons() {
    let a = asset("a1", "Super precios", &["supermercado", "precios"]);
    let mut n = need("supermercado");
    n.required_contexts = s(&["economía doméstica"]);
    let sc = score_asset(&n, &a, &MatchOptions::default_options()).unwrap();
    // a concept and a literal hit (0.4 each), one tag (0.22), one context
    // (0.12), aspect (0.08), quality 0.9 * 0.05; clamped at 1.5
    assert_eq!(sc.score, 25_300);
    assert_eq!(
        sc.reasons,
        s(&[
            "concept:supermercado",
            "concept:supermercado",
            "tag:supermercado",
            "context:economía doméstica",
            "aspect:16:9"
        ])
    );
    assert_eq!(sc.exclusions_checked, s(&["marcas comerciales", "neg:criptomonedas"]));
    assert!(sc.format_ok && !sc.will_crop);
}

#[test]
fn required_context_excluded_rules_out() {
    let a = asset("a1", "Super precios", &["supermercado"]);
    let mut n = need("supermercado");
    n.required_contexts = s(&["anuncio de marcas comerciales"]);
    assert!(score_asset(&n, &a, &MatchOptions::default_options()).is_none());
}

#[test]
fn unknown_license_and_inactive_are_not_offered() {
    let mut a = asset("a1", "Super precios", &["supermercado"]);
    a.license_status = LicenseStatus::Unknown;
    let mut b = asset("b1", "Super precios", &["supermercado"]);
    b.status = AssetStatus::Missing;
    let n = need("supermercado");
    assert!(match_need_against(&n, &vec![a, b], &MatchOptions::default_options()).is_empty());
}

#[test]
fn best_match_is_taken() {
    let weak = asset("weak", "Otra", &["precios"]);
    let strong = asset("strong", "Super", &["supermercado", "mercado"]);
    let mut n = need("supermercado");
    n.terms = s(&["mercado"]);
    let took = apply_best_match(
        &mut n,
        &vec![weak, strong],
        &MatchOptions::default_options(),
        "2024-02-02T00:00:00Z",
    );
    assert!(took);
    assert_eq!(n.matched_asset_id.as_deref(), Some("strong"));
    assert_eq!(n.coverage, NeedCoverage::Matched);
    assert_eq!(n.updated_at, "2024-02-02T00:00:00Z");
    let mut n2 = need("nada que ver");
    assert!(!apply_best_match(&mut n2, &vec![], &MatchOptions::default_options(), "t"));
    assert!(n2.matched_asset_id.is_none());
}
