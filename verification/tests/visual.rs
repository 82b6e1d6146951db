use vigilcut::compose::{evaluate_composition, evaluate_plan, snap_time, VisualSession};
use vigilcut::generation::{
    is_forbidden_v4, is_forbidden_v6, sniff_mime, GenerationRequest, OmniRouteImageProvider,
};
use vigilcut::visual::{PlacementLayout, PlacementMode, VisualPlacement, VisualPlan};

// Times in milliseconds.

#[test]
fn snap_to_anchor() {
    let a = vec![0, 1_000, 2_500, 5_000];
    assert_eq!(snap_time(1_100, &a, 200), 1_000);
    assert_eq!(snap_time(3_000, &a, 200), 3_000); // no snap
}

fn two_overlapping() -> VisualPlan {
    let mut plan = VisualPlan::new("r", "m.mp4", "fp");
    plan.placements.push(VisualPlacement::manual(
        "a",
        1_000,
        4_000,
        PlacementMode::PictureInPicture,
        PlacementLayout::for_mode(PlacementMode::PictureInPicture),
        "cover",
        Some("one".to_string()),
    ));
    plan.placements.push(VisualPlacement::manual(
        "b",
        2_000,
        5_000,
        PlacementMode::PictureInPicture,
        PlacementLayout::for_mode(PlacementMode::PictureInPicture),
        "cover",
        Some("two".to_string()),
    ));
    plan
}

#[test]
fn evaluate_flags_overlap() {
    let mut plan = two_overlapping();
    evaluate_composition(&mut plan);
    assert!(plan.issues.iter().any(|i| i.kind == "overlap"));
}

#[test]
fn separate_placements_have_no_overlap() {
    let mut plan = VisualPlan::new("r", "m.mp4", "fp");
    plan.placements.push(VisualPlacement::manual(
        "a",
        1_000,
        2_000,
        PlacementMode::PictureInPicture,
        PlacementLayout::for_mode(PlacementMode::PictureInPicture),
        "cover",
        None,
    ));
    plan.placements.push(VisualPlacement::manual(
        "b",
        3_000,
        4_000,
        PlacementMode::PictureInPicture,
        PlacementLayout::for_mode(PlacementMode::PictureInPicture),
        "cover",
        None,
    ));
    evaluate_composition(&mut plan);
    assert!(!plan.issues.iter().any(|i| i.kind == "overlap"));
}

#[test]
fn evaluate_plan_needs_a_plan() {
    let mut s = VisualSession::new();
    let e = evaluate_plan(&mut s).unwrap_err();
    assert_eq!(e.message(), "No hay VisualPlan en sesión.");
    s.plan = Some(two_overlapping());
    assert!(evaluate_plan(&mut s).is_ok());
    assert!(s.plan.as_ref().unwrap().issues.iter().any(|i| i.kind == "overlap"));
    s.clear();
    assert!(s.plan.is_none());
}

#[test]
fn negative_folded_into_prompt() {
    let p = OmniRouteImageProvider {
        base_url: "http://localhost:20128/v1".to_string(),
        api_key: None,
        model: "m".to_string(),
        free_configured: true,
        timeout_secs: 5,
    };
    let req = GenerationRequest {
        prompt: "person shopping".to_string(),
        negative_prompt: "crypto, luxury brands".to_string(),
        model: None,
        width: 512,
        height: 288,
        seed: None,
        job_id: "j1".to_string(),
    };
    let body = p.build_body(&req, "m");
    assert!(body.prompt.contains("Avoid:"));
    assert_eq!(body.negative_prompt.as_deref(), Some("crypto, luxury brands"));
    assert!(body.strategy.contains("negative"));
}

#[test]
fn sniff_png() {
    let mut png = vec![0x89, b'P', b'N', b'G', b'\r', b'\n', 0x1a, b'\n'];
    png.extend_from_slice(&[0u8; 20]);
    assert_eq!(sniff_mime(&png), "image/png");
}

#[test]
fn forbidden_ip_table() {
    assert!(is_forbidden_v4([127, 1, 2, 3]));
    assert!(is_forbidden_v4([10, 1, 2, 3]));
    assert!(is_forbidden_v4([172, 16, 0, 1]));
    assert!(is_forbidden_v4([192, 168, 0, 1]));
    assert!(is_forbidden_v4([169, 254, 1, 1]));
    assert!(is_forbidden_v4([100, 64, 0, 1]));
    assert!(!is_forbidden_v4([8, 8, 8, 8]));
    assert!(is_forbidden_v6([0, 0, 0, 0, 0, 0, 0, 1]));
    assert!(is_forbidden_v6([0xfc00, 0, 0, 0, 0, 0, 0, 1]));
    // ::ffff:127.0.0.1
    assert!(is_forbidden_v6([0, 0, 0, 0, 0, 0xffff, 0x7f00, 0x0001]));
}
