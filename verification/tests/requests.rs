use vigilcut::error::AppError;
use vigilcut::library::{
    LibraryActivity, LibraryCoverage, LibraryDashboard, LibraryInventory, LibraryLimits, LibraryProviderStatus,
};
use vigilcut::requests::{
    confirm_plan, hydrate_request, list_json, parse_list, preview_request, request_list_limit, request_project_key,
    slot_key, slot_need, validate_request, ConfirmPlan, CreateLibraryRequest, RequestRow,
};

fn snapshot(remaining: u32, can_work: bool) -> LibraryDashboard {
    LibraryDashboard {
        inventory: LibraryInventory {
            total_assets: 0,
            active_assets: 0,
            missing_assets: 0,
            pending_candidates: 0,
            managed_bytes: 0,
        },
        coverage: LibraryCoverage { total_concepts: 0, covered_concepts: 0, partial_concepts: 0, uncovered_concepts: 0 },
        activity: LibraryActivity { queued: 0, running: 0, cancelling: 0, failed_today: 0, last_cycle_at: None },
        provider: LibraryProviderStatus {
            name: "mock".to_string(),
            model: None,
            configured: true,
            reachable: true,
            supports_image: true,
            free_verified: true,
            cost_kind: "local".to_string(),
            last_checked_at: None,
            latency_ms: None,
            error: None,
        },
        limits: LibraryLimits {
            local_daily_limit: 20,
            local_used_today: 20 - remaining,
            local_remaining_today: remaining,
            max_attempts_per_concept: 3,
            paid_providers_enabled: false,
            provider_limit: None,
            provider_used: None,
            provider_remaining: None,
            provider_reset_at: None,
        },
        can_work,
        blocked_reason: if can_work { None } else { Some("sin proveedor".to_string()) },
    }
}

fn row(target: i64) -> RequestRow {
    RequestRow {
        id: "req-1".to_string(),
        concept_id: "c-1".to_string(),
        title: "Personas usando transporte público".to_string(),
        target_count: target,
        desired_format: "16:9".to_string(),
        positive_contexts: list_json(&vec!["ciudad".to_string()]),
        negative_contexts: "[]".to_string(),
        hard_exclusions: list_json(&vec!["logos".to_string()]),
        priority: 70,
        status: "draft".to_string(),
        created_at: "t0".to_string(),
        updated_at: "t0".to_string(),
    }
}

#[test]
fn invalid_format_is_rejected_before_persistence() {
    let mut input = CreateLibraryRequest::with_title("Una imagen válida");
    input.target_count = 1;
    input.desired_format = "panorámico".to_string();
    match validate_request(&mut input) {
        Err(AppError::Invalid(m)) => assert_eq!(m, "El formato debe ser 16:9, 9:16, 1:1 o 4:5."),
        _ => panic!("an unknown format must be refused"),
    }
}

#[test]
fn request_is_persistent_and_confirm_is_idempotent() {
    let mut input = CreateLibraryRequest::with_title("  Personas usando transporte público ");
    input.target_count = 2;
    input.positive_contexts = vec!["ciudad".to_string()];
    input.hard_exclusions = vec!["logos".to_string()];
    input.priority = 70;
    assert!(validate_request(&mut input).is_ok());
    assert_eq!(input.title, "Personas usando transporte público");

    let created = hydrate_request(row(2), Some(0), Some((None, None, None)), Some(0));
    assert_eq!(created.deficit, 2);
    assert_eq!(created.positive_contexts, vec!["ciudad".to_string()]);
    let p = preview_request(created, &snapshot(20, true), 5);
    assert!(p.can_confirm);
    assert_eq!(p.max_enqueueable, 2);
    // first confirmation: two slots
    match confirm_plan(&p, Some(0)).unwrap() {
        ConfirmPlan::Slots { first, count } => assert_eq!((first, count), (0, 2)),
        ConfirmPlan::Covered => panic!("two images are missing"),
    }
    // second confirmation: the two slots exist, none is added
    let again = hydrate_request(row(2), Some(0), Some((Some(2), None, None)), Some(0));
    assert_eq!(again.queued, 2);
    let p2 = preview_request(again, &snapshot(20, true), 5);
    match confirm_plan(&p2, Some(2)).unwrap() {
        ConfirmPlan::Slots { first, count } => assert_eq!((first, count), (2, 0)),
        ConfirmPlan::Covered => panic!("still missing"),
    }
    assert_eq!(request_list_limit(10), 10);
}

#[test]
fn request_validation_rules() {
    let mut short = CreateLibraryRequest::with_title(" ab ");
    match validate_request(&mut short) {
        Err(AppError::Invalid(m)) => assert_eq!(m, "La instrucción debe tener entre 3 y 180 caracteres."),
        _ => panic!("a two-letter title is too short"),
    }
    assert_eq!(short.title, "ab");
    let mut r = CreateLibraryRequest::with_title("Mercado de frutas");
    r.target_count = 40;
    r.priority = -5;
    r.desired_format = " 9:16 ".to_string();
    r.positive_contexts = (0..25).map(|i| format!(" c{i} ")).collect();
    r.negative_contexts = vec!["  ".to_string(), "noche".to_string()];
    assert!(validate_request(&mut r).is_ok());
    assert_eq!(r.target_count, 10);
    assert_eq!(r.priority, 0);
    assert_eq!(r.desired_format, "9:16");
    assert_eq!(r.positive_contexts.len(), 20);
    assert_eq!(r.positive_contexts[0], "c0");
    assert_eq!(r.negative_contexts, vec!["noche".to_string()]);
}

#[test]
fn preview_and_confirm_limits() {
    let covered = hydrate_request(row(2), Some(3), None, None);
    assert_eq!(covered.deficit, 0);
    let p = preview_request(covered, &snapshot(0, false), 5);
    assert!(p.can_confirm);
    assert_eq!(p.blocked_reason.as_deref(), Some("El concepto ya tiene la cobertura solicitada."));
    assert!(matches!(confirm_plan(&p, None), Ok(ConfirmPlan::Covered)));

    let blocked = preview_request(hydrate_request(row(4), Some(1), None, None), &snapshot(0, true), 5);
    assert_eq!(blocked.max_enqueueable, 0);
    assert!(!blocked.can_confirm);
    match confirm_plan(&blocked, None) {
        Err(AppError::Invalid(m)) => assert_eq!(m, "La solicitud no puede ejecutarse."),
        _ => panic!("nothing may start"),
    }
    let down = preview_request(hydrate_request(row(4), Some(1), None, None), &snapshot(10, false), 5);
    match confirm_plan(&down, None) {
        Err(AppError::Invalid(m)) => assert_eq!(m, "sin proveedor"),
        _ => panic!("the library cannot work"),
    }
    let limited = preview_request(hydrate_request(row(9), Some(0), None, None), &snapshot(10, true), 3);
    assert_eq!(limited.max_enqueueable, 3);
    assert!(matches!(confirm_plan(&limited, Some(1)), Ok(ConfirmPlan::Slots { first: 1, count: 3 })));
}

#[test]
fn request_slots_and_lists() {
    assert_eq!(request_project_key("r1"), "library_request:r1");
    assert_eq!(slot_key("r1", 12), "library:r1:slot:12:v1");
    assert_eq!(parse_list("[\"a\",\"b\"]"), vec!["a".to_string(), "b".to_string()]);
    assert!(parse_list("not json").is_empty());
    assert_eq!(list_json(&vec!["x".to_string()]), "[\"x\"]");
    let req = hydrate_request(row(2), Some(0), None, None);
    let n = slot_need(&req, "now");
    assert_eq!(n.project_key, "library_request:req-1");
    assert_eq!(n.label, "Personas usando transporte público");
    assert_eq!(n.concept_id.as_deref(), Some("c-1"));
    assert_eq!(n.required_contexts, vec!["ciudad".to_string()]);
    assert_eq!(n.hard_exclusions, vec!["logos".to_string()]);
    assert_eq!(n.priority, 70);
    assert_eq!(n.desired_aspect, "16:9");
}
