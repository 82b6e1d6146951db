use vigilcut::daily_feed::{daily_gate, failure_backoff, load_settings, DailyFeedRow, DailySkip};
use vigilcut::error::AppError;
use vigilcut::library::{
    aspect_label, check_image_extension, concept_coverage_row, hamming_hex, import_folder,
    is_image_extension, library_coverage, ImportOutcome,
};
use vigilcut::needs::{build_prompt, need_generation_key, VisualNeed};
use vigilcut::safe_paths::{
    first_free_number, normalize_path_str, numbered_output_name, paths_same_file,
    validate_export_output, validate_export_request, ExportPaths,
};
use vigilcut::supervisor::{is_cancel_requested, CancelRegistry, LoopAction, Supervisor};
use vigilcut::whisper::{tail_err, whisper_failure_message, whisper_invocation, whisper_status, WhisperEngine};

#[test]
fn aspect_labels() {
    assert_eq!(aspect_label(1920, 1080), "16:9");
    assert_eq!(aspect_label(1080, 1920), "9:16");
    assert_eq!(aspect_label(1000, 1000), "1:1");
    assert_eq!(aspect_label(1024, 768), "4:3");
    assert_eq!(aspect_label(3000, 1000), "landscape");
    assert_eq!(aspect_label(1000, 3000), "portrait");
    assert_eq!(aspect_label(0, 10), "unknown");
    // 1.7 is within 0.08 of 16/9; 1.68 is not
    assert_eq!(aspect_label(170, 100), "16:9");
    assert_eq!(aspect_label(168, 100), "landscape");
}

#[test]
fn hamming_of_hashes() {
    assert_eq!(hamming_hex("ff", "0f"), Some(4));
    assert_eq!(hamming_hex("0", "0"), Some(0));
    assert_eq!(hamming_hex("ffffffffffffffff", "0000000000000000"), Some(64));
    assert_eq!(hamming_hex("+A", "a"), Some(0));
    assert_eq!(hamming_hex("xyz", "0"), None);
    assert_eq!(hamming_hex("", "0"), None);
    assert_eq!(hamming_hex("10000000000000000", "0"), None);
}

#[test]
fn image_extensions() {
    assert!(is_image_extension("jpeg"));
    assert!(is_image_extension("webp"));
    assert!(!is_image_extension("gif"));
    match check_image_extension("gif") {
        Err(AppError::Invalid(m)) => assert_eq!(m, "Formato no soportado: gif. Usa jpg/png/webp."),
        _ => panic!("gif must be refused"),
    }
    assert!(check_image_extension("png").is_ok());
}

#[test]
fn folder_import_tally() {
    let steps = vec![
        ("a.png".to_string(), Ok(ImportOutcome::New("id-a".to_string()))),
        ("b.png".to_string(), Ok(ImportOutcome::Duplicate("id-b".to_string()))),
        ("c.png".to_string(), Err("roto".to_string())),
    ];
    let r = import_folder(true, "/x", &steps).unwrap();
    assert_eq!((r.scanned, r.imported, r.duplicates, r.failed), (3, 1, 1, 1));
    assert_eq!(r.asset_ids, vec!["id-a".to_string(), "id-b".to_string()]);
    assert_eq!(r.errors, vec!["c.png: roto".to_string()]);
    match import_folder(false, "/x", &steps) {
        Err(AppError::NotFound(m)) => assert_eq!(m, "/x"),
        _ => panic!("a missing folder is not found"),
    }
}

#[test]
fn coverage_rows() {
    let c = library_coverage(5, 2);
    assert_eq!(c.uncovered_concepts, 3);
    assert_eq!(library_coverage(1, 4).uncovered_concepts, 0);
    let r = concept_coverage_row("c".to_string(), "Comercio".to_string(), 3, 0, 0, 0, 0);
    assert_eq!(r.state, "uncovered");
    let r = concept_coverage_row("c".to_string(), "t".to_string(), 3, 1, 0, 0, 0);
    assert_eq!(r.state, "covered");
    let r = concept_coverage_row("c".to_string(), "t".to_string(), 3, 1, 2, 0, 3);
    assert_eq!(r.state, "in_review");
    let r = concept_coverage_row("c".to_string(), "t".to_string(), 3, 1, 0, 0, 3);
    assert_eq!(r.state, "partial");
    let r = concept_coverage_row("c".to_string(), "t".to_string(), 3, -4, 0, 0, 0);
    assert_eq!(r.useful_assets, 0);
}

#[test]
fn cancel_registry_roundtrip() {
    let mut reg = CancelRegistry::new();
    reg.register("j1");
    reg.register("j2");
    assert!(!reg.is_cancelled("j1"));
    reg.request_cancel("j1");
    assert!(reg.is_cancelled("j1"));
    assert!(!reg.is_cancelled("j2"));
    reg.request_cancel("nobody");
    assert!(!reg.is_cancelled("nobody"));
    reg.clear("j1");
    assert!(!reg.is_cancelled("j1"));
    reg.register("j2");
    assert!(!reg.is_cancelled("j2"));
}

#[test]
fn supervisor_loop_decisions() {
    let mut s = Supervisor::new();
    assert_eq!(s.after_worker(Some(2)), LoopAction::Continue);
    assert_eq!(s.after_worker(Some(0)), LoopAction::Sleep(2000));
    s.request_wake();
    assert_eq!(s.after_worker(Some(0)), LoopAction::Sleep(50));
    assert_eq!(s.idle_ticks, 0);
    // failed rounds count as idle, and so does each sleep; at count 5 the daily feed runs
    let acts: Vec<LoopAction> = (0..4).map(|_| s.after_worker(None)).collect();
    assert_eq!(
        acts,
        vec![LoopAction::Sleep(2000), LoopAction::Sleep(2000), LoopAction::RunDailyCycle, LoopAction::Sleep(2000)]
    );
    assert_eq!(s.idle_ticks, 7);
    let mut t = Supervisor { wake_requested: false, idle_ticks: 4 };
    assert_eq!(t.after_worker(None), LoopAction::RunDailyCycle);
    assert_eq!(t.after_daily(true), LoopAction::Continue);
    assert_eq!(t.after_daily(false), LoopAction::Sleep(2000));
}

#[test]
fn cancel_requested_job() {
    assert!(!is_cancel_requested(&None));
}

#[test]
fn daily_feed_gate() {
    let s = load_settings(Ok(DailyFeedRow {
        enabled: 1,
        max_per_day: 3,
        interval_minutes: 60,
        last_cycle_at: None,
        consecutive_failures: 0,
        paused_until: None,
    }))
    .unwrap();
    assert!(s.enabled);
    assert_eq!(daily_gate(&s, false, 0, true, 2), None);
    assert_eq!(daily_gate(&s, false, 0, true, 3), Some(DailySkip::DailyLimit));
    assert_eq!(daily_gate(&s, false, 1, true, 0), Some(DailySkip::VideoPriority));
    assert_eq!(daily_gate(&s, true, 0, true, 0), Some(DailySkip::Paused));
    assert_eq!(daily_gate(&s, false, 0, false, 0), Some(DailySkip::NoFreeRoute));
    assert_eq!(DailySkip::VideoPriority.reason(), "video_priority");
    assert_eq!(failure_backoff(3), (4, false));
    assert_eq!(failure_backoff(4), (5, true));
    match load_settings(Err("no table".to_string())) {
        Err(AppError::Message(m)) => assert_eq!(m, "no table"),
        _ => panic!("a read error is reported"),
    }
}

#[test]
fn prompt_for_need() {
    let mut need = VisualNeed::from_label("p", "inflación", "2024-01-01T00:00:00Z");
    assert_eq!(need.id.len(), 36);
    let (p, n) = build_prompt(&need);
    assert_eq!(
        p,
        "Photorealistic stock photo, no logos, no readable brand text: inflación. Aspect ratio 16:9."
    );
    assert_eq!(n, "watermark, logo, text overlay, NSFW, celebrity");
    need.required_contexts = vec!["supermercado".to_string(), "precios".to_string()];
    need.hard_exclusions = vec!["logos".to_string()];
    need.forbidden_contexts = vec!["lujo".to_string()];
    let (p, n) = build_prompt(&need);
    assert!(p.ends_with(" Context: supermercado, precios."));
    assert_eq!(n, "logos, lujo");
    assert_eq!(need_generation_key("x"), "need:x:v1");
}

#[test]
fn export_path_rules() {
    assert_eq!(normalize_path_str("C:\\Videos\\Out\\"), "c:/videos/out");
    assert!(paths_same_file(&None, &None, "C:\\A\\b.mp4", "c:/a/B.mp4"));
    assert!(!paths_same_file(&Some("/x/a".to_string()), &Some("/x/b".to_string()), "a", "a"));
    let ok = ExportPaths { input_exists: true, input_is_file: true, input_len: Some(10), same_file: false };
    assert!(validate_export_request(&ok, "in.mp4", "").is_ok());
    let same = ExportPaths { same_file: true, ..ok };
    match validate_export_request(&same, "in.mp4", "") {
        Err(AppError::Invalid(m)) => assert!(m.contains("mismo archivo")),
        _ => panic!("same input and output must be refused"),
    }
    let missing = ExportPaths { input_exists: false, ..ok };
    assert!(matches!(validate_export_request(&missing, "in.mp4", ""), Err(AppError::NotFound(_))));
    let empty = ExportPaths { input_len: Some(0), ..ok };
    assert!(validate_export_request(&empty, "in.mp4", "").is_err());
    assert!(validate_export_output(true, 2, 10_000, "o.mp4").is_err());
    assert!(validate_export_output(true, 5_000, 31_000, "o.mp4").is_err());
    assert!(validate_export_output(true, 5_000, 10_000, "o.mp4").is_ok());
    assert_eq!(numbered_output_name("out", 2, "mp4"), "out-2.mp4");
    assert_eq!(first_free_number(&vec![true, false]), Some(3));
    assert_eq!(first_free_number(&vec![true]), None);
}

#[test]
fn missing_input() {
    let p = ExportPaths { input_exists: false, input_is_file: false, input_len: None, same_file: false };
    assert!(validate_export_request(&p, "Z:/definitely/missing/vigilcut-xyz.mp4", "").is_err());
}

#[test]
fn whisper_engines() {
    let none = whisper_status(&None);
    assert!(!none.available);
    assert_eq!(none.kind, "none");
    let py = Some(WhisperEngine::PythonModule { python: "/usr/bin/py".to_string(), via: "py -3 -m whisper".to_string() });
    let st = whisper_status(&py);
    assert_eq!(st.detail, "/usr/bin/py -m whisper");
    let (prog, args, method) = whisper_invocation(py.as_ref().unwrap(), "a.wav", "out/a", "out");
    assert_eq!(prog, "/usr/bin/py");
    assert_eq!(&args[..3], &["-3".to_string(), "-m".to_string(), "whisper".to_string()]);
    assert_eq!(args[3], "a.wav");
    assert_eq!(method, "py -3 -m whisper");
    let cli = WhisperEngine::Binary { path: "/bin/whisper-cli".to_string(), name: "whisper-cli".to_string() };
    let (_, args, _) = whisper_invocation(&cli, "a.wav", "out/a", "out");
    assert_eq!(args, vec!["-f", "a.wav", "-of", "out/a", "-osrt", "-l", "es"]);
    assert_eq!(tail_err("  abcdef  ", 3), "def");
    assert_eq!(tail_err("  abc  ", 3), "abc");
    let m = whisper_failure_message("whisper", "ffmpeg not found", "");
    assert!(m.contains("FFmpeg en PATH"));
    assert!(!whisper_failure_message("whisper", "boom", "").contains("FFmpeg"));
}
