use vigilcut::events::EventType;
use vigilcut::filler::{detect_fillers_from_srt_text, is_filler_line, normalize};

#[test]
fn detects_spanish_filler() {
    assert!(is_filler_line("este"));
    assert!(is_filler_line("o sea"));
    assert!(!is_filler_line("vamos a hablar del producto"));
}

#[test]
fn normalizes_case_and_punctuation() {
    assert_eq!(normalize("  ¡Bueno,   PUES! "), "bueno pues");
    assert_eq!(normalize("..."), "");
}

#[test]
fn filler_events_from_captions() {
    let srt = "1
00:00:01,000 --> 00:00:01,500
Eh...

2
00:00:02,000 --> 00:00:05,000
Hoy hablamos del producto nuevo
";
    let events = detect_fillers_from_srt_text("run", srt);
    assert_eq!(events.len(), 1);
    assert_eq!(events[0].event_type, EventType::SpeechFiller);
    assert_eq!(events[0].span.start, 1_000);
    assert_eq!(events[0].span.end, 1_500);
    // one or two words: the higher confidence
    assert_eq!(events[0].score, 880);
}
