use vigilcut::text::{push_pct, push_secs1, push_secs2};

fn secs1(ms: u64) -> String {
    let mut s = String::new();
    push_secs1(&mut s, ms);
    s
}

fn secs2(ms: u64) -> String {
    let mut s = String::new();
    push_secs2(&mut s, ms);
    s
}

#[test]
fn one_decimal_matches_float_formatting() {
    assert_eq!(secs1(1150), "1.1");
    assert_eq!(secs1(1250), "1.2");
    assert_eq!(secs1(1750), "1.8");
    assert_eq!(secs1(2000), "2.0");
    let mut ms: u64 = 0;
    while ms < 400_000 {
        assert_eq!(secs1(ms), format!("{:.1}", ms as f64 / 1000.0), "at {ms} ms");
        ms += 1;
    }
    for ms in [9_007_199_254_740_992, 123_456_789_012_345, 999_999_999_999, 1 << 52, 3] {
        assert_eq!(secs1(ms), format!("{:.1}", ms as f64 / 1000.0), "at {ms} ms");
    }
}

#[test]
fn two_decimals_match_float_formatting() {
    assert_eq!(secs2(1005), format!("{:.2}", 1.005f64));
    let mut ms: u64 = 0;
    while ms < 400_000 {
        assert_eq!(secs2(ms), format!("{:.2}", ms as f64 / 1000.0), "at {ms} ms");
        ms += 1;
    }
}

#[test]
fn percentages_halves_to_even() {
    let mut s = String::new();
    push_pct(&mut s, 625);
    assert_eq!(s, "62");
    let mut s = String::new();
    push_pct(&mut s, 635);
    assert_eq!(s, "64");
}

#[test]
fn percentages_match_float_formatting() {
    for score in 0u32..=1000 {
        let mut s = String::new();
        push_pct(&mut s, score);
        assert_eq!(s, format!("{:.0}", score as f64 / 1000.0 * 100.0), "at {score}");
    }
}
