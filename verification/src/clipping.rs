//! Clip candidates: the model and explainable scoring.
//!
//! Clip scores are in tenths of a point (0..=1000 for 0..100 points);
//! breakdown components, confidences and energies in thousandths; times in ms.
use vstd::prelude::*;

use crate::captions::{join_sp, trim};
use crate::filler::words;
use crate::transcript::SemanticUnit;
use crate::text::{push_str, contains_sub, has_sub, is_ws, lowercase, occurs_at, to_chars, to_lowercase};

verus! {

/// No clip under this score (tenths of a point) is ever surfaced.
pub const MIN_CLIP_SCORE: u32 = 500;

/// Review state of a clip candidate.
#[derive(Clone, Copy, Debug, PartialEq, Eq, Structural)]
pub enum ClipReviewStatus {
    Suggested,
    Preselected,
    Approved,
    Modified,
    Discarded,
    Exporting,
    Exported,
    Error,
}

/// Why a clip scored well (weight in thousandths).
#[derive(Clone, Debug)]
pub struct ClipReason {
    pub code: String,
    pub label: String,
    pub weight: u32,
}

/// Score components in thousandths.
#[derive(Clone, Copy, Debug, PartialEq, Eq)]
pub struct ClipScoreBreakdown {
    pub hook_quality: u32,
    pub semantic_coherence: u32,
    pub standalone: u32,
    pub clarity: u32,
    pub energy: u32,
    pub information_density: u32,
    pub has_conclusion: u32,
    pub duration_fit: u32,
    pub incomplete_penalty: u32,
    pub silence_penalty: u32,
}

/// Weighted total of a breakdown, in tenths of a point: hook 20 %,
/// coherence 15 %, standalone 15 %, clarity, energy, density, conclusion and
/// duration fit 10 % each, minus a quarter of the penalties; within 0..=1000.
pub open spec fn breakdown_total(b: ClipScoreBreakdown) -> u32 {
    let plus = 200 * b.hook_quality + 150 * b.semantic_coherence + 150 * b.standalone + 100 * b.clarity
        + 100 * b.energy + 100 * b.information_density + 100 * b.has_conclusion + 100 * b.duration_fit;
    let minus = 250 * (b.incomplete_penalty + b.silence_penalty);
    let t = (plus - minus) / 1000;
    if t < 0 { 0 } else if t > 1000 { 1000 } else { t as u32 }
}

/// Components of a breakdown that stay within 0..=1000.
pub open spec fn breakdown_wf(b: ClipScoreBreakdown) -> bool {
    b.hook_quality <= 1000 && b.semantic_coherence <= 1000 && b.standalone <= 1000 && b.clarity <= 1000
        && b.energy <= 1000 && b.information_density <= 1000 && b.has_conclusion <= 1000
        && b.duration_fit <= 1000 && b.incomplete_penalty <= 1000 && b.silence_penalty <= 1000
}

impl ClipScoreBreakdown {
    /// All components zero.
    pub fn zero() -> (b: ClipScoreBreakdown)
        ensures
            b == (ClipScoreBreakdown { hook_quality: 0, semantic_coherence: 0, standalone: 0, clarity: 0,
                energy: 0, information_density: 0, has_conclusion: 0, duration_fit: 0,
                incomplete_penalty: 0, silence_penalty: 0 }),
    {
        ClipScoreBreakdown { hook_quality: 0, semantic_coherence: 0, standalone: 0, clarity: 0,
            energy: 0, information_density: 0, has_conclusion: 0, duration_fit: 0,
            incomplete_penalty: 0, silence_penalty: 0 }
    }

    /// The weighted total in tenths of a point.
    pub fn total(&self) -> (t: u32)
        requires
            breakdown_wf(*self),
        ensures
            t == breakdown_total(*self),
    {
        let plus: u64 = 200 * self.hook_quality as u64 + 150 * self.semantic_coherence as u64
            + 150 * self.standalone as u64 + 100 * self.clarity as u64 + 100 * self.energy as u64
            + 100 * self.information_density as u64 + 100 * self.has_conclusion as u64
            + 100 * self.duration_fit as u64;
        let minus: u64 = 250 * (self.incomplete_penalty as u64 + self.silence_penalty as u64);
        if minus >= plus {
            0
        } else {
            let t = (plus - minus) / 1000;
            if t > 1000 { 1000 } else { t as u32 }
        }
    }
}

/// How a vertical clip is framed.
#[derive(Clone, Copy, Debug, PartialEq, Eq, Structural)]
pub enum FramingMode {
    AutoCenter,
    Manual,
    FitWithBars,
    BlurredBackground,
}

/// One region of the source stacked into the vertical frame (fractions in thousandths).
#[derive(Clone, Copy, Debug, PartialEq, Eq)]
pub struct LayoutPanel {
    pub center_x: u32,
    pub center_y: u32,
    pub width_frac: u32,
    pub height_frac: u32,
}

/// Framing of a vertical clip (fractions and zoom in thousandths, output in pixels).
#[derive(Clone, Debug)]
pub struct ClipFraming {
    pub mode: FramingMode,
    pub center_x: u32,
    pub center_y: u32,
    pub zoom: u32,
    pub width_frac: u32,
    pub height_frac: u32,
    pub output_width: u32,
    pub output_height: u32,
    pub panels: Vec<LayoutPanel>,
    pub tracking_ready: bool,
}

impl ClipFraming {
    /// Centered 9:16 crop at zoom 1 into 1080×1920, no region, no panels.
    pub fn default_framing() -> (f: ClipFraming)
        ensures
            f.mode == FramingMode::AutoCenter,
            f.center_x == 500 && f.center_y == 500 && f.zoom == 1000,
            f.width_frac == 0 && f.height_frac == 0,
            f.output_width == 1080 && f.output_height == 1920,
            f.panels@.len() == 0,
            !f.tracking_ready,
    {
        ClipFraming {
            mode: FramingMode::AutoCenter,
            center_x: 500,
            center_y: 500,
            zoom: 1000,
            width_frac: 0,
            height_frac: 0,
            output_width: 1080,
            output_height: 1920,
            panels: Vec::new(),
            tracking_ready: false,
        }
    }
}

/// A proposed vertical clip.
#[derive(Clone, Debug)]
pub struct ClipCandidate {
    pub id: String,
    pub analysis_run_id: String,
    pub source_media_path: String,
    pub start: u64,
    pub end: u64,
    pub duration: u64,
    pub transcript: String,
    pub title: String,
    pub summary: String,
    pub score: u32,
    pub confidence: u32,
    pub breakdown: ClipScoreBreakdown,
    pub reasons: Vec<ClipReason>,
    pub warnings: Vec<String>,
    pub strengths: Vec<String>,
    pub risks: Vec<String>,
    pub status: ClipReviewStatus,
    pub variant_group_id: String,
    pub is_primary_variant: bool,
    pub framing: ClipFraming,
    pub original_start: u64,
    pub original_end: u64,
    pub export_path: Option<String>,
    pub error: Option<String>,
}

/// How many clips a profile preselects, and the least score it preselects.
#[derive(Clone, Copy, Debug, PartialEq, Eq, Structural)]
pub enum SelectionProfile {
    Conservative,
    Balanced,
    Exploratory,
}

/// Preselection limits of a profile: at most this many, scoring at least
/// this floor (tenths of a point).
pub open spec fn profile_limits(p: SelectionProfile) -> (usize, u32) {
    match p {
        SelectionProfile::Conservative => (3, 750),
        SelectionProfile::Balanced => (8, 650),
        SelectionProfile::Exploratory => (15, 500),
    }
}

impl SelectionProfile {
    /// `(max preselected, floor score)` of the profile.
    pub fn limits(self) -> (r: (usize, u32))
        ensures
            r == profile_limits(self),
    {
        match self {
            SelectionProfile::Conservative => (3, 750),
            SelectionProfile::Balanced => (8, 650),
            SelectionProfile::Exploratory => (15, 500),
        }
    }
}

/// Knobs of a clipping run (durations in ms).
#[derive(Clone, Debug)]
pub struct ClippingOptions {
    pub min_duration: u64,
    pub ideal_duration: u64,
    pub max_duration: u64,
    pub pad_before: u64,
    pub pad_after: u64,
    pub max_candidates: usize,
    pub selection_profile: SelectionProfile,
    pub transcript_path: Option<String>,
    pub prefer_whisper: bool,
}

/// The duration band `(min, ideal, max)` options resolve to: max at least
/// min, ideal within the band.
pub open spec fn bounds_of(o: ClippingOptions) -> (u64, u64, u64) {
    let mx = if o.max_duration < o.min_duration { o.min_duration } else { o.max_duration };
    let id = if o.ideal_duration < o.min_duration { o.min_duration } else if o.ideal_duration > mx { mx } else { o.ideal_duration };
    (o.min_duration, id, mx)
}

impl ClippingOptions {
    /// Clips of 15–60 s around 30 s, padded 300 ms, at most 20, balanced profile.
    pub fn default_options() -> (o: ClippingOptions)
        ensures
            o.min_duration == 15000 && o.ideal_duration == 30000 && o.max_duration == 60000,
            o.pad_before == 300 && o.pad_after == 300,
            o.max_candidates == 20,
            o.selection_profile == SelectionProfile::Balanced,
            o.transcript_path is None,
            !o.prefer_whisper,
    {
        ClippingOptions {
            min_duration: 15000,
            ideal_duration: 30000,
            max_duration: 60000,
            pad_before: 300,
            pad_after: 300,
            max_candidates: 20,
            selection_profile: SelectionProfile::Balanced,
            transcript_path: None,
            prefer_whisper: false,
        }
    }

    /// The duration band `(min, ideal, max)`.
    pub fn resolved_bounds(&self) -> (r: (u64, u64, u64))
        ensures
            r == bounds_of(*self),
    {
        let mx = if self.max_duration < self.min_duration { self.min_duration } else { self.max_duration };
        let id = if self.ideal_duration < self.min_duration {
            self.min_duration
        } else if self.ideal_duration > mx {
            mx
        } else {
            self.ideal_duration
        };
        (self.min_duration, id, mx)
    }
}

/// Whether the literal `lit` occurs in `h`.
pub fn contains_lit(h: &Vec<char>, lit: &str) -> (r: bool)
    ensures
        r == has_sub(h@, lit@),
{
    let n = to_chars(lit);
    contains_sub(h, &n)
}

/// Whether `h` starts with the literal `lit`.
pub fn starts_with_lit(h: &Vec<char>, lit: &str) -> (r: bool)
    ensures
        r == occurs_at(h@, lit@, 0),
{
    let n = to_chars(lit);
    crate::text::starts_with(h, &n)
}

/// Openers that hook a viewer.
pub open spec fn hook_openers() -> Seq<Seq<char>> {
    seq![
        "cómo"@, "como "@, "por qué"@, "porque "@, "what "@, "why "@, "how "@, "no hagas"@,
        "deja de"@, "si quieres"@, "el error"@, "la verdad"@, "secret"@,
    ]
}

fn hook_opener(i: usize) -> (r: &'static str)
    requires
        i < 13,
    ensures
        r@ == hook_openers()[i as int],
{
    match i {
        0 => "cómo", 1 => "como ", 2 => "por qué", 3 => "porque ", 4 => "what ", 5 => "why ",
        6 => "how ", 7 => "no hagas", 8 => "deja de", 9 => "si quieres", 10 => "el error",
        11 => "la verdad", _ => "secret",
    }
}

/// The lowercased text opens with a hook, or one follows a space.
pub open spec fn starts_with_hook(lower: Seq<char>) -> bool {
    exists|i: int| 0 <= i < 13 && (occurs_at(lower, #[trigger] hook_openers()[i], 0)
        || has_sub(lower, seq![' '] + hook_openers()[i]))
}

fn starts_with_hook_exec(lower: &Vec<char>) -> (r: bool)
    ensures
        r == starts_with_hook(lower@),
{
    let mut i: usize = 0;
    while i < 13
        invariant
            0 <= i <= 13,
            forall|j: int| 0 <= j < i ==> !(occurs_at(lower@, #[trigger] hook_openers()[j], 0)
                || has_sub(lower@, seq![' '] + hook_openers()[j])),
        decreases 13 - i,
    {
        let p = to_chars(hook_opener(i));
        let mut sp: Vec<char> = Vec::new();
        sp.push(' ');
        let mut k: usize = 0;
        while k < p.len()
            invariant
                0 <= k <= p@.len(),
                sp@ == seq![' '] + p@.take(k as int),
            decreases p@.len() - k,
        {
            sp.push(p[k]);
            proof {
                assert(seq![' '] + p@.take(k as int + 1) =~= (seq![' '] + p@.take(k as int)).push(p@[k as int]));
            }
            k = k + 1;
        }
        proof {
            assert(p@.take(p@.len() as int) =~= p@);
        }
        if crate::text::starts_with(lower, &p) || contains_sub(lower, &sp) {
            return true;
        }
        i = i + 1;
    }
    false
}

/// Hook words anywhere in the lowercased text.
pub open spec fn hook_words(lower: Seq<char>) -> bool {
    has_sub(lower, "mira"@) || has_sub(lower, "importante"@) || has_sub(lower, "nunca"@) || has_sub(lower, "siempre"@)
}

/// Words that announce a conclusion.
pub open spec fn conclusion_words(lower: Seq<char>) -> bool {
    has_sub(lower, "por eso"@) || has_sub(lower, "en resumen"@) || has_sub(lower, "conclusión"@)
        || has_sub(lower, "por lo tanto"@) || has_sub(lower, "la clave"@)
}

/// The text is a question, opens with a hook, or uses a hook word.
pub open spec fn hook_hit(text: Seq<char>, lower: Seq<char>) -> bool {
    text.contains('?') || starts_with_hook(lower) || hook_words(lower)
}

/// The text ends a thought.
pub open spec fn standalone_hit(text: Seq<char>, lower: Seq<char>) -> bool {
    let ends = |s: Seq<char>, c: char| s.len() > 0 && s.last() == c;
    ends(lower, '.') || ends(lower, '!') || ends(lower, '?') || has_sub(lower, "punto final"@)
        || ends(text, '.') || ends(text, '!')
}

/// Words per second within 1.5..4.5 (`n` words over `d` ms, `d` at least 500).
pub open spec fn dense(n: nat, d: nat) -> bool {
    3 * d <= 2000 * n && 2000 * n < 9 * d
}

/// Under 0.8 words per second.
pub open spec fn sparse(n: nat, d: nat) -> bool {
    1250 * n < d
}

/// Duration fit in thousandths inside the band: one minus the distance to
/// the ideal relative to the ideal (at least 1 s), at least 400.
pub open spec fn fit_in_band(duration: u64, ideal: u64) -> u32 {
    let dist = if duration > ideal { duration - ideal } else { ideal - duration };
    let m = if ideal < 1000 { 1000 } else { ideal as int };
    let off = dist * 1000 / m;
    if off >= 600 { 400 } else { (1000 - off) as u32 }
}

/// The breakdown `score_unit` computes (silence penalty zero).
pub open spec fn unit_breakdown(text: Seq<char>, energy: u32, duration: u64, ideal: u64, min_d: u64, max_d: u64, has_real: bool) -> ClipScoreBreakdown {
    let lower = lowercase(text);
    let n = words(text).len();
    let d = if duration < 500 { 500 } else { duration as nat };
    ClipScoreBreakdown {
        hook_quality: if hook_hit(text, lower) { 850 } else if n >= 4 { 550 } else { 350 },
        semantic_coherence: if text.contains('.') || text.contains(',') || n >= 12 { 800 } else if n >= 6 { 600 } else { 400 },
        standalone: if standalone_hit(text, lower) { 820 } else { 500 },
        clarity: if has_real { if 5 <= n <= 120 { 800 } else { 550 } } else { 400 },
        energy: if energy < 300 { 300 } else if energy > 950 { 950 } else { energy },
        information_density: if dense(n, d) { 800 } else if sparse(n, d) { 350 } else { 550 },
        has_conclusion: if conclusion_words(lower) || (text.len() > 0 && text.last() == '.') { 750 } else { 450 },
        duration_fit: if duration < min_d { 250 } else if duration > max_d { 350 } else { fit_in_band(duration, ideal) },
        incomplete_penalty: if duration < min_d { 400 } else if duration > max_d { 150 } else { 0 },
        silence_penalty: 0,
    }
}

/// Confidence in thousandths for a score: higher with a real transcript.
pub open spec fn confidence_for(score: u32, has_real: bool) -> u32 {
    if has_real {
        let c = 550 + score * 4 / 10;
        if c > 920 { 920 } else { c as u32 }
    } else {
        let c = 350 + score / 3;
        if c > 700 { 700 } else { c as u32 }
    }
}

/// What `char::to_uppercase` yields for a character.
pub uninterp spec fn upper(c: char) -> Seq<char>;

/// `char::to_uppercase`, collected: the named uppercase mapping of `c`.
#[verifier::external_body]
fn uppercase_char(c: char) -> (r: String)
    ensures
        r@ == upper(c),
{
    c.to_uppercase().collect::<String>()
}

/// A one-element list when `b` holds, else empty.
pub open spec fn opt_line(b: bool, s: Seq<char>) -> Seq<Seq<char>> {
    if b { seq![s] } else { Seq::empty() }
}

fn push_if(v: &mut Vec<String>, b: bool, s: &str)
    ensures
        crate::export::views(final(v)@) == crate::export::views(old(v)@) + opt_line(b, s@),
{
    let ghost before = crate::export::views(v@);
    if b {
        v.push(String::from_str(s));
        proof {
            assert(crate::export::views(v@) =~= before + opt_line(b, s@));
        }
    } else {
        proof {
            assert(crate::export::views(v@) =~= before + opt_line(b, s@));
        }
    }
}

/// Whole seconds of a time in ms as `{:.0}` prints the seconds (see
/// `scaled_secs`: halves to even).
pub open spec fn secs_rounded(ms: u64) -> nat {
    crate::text::scaled_secs(ms as nat, 1)
}

fn push_secs_rounded(s: &mut String, ms: u64)
    ensures
        final(s)@ == old(s)@ + crate::text::dec(secs_rounded(ms)),
{
    let v = crate::text::scaled_secs_exec(ms, 1);
    crate::text::push_dec128(s, v);
}

/// Character that `provisional_title` strips from the ends.
pub open spec fn quote_char(c: char) -> bool {
    c == '"' || c == '\'' || c == '[' || c == ']'
}

/// The text without quote and bracket characters at its ends.
pub open spec fn trim_quotes(s: Seq<char>) -> Seq<char>
    decreases s.len(),
{
    if s.len() == 0 {
        s
    } else if quote_char(s[0]) {
        trim_quotes(s.drop_first())
    } else if quote_char(s.last()) {
        trim_quotes(s.drop_last())
    } else {
        s
    }
}

fn trim_quotes_exec(v: &Vec<char>) -> (r: Vec<char>)
    ensures
        r@ == trim_quotes(v@),
{
    let mut a: usize = 0;
    let mut b: usize = v.len();
    proof {
        assert(v@.subrange(0, v@.len() as int) =~= v@);
    }
    while a < b && (v[a] == '"' || v[a] == '\'' || v[a] == '[' || v[a] == ']')
        invariant
            0 <= a <= b == v@.len(),
            trim_quotes(v@) == trim_quotes(v@.subrange(a as int, b as int)),
        decreases b - a,
    {
        proof {
            assert(v@.subrange(a as int, b as int).drop_first() =~= v@.subrange(a as int + 1, b as int));
        }
        a = a + 1;
    }
    while a < b && (v[b - 1] == '"' || v[b - 1] == '\'' || v[b - 1] == '[' || v[b - 1] == ']')
        invariant
            0 <= a <= b <= v@.len(),
            trim_quotes(v@) == trim_quotes(v@.subrange(a as int, b as int)),
            a < b ==> !quote_char(v@[a as int]),
        decreases b - a,
    {
        proof {
            let w = v@.subrange(a as int, b as int);
            assert(w.drop_last() =~= v@.subrange(a as int, b as int - 1));
            assert(w[0] == v@[a as int]);
        }
        b = b - 1;
    }
    proof {
        let w = v@.subrange(a as int, b as int);
        if w.len() > 0 {
            assert(w[0] == v@[a as int]);
            assert(w.last() == v@[b - 1]);
        }
    }
    crate::captions::sub_chars(v, a, b)
}

/// Alphabetic characters of a text.
pub open spec fn alpha_count(s: Seq<char>) -> nat
    decreases s.len(),
{
    if s.len() == 0 { 0 } else { alpha_count(s.drop_last()) + if crate::text::alpha(s.last()) { 1nat } else { 0nat } }
}

fn alpha_count_exec(v: &Vec<char>) -> (n: usize)
    ensures
        n == alpha_count(v@),
{
    let mut n: usize = 0;
    let mut i: usize = 0;
    while i < v.len()
        invariant
            0 <= i <= v@.len(),
            n == alpha_count(v@.take(i as int)),
            n <= i,
        decreases v@.len() - i,
    {
        proof {
            assert(v@.take(i as int + 1).drop_last() =~= v@.take(i as int));
        }
        if crate::text::is_alphabetic(v[i]) {
            n = n + 1;
        }
        i = i + 1;
    }
    proof {
        assert(v@.take(v@.len() as int) =~= v@);
    }
    n
}

/// The first word capitalised.
pub open spec fn capitalized(t: Seq<char>) -> Seq<char> {
    if t.len() == 0 { "Clip"@ } else { upper(t[0]) + t.drop_first() }
}

/// A text that stands for speech without words.
pub open spec fn placeholder_title(text: Seq<char>) -> bool {
    let lower = lowercase(trim(text));
    lower.len() == 0 || has_sub(lower, "[habla"@) || has_sub(lower, "[segmento"@) || alpha_count(text) < 3
}

/// A provisional clip title: "Clip" for placeholders, else the first eight
/// words (with "…" when there are more), first letter uppercased.
pub open spec fn provisional_title(text: Seq<char>) -> Seq<char> {
    if placeholder_title(text) {
        "Clip"@
    } else {
        let ws = words(trim_quotes(trim(text)));
        if ws.len() == 0 {
            "Clip"@
        } else {
            let head = join_sp(ws.take(if ws.len() > 8 { 8 } else { ws.len() as int }));
            capitalized(head + if ws.len() > 8 { seq!['…'] } else { Seq::<char>::empty() })
        }
    }
}

fn provisional_title_exec(text: &Vec<char>) -> (r: String)
    ensures
        r@ == provisional_title(text@),
{
    let tt = crate::captions::trim_exec(text);
    let ts = crate::text::from_chars(&tt);
    let low = to_lowercase(ts.as_str());
    let lower = to_chars(low.as_str());
    if lower.len() == 0 || contains_lit(&lower, "[habla") || contains_lit(&lower, "[segmento") || alpha_count_exec(text) < 3 {
        return String::from_str("Clip");
    }
    let clean = trim_quotes_exec(&tt);
    let ws = crate::filler::split_words(&clean);
    if ws.len() == 0 {
        return String::from_str("Clip");
    }
    let k: usize = if ws.len() > 8 { 8 } else { ws.len() };
    let mut head: Vec<Vec<char>> = Vec::new();
    let mut i: usize = 0;
    while i < k
        invariant
            0 <= i <= k <= ws@.len(),
            crate::captions::char_views(head@) == crate::captions::char_views(ws@).take(i as int),
        decreases k - i,
    {
        let mut w: Vec<char> = Vec::new();
        let src = &ws[i];
        let mut q: usize = 0;
        while q < src.len()
            invariant
                0 <= q <= src@.len(),
                w@ == src@.take(q as int),
            decreases src@.len() - q,
        {
            w.push(src[q]);
            proof {
                assert(src@.take(q as int + 1) =~= src@.take(q as int).push(src@[q as int]));
            }
            q = q + 1;
        }
        proof {
            assert(src@.take(src@.len() as int) =~= src@);
        }
        let ghost old_head = crate::captions::char_views(head@);
        head.push(w);
        proof {
            assert(w@ == ws@[i as int]@);
            assert(crate::captions::char_views(head@) =~= old_head.push(w@));
            assert(crate::captions::char_views(ws@).take(i as int + 1) =~= crate::captions::char_views(ws@).take(i as int).push(ws@[i as int]@));
        }
        i = i + 1;
    }
    let mut t = crate::captions::join_space(&head, 0);
    proof {
        assert(crate::captions::char_views(head@).skip(0) =~= crate::captions::char_views(head@));
        assert(crate::captions::char_views(ws@) == words(trim_quotes(trim(text@))));
    }
    if ws.len() > 8 {
        t.push('…');
    }
    proof {
        crate::filler::lemma_words_nonempty_each(clean@);
        assert(crate::captions::char_views(head@)[0] == ws@[0]@);
        crate::captions::lemma_join_nonempty(crate::captions::char_views(head@));
    }
    let first = t[0];
    let mut out = uppercase_char(first);
    let mut j: usize = 1;
    let ghost up = out@;
    while j < t.len()
        invariant
            1 <= j <= t@.len(),
            out@ == up + t@.subrange(1, j as int),
        decreases t@.len() - j,
    {
        crate::text::push_char(&mut out, t[j]);
        proof {
            assert(t@.subrange(1, j as int + 1) =~= t@.subrange(1, j as int).push(t@[j as int]));
        }
        j = j + 1;
    }
    proof {
        assert(t@.subrange(1, t@.len() as int) =~= t@.drop_first());
    }
    out
}

/// The score of one text window with everything that explains it.
#[derive(Clone, Debug)]
pub struct ScoredText {
    pub breakdown: ClipScoreBreakdown,
    pub score: u32,
    pub confidence: u32,
    pub reasons: Vec<ClipReason>,
    pub strengths: Vec<String>,
    pub risks: Vec<String>,
    pub title: String,
    pub summary: String,
}

/// The text has some coherence marker: punctuation or at least 12 words.
pub open spec fn coherence_hit(text: Seq<char>) -> bool {
    text.contains('.') || text.contains(',') || words(text).len() >= 12
}

/// The text closes with a conclusion.
pub open spec fn conclusion_hit(text: Seq<char>) -> bool {
    conclusion_words(lowercase(text)) || (text.len() > 0 && text.last() == '.')
}

/// Strengths `score_unit` lists, in order.
pub open spec fn unit_strengths(text: Seq<char>, energy: u32, duration: u64, min_d: u64, max_d: u64) -> Seq<Seq<char>> {
    let lower = lowercase(text);
    let e = if energy < 300 { 300 } else if energy > 950 { 950 } else { energy };
    opt_line(hook_hit(text, lower), "Buen gancho o apertura fuerte"@)
        + opt_line(coherence_hit(text), "Idea con desarrollo"@)
        + opt_line(standalone_hit(text, lower), "Cierre o idea autocontenida"@)
        + opt_line(e > 700, "Energía / densidad verbal alta"@)
        + opt_line(conclusion_hit(text), "Cierre o conclusión detectable"@)
        + opt_line(min_d <= duration <= max_d, "Duración dentro del perfil"@)
}

/// Risks `score_unit` lists, in order.
pub open spec fn unit_risks(text: Seq<char>, duration: u64, min_d: u64, max_d: u64, has_real: bool) -> Seq<Seq<char>> {
    let lower = lowercase(text);
    let n = words(text).len();
    let d = if duration < 500 { 500 } else { duration as nat };
    opt_line(!hook_hit(text, lower) && n < 4, "Apertura débil o demasiado corta"@)
        + opt_line(!standalone_hit(text, lower), "Puede necesitar contexto previo"@)
        + opt_line(!has_real, "Sin transcripción real: scoring heurístico por audio"@)
        + opt_line(!dense(n, d) && sparse(n, d), "Baja densidad de información"@)
        + opt_line(duration < min_d, "Más corto que el mínimo ("@ + crate::text::dec(secs_rounded(min_d)) + "s)"@)
        + opt_line(duration >= min_d && duration > max_d, "Más largo que el máximo ("@ + crate::text::dec(secs_rounded(max_d)) + "s)"@)
}

/// `(code, label, weight)` of the reasons `score_unit` gives, in order.
pub open spec fn unit_reasons(text: Seq<char>) -> Seq<(Seq<char>, Seq<char>, u32)> {
    let lower = lowercase(text);
    (if hook_hit(text, lower) { seq![("hook"@, "Gancho inicial"@, 160u32)] } else { Seq::empty() })
        + (if standalone_hit(text, lower) { seq![("standalone"@, "Funciona sin contexto largo"@, 140u32)] } else { Seq::empty() })
}

/// The views of a list of reasons.
pub open spec fn reason_views(r: Seq<ClipReason>) -> Seq<(Seq<char>, Seq<char>, u32)> {
    r.map_values(|x: ClipReason| (x.code@, x.label@, x.weight))
}

/// The summary of a text: the text, or its first 137 characters and "…"
/// when it is longer than 140.
pub open spec fn summary_of(text: Seq<char>) -> Seq<char> {
    if text.len() > 140 { text.take(137).push('…') } else { text }
}

fn has_char_lit(h: &Vec<char>, c: char) -> (r: bool)
    ensures
        r == h@.contains(c),
{
    crate::text::has_char(h, c)
}

fn ends_with_char(h: &Vec<char>, c: char) -> (r: bool)
    ensures
        r == (h@.len() > 0 && h@.last() == c),
{
    h.len() > 0 && h[h.len() - 1] == c
}

fn hook_hit_exec(text: &Vec<char>, lower: &Vec<char>) -> (r: bool)
    ensures
        r == hook_hit(text@, lower@),
{
    has_char_lit(text, '?') || starts_with_hook_exec(lower) || contains_lit(lower, "mira")
        || contains_lit(lower, "importante") || contains_lit(lower, "nunca") || contains_lit(lower, "siempre")
}

fn standalone_hit_exec(text: &Vec<char>, lower: &Vec<char>) -> (r: bool)
    ensures
        r == standalone_hit(text@, lower@),
{
    ends_with_char(lower, '.') || ends_with_char(lower, '!') || ends_with_char(lower, '?')
        || contains_lit(lower, "punto final") || ends_with_char(text, '.') || ends_with_char(text, '!')
}

fn conclusion_hit_exec(text: &Vec<char>, lower: &Vec<char>) -> (r: bool)
    requires
        lower@ == lowercase(text@),
    ensures
        r == conclusion_hit(text@),
{
    contains_lit(lower, "por eso") || contains_lit(lower, "en resumen") || contains_lit(lower, "conclusión")
        || contains_lit(lower, "por lo tanto") || contains_lit(lower, "la clave") || ends_with_char(text, '.')
}

fn summary_exec(text: &Vec<char>) -> (r: String)
    ensures
        r@ == summary_of(text@),
{
    if text.len() > 140 {
        let mut t = crate::captions::sub_chars(text, 0, 137);
        t.push('…');
        proof {
            assert(t@ =~= text@.take(137).push('…'));
        }
        crate::text::from_chars(&t)
    } else {
        crate::text::from_chars(text)
    }
}

fn breakdown_exec(text: &Vec<char>, lower: &Vec<char>, n: usize, unit_energy: u32, duration: u64, ideal: u64, min_d: u64, max_d: u64, has_real: bool) -> (b: ClipScoreBreakdown)
    requires
        lower@ == lowercase(text@),
        n == words(text@).len(),
    ensures
        b == unit_breakdown(text@, unit_energy, duration, ideal, min_d, max_d, has_real),
        breakdown_wf(b),
{
    let hook = hook_hit_exec(text, lower);
    let coh = has_char_lit(text, '.') || has_char_lit(text, ',') || n >= 12;
    let standalone = standalone_hit_exec(text, lower);
    let concl = conclusion_hit_exec(text, lower);
    let d: u64 = if duration < 500 { 500 } else { duration };
    let nn: u64 = n as u64;
    let is_dense = 3 * (d as u128) <= 2000 * (nn as u128) && 2000 * (nn as u128) < 9 * (d as u128);
    let is_sparse = 1250 * (nn as u128) < d as u128;
    let energy = if unit_energy < 300 { 300 } else if unit_energy > 950 { 950 } else { unit_energy };
    let fit: u32 = if duration < min_d {
        250
    } else if duration > max_d {
        350
    } else {
        let dist = if duration > ideal { duration - ideal } else { ideal - duration };
        let m = if ideal < 1000 { 1000 } else { ideal };
        let off = (dist as u128) * 1000 / (m as u128);
        if off >= 600 { 400 } else { (1000 - off) as u32 }
    };
    ClipScoreBreakdown {
        hook_quality: if hook { 850 } else if n >= 4 { 550 } else { 350 },
        semantic_coherence: if coh { 800 } else if n >= 6 { 600 } else { 400 },
        standalone: if standalone { 820 } else { 500 },
        clarity: if has_real { if 5 <= n && n <= 120 { 800 } else { 550 } } else { 400 },
        energy,
        information_density: if is_dense { 800 } else if is_sparse { 350 } else { 550 },
        has_conclusion: if concl { 750 } else { 450 },
        duration_fit: fit,
        incomplete_penalty: if duration < min_d { 400 } else if duration > max_d { 150 } else { 0 },
        silence_penalty: 0,
    }
}

fn strengths_exec(text: &Vec<char>, lower: &Vec<char>, unit_energy: u32, duration: u64, min_d: u64, max_d: u64) -> (r: Vec<String>)
    requires
        lower@ == lowercase(text@),
    ensures
        crate::export::views(r@) == unit_strengths(text@, unit_energy, duration, min_d, max_d),
{
    let n = crate::filler::split_words(text).len();
    let energy = if unit_energy < 300 { 300 } else if unit_energy > 950 { 950 } else { unit_energy };
    let mut v: Vec<String> = Vec::new();
    proof {
        assert(crate::export::views(v@) =~= Seq::<Seq<char>>::empty());
    }
    push_if(&mut v, hook_hit_exec(text, lower), "Buen gancho o apertura fuerte");
    push_if(&mut v, has_char_lit(text, '.') || has_char_lit(text, ',') || n >= 12, "Idea con desarrollo");
    push_if(&mut v, standalone_hit_exec(text, lower), "Cierre o idea autocontenida");
    push_if(&mut v, energy > 700, "Energía / densidad verbal alta");
    push_if(&mut v, conclusion_hit_exec(text, lower), "Cierre o conclusión detectable");
    push_if(&mut v, min_d <= duration && duration <= max_d, "Duración dentro del perfil");
    proof {
        assert(crate::export::views(v@) =~= unit_strengths(text@, unit_energy, duration, min_d, max_d));
    }
    v
}

fn risks_exec(text: &Vec<char>, lower: &Vec<char>, duration: u64, min_d: u64, max_d: u64, has_real: bool) -> (r: Vec<String>)
    requires
        lower@ == lowercase(text@),
    ensures
        crate::export::views(r@) == unit_risks(text@, duration, min_d, max_d, has_real),
{
    let n = crate::filler::split_words(text).len();
    let d: u64 = if duration < 500 { 500 } else { duration };
    let nn: u64 = n as u64;
    let is_dense = 3 * (d as u128) <= 2000 * (nn as u128) && 2000 * (nn as u128) < 9 * (d as u128);
    let is_sparse = 1250 * (nn as u128) < d as u128;
    let mut v: Vec<String> = Vec::new();
    proof {
        assert(crate::export::views(v@) =~= Seq::<Seq<char>>::empty());
    }
    push_if(&mut v, !hook_hit_exec(text, lower) && n < 4, "Apertura débil o demasiado corta");
    push_if(&mut v, !standalone_hit_exec(text, lower), "Puede necesitar contexto previo");
    push_if(&mut v, !has_real, "Sin transcripción real: scoring heurístico por audio");
    push_if(&mut v, !is_dense && is_sparse, "Baja densidad de información");
    let ghost before = crate::export::views(v@);
    if duration < min_d {
        let mut m = String::from_str("Más corto que el mínimo (");
        push_secs_rounded(&mut m, min_d);
        crate::text::push_str(&mut m, "s)");
        v.push(m);
    } else if duration > max_d {
        let mut m = String::from_str("Más largo que el máximo (");
        push_secs_rounded(&mut m, max_d);
        crate::text::push_str(&mut m, "s)");
        v.push(m);
    }
    proof {
        assert(crate::export::views(v@) =~= unit_risks(text@, duration, min_d, max_d, has_real));
    }
    v
}

fn reasons_exec(text: &Vec<char>, lower: &Vec<char>) -> (r: Vec<ClipReason>)
    requires
        lower@ == lowercase(text@),
    ensures
        reason_views(r@) == unit_reasons(text@),
{
    let mut reasons: Vec<ClipReason> = Vec::new();
    if hook_hit_exec(text, lower) {
        reasons.push(ClipReason { code: String::from_str("hook"), label: String::from_str("Gancho inicial"), weight: 160 });
    }
    if standalone_hit_exec(text, lower) {
        reasons.push(ClipReason { code: String::from_str("standalone"), label: String::from_str("Funciona sin contexto largo"), weight: 140 });
    }
    proof {
        assert(reason_views(reasons@) =~= unit_reasons(text@));
    }
    reasons
}

/// Explainable score of a text window of `duration` ms against the band
/// `[min_d, max_d]` around `ideal`.
pub fn score_unit(unit: &SemanticUnit, duration: u64, ideal: u64, min_d: u64, max_d: u64, has_real_transcript: bool) -> (s: ScoredText)
    ensures
        ({
            let text = trim(unit.text@);
            &&& s.breakdown == unit_breakdown(text, unit.energy, duration, ideal, min_d, max_d, has_real_transcript)
            &&& s.score == breakdown_total(s.breakdown)
            &&& s.confidence == confidence_for(s.score, has_real_transcript)
            &&& crate::export::views(s.strengths@) == unit_strengths(text, unit.energy, duration, min_d, max_d)
            &&& crate::export::views(s.risks@) == unit_risks(text, duration, min_d, max_d, has_real_transcript)
            &&& reason_views(s.reasons@) == unit_reasons(text)
            &&& s.title@ == provisional_title(text)
            &&& s.summary@ == summary_of(text)
        }),
{
    let unit_energy = unit.energy;
    let raw = to_chars(unit.text.as_str());
    let text = crate::captions::trim_exec(&raw);
    let text_s = crate::text::from_chars(&text);
    let low = to_lowercase(text_s.as_str());
    let lower = to_chars(low.as_str());
    let n = crate::filler::split_words(&text).len();
    let b = breakdown_exec(&text, &lower, n, unit_energy, duration, ideal, min_d, max_d, has_real_transcript);
    let score = b.total();
    let confidence: u32 = if has_real_transcript {
        let c = 550 + score as u64 * 4 / 10;
        if c > 920 { 920 } else { c as u32 }
    } else {
        let c = 350 + score as u64 / 3;
        if c > 700 { 700 } else { c as u32 }
    };
    let strengths = strengths_exec(&text, &lower, unit_energy, duration, min_d, max_d);
    let risks = risks_exec(&text, &lower, duration, min_d, max_d, has_real_transcript);
    let reasons = reasons_exec(&text, &lower);
    let title = provisional_title_exec(&text);
    let summary = summary_exec(&text);
    ScoredText { breakdown: b, score, confidence, reasons, strengths, risks, title, summary }
}

/// Two framings with the same settings and panels.
pub open spec fn same_framing(a: ClipFraming, b: ClipFraming) -> bool {
    &&& a.mode == b.mode && a.center_x == b.center_x && a.center_y == b.center_y && a.zoom == b.zoom
    &&& a.width_frac == b.width_frac && a.height_frac == b.height_frac
    &&& a.output_width == b.output_width && a.output_height == b.output_height
    &&& a.panels@ == b.panels@ && a.tracking_ready == b.tracking_ready
}

fn copy_framing(f: &ClipFraming) -> (r: ClipFraming)
    ensures
        same_framing(r, *f),
{
    let mut panels: Vec<LayoutPanel> = Vec::new();
    let mut i: usize = 0;
    while i < f.panels.len()
        invariant
            0 <= i <= f.panels@.len(),
            panels@ == f.panels@.take(i as int),
        decreases f.panels@.len() - i,
    {
        panels.push(f.panels[i]);
        proof {
            assert(f.panels@.take(i as int + 1) =~= f.panels@.take(i as int).push(f.panels@[i as int]));
        }
        i = i + 1;
    }
    proof {
        assert(f.panels@.take(f.panels@.len() as int) =~= f.panels@);
    }
    ClipFraming {
        mode: f.mode,
        center_x: f.center_x,
        center_y: f.center_y,
        zoom: f.zoom,
        width_frac: f.width_frac,
        height_frac: f.height_frac,
        output_width: f.output_width,
        output_height: f.output_height,
        panels,
        tracking_ready: f.tracking_ready,
    }
}

/// A window of the source to propose as a clip: start, end, text, energy.
pub type ClipWindow = (u64, u64, Seq<char>, u32);

/// `c` is the suggested candidate built from window `w` of run `run_id`:
/// a fresh id heading its own variant group, and the window scored.
pub open spec fn candidate_of(c: ClipCandidate, w: ClipWindow, run_id: Seq<char>, media: Seq<char>, bounds: (u64, u64, u64), has_real: bool, framing: ClipFraming) -> bool {
    let (min_d, ideal, max_d) = bounds;
    let dur = (w.1 - w.0) as u64;
    let text = trim(w.2);
    &&& c.id@.len() == 36 && c.variant_group_id == c.id && c.is_primary_variant
    &&& c.analysis_run_id@ == run_id && c.source_media_path@ == media
    &&& c.start == w.0 && c.end == w.1 && c.duration == dur
    &&& c.original_start == w.0 && c.original_end == w.1
    &&& c.transcript@ == w.2
    &&& c.breakdown == unit_breakdown(text, w.3, dur, ideal, min_d, max_d, has_real)
    &&& c.score == breakdown_total(c.breakdown)
    &&& c.confidence == confidence_for(c.score, has_real)
    &&& crate::export::views(c.strengths@) == unit_strengths(text, w.3, dur, min_d, max_d)
    &&& crate::export::views(c.risks@) == unit_risks(text, dur, min_d, max_d, has_real)
    &&& reason_views(c.reasons@) == unit_reasons(text)
    &&& c.title@ == provisional_title(text)
    &&& c.summary@ == summary_of(text)
    &&& c.warnings@.len() == 0
    &&& c.status == ClipReviewStatus::Suggested
    &&& same_framing(c.framing, framing)
    &&& c.export_path is None && c.error is None
}

fn build_candidate(run_id: &str, media_path: &str, start: u64, end: u64, text: &Vec<char>, energy: u32, bounds: (u64, u64, u64), has_real: bool, framing: &ClipFraming) -> (c: ClipCandidate)
    requires
        start <= end,
    ensures
        candidate_of(c, (start, end, text@, energy), run_id@, media_path@, bounds, has_real, *framing),
{
    let (min_d, ideal, max_d) = bounds;
    let duration = end - start;
    let t = crate::text::from_chars(text);
    let unit = SemanticUnit { id: String::new(), span: crate::timeline::Span { start, end }, text: t, cue_ids: Vec::new(), energy };
    let scored = score_unit(&unit, duration, ideal, min_d, max_d, has_real);
    let id = crate::events::new_id();
    let gid = id.clone();
    ClipCandidate {
        id,
        analysis_run_id: String::from_str(run_id),
        source_media_path: String::from_str(media_path),
        start,
        end,
        duration,
        transcript: crate::text::from_chars(text),
        title: scored.title,
        summary: scored.summary,
        score: scored.score,
        confidence: scored.confidence,
        breakdown: scored.breakdown,
        reasons: scored.reasons,
        warnings: Vec::new(),
        strengths: scored.strengths,
        risks: scored.risks,
        status: ClipReviewStatus::Suggested,
        variant_group_id: gid,
        is_primary_variant: true,
        framing: copy_framing(framing),
        original_start: start,
        original_end: end,
        export_path: None,
        error: None,
    }
}

/// `a` raised by `pad`, at most `cap`.
pub open spec fn pad_end(a: u64, pad: u64, cap: u64) -> u64 {
    if a as int + pad as int > cap as int { cap } else { (a + pad) as u64 }
}

/// `a` lowered by `pad`, at least zero.
pub open spec fn pad_start(a: u64, pad: u64) -> u64 {
    if a > pad { (a - pad) as u64 } else { 0 }
}

fn pad_end_exec(a: u64, pad: u64, cap: u64) -> (r: u64)
    ensures
        r == pad_end(a, pad, cap),
{
    if a > cap || cap - a < pad { cap } else { a + pad }
}

/// Strategy A: a unit whose length is near the band becomes a window as it
/// is, padded and kept within the source.
pub open spec fn unit_window(u: SemanticUnit, o: ClippingOptions, src: u64) -> Option<ClipWindow> {
    let (min_d, ideal, max_d) = bounds_of(o);
    let d = crate::timeline::len_of(u.span.start, u.span.end);
    if 20 * d >= 17 * min_d && 10 * d <= 11 * max_d {
        let start = pad_start(u.span.start, o.pad_before);
        let end = pad_end(u.span.end, o.pad_after, src);
        if end < start || 5 * (end - start) < 4 * min_d { None } else { Some((start, end, u.text@, u.energy)) }
    } else {
        None
    }
}

/// The strategy A windows of the units, in order.
pub open spec fn unit_windows(us: Seq<SemanticUnit>, o: ClippingOptions, src: u64) -> Seq<ClipWindow>
    decreases us.len(),
{
    if us.len() == 0 {
        Seq::empty()
    } else {
        let p = unit_windows(us.drop_last(), o, src);
        match unit_window(us.last(), o, src) {
            Some(w) => p.push(w),
            None => p,
        }
    }
}

/// Strategy B: the last unit of the run that starts at unit `i`, extended
/// from unit `j` while the pause before the next unit is at most 2.5 s and
/// the run stays within `max_d`, stopping once it reaches 90 % of `ideal`.
pub open spec fn run_last(us: Seq<SemanticUnit>, i: int, j: int, max_d: u64, ideal: u64) -> int
    decreases us.len() - j,
{
    if j < i || j + 1 >= us.len() || i < 0 {
        j
    } else {
        let start0 = us[i].span.start;
        let end = us[j].span.end;
        let next = us[j + 1];
        if next.span.start > end && next.span.start - end > 2500 {
            j
        } else if next.span.end > start0 && next.span.end - start0 > max_d {
            j
        } else if next.span.end >= start0 && 10 * (next.span.end - start0) >= 9 * ideal {
            j + 1
        } else {
            run_last(us, i, j + 1, max_d, ideal)
        }
    }
}

proof fn lemma_run_last_bounds(us: Seq<SemanticUnit>, i: int, j: int, max_d: u64, ideal: u64)
    requires
        0 <= i <= j < us.len(),
    ensures
        j <= run_last(us, i, j, max_d, ideal) < us.len(),
    decreases us.len() - j,
{
    if j + 1 < us.len() {
        let start0 = us[i].span.start;
        let end = us[j].span.end;
        let next = us[j + 1];
        if !(next.span.start > end && next.span.start - end > 2500) && !(next.span.end > start0 && next.span.end - start0 > max_d)
            && !(next.span.end >= start0 && 10 * (next.span.end - start0) >= 9 * ideal) {
            lemma_run_last_bounds(us, i, j + 1, max_d, ideal);
        }
    }
}

/// Texts of a list of units.
pub open spec fn unit_texts(us: Seq<SemanticUnit>) -> Seq<Seq<char>> {
    us.map_values(|u: SemanticUnit| u.text@)
}

/// The highest energy of the units, or `floor` when higher.
pub open spec fn max_energy(us: Seq<SemanticUnit>, floor: u32) -> u32
    decreases us.len(),
{
    if us.len() == 0 {
        floor
    } else {
        let m = max_energy(us.drop_last(), floor);
        if us.last().energy > m { us.last().energy } else { m }
    }
}

/// The strategy B window of the run of units `i..=j`, when its padded length
/// falls within the band.
pub open spec fn run_window(us: Seq<SemanticUnit>, i: int, j: int, o: ClippingOptions, src: u64) -> Option<ClipWindow> {
    let (min_d, ideal, max_d) = bounds_of(o);
    let run = us.subrange(i, j + 1);
    let start = pad_start(us[i].span.start, o.pad_before);
    let end = pad_end(us[j].span.end, o.pad_after, src);
    if end as int - start as int >= min_d as int && end as int - start as int <= max_d as int {
        Some((start, end, join_sp(unit_texts(run)), max_energy(run.drop_first(), us[i].energy)))
    } else {
        None
    }
}

/// The strategy B windows from unit `i` on.
pub open spec fn run_windows(us: Seq<SemanticUnit>, i: int, o: ClippingOptions, src: u64) -> Seq<ClipWindow>
    decreases us.len() - i,
{
    if i < 0 || i >= us.len() {
        Seq::empty()
    } else {
        let (min_d, ideal, max_d) = bounds_of(o);
        let j = run_last(us, i, i, max_d, ideal);
        let rest = if i <= j < us.len() { run_windows(us, j + 1, o, src) } else { Seq::empty() };
        match run_window(us, i, j, o, src) {
            Some(w) => seq![w] + rest,
            None => rest,
        }
    }
}

/// The units that overlap `[t, end)`.
pub open spec fn overlapping(us: Seq<SemanticUnit>, t: nat, end: nat) -> Seq<SemanticUnit>
    decreases us.len(),
{
    if us.len() == 0 {
        Seq::empty()
    } else {
        let p = overlapping(us.drop_last(), t, end);
        let u = us.last();
        if u.span.start < end && u.span.end > t { p.push(u) } else { p }
    }
}

/// The text of a sliding window: its overlapping units' texts, or a
/// placeholder when none has text.
pub open spec fn slide_text(us: Seq<SemanticUnit>, t: nat, end: nat) -> Seq<char> {
    let j = join_sp(unit_texts(overlapping(us, t, end)));
    if j.len() == 0 { "[segmento de habla]"@ } else { j }
}

/// Strategy C: windows of `ideal` length (cut at `speech_end`) every 65 % of
/// `ideal` from `t`, while one of at least `min_d` fits and `budget` lasts.
pub open spec fn slide_windows(us: Seq<SemanticUnit>, t: nat, budget: nat, min_d: nat, ideal: nat, speech_end: nat) -> Seq<ClipWindow>
    decreases budget, speech_end - t,
{
    if budget == 0 || t + min_d > speech_end || min_d > ideal {
        Seq::empty()
    } else {
        let end = if t + ideal > speech_end { speech_end } else { t + ideal };
        let step = ideal * 65 / 100;
        if end - t >= min_d {
            let w: ClipWindow = (t as u64, end as u64, slide_text(us, t, end), max_energy(overlapping(us, t, end), 500));
            seq![w] + slide_windows(us, t + step, (budget - 1) as nat, min_d, ideal, speech_end)
        } else {
            slide_windows(us, t + step, budget, min_d, ideal, speech_end)
        }
    }
}

/// All windows `generate_candidates` proposes, in order: strategy A, then B,
/// then C when A and B found fewer than three; at most `max_candidates`.
pub open spec fn clip_windows(us: Seq<SemanticUnit>, o: ClippingOptions, src: u64) -> Seq<ClipWindow> {
    if us.len() == 0 {
        Seq::empty()
    } else {
        let (min_d, ideal, max_d) = bounds_of(o);
        let ab = unit_windows(us, o, src) + run_windows(us, 0, o, src);
        let budget: nat = if ab.len() < o.max_candidates { (o.max_candidates - ab.len()) as nat } else { 0 };
        let all = if ab.len() < 3 {
            ab + slide_windows(us, us[0].span.start as nat, budget, min_d as nat, ideal as nat, us.last().span.end as nat)
        } else {
            ab
        };
        if all.len() > o.max_candidates { all.take(o.max_candidates as int) } else { all }
    }
}

/// The windows a list of executable windows stands for.
pub open spec fn win_views(v: Seq<(u64, u64, Vec<char>, u32)>) -> Seq<ClipWindow> {
    v.map_values(|w: (u64, u64, Vec<char>, u32)| (w.0, w.1, w.2@, w.3))
}

fn text_chars(u: &SemanticUnit) -> (r: Vec<char>)
    ensures
        r@ == u.text@,
{
    to_chars(u.text.as_str())
}

fn unit_windows_exec(units: &Vec<SemanticUnit>, o: &ClippingOptions, src: u64) -> (r: Vec<(u64, u64, Vec<char>, u32)>)
    ensures
        win_views(r@) == unit_windows(units@, *o, src),
{
    let (min_d, ideal, max_d) = o.resolved_bounds();
    let mut r: Vec<(u64, u64, Vec<char>, u32)> = Vec::new();
    let mut i: usize = 0;
    while i < units.len()
        invariant
            0 <= i <= units@.len(),
            (min_d, ideal, max_d) == bounds_of(*o),
            win_views(r@) == unit_windows(units@.take(i as int), *o, src),
        decreases units@.len() - i,
    {
        let u = &units[i];
        proof {
            assert(units@.take(i as int + 1).drop_last() =~= units@.take(i as int));
            assert(units@.take(i as int + 1).last() == units@[i as int]);
        }
        let d = u.span.duration();
        let ghost before = win_views(r@);
        if 20 * (d as u128) >= 17 * (min_d as u128) && 10 * (d as u128) <= 11 * (max_d as u128) {
            let start = if u.span.start > o.pad_before { u.span.start - o.pad_before } else { 0 };
            let end = pad_end_exec(u.span.end, o.pad_after, src);
            if !(end < start || 5 * ((end - start) as u128) < 4 * (min_d as u128)) {
                r.push((start, end, text_chars(u), u.energy));
                proof {
                    assert(win_views(r@) =~= before.push((start, end, u.text@, u.energy)));
                }
            }
        }
        i = i + 1;
    }
    proof {
        assert(units@.take(units@.len() as int) =~= units@);
    }
    r
}

fn append_text(out: &mut Vec<char>, t: &Vec<char>, space: bool)
    ensures
        final(out)@ == old(out)@ + (if space { seq![' '] } else { Seq::<char>::empty() }) + t@,
{
    if space {
        out.push(' ');
    }
    let ghost mid = out@;
    let mut k: usize = 0;
    while k < t.len()
        invariant
            0 <= k <= t@.len(),
            out@ == mid + t@.take(k as int),
        decreases t@.len() - k,
    {
        out.push(t[k]);
        proof {
            assert(t@.take(k as int + 1) =~= t@.take(k as int).push(t@[k as int]));
        }
        k = k + 1;
    }
    proof {
        assert(t@.take(t@.len() as int) =~= t@);
        assert(out@ =~= old(out)@ + (if space { seq![' '] } else { Seq::<char>::empty() }) + t@);
    }
}

fn run_windows_exec(units: &Vec<SemanticUnit>, o: &ClippingOptions, src: u64) -> (r: Vec<(u64, u64, Vec<char>, u32)>)
    ensures
        win_views(r@) == run_windows(units@, 0, *o, src),
{
    let (min_d, ideal, max_d) = o.resolved_bounds();
    let n = units.len();
    let mut r: Vec<(u64, u64, Vec<char>, u32)> = Vec::new();
    let mut i: usize = 0;
    proof {
        assert(win_views(r@) + run_windows(units@, 0, *o, src) =~= run_windows(units@, 0, *o, src));
    }
    while i < n
        invariant
            0 <= i <= n == units@.len(),
            (min_d, ideal, max_d) == bounds_of(*o),
            win_views(r@) + run_windows(units@, i as int, *o, src) == run_windows(units@, 0, *o, src),
        decreases n - i,
    {
        let start0 = units[i].span.start;
        let mut j: usize = i;
        let mut end = units[i].span.end;
        let mut text = text_chars(&units[i]);
        let mut energy = units[i].energy;
        proof {
            assert(units@.subrange(i as int, i as int + 1) =~= seq![units@[i as int]]);
            assert(unit_texts(units@.subrange(i as int, i as int + 1)) =~= seq![units@[i as int].text@]);
            assert(units@.subrange(i as int, i as int + 1).drop_first() =~= Seq::<SemanticUnit>::empty());
        }
        let mut done = false;
        while !done && j + 1 < n
            invariant
                i <= j < n == units@.len(),
                start0 == units@[i as int].span.start,
                end == units@[j as int].span.end,
                text@ == join_sp(unit_texts(units@.subrange(i as int, j as int + 1))),
                energy == max_energy(units@.subrange(i as int, j as int + 1).drop_first(), units@[i as int].energy),
                done ==> run_last(units@, i as int, i as int, max_d, ideal) == j,
                !done ==> run_last(units@, i as int, i as int, max_d, ideal) == run_last(units@, i as int, j as int, max_d, ideal),
            decreases n - j, if done { 0int } else { 1int },
        {
            let next = &units[j + 1];
            if next.span.start > end && next.span.start - end > 2500 {
                done = true;
            } else if next.span.end > start0 && next.span.end - start0 > max_d {
                done = true;
            } else {
                let ghost old_run = units@.subrange(i as int, j as int + 1);
                j = j + 1;
                end = next.span.end;
                let nt = text_chars(next);
                append_text(&mut text, &nt, true);
                if next.energy > energy {
                    energy = next.energy;
                }
                proof {
                    let run = units@.subrange(i as int, j as int + 1);
                    assert(run.drop_last() =~= old_run);
                    assert(unit_texts(run).drop_last() =~= unit_texts(old_run));
                    assert(unit_texts(old_run).len() >= 1);
                    assert(run.drop_first().drop_last() =~= old_run.drop_first());
                    assert(run.drop_first().last() == units@[j as int]);
                }
                if end >= start0 && 10 * ((end - start0) as u128) >= 9 * (ideal as u128) {
                    done = true;
                }
            }
        }
        proof {
            if !done {
                assert(run_last(units@, i as int, j as int, max_d, ideal) == j);
            }
            lemma_run_last_bounds(units@, i as int, i as int, max_d, ideal);
        }
        let start = if start0 > o.pad_before { start0 - o.pad_before } else { 0 };
        let end2 = pad_end_exec(end, o.pad_after, src);
        let ghost before = win_views(r@);
        if end2 >= start && end2 - start >= min_d && end2 - start <= max_d {
            r.push((start, end2, text, energy));
            proof {
                assert(win_views(r@) =~= before.push((start, end2, join_sp(unit_texts(units@.subrange(i as int, j as int + 1))),
                    max_energy(units@.subrange(i as int, j as int + 1).drop_first(), units@[i as int].energy))));
                assert(run_windows(units@, i as int, *o, src) =~= seq![win_views(r@).last()] + run_windows(units@, j + 1, *o, src));
                assert(before + run_windows(units@, i as int, *o, src) =~= win_views(r@) + run_windows(units@, j + 1, *o, src));
            }
        } else {
            proof {
                assert(run_windows(units@, i as int, *o, src) == run_windows(units@, j + 1, *o, src));
            }
        }
        i = j + 1;
    }
    proof {
        assert(run_windows(units@, n as int, *o, src) =~= Seq::<ClipWindow>::empty());
        assert(win_views(r@) + Seq::<ClipWindow>::empty() =~= win_views(r@));
    }
    r
}

fn overlap_text_energy(units: &Vec<SemanticUnit>, t: u64, end: u64) -> (r: (Vec<char>, u32))
    ensures
        r.0@ == slide_text(units@, t as nat, end as nat),
        r.1 == max_energy(overlapping(units@, t as nat, end as nat), 500),
{
    let mut text: Vec<char> = Vec::new();
    let mut energy: u32 = 500;
    let mut any = false;
    let mut i: usize = 0;
    while i < units.len()
        invariant
            0 <= i <= units@.len(),
            text@ == join_sp(unit_texts(overlapping(units@.take(i as int), t as nat, end as nat))),
            any == (overlapping(units@.take(i as int), t as nat, end as nat).len() > 0),
            energy == max_energy(overlapping(units@.take(i as int), t as nat, end as nat), 500),
        decreases units@.len() - i,
    {
        let u = &units[i];
        let ghost ov0 = overlapping(units@.take(i as int), t as nat, end as nat);
        proof {
            assert(units@.take(i as int + 1).drop_last() =~= units@.take(i as int));
            assert(units@.take(i as int + 1).last() == units@[i as int]);
        }
        if u.span.start < end && u.span.end > t {
            let ut = text_chars(u);
            append_text(&mut text, &ut, any);
            if u.energy > energy {
                energy = u.energy;
            }
            proof {
                let ov = overlapping(units@.take(i as int + 1), t as nat, end as nat);
                assert(ov == ov0.push(units@[i as int]));
                assert(unit_texts(ov) =~= unit_texts(ov0).push(u.text@));
                assert(unit_texts(ov).drop_last() =~= unit_texts(ov0));
                if !any {
                    assert(unit_texts(ov0).len() == 0);
                    assert(text@ =~= u.text@);
                }
                assert(ov.drop_last() =~= ov0);
            }
            any = true;
        }
        i = i + 1;
    }
    proof {
        assert(units@.take(units@.len() as int) =~= units@);
    }
    if text.len() == 0 {
        let t2 = to_chars("[segmento de habla]");
        (t2, energy)
    } else {
        (text, energy)
    }
}

fn slide_windows_exec(units: &Vec<SemanticUnit>, t0: u64, budget: usize, min_d: u64, ideal: u64, speech_end: u64) -> (r: Vec<(u64, u64, Vec<char>, u32)>)
    requires
        min_d <= ideal,
    ensures
        win_views(r@) == slide_windows(units@, t0 as nat, budget as nat, min_d as nat, ideal as nat, speech_end as nat),
{
    let ghost whole = slide_windows(units@, t0 as nat, budget as nat, min_d as nat, ideal as nat, speech_end as nat);
    let mut r: Vec<(u64, u64, Vec<char>, u32)> = Vec::new();
    let mut t: u128 = if t0 as u128 > speech_end as u128 + 1 { speech_end as u128 + 1 } else { t0 as u128 };
    let mut b: usize = budget;
    let step: u128 = (ideal as u128) * 65 / 100;
    proof {
        if t != t0 as u128 {
            assert(slide_windows(units@, t as nat, b as nat, min_d as nat, ideal as nat, speech_end as nat) =~= Seq::<ClipWindow>::empty());
            assert(whole =~= Seq::<ClipWindow>::empty());
        }
        assert(win_views(r@) + whole =~= whole);
    }
    while b > 0 && t <= speech_end as u128 && (speech_end as u128) - t >= min_d as u128
        invariant
            min_d <= ideal,
            step == (ideal as nat) * 65 / 100,
            t <= speech_end as u128 + 1,
            win_views(r@) + slide_windows(units@, t as nat, b as nat, min_d as nat, ideal as nat, speech_end as nat) == whole,
        decreases b, speech_end as u128 + 1 - t,
    {
        let tt: u64 = t as u64;
        let end: u64 = if ideal > speech_end - tt { speech_end } else { tt + ideal };
        let ghost before = win_views(r@);
        let ghost next_t: nat = (t + step) as nat;
        if end - tt >= min_d {
            let (text, energy) = overlap_text_energy(units, tt, end);
            r.push((tt, end, text, energy));
            b = b - 1;
            proof {
                assert(win_views(r@) =~= before.push((tt, end, slide_text(units@, tt as nat, end as nat), max_energy(overlapping(units@, tt as nat, end as nat), 500))));
            }
        }
        let nt: u128 = if t + step > speech_end as u128 + 1 { speech_end as u128 + 1 } else { t + step };
        proof {
            if nt != next_t {
                assert(slide_windows(units@, nt as nat, b as nat, min_d as nat, ideal as nat, speech_end as nat) =~= Seq::<ClipWindow>::empty());
                assert(slide_windows(units@, next_t, b as nat, min_d as nat, ideal as nat, speech_end as nat) =~= Seq::<ClipWindow>::empty());
            }
            assert(win_views(r@) + slide_windows(units@, nt as nat, b as nat, min_d as nat, ideal as nat, speech_end as nat) =~= whole);
        }
        t = nt;
    }
    proof {
        assert(slide_windows(units@, t as nat, b as nat, min_d as nat, ideal as nat, speech_end as nat) =~= Seq::<ClipWindow>::empty());
        assert(win_views(r@) + Seq::<ClipWindow>::empty() =~= win_views(r@));
    }
    r
}

/// A window that starts no later than it ends.
pub open spec fn ordered(w: ClipWindow) -> bool {
    w.0 <= w.1
}

proof fn lemma_unit_windows_ordered(us: Seq<SemanticUnit>, o: ClippingOptions, src: u64)
    ensures
        forall|k: int| 0 <= k < unit_windows(us, o, src).len() ==> ordered(#[trigger] unit_windows(us, o, src)[k]),
    decreases us.len(),
{
    if us.len() > 0 {
        lemma_unit_windows_ordered(us.drop_last(), o, src);
        let p = unit_windows(us.drop_last(), o, src);
        match unit_window(us.last(), o, src) {
            Some(w) => {
                assert(ordered(w));
                assert forall|k: int| 0 <= k < unit_windows(us, o, src).len() implies ordered(#[trigger] unit_windows(us, o, src)[k]) by {
                    if k < p.len() {
                        assert(unit_windows(us, o, src)[k] == p[k]);
                    }
                }
            },
            None => {},
        }
    }
}

proof fn lemma_run_windows_ordered(us: Seq<SemanticUnit>, i: int, o: ClippingOptions, src: u64)
    ensures
        forall|k: int| 0 <= k < run_windows(us, i, o, src).len() ==> ordered(#[trigger] run_windows(us, i, o, src)[k]),
    decreases us.len() - i,
{
    if 0 <= i < us.len() {
        let (min_d, ideal, max_d) = bounds_of(o);
        let j = run_last(us, i, i, max_d, ideal);
        lemma_run_last_bounds(us, i, i, max_d, ideal);
        lemma_run_windows_ordered(us, j + 1, o, src);
        let rest = run_windows(us, j + 1, o, src);
        match run_window(us, i, j, o, src) {
            Some(w) => {
                assert forall|k: int| 0 <= k < run_windows(us, i, o, src).len() implies ordered(#[trigger] run_windows(us, i, o, src)[k]) by {
                    if k > 0 {
                        assert(run_windows(us, i, o, src)[k] == rest[k - 1]);
                    }
                }
            },
            None => {},
        }
    }
}

proof fn lemma_slide_windows_ordered(us: Seq<SemanticUnit>, t: nat, budget: nat, min_d: nat, ideal: nat, speech_end: nat)
    requires
        speech_end <= u64::MAX,
    ensures
        forall|k: int| 0 <= k < slide_windows(us, t, budget, min_d, ideal, speech_end).len()
            ==> ordered(#[trigger] slide_windows(us, t, budget, min_d, ideal, speech_end)[k]),
    decreases budget, speech_end - t,
{
    if !(budget == 0 || t + min_d > speech_end || min_d > ideal) {
        let end = if t + ideal > speech_end { speech_end } else { t + ideal };
        let step = ideal * 65 / 100;
        if end - t >= min_d {
            lemma_slide_windows_ordered(us, t + step, (budget - 1) as nat, min_d, ideal, speech_end);
            let rest = slide_windows(us, t + step, (budget - 1) as nat, min_d, ideal, speech_end);
            assert forall|k: int| 0 <= k < slide_windows(us, t, budget, min_d, ideal, speech_end).len()
                implies ordered(#[trigger] slide_windows(us, t, budget, min_d, ideal, speech_end)[k]) by {
                if k > 0 {
                    assert(slide_windows(us, t, budget, min_d, ideal, speech_end)[k] == rest[k - 1]);
                }
            }
        } else {
            lemma_slide_windows_ordered(us, t + step, budget, min_d, ideal, speech_end);
        }
    }
}

proof fn lemma_window_ordered(us: Seq<SemanticUnit>, o: ClippingOptions, src: u64, i: int)
    requires
        0 <= i < clip_windows(us, o, src).len(),
    ensures
        ordered(clip_windows(us, o, src)[i]),
{
    let (min_d, ideal, max_d) = bounds_of(o);
    let a = unit_windows(us, o, src);
    let b = run_windows(us, 0, o, src);
    lemma_unit_windows_ordered(us, o, src);
    lemma_run_windows_ordered(us, 0, o, src);
    let ab = a + b;
    assert forall|k: int| 0 <= k < ab.len() implies ordered(#[trigger] ab[k]) by {
        if k < a.len() {
            assert(ab[k] == a[k]);
        } else {
            assert(ab[k] == b[k - a.len()]);
        }
    }
    if ab.len() < 3 {
        let budget: nat = if ab.len() < o.max_candidates { (o.max_candidates - ab.len()) as nat } else { 0 };
        let c = slide_windows(us, us[0].span.start as nat, budget, min_d as nat, ideal as nat, us.last().span.end as nat);
        lemma_slide_windows_ordered(us, us[0].span.start as nat, budget, min_d as nat, ideal as nat, us.last().span.end as nat);
        let all = ab + c;
        assert forall|k: int| 0 <= k < all.len() implies ordered(#[trigger] all[k]) by {
            if k < ab.len() {
                assert(all[k] == ab[k]);
            } else {
                assert(all[k] == c[k - ab.len()]);
            }
        }
    }
}

fn append_windows(a: &mut Vec<(u64, u64, Vec<char>, u32)>, b: Vec<(u64, u64, Vec<char>, u32)>)
    ensures
        win_views(final(a)@) == win_views(old(a)@) + win_views(b@),
{
    let mut b = b;
    let ghost bv = win_views(b@);
    let ghost av = win_views(a@);
    let mut rev: Vec<(u64, u64, Vec<char>, u32)> = Vec::new();
    while b.len() > 0
        invariant
            win_views(b@) + win_views(rev@).reverse() == bv,
        decreases b@.len(),
    {
        let ghost before_b = win_views(b@);
        let ghost before_rev = win_views(rev@);
        let x = b.pop().unwrap();
        rev.push(x);
        proof {
            assert(win_views(b@) =~= before_b.drop_last());
            assert(win_views(rev@) =~= before_rev.push((x.0, x.1, x.2@, x.3)));
            assert(win_views(rev@).reverse() =~= seq![(x.0, x.1, x.2@, x.3)] + before_rev.reverse());
            assert(before_b =~= before_b.drop_last().push((x.0, x.1, x.2@, x.3)));
        }
    }
    while rev.len() > 0
        invariant
            win_views(a@) + win_views(rev@).reverse() == av + bv,
        decreases rev@.len(),
    {
        let ghost before_a = win_views(a@);
        let ghost before_rev = win_views(rev@);
        let x = rev.pop().unwrap();
        a.push(x);
        proof {
            assert(win_views(a@) =~= before_a.push((x.0, x.1, x.2@, x.3)));
            assert(win_views(rev@) =~= before_rev.drop_last());
            assert(before_rev.reverse() =~= seq![(x.0, x.1, x.2@, x.3)] + before_rev.drop_last().reverse());
        }
    }
    proof {
        assert(win_views(a@) + win_views(rev@).reverse() =~= win_views(a@));
    }
}

/// The windows of strategies A, B and C (see `clip_windows`).
pub fn clip_windows_exec(units: &Vec<SemanticUnit>, o: &ClippingOptions, src: u64) -> (r: Vec<(u64, u64, Vec<char>, u32)>)
    ensures
        win_views(r@) == clip_windows(units@, *o, src),
{
    if units.len() == 0 {
        return Vec::new();
    }
    let (min_d, ideal, max_d) = o.resolved_bounds();
    let mut out = unit_windows_exec(units, o, src);
    let bw = run_windows_exec(units, o, src);
    append_windows(&mut out, bw);
    if out.len() < 3 {
        let budget: usize = if out.len() < o.max_candidates { o.max_candidates - out.len() } else { 0 };
        let speech_start = units[0].span.start;
        let speech_end = units[units.len() - 1].span.end;
        let cw = slide_windows_exec(units, speech_start, budget, min_d, ideal, speech_end);
        append_windows(&mut out, cw);
    }
    if out.len() > o.max_candidates {
        let ghost before = win_views(out@);
        out.truncate(o.max_candidates);
        proof {
            assert(win_views(out@) =~= before.take(o.max_candidates as int));
        }
    }
    out
}

/// Clip candidates of the units: each window of `clip_windows` built into a
/// suggested, scored candidate of run `run_id`.
pub fn generate_candidates(run_id: &str, media_path: &str, units: &Vec<SemanticUnit>, source_duration: u64, options: &ClippingOptions, has_real_transcript: bool, framing: &ClipFraming) -> (r: Vec<ClipCandidate>)
    ensures
        ({
            let ws = clip_windows(units@, *options, source_duration);
            &&& r@.len() == ws.len()
            &&& forall|k: int| 0 <= k < r@.len() ==> candidate_of(#[trigger] r@[k], ws[k], run_id@, media_path@,
                bounds_of(*options), has_real_transcript, *framing)
        }),
{
    let ws = clip_windows_exec(units, options, source_duration);
    let bounds = options.resolved_bounds();
    let mut r: Vec<ClipCandidate> = Vec::new();
    let mut i: usize = 0;
    while i < ws.len()
        invariant
            0 <= i <= ws@.len(),
            win_views(ws@) == clip_windows(units@, *options, source_duration),
            bounds == bounds_of(*options),
            r@.len() == i,
            forall|k: int| 0 <= k < i ==> candidate_of(#[trigger] r@[k], win_views(ws@)[k], run_id@, media_path@,
                bounds, has_real_transcript, *framing),
        decreases ws@.len() - i,
    {
        let w = &ws[i];
        proof {
            lemma_window_ordered(units@, *options, source_duration, i as int);
            assert(win_views(ws@)[i as int] == (w.0, w.1, w.2@, w.3));
        }
        let c = build_candidate(run_id, media_path, w.0, w.1, &w.2, w.3, bounds, has_real_transcript, framing);
        r.push(c);
        i = i + 1;
    }
    r
}

/// Words of more than two UTF-8 bytes, in order.
pub open spec fn long_words(ws: Seq<Seq<char>>) -> Seq<Seq<char>>
    decreases ws.len(),
{
    if ws.len() == 0 {
        Seq::empty()
    } else {
        let p = long_words(ws.drop_last());
        if crate::transcript::utf8_len(ws.last()) > 2 { p.push(ws.last()) } else { p }
    }
}

/// The set of longer lowercased words of a text.
pub open spec fn word_set(t: Seq<char>) -> Set<Seq<char>> {
    long_words(words(lowercase(t))).to_set()
}

/// Two transcripts share most of their words: Jaccard similarity of their
/// longer-word sets at least 0.65 (both sets non-empty).
pub open spec fn words_alike(a: Seq<char>, b: Seq<char>) -> bool {
    let sa = word_set(a);
    let sb = word_set(b);
    sa.len() > 0 && sb.len() > 0 && 100 * sa.intersect(sb).len() >= 65 * sa.union(sb).len()
}

pub(crate) fn utf8_len_exec(w: &Vec<char>) -> (n: u128)
    ensures
        n == crate::transcript::utf8_len(w@),
{
    let mut n: u128 = 0;
    let mut i: usize = 0;
    while i < w.len()
        invariant
            0 <= i <= w@.len(),
            n == crate::transcript::utf8_len(w@.take(i as int)),
            n <= 4 * i,
        decreases w@.len() - i,
    {
        proof {
            assert(w@.take(i as int + 1).drop_last() =~= w@.take(i as int));
            assert(w@.take(i as int + 1).last() == w@[i as int]);
        }
        let c = w[i];
        let k: u128 = if (c as u32) < 0x80 { 1 } else if (c as u32) < 0x800 { 2 } else if (c as u32) < 0x10000 { 3 } else { 4 };
        n = n + k;
        i = i + 1;
    }
    proof {
        assert(w@.take(w@.len() as int) =~= w@);
    }
    n
}

fn contains_word(v: &Vec<Vec<char>>, w: &Vec<char>) -> (r: bool)
    ensures
        r == crate::captions::char_views(v@).contains(w@),
{
    let mut i: usize = 0;
    while i < v.len()
        invariant
            0 <= i <= v@.len(),
            forall|k: int| 0 <= k < i ==> v@[k]@ != w@,
        decreases v@.len() - i,
    {
        if crate::text::chars_eq(&v[i], w) {
            proof {
                assert(crate::captions::char_views(v@)[i as int] == w@);
            }
            return true;
        }
        i = i + 1;
    }
    proof {
        if crate::captions::char_views(v@).contains(w@) {
            let k = choose|k: int| 0 <= k < v@.len() && crate::captions::char_views(v@)[k] == w@;
            assert(v@[k]@ == w@);
        }
    }
    false
}

/// The distinct longer words of a text, as a list without repeats.
fn distinct_long_words(t: &String) -> (r: Vec<Vec<char>>)
    ensures
        crate::captions::char_views(r@).no_duplicates(),
        crate::captions::char_views(r@).to_set() == word_set(t@),
{
    let low = to_lowercase(t.as_str());
    let lv = to_chars(low.as_str());
    let ws = crate::filler::split_words(&lv);
    let ghost wv = crate::captions::char_views(ws@);
    proof {
        assert(wv =~= words(lowercase(t@)));
    }
    let mut r: Vec<Vec<char>> = Vec::new();
    let mut i: usize = 0;
    while i < ws.len()
        invariant
            0 <= i <= ws@.len(),
            wv == crate::captions::char_views(ws@),
            wv == words(lowercase(t@)),
            crate::captions::char_views(r@).no_duplicates(),
            crate::captions::char_views(r@).to_set() == long_words(wv.take(i as int)).to_set(),
        decreases ws@.len() - i,
    {
        proof {
            assert(wv.take(i as int + 1).drop_last() =~= wv.take(i as int));
            assert(wv.take(i as int + 1).last() == ws@[i as int]@);
        }
        let w = &ws[i];
        let ghost before = crate::captions::char_views(r@);
        if utf8_len_exec(w) > 2 && !contains_word(&r, w) {
            let mut c: Vec<char> = Vec::new();
            let mut k: usize = 0;
            while k < w.len()
                invariant
                    0 <= k <= w@.len(),
                    c@ == w@.take(k as int),
                decreases w@.len() - k,
            {
                c.push(w[k]);
                proof {
                    assert(w@.take(k as int + 1) =~= w@.take(k as int).push(w@[k as int]));
                }
                k = k + 1;
            }
            proof {
                assert(w@.take(w@.len() as int) =~= w@);
            }
            r.push(c);
            proof {
                assert(crate::captions::char_views(r@) =~= before.push(w@));
                before.lemma_push_to_set_commute(w@);
            }
        }
        proof {
            let lw = long_words(wv.take(i as int + 1));
            let lw0 = long_words(wv.take(i as int));
            if crate::transcript::utf8_len(w@) > 2 {
                assert(lw == lw0.push(w@));
                lw0.lemma_push_to_set_commute(w@);
                if before.contains(w@) {
                    assert(before.to_set().contains(w@));
                    assert(lw0.to_set().insert(w@) =~= lw0.to_set());
                }
            }
        }
        i = i + 1;
    }
    proof {
        assert(wv.take(ws@.len() as int) =~= wv);
    }
    r
}

/// Elements of `s` that `b` contains.
pub open spec fn in_count(s: Seq<Seq<char>>, b: Set<Seq<char>>) -> nat
    decreases s.len(),
{
    if s.len() == 0 { 0 } else { in_count(s.drop_last(), b) + if b.contains(s.last()) { 1nat } else { 0nat } }
}

proof fn lemma_in_count_intersect(s: Seq<Seq<char>>, b: Set<Seq<char>>)
    requires
        s.no_duplicates(),
    ensures
        s.to_set().intersect(b).len() == in_count(s, b),
    decreases s.len(),
{
    broadcast use vstd::set::group_set_axioms;
    broadcast use vstd::seq_lib::seq_to_set_is_finite;
    if s.len() == 0 {
        assert(s.to_set().intersect(b) =~= Set::<Seq<char>>::empty());
    } else {
        let p = s.drop_last();
        let x = s.last();
        assert(p.no_duplicates()) by {
            assert forall|i: int, j: int| 0 <= i < p.len() && 0 <= j < p.len() && i != j implies p[i] != p[j] by {
                assert(p[i] == s[i] && p[j] == s[j]);
            }
        }
        lemma_in_count_intersect(p, b);
        assert(s =~= p.push(x));
        p.lemma_push_to_set_commute(x);
        assert(!p.contains(x)) by {
            if p.contains(x) {
                let k = choose|k: int| 0 <= k < p.len() && p[k] == x;
                assert(s[k] == s[s.len() - 1]);
            }
        }
        assert(!p.to_set().contains(x));
        if b.contains(x) {
            assert(s.to_set().intersect(b) =~= p.to_set().intersect(b).insert(x));
            assert(!p.to_set().intersect(b).contains(x));
        } else {
            assert(s.to_set().intersect(b) =~= p.to_set().intersect(b));
        }
    }
}

/// Whether two transcripts share most of their longer words.
fn words_alike_exec(a: &String, b: &String) -> (r: bool)
    ensures
        r == words_alike(a@, b@),
{
    let da = distinct_long_words(a);
    let db = distinct_long_words(b);
    let ghost sa = crate::captions::char_views(da@);
    let ghost sb = crate::captions::char_views(db@);
    proof {
        sa.unique_seq_to_set();
        sb.unique_seq_to_set();
    }
    if da.len() == 0 || db.len() == 0 {
        return false;
    }
    let mut inter: u64 = 0;
    let mut i: usize = 0;
    while i < da.len()
        invariant
            0 <= i <= da@.len(),
            sa == crate::captions::char_views(da@),
            sb == crate::captions::char_views(db@),
            inter == in_count(sa.take(i as int), sb.to_set()),
            inter <= i,
        decreases da@.len() - i,
    {
        proof {
            assert(sa.take(i as int + 1).drop_last() =~= sa.take(i as int));
            assert(sa.take(i as int + 1).last() == da@[i as int]@);
        }
        if contains_word(&db, &da[i]) {
            inter = inter + 1;
        }
        i = i + 1;
    }
    proof {
        assert(sa.take(da@.len() as int) =~= sa);
        lemma_in_count_intersect(sa, sb.to_set());
        vstd::set_lib::lemma_set_intersect_union_lens(sa.to_set(), sb.to_set());
        vstd::seq_lib::seq_to_set_is_finite(sa);
        vstd::seq_lib::seq_to_set_is_finite(sb);
    }
    let union: u128 = da.len() as u128 + db.len() as u128 - inter as u128;
    100 * (inter as u128) >= 65 * union
}

/// Two clips are variants of one moment: they share at least 55 % of the
/// shorter one's time (at least 0.1 s counted), or most of their words.
pub open spec fn similar(a: ClipCandidate, b: ClipCandidate) -> bool {
    let ov = crate::visual::overlap_len(a.start as int, a.end as int, b.start as int, b.end as int);
    let md0 = if a.duration < b.duration { a.duration } else { b.duration };
    let md = if md0 < 100 { 100 } else { md0 };
    100 * ov >= 55 * md || words_alike(a.transcript@, b.transcript@)
}

fn similar_exec(a: &ClipCandidate, b: &ClipCandidate) -> (r: bool)
    ensures
        r == similar(*a, *b),
{
    let lo = if a.start > b.start { a.start } else { b.start };
    let hi = if a.end < b.end { a.end } else { b.end };
    let ov: u64 = if hi > lo { hi - lo } else { 0 };
    let md0 = if a.duration < b.duration { a.duration } else { b.duration };
    let md = if md0 < 100 { 100 } else { md0 };
    if 100 * (ov as u128) >= 55 * (md as u128) {
        return true;
    }
    words_alike_exec(&a.transcript, &b.transcript)
}

/// The first group leader among clips `k..j` that clip `j` is similar to.
pub open spec fn first_similar_leader(s: Seq<ClipCandidate>, j: int, k: int) -> Option<int>
    decreases j, 0int, j - k,
{
    if k < 0 || k >= j {
        None
    } else if is_leader(s, k) && similar(s[k], s[j]) {
        Some(k)
    } else {
        first_similar_leader(s, j, k + 1)
    }
}

/// Clip `j` heads its own group: no earlier leader is similar to it.
pub open spec fn is_leader(s: Seq<ClipCandidate>, j: int) -> bool
    decreases j, 1int, 0int,
{
    if j < 0 { false } else { first_similar_leader(s, j, 0) is None }
}

/// The leader of clip `j`'s group.
pub open spec fn leader_of(s: Seq<ClipCandidate>, j: int) -> int {
    match first_similar_leader(s, j, 0) {
        Some(k) => k,
        None => j,
    }
}

/// Clip `j` marked with its group: the leader's id, primary when it leads.
pub open spec fn regrouped(s: Seq<ClipCandidate>, j: int) -> ClipCandidate {
    ClipCandidate { variant_group_id: s[leader_of(s, j)].id, is_primary_variant: leader_of(s, j) == j, ..s[j] }
}

/// Scores from highest to lowest.
pub open spec fn scores_desc(s: Seq<ClipCandidate>) -> bool {
    forall|i: int, j: int| 0 <= i < j < s.len() ==> #[trigger] s[i].score >= #[trigger] s[j].score
}

proof fn lemma_fsl_bounds(s: Seq<ClipCandidate>, j: int, k: int)
    requires
        k >= 0,
    ensures
        first_similar_leader(s, j, k) matches Some(m) ==> k <= m < j && is_leader(s, m) && similar(s[m], s[j]),
        first_similar_leader(s, j, k) is None ==> forall|m: int| k <= m < j && 0 <= m ==> !(is_leader(s, m) && similar(s[m], s[j])),
    decreases j - k,
{
    if 0 <= k < j && !(is_leader(s, k) && similar(s[k], s[j])) {
        lemma_fsl_bounds(s, j, k + 1);
    }
}

/// The key that orders clips from highest to lowest score.
pub open spec fn score_key(c: ClipCandidate) -> u64 {
    (4294967295 - c.score) as u64
}

/// Each clip keyed by its score key.
pub open spec fn keyed_by_score(c: Seq<ClipCandidate>) -> Seq<(u64, ClipCandidate)> {
    Seq::new(c.len(), |i: int| (score_key(c[i]), c[i]))
}

/// The clips from highest to lowest score; clips of equal score keep their order.
pub open spec fn by_score(c: Seq<ClipCandidate>) -> Seq<ClipCandidate> {
    crate::sort::values_of(crate::sort::stably_sorted(keyed_by_score(c)))
}

/// The clips marked with their groups, group by group in the order of the
/// groups' leaders; within a group the leader comes first, then its variants
/// in list order.
pub open spec fn grouped(s: Seq<ClipCandidate>) -> Seq<ClipCandidate> {
    crate::sort::values_of(crate::sort::stably_sorted(
        Seq::new(s.len(), |m: int| (leader_of(s, m) as u64, regrouped(s, m))),
    ))
}

/// Order clips by score, highest first, keeping the order of equal scores.
fn sort_by_score(v: Vec<ClipCandidate>) -> (r: Vec<ClipCandidate>)
    ensures
        r@ == by_score(v@),
        scores_desc(r@),
{
    let ghost input = v@;
    let n = v.len();
    let mut keyed: Vec<(u64, ClipCandidate)> = Vec::new();
    let mut src = v;
    let mut i: usize = 0;
    while src.len() > 0
        invariant
            src@ == input.skip(i as int),
            i <= input.len() == n,
            keyed@.len() == i,
            forall|m: int| 0 <= m < i ==> #[trigger] keyed@[m] == (score_key(input[m]), input[m]),
        decreases src@.len(),
    {
        proof {
            assert(src@[0] == input[i as int]);
        }
        let c = src.remove(0);
        proof {
            assert(src@ =~= input.skip(i as int + 1));
        }
        keyed.push((4294967295u64 - c.score as u64, c));
        i = i + 1;
    }
    let ghost kb = keyed@;
    proof {
        assert(kb =~= keyed_by_score(input));
    }
    let sorted = crate::sort::stable_sort_by_key(keyed);
    let ghost sk = sorted@;
    proof {
        crate::sort::lemma_stably_sorted_items(kb);
    }
    let r = crate::sort::take_values(sorted);
    proof {
        assert forall|a: int, b: int| 0 <= a < b < r@.len() implies #[trigger] r@[a].score >= #[trigger] r@[b].score by {
            assert(sk[a].0 <= sk[b].0);
            assert(kb.contains(sk[a]));
            assert(kb.contains(sk[b]));
            let ia = choose|ia: int| 0 <= ia < kb.len() && kb[ia] == sk[a];
            let ib = choose|ib: int| 0 <= ib < kb.len() && kb[ib] == sk[b];
        }
    }
    r
}

/// Group overlapping or textually similar clips: the best scoring clip of
/// each group stays primary and names the group, the others become its
/// variants. The clips are first ordered by score; the groups are listed in
/// the order of their leaders and the result ordered by score again, equal
/// scores keeping their order each time.
pub fn dedupe_and_group(candidates: Vec<ClipCandidate>) -> (r: Vec<ClipCandidate>)
    ensures
        r@ == by_score(grouped(by_score(candidates@))),
        scores_desc(r@),
{
    let sv = sort_by_score(candidates);
    let ghost s = sv@;
    let n = sv.len();
    // group leaders
    let mut lead: Vec<usize> = Vec::new();
    let mut j: usize = 0;
    while j < n
        invariant
            0 <= j <= n == s.len() == sv@.len(),
            s == sv@,
            lead@.len() == j,
            forall|m: int| 0 <= m < j ==> #[trigger] lead@[m] as int == leader_of(s, m),
        decreases n - j,
    {
        let mut k: usize = 0;
        let mut found = false;
        let mut at: usize = j;
        while k < j && !found
            invariant
                0 <= k <= j < n,
                s == sv@,
                sv@.len() == n,
                lead@.len() == j,
                forall|m: int| 0 <= m < j ==> #[trigger] lead@[m] as int == leader_of(s, m),
                !found ==> first_similar_leader(s, j as int, 0) == first_similar_leader(s, j as int, k as int),
                found ==> at < j && first_similar_leader(s, j as int, 0) == Some(at as int),
                !found ==> at == j,
            decreases j - k, if found { 0int } else { 1int },
        {
            proof {
                assert(is_leader(s, k as int) == (leader_of(s, k as int) == k)) by {
                    lemma_fsl_bounds(s, k as int, 0);
                }
            }
            if lead[k] == k && similar_exec(&sv[k], &sv[j]) {
                found = true;
                at = k;
            } else {
                k = k + 1;
            }
        }
        let ghost old_lead = lead@;
        lead.push(at);
        proof {
            assert forall|m: int| 0 <= m < j implies #[trigger] lead@[m] as int == leader_of(s, m) by {
                assert(lead@[m] == old_lead[m]);
            }
            if !found {
                assert(first_similar_leader(s, j as int, j as int) is None);
                assert(leader_of(s, j as int) == j);
            } else {
                assert(leader_of(s, j as int) == at);
            }
            assert(lead@[j as int] == at);
            assert forall|m: int| 0 <= m < j + 1 implies #[trigger] lead@[m] as int == leader_of(s, m) by {
                if m < j {
                    assert(lead@[m] == old_lead[m]);
                }
            }
        }
        j = j + 1;
    }
    // mark groups and order by (score, group, position)
    let mut gids: Vec<String> = Vec::new();
    let mut t: usize = 0;
    while t < n
        invariant
            0 <= t <= n == s.len() == sv@.len() == lead@.len(),
            s == sv@,
            forall|m: int| 0 <= m < n ==> #[trigger] lead@[m] as int == leader_of(s, m),
            gids@.len() == t,
            forall|m: int| 0 <= m < t ==> #[trigger] gids@[m] == s[leader_of(s, m)].id,
        decreases n - t,
    {
        proof {
            lemma_fsl_bounds(s, t as int, 0);
        }
        let g = sv[lead[t]].id.clone();
        gids.push(g);
        t = t + 1;
    }
    let mut marked: Vec<(u64, ClipCandidate)> = Vec::new();
    let mut svs = sv;
    let mut gsrc = gids;
    let mut p: usize = 0;
    while svs.len() > 0
        invariant
            p <= n == s.len() == lead@.len(),
            svs@ == s.skip(p as int),
            gsrc@.len() == n - p,
            forall|m: int| 0 <= m < n - p ==> #[trigger] gsrc@[m] == s[leader_of(s, m + p)].id,
            forall|m: int| 0 <= m < n ==> #[trigger] lead@[m] as int == leader_of(s, m),
            marked@.len() == p,
            forall|m: int| 0 <= m < p ==> #[trigger] marked@[m] == (leader_of(s, m) as u64, regrouped(s, m)),
        decreases svs@.len(),
    {
        proof {
            assert(svs@[0] == s[p as int]);
        }
        let mut c = svs.remove(0);
        let ghost gbefore = gsrc@;
        let g = gsrc.remove(0);
        proof {
            assert(svs@ =~= s.skip(p as int + 1));
            assert forall|m: int| 0 <= m < n - p - 1 implies #[trigger] gsrc@[m] == s[leader_of(s, m + p + 1)].id by {
                assert(gsrc@[m] == gbefore[m + 1]);
            }
        }
        c.variant_group_id = g;
        c.is_primary_variant = lead[p] == p;
        marked.push((lead[p] as u64, c));
        p = p + 1;
    }
    proof {
        assert(marked@ =~= Seq::new(s.len(), |m: int| (leader_of(s, m) as u64, regrouped(s, m))));
    }
    let in_groups = crate::sort::take_values(crate::sort::stable_sort_by_key(marked));
    sort_by_score(in_groups)
}

/// Primary clip `j` comes before primary clip `i` in preselection order:
/// higher score, or equal score and earlier in the list.
pub open spec fn ranks_before(s: Seq<ClipCandidate>, j: int, i: int) -> bool {
    s[j].is_primary_variant && (s[j].score > s[i].score || (s[j].score == s[i].score && j < i))
}

/// How many primaries among the first `n` clips rank before clip `i`.
pub open spec fn rank_count(s: Seq<ClipCandidate>, i: int, n: int) -> nat
    decreases n,
{
    if n <= 0 { 0 } else { rank_count(s, i, n - 1) + if ranks_before(s, n - 1, i) { 1nat } else { 0nat } }
}

/// The status preselection gives primary clip `i`: discarded under the
/// minimum score; preselected within the profile's count and floor;
/// otherwise suggested.
pub open spec fn primary_status(s: Seq<ClipCandidate>, i: int, max_pre: usize, floor: u32) -> ClipReviewStatus {
    let f = if floor < MIN_CLIP_SCORE { MIN_CLIP_SCORE } else { floor };
    if s[i].score < MIN_CLIP_SCORE {
        ClipReviewStatus::Discarded
    } else if s[i].score >= f && rank_count(s, i, s.len() as int) < max_pre {
        ClipReviewStatus::Preselected
    } else {
        ClipReviewStatus::Suggested
    }
}

/// Index of the first primary clip among the first `n` whose group is `gid`.
pub open spec fn first_primary_of(s: Seq<ClipCandidate>, gid: Seq<char>, n: int) -> Option<int>
    decreases n,
{
    if n <= 0 {
        None
    } else {
        match first_primary_of(s, gid, n - 1) {
            Some(k) => Some(k),
            None => if s[n - 1].is_primary_variant && s[n - 1].variant_group_id@ == gid { Some(n - 1) } else { None },
        }
    }
}

/// The status of clip `i` after preselection.
pub open spec fn preselected_status(s: Seq<ClipCandidate>, i: int, max_pre: usize, floor: u32) -> ClipReviewStatus {
    if s[i].is_primary_variant {
        primary_status(s, i, max_pre, floor)
    } else {
        match first_primary_of(s, s[i].variant_group_id@, s.len() as int) {
            Some(k) => if primary_status(s, k, max_pre, floor) == ClipReviewStatus::Discarded {
                ClipReviewStatus::Discarded
            } else {
                ClipReviewStatus::Suggested
            },
            None => ClipReviewStatus::Discarded,
        }
    }
}

proof fn lemma_first_primary_bounds(s: Seq<ClipCandidate>, gid: Seq<char>, n: int)
    requires
        0 <= n <= s.len(),
    ensures
        first_primary_of(s, gid, n) matches Some(k) ==> 0 <= k < n && s[k].is_primary_variant,
    decreases n,
{
    if n > 0 {
        lemma_first_primary_bounds(s, gid, n - 1);
    }
}

fn set_status(v: &mut Vec<ClipCandidate>, i: usize, st: ClipReviewStatus)
    requires
        i < old(v)@.len(),
    ensures
        final(v)@.len() == old(v)@.len(),
        forall|k: int| 0 <= k < old(v)@.len() && k != i ==> #[trigger] final(v)@[k] == old(v)@[k],
        final(v)@[i as int] == (ClipCandidate { status: st, ..old(v)@[i as int] }),
{
    let mut c = v.remove(i);
    c.status = st;
    v.insert(i, c);
    proof {
        assert forall|k: int| 0 <= k < old(v)@.len() && k != i implies #[trigger] v@[k] == old(v)@[k] by {
            if k < i {
            } else {
            }
        }
    }
}

/// Preselect the top primary clips of the profile and settle the others:
/// every clip under the minimum score is discarded, variants follow their
/// primary (discarded with it, else suggested).
pub fn apply_preselection(candidates: &mut Vec<ClipCandidate>, options: &ClippingOptions)
    ensures
        final(candidates)@.len() == old(candidates)@.len(),
        forall|i: int| 0 <= i < old(candidates)@.len() ==> #[trigger] final(candidates)@[i] == (ClipCandidate {
            status: preselected_status(old(candidates)@, i, profile_limits(options.selection_profile).0,
                profile_limits(options.selection_profile).1),
            ..old(candidates)@[i]
        }),
{
    let (max_pre, floor) = options.selection_profile.limits();
    let floor_score = if floor < MIN_CLIP_SCORE { MIN_CLIP_SCORE } else { floor };
    let ghost s0 = candidates@;
    let n = candidates.len();
    // statuses computed on the untouched list first
    let mut sts: Vec<ClipReviewStatus> = Vec::new();
    let mut i: usize = 0;
    while i < n
        invariant
            0 <= i <= n == s0.len(),
            candidates@ == s0,
            (max_pre, floor) == profile_limits(options.selection_profile),
            floor_score == (if floor < MIN_CLIP_SCORE { MIN_CLIP_SCORE } else { floor }),
            sts@.len() == i,
            forall|k: int| 0 <= k < i ==> #[trigger] sts@[k] == preselected_status(s0, k, max_pre, floor),
        decreases n - i,
    {
        let c = &candidates[i];
        let st = if c.is_primary_variant {
            let mut rank: usize = 0;
            let mut j: usize = 0;
            while j < n
                invariant
                    0 <= j <= n == s0.len(),
                    candidates@ == s0,
                    i < n,
                    rank == rank_count(s0, i as int, j as int),
                    rank <= j,
                decreases n - j,
            {
                let d = &candidates[j];
                if d.is_primary_variant && (d.score > candidates[i].score || (d.score == candidates[i].score && j < i)) {
                    rank = rank + 1;
                }
                j = j + 1;
            }
            if c.score < MIN_CLIP_SCORE {
                ClipReviewStatus::Discarded
            } else if c.score >= floor_score && rank < max_pre {
                ClipReviewStatus::Preselected
            } else {
                ClipReviewStatus::Suggested
            }
        } else {
            let mut found: Option<usize> = None;
            let mut j: usize = 0;
            while j < n && found.is_none()
                invariant
                    0 <= j <= n == s0.len(),
                    candidates@ == s0,
                    i < n,
                    found is None ==> first_primary_of(s0, s0[i as int].variant_group_id@, j as int) is None,
                    found matches Some(k) ==> first_primary_of(s0, s0[i as int].variant_group_id@, n as int) == Some(k as int) && k < n,
                decreases n - j, if found is None { 1int } else { 0int },
            {
                let d = &candidates[j];
                if d.is_primary_variant && d.variant_group_id == candidates[i].variant_group_id {
                    found = Some(j);
                    proof {
                        lemma_first_primary_prefix(s0, s0[i as int].variant_group_id@, j as int + 1, n as int);
                    }
                } else {
                    j = j + 1;
                }
            }
            match found {
                Some(k) => {
                    let mut rank: usize = 0;
                    let mut q: usize = 0;
                    while q < n
                        invariant
                            0 <= q <= n == s0.len(),
                            candidates@ == s0,
                            k < n,
                            rank == rank_count(s0, k as int, q as int),
                            rank <= q,
                        decreases n - q,
                    {
                        let d = &candidates[q];
                        if d.is_primary_variant && (d.score > candidates[k].score || (d.score == candidates[k].score && q < k)) {
                            rank = rank + 1;
                        }
                        q = q + 1;
                    }
                    let ks = candidates[k].score;
                    let pk = if ks < MIN_CLIP_SCORE {
                        ClipReviewStatus::Discarded
                    } else if ks >= floor_score && rank < max_pre {
                        ClipReviewStatus::Preselected
                    } else {
                        ClipReviewStatus::Suggested
                    };
                    if pk == ClipReviewStatus::Discarded { ClipReviewStatus::Discarded } else { ClipReviewStatus::Suggested }
                },
                None => ClipReviewStatus::Discarded,
            }
        };
        sts.push(st);
        i = i + 1;
    }
    let mut k: usize = 0;
    while k < n
        invariant
            0 <= k <= n == s0.len() == sts@.len() == candidates@.len(),
            forall|m: int| 0 <= m < n ==> #[trigger] sts@[m] == preselected_status(s0, m, max_pre, floor),
            forall|m: int| 0 <= m < k ==> #[trigger] candidates@[m] == (ClipCandidate { status: sts@[m], ..s0[m] }),
            forall|m: int| k <= m < n ==> #[trigger] candidates@[m] == s0[m],
        decreases n - k,
    {
        set_status(candidates, k, sts[k]);
        k = k + 1;
    }
}

proof fn lemma_first_primary_prefix(s: Seq<ClipCandidate>, gid: Seq<char>, m: int, n: int)
    requires
        0 <= m <= n <= s.len(),
        first_primary_of(s, gid, m) is Some,
    ensures
        first_primary_of(s, gid, n) == first_primary_of(s, gid, m),
    decreases n - m,
{
    if m < n {
        lemma_first_primary_prefix(s, gid, m, n - 1);
    }
}

/// A text that stands for speech without words: empty, a speech-block
/// placeholder, or fewer than three letters.
pub open spec fn is_placeholder_text(t: Seq<char>) -> bool {
    let low = lowercase(trim(t));
    low.len() == 0 || has_sub(low, "[habla"@) || has_sub(low, "[segmento"@) || occurs_at(low, "habla "@, 0)
        || alpha_count(low) < 3
}

fn is_placeholder_exec(t: &String) -> (r: bool)
    ensures
        r == is_placeholder_text(t@),
{
    let raw = to_chars(t.as_str());
    let tt = crate::captions::trim_exec(&raw);
    let ts = crate::text::from_chars(&tt);
    let low = to_lowercase(ts.as_str());
    let lv = to_chars(low.as_str());
    lv.len() == 0 || contains_lit(&lv, "[habla") || contains_lit(&lv, "[segmento") || starts_with_lit(&lv, "habla ")
        || alpha_count_exec(&lv) < 3
}

/// Quote, bracket or guillemet stripped from the ends of a title.
pub open spec fn title_trim_char(c: char) -> bool {
    c == '"' || c == '\'' || c == '[' || c == ']' || c == '«' || c == '»'
}

/// The text without title-trim characters at its ends.
pub open spec fn trim_title_chars(s: Seq<char>) -> Seq<char>
    decreases s.len(),
{
    if s.len() == 0 {
        s
    } else if title_trim_char(s[0]) {
        trim_title_chars(s.drop_first())
    } else if title_trim_char(s.last()) {
        trim_title_chars(s.drop_last())
    } else {
        s
    }
}

fn is_title_trim(c: char) -> (r: bool)
    ensures
        r == title_trim_char(c),
{
    c == '"' || c == '\'' || c == '[' || c == ']' || c == '«' || c == '»'
}

fn trim_title_exec(v: &Vec<char>) -> (r: Vec<char>)
    ensures
        r@ == trim_title_chars(v@),
{
    let mut a: usize = 0;
    let mut b: usize = v.len();
    proof {
        assert(v@.subrange(0, v@.len() as int) =~= v@);
    }
    while a < b && is_title_trim(v[a])
        invariant
            0 <= a <= b == v@.len(),
            trim_title_chars(v@) == trim_title_chars(v@.subrange(a as int, b as int)),
        decreases b - a,
    {
        proof {
            assert(v@.subrange(a as int, b as int).drop_first() =~= v@.subrange(a as int + 1, b as int));
        }
        a = a + 1;
    }
    while a < b && is_title_trim(v[b - 1])
        invariant
            0 <= a <= b <= v@.len(),
            trim_title_chars(v@) == trim_title_chars(v@.subrange(a as int, b as int)),
            a < b ==> !title_trim_char(v@[a as int]),
        decreases b - a,
    {
        proof {
            let w = v@.subrange(a as int, b as int);
            assert(w.drop_last() =~= v@.subrange(a as int, b as int - 1));
            assert(w[0] == v@[a as int]);
        }
        b = b - 1;
    }
    proof {
        let w = v@.subrange(a as int, b as int);
        if w.len() > 0 {
            assert(w[0] == v@[a as int]);
            assert(w.last() == v@[b - 1]);
        }
    }
    crate::captions::sub_chars(v, a, b)
}

/// A sentence end.
pub open spec fn sentence_end(c: char) -> bool {
    c == '.' || c == '?' || c == '!' || c == '…'
}

/// Index of the first sentence end of a text.
pub open spec fn first_end(s: Seq<char>, k: int) -> Option<int>
    decreases s.len() - k,
{
    if k < 0 || k >= s.len() {
        None
    } else if sentence_end(s[k]) {
        Some(k)
    } else {
        first_end(s, k + 1)
    }
}

/// The cleaned text a content title is cut from.
pub open spec fn title_source(text: Seq<char>) -> Seq<char> {
    trim_title_chars(crate::filler::collapse_ws(text))
}

/// The first sentence of the cleaned text opens with an ellipsis character
/// as its end (the title cut would split that character).
pub open spec fn ends_first_with_ellipsis(text: Seq<char>) -> bool {
    first_end(title_source(text), 0) matches Some(i) && title_source(text)[i] == '…'
}

/// A title from the words of a transcript: up to the first sentence end, at
/// most eight words ("…" added when the text has more and no end mark), first
/// letter uppercased; "Momento" when there are no words.
pub open spec fn content_title(text: Seq<char>) -> Seq<char> {
    let clean = title_source(text);
    let cut = match first_end(clean, 0) { Some(i) => clean.take(i + 1), None => clean };
    let ws = words(cut);
    if ws.len() == 0 {
        "Momento"@
    } else {
        let t = join_sp(ws.take(if ws.len() > 8 { 8 } else { ws.len() as int }));
        let more = words(clean).len() > 8 && !(t.len() > 0 && sentence_end(t.last()));
        let t2 = if more { t.push('…') } else { t };
        upper(t2[0]) + t2.drop_first()
    }
}

fn first_n_words(ws: &Vec<Vec<char>>, k: usize) -> (r: Vec<char>)
    requires
        k <= ws@.len(),
    ensures
        r@ == join_sp(crate::captions::char_views(ws@).take(k as int)),
{
    let mut head: Vec<Vec<char>> = Vec::new();
    let mut i: usize = 0;
    while i < k
        invariant
            0 <= i <= k <= ws@.len(),
            crate::captions::char_views(head@) == crate::captions::char_views(ws@).take(i as int),
        decreases k - i,
    {
        let src = &ws[i];
        let w = crate::captions::sub_chars(src, 0, src.len());
        let ghost old_head = crate::captions::char_views(head@);
        head.push(w);
        proof {
            assert(src@.subrange(0, src@.len() as int) =~= src@);
            assert(crate::captions::char_views(head@) =~= old_head.push(w@));
            assert(crate::captions::char_views(ws@).take(i as int + 1) =~= crate::captions::char_views(ws@).take(i as int).push(ws@[i as int]@));
        }
        i = i + 1;
    }
    let r = crate::captions::join_space(&head, 0);
    proof {
        assert(crate::captions::char_views(head@).skip(0) =~= crate::captions::char_views(head@));
    }
    r
}

fn capitalize_exec(t: &Vec<char>) -> (r: String)
    requires
        t@.len() > 0,
    ensures
        r@ == upper(t@[0]) + t@.drop_first(),
{
    let mut out = uppercase_char(t[0]);
    let ghost up = out@;
    let mut j: usize = 1;
    while j < t.len()
        invariant
            1 <= j <= t@.len(),
            out@ == up + t@.subrange(1, j as int),
        decreases t@.len() - j,
    {
        crate::text::push_char(&mut out, t[j]);
        proof {
            assert(t@.subrange(1, j as int + 1) =~= t@.subrange(1, j as int).push(t@[j as int]));
        }
        j = j + 1;
    }
    proof {
        assert(t@.subrange(1, t@.len() as int) =~= t@.drop_first());
    }
    out
}

fn content_title_exec(text: &String) -> (r: String)
    ensures
        r@ == content_title(text@),
{
    let raw = to_chars(text.as_str());
    let col = crate::filler::collapse(&raw);
    let clean = trim_title_exec(&col);
    let mut k: usize = 0;
    let mut end: Option<usize> = None;
    while k < clean.len() && end.is_none()
        invariant
            0 <= k <= clean@.len(),
            end is None ==> first_end(clean@, 0) == first_end(clean@, k as int),
            end matches Some(i) ==> first_end(clean@, 0) == Some(i as int) && i < clean@.len(),
        decreases clean@.len() - k, if end is None { 1int } else { 0int },
    {
        let c = clean[k];
        if c == '.' || c == '?' || c == '!' || c == '…' {
            end = Some(k);
        } else {
            k = k + 1;
        }
    }
    let cut = match end {
        Some(i) => crate::captions::sub_chars(&clean, 0, i + 1),
        None => crate::captions::sub_chars(&clean, 0, clean.len()),
    };
    proof {
        match end {
            Some(i) => { assert(cut@ =~= clean@.take(i as int + 1)); },
            None => {
                assert(first_end(clean@, clean@.len() as int) is None);
                assert(cut@ =~= clean@);
            },
        }
    }
    let ws = crate::filler::split_words(&cut);
    if ws.len() == 0 {
        return String::from_str("Momento");
    }
    let n = if ws.len() > 8 { 8 } else { ws.len() };
    let mut t = first_n_words(&ws, n);
    proof {
        assert(crate::captions::char_views(ws@) =~= words(cut@));
        crate::filler::lemma_words_nonempty_each(cut@);
        assert(crate::captions::char_views(ws@).take(n as int)[0] == ws@[0]@);
        crate::captions::lemma_join_nonempty(crate::captions::char_views(ws@).take(n as int));
    }
    let all_words = crate::filler::split_words(&clean).len();
    let tl = t.len();
    let ends = t[tl - 1] == '.' || t[tl - 1] == '?' || t[tl - 1] == '!' || t[tl - 1] == '…';
    if all_words > 8 && !ends {
        t.push('…');
    }
    capitalize_exec(&t)
}

/// A snippet of at most `max` characters: the words joined by single
/// spaces, cut to `max - 1` characters and "…" when longer.
pub open spec fn snippet_of(text: Seq<char>, max: nat) -> Seq<char> {
    let clean = crate::filler::collapse_ws(text);
    if clean.len() <= max { clean } else { clean.take(if max >= 1 { max - 1 } else { 0 }).push('…') }
}

fn snippet_exec(text: &String, max: usize) -> (r: String)
    ensures
        r@ == snippet_of(text@, max as nat),
{
    let raw = to_chars(text.as_str());
    let clean = crate::filler::collapse(&raw);
    if clean.len() <= max {
        return crate::text::from_chars(&clean);
    }
    let k = if max >= 1 { max - 1 } else { 0 };
    let mut t = crate::captions::sub_chars(&clean, 0, k);
    t.push('…');
    proof {
        assert(t@ =~= clean@.take(k as int).push('…'));
    }
    crate::text::from_chars(&t)
}

/// Primary clip `j` comes before primary clip `i` in time order (ties by position).
pub open spec fn starts_before(s: Seq<ClipCandidate>, j: int, i: int) -> bool {
    s[j].is_primary_variant && (s[j].start < s[i].start || (s[j].start == s[i].start && j < i))
}

/// How many primaries among the first `n` clips start before clip `i`.
pub open spec fn start_rank(s: Seq<ClipCandidate>, i: int, n: int) -> nat
    decreases n,
{
    if n <= 0 { 0 } else { start_rank(s, i, n - 1) + if starts_before(s, n - 1, i) { 1nat } else { 0nat } }
}

/// The `(title, summary)` a primary clip gets as number `num`.
pub open spec fn numbered(c: ClipCandidate, num: nat) -> (Seq<char>, Seq<char>) {
    if is_placeholder_text(c.transcript@) || is_placeholder_text(c.title@) {
        ("Clip "@ + crate::text::dec2(num),
            crate::artifacts::ts_text(c.start) + "–"@ + crate::artifacts::ts_text(c.end) + " · "@
                + crate::text::dec(secs_rounded(c.duration)) + "s"@)
    } else {
        (crate::text::dec2(num) + ". "@ + content_title(c.transcript@),
            if trim(c.summary@).len() == 0 || is_placeholder_text(c.summary@) { snippet_of(c.transcript@, 140) } else { c.summary@ })
    }
}

/// The text before the first " · " separator.
pub open spec fn before_sep(t: Seq<char>) -> Seq<char> {
    match crate::captions::first_occ(t, " · "@) {
        Some(i) => t.take(i),
        None => t,
    }
}

/// The title and summary clip `i` ends with: primaries numbered in time
/// order, variants named after their group's first primary ("… · var").
pub open spec fn final_text(s: Seq<ClipCandidate>, i: int) -> (Seq<char>, Seq<char>) {
    if s[i].is_primary_variant {
        numbered(s[i], start_rank(s, i, s.len() as int) + 1)
    } else {
        let parent = match first_primary_of(s, s[i].variant_group_id@, s.len() as int) {
            Some(k) => numbered(s[k], start_rank(s, k, s.len() as int) + 1).0,
            None => "Clip"@,
        };
        (before_sep(parent) + " · var"@, s[i].summary@)
    }
}

/// `n` is `o` with only title and summary replaced by `t`.
pub open spec fn retitled(o: ClipCandidate, n: ClipCandidate, t: (Seq<char>, Seq<char>)) -> bool {
    n == ClipCandidate { title: n.title, summary: n.summary, ..o } && n.title@ == t.0 && n.summary@ == t.1
}

fn set_texts(v: &mut Vec<ClipCandidate>, i: usize, title: String, summary: String)
    requires
        i < old(v)@.len(),
    ensures
        final(v)@.len() == old(v)@.len(),
        forall|k: int| 0 <= k < old(v)@.len() && k != i ==> #[trigger] final(v)@[k] == old(v)@[k],
        final(v)@[i as int] == (ClipCandidate { title, summary, ..old(v)@[i as int] }),
{
    let mut c = v.remove(i);
    c.title = title;
    c.summary = summary;
    v.insert(i, c);
    proof {
        assert forall|k: int| 0 <= k < old(v)@.len() && k != i implies #[trigger] v@[k] == old(v)@[k] by {
            if k < i {
            } else {
            }
        }
    }
}

fn numbered_exec(c: &ClipCandidate, num: u64) -> (r: (String, String))
    requires
        !(is_placeholder_text(c.transcript@) || is_placeholder_text(c.title@)) ==> !ends_first_with_ellipsis(c.transcript@),
    ensures
        (r.0@, r.1@) == numbered(*c, num as nat),
{
    if is_placeholder_exec(&c.transcript) || is_placeholder_exec(&c.title) {
        let mut t = String::from_str("Clip ");
        crate::text::push_dec2(&mut t, num);
        let mut sm = crate::artifacts::format_ts(c.start);
        push_str(&mut sm, "–");
        let e = crate::artifacts::format_ts(c.end);
        push_str(&mut sm, e.as_str());
        push_str(&mut sm, " · ");
        push_secs_rounded(&mut sm, c.duration);
        push_str(&mut sm, "s");
        proof {
            assert(t@ =~= numbered(*c, num as nat).0);
            assert(sm@ =~= numbered(*c, num as nat).1);
        }
        (t, sm)
    } else {
        let mut t = String::new();
        crate::text::push_dec2(&mut t, num);
        push_str(&mut t, ". ");
        let ct = content_title_exec(&c.transcript);
        push_str(&mut t, ct.as_str());
        let raw = to_chars(c.summary.as_str());
        let st = crate::captions::trim_exec(&raw);
        let sm = if st.len() == 0 || is_placeholder_exec(&c.summary) {
            snippet_exec(&c.transcript, 140)
        } else {
            c.summary.clone()
        };
        proof {
            assert(t@ =~= numbered(*c, num as nat).0);
        }
        (t, sm)
    }
}

fn before_sep_exec(t: &String) -> (r: String)
    ensures
        r@ == before_sep(t@),
{
    let v = to_chars(t.as_str());
    let sep = to_chars(" · ");
    match crate::captions::find_sub(&v, &sep) {
        Some(i) => {
            let h = crate::captions::sub_chars(&v, 0, i);
            proof {
                assert(h@ =~= v@.take(i as int));
            }
            crate::text::from_chars(&h)
        },
        None => crate::text::from_chars(&v),
    }
}

/// Label each clip: primaries get "NN. first words…" (or "Clip NN" with a
/// time range for speech placeholders), numbered in time order; variants
/// get their group's title base and " · var".
pub fn finalize_clip_titles(candidates: &mut Vec<ClipCandidate>)
    requires
        forall|i: int| 0 <= i < old(candidates)@.len() && (#[trigger] old(candidates)@[i]).is_primary_variant
            && !(is_placeholder_text(old(candidates)@[i].transcript@) || is_placeholder_text(old(candidates)@[i].title@))
            ==> !ends_first_with_ellipsis(old(candidates)@[i].transcript@),
    ensures
        final(candidates)@.len() == old(candidates)@.len(),
        forall|i: int| 0 <= i < old(candidates)@.len() ==> retitled(old(candidates)@[i], #[trigger] final(candidates)@[i],
            final_text(old(candidates)@, i)),
{
    let ghost s0 = candidates@;
    let n = candidates.len();
    let mut titles: Vec<(String, String)> = Vec::new();
    let mut i: usize = 0;
    while i < n
        invariant
            0 <= i <= n == s0.len(),
            candidates@ == s0,
            forall|i: int| 0 <= i < s0.len() && (#[trigger] s0[i]).is_primary_variant
                && !(is_placeholder_text(s0[i].transcript@) || is_placeholder_text(s0[i].title@))
                ==> !ends_first_with_ellipsis(s0[i].transcript@),
            titles@.len() == i,
            forall|k: int| 0 <= k < i ==> ((#[trigger] titles@[k]).0@, titles@[k].1@) == final_text(s0, k),
        decreases n - i,
    {
        let t = if candidates[i].is_primary_variant {
            let r = start_rank_exec(candidates, i);
            numbered_exec(&candidates[i], r + 1)
        } else {
            let mut found: Option<usize> = None;
            let mut j: usize = 0;
            while j < n && found.is_none()
                invariant
                    0 <= j <= n == s0.len(),
                    candidates@ == s0,
                    i < n,
                    found is None ==> first_primary_of(s0, s0[i as int].variant_group_id@, j as int) is None,
                    found matches Some(k) ==> first_primary_of(s0, s0[i as int].variant_group_id@, n as int) == Some(k as int) && k < n,
                decreases n - j, if found is None { 1int } else { 0int },
            {
                let d = &candidates[j];
                if d.is_primary_variant && d.variant_group_id == candidates[i].variant_group_id {
                    found = Some(j);
                    proof {
                        lemma_first_primary_prefix(s0, s0[i as int].variant_group_id@, j as int + 1, n as int);
                    }
                } else {
                    j = j + 1;
                }
            }
            let parent = match found {
                Some(k) => {
                    proof {
                        lemma_first_primary_bounds(s0, s0[i as int].variant_group_id@, n as int);
                    }
                    let r = start_rank_exec(candidates, k);
                    numbered_exec(&candidates[k], r + 1).0
                },
                None => String::from_str("Clip"),
            };
            let mut b = before_sep_exec(&parent);
            push_str(&mut b, " · var");
            (b, candidates[i].summary.clone())
        };
        titles.push(t);
        i = i + 1;
    }
    let mut k: usize = 0;
    let mut ts = titles;
    while k < n
        invariant
            0 <= k <= n == s0.len() == candidates@.len(),
            ts@.len() == n - k,
            forall|m: int| 0 <= m < n - k ==> ((#[trigger] ts@[m]).0@, ts@[m].1@) == final_text(s0, m + k),
            forall|m: int| 0 <= m < k ==> retitled(s0[m], #[trigger] candidates@[m], final_text(s0, m)),
            forall|m: int| k <= m < n ==> #[trigger] candidates@[m] == s0[m],
        decreases n - k,
    {
        let ghost before = ts@;
        let (t, sm) = ts.remove(0);
        proof {
            assert forall|m: int| 0 <= m < n - k - 1 implies ((#[trigger] ts@[m]).0@, ts@[m].1@) == final_text(s0, m + k + 1) by {
                assert(ts@[m] == before[m + 1]);
            }
        }
        set_texts(candidates, k, t, sm);
        k = k + 1;
    }
}

fn start_rank_exec(candidates: &Vec<ClipCandidate>, i: usize) -> (r: u64)
    requires
        i < candidates@.len(),
    ensures
        r == start_rank(candidates@, i as int, candidates@.len() as int),
        r < u64::MAX,
{
    let n = candidates.len();
    let mut rank: u64 = 0;
    let mut j: usize = 0;
    while j < n
        invariant
            0 <= j <= n == candidates@.len(),
            i < n,
            rank == start_rank(candidates@, i as int, j as int),
            rank <= j,
            j > i ==> rank < j,
        decreases n - j,
    {
        let d = &candidates[j];
        if d.is_primary_variant && (d.start < candidates[i].start || (d.start == candidates[i].start && j < i)) {
            rank = rank + 1;
        }
        j = j + 1;
    }
    rank
}

} // verus!
