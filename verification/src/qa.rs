//! Automated image review: cheap technical checks first, then a heuristic
//! semantic check of the brief; approve, reject or ask a human.
use vstd::prelude::*;
use crate::error::AppError;
use crate::export::views;
use crate::needs::{join_with, push_joined};
use crate::text::{lowercase, to_lowercase, to_chars, contains_sub, has_sub, push_str, push_dec};

verus! {

/// Review status of a generated image or asset.
#[derive(Clone, Copy, Debug, PartialEq, Eq, Structural)]
pub enum QaStatus {
    NotReviewed,
    AutomatedReview,
    Approved,
    NeedsHumanReview,
    Rejected,
}

/// The status that a review decision gives.
pub fn decision_to_qa_status(decision: &str) -> (r: QaStatus)
    ensures
        r == (if decision@ == "approve"@ {
            QaStatus::Approved
        } else if decision@ == "needs_human"@ {
            QaStatus::NeedsHumanReview
        } else if decision@ == "reject"@ {
            QaStatus::Rejected
        } else {
            QaStatus::AutomatedReview
        }),
{
    if crate::text::str_eq(decision, "approve") {
        QaStatus::Approved
    } else if crate::text::str_eq(decision, "needs_human") {
        QaStatus::NeedsHumanReview
    } else if crate::text::str_eq(decision, "reject") {
        QaStatus::Rejected
    } else {
        QaStatus::AutomatedReview
    }
}

/// Limits of the review; qualities in thousandths.
#[derive(Clone, Copy, Debug, PartialEq, Eq)]
pub struct QaThresholds {
    pub min_width: u32,
    pub min_height: u32,
    pub max_file_bytes: u64,
    pub auto_approve_tech: u32,
    pub human_review_tech: u32,
    pub auto_approve_semantic: u32,
    pub reject_semantic: u32,
    pub phash_dup_distance: u32,
}

impl QaThresholds {
    /// At least 256×256, at most 25 MiB; approve from technical 0.75 and
    /// semantic 0.72; reject under technical 0.45 or semantic 0.35; near
    /// duplicates within 5 bits.
    pub fn default_thresholds() -> (t: QaThresholds)
        ensures
            t.min_width == 256 && t.min_height == 256 && t.max_file_bytes == 25 * 1024 * 1024,
            t.auto_approve_tech == 750 && t.human_review_tech == 450,
            t.auto_approve_semantic == 720 && t.reject_semantic == 350,
            t.phash_dup_distance == 5,
    {
        QaThresholds {
            min_width: 256,
            min_height: 256,
            max_file_bytes: 25 * 1024 * 1024,
            auto_approve_tech: 750,
            human_review_tech: 450,
            auto_approve_semantic: 720,
            reject_semantic: 350,
            phash_dup_distance: 5,
        }
    }
}

/// What the brief asked for.
pub struct SemanticHints {
    pub label: String,
    pub meanings: Vec<String>,
    pub hard_exclusions: Vec<String>,
    pub negative_contexts: Vec<String>,
}

/// Facts read from an image file: its size and whether its signature is an
/// image, then (when it decoded) its size in pixels and the luma statistics
/// of its thumbnail (pixel count, sum and sum of squares), and an active
/// asset whose perceptual hash lies within the duplicate distance.
pub struct ImageFacts {
    pub file_bytes: u64,
    pub mime_ok: bool,
    pub width: u32,
    pub height: u32,
    pub pixels: u64,
    pub luma_sum: u64,
    pub luma_sq_sum: u64,
    pub near_duplicate: Option<String>,
}

/// Result of a review; qualities in thousandths.
pub struct QaCheckResult {
    pub technical_quality: u32,
    pub semantic_alignment: u32,
    pub forbidden_detected: Vec<String>,
    pub decision: String,
    pub reason: String,
}

/// Image facts that the statistics can hold: a thumbnail has at most 64×64
/// pixels of at most 255 each.
pub open spec fn facts_wf(f: ImageFacts) -> bool {
    &&& 1 <= f.pixels <= 4096
    &&& f.luma_sum <= 255 * f.pixels
    &&& f.luma_sq_sum <= 255 * 255 * f.pixels
}

/// A rejection before the pixels are looked at.
pub open spec fn early_reject(f: ImageFacts, th: QaThresholds) -> Option<(u32, Seq<char>)> {
    if f.file_bytes == 0 {
        Some((0u32, "empty_file: archivo vacío"@))
    } else if f.file_bytes > th.max_file_bytes {
        Some((100u32, "too_large: archivo supera límite"@))
    } else if !f.mime_ok {
        Some((0u32, "bad_mime: MIME/magic no es imagen válida"@))
    } else if f.width < th.min_width || f.height < th.min_height {
        Some((300u32, "low_res: resolución insuficiente "@ + crate::text::dec(f.width as nat) + "x"@
            + crate::text::dec(f.height as nat)))
    } else {
        None
    }
}

/// Mean luma under 8.
pub open spec fn near_black(f: ImageFacts) -> bool {
    f.luma_sum < 8 * f.pixels
}

/// Mean luma over 247.
pub open spec fn near_white(f: ImageFacts) -> bool {
    f.luma_sum > 247 * f.pixels
}

/// Luma variance under 20: `n * Σp² - (Σp)² < 20 * n²`.
pub open spec fn low_detail(f: ImageFacts) -> bool {
    f.pixels * f.luma_sq_sum - f.luma_sum * f.luma_sum < 20 * (f.pixels * f.pixels)
}

/// Technical quality: 0.9, less 0.5 when nearly black, 0.35 when nearly
/// white, 0.25 when lacking detail, kept in 0..=1, and at most 0.7 for a near duplicate.
pub open spec fn tech_score(f: ImageFacts) -> int {
    let t = 900 - (if near_black(f) { 500int } else { 0 }) - (if near_white(f) { 350int } else { 0 })
        - (if low_detail(f) { 250int } else { 0 });
    let c = if t < 0 { 0 } else if t > 1000 { 1000 } else { t };
    if f.near_duplicate is Some && c > 700 { 700 } else { c }
}

/// The technical findings, in order.
pub open spec fn tech_flags(f: ImageFacts) -> Seq<Seq<char>> {
    (if near_black(f) { seq!["near_black"@] } else { Seq::empty() })
    + (if near_white(f) { seq!["near_white"@] } else { Seq::empty() })
    + (if low_detail(f) { seq!["low_detail"@] } else { Seq::empty() })
    + match f.near_duplicate {
        Some(d) => seq!["near_duplicate:"@ + d@],
        None => Seq::empty(),
    }
}

/// The lower-cased brief: label, a space, the meanings joined by spaces.
pub open spec fn brief(h: SemanticHints) -> Seq<char> {
    lowercase(h.label@) + " "@ + lowercase(join_with(views(h.meanings@), " "@))
}

/// Terms of `terms` that the brief mentions, each with `prefix`.
pub open spec fn hits(b: Seq<char>, terms: Seq<Seq<char>>, prefix: Seq<char>) -> Seq<Seq<char>>
    decreases terms.len(),
{
    if terms.len() == 0 {
        Seq::empty()
    } else {
        hits(b, terms.drop_last(), prefix) + if has_sub(b, lowercase(terms.last())) {
            seq![prefix + terms.last()]
        } else {
            Seq::empty()
        }
    }
}

/// Semantic alignment: 0.55 without a brief; with one 0.62, less 0.2 per
/// hard exclusion and 0.1 per negative context that the brief mentions, kept in 0..=1.
pub open spec fn sem_score(hints: Option<SemanticHints>) -> int {
    match hints {
        None => 550,
        Some(h) => {
            let b = brief(h);
            let s = 620 - 200 * hits(b, views(h.hard_exclusions@), "exclusion_in_brief:"@).len()
                - 100 * hits(b, views(h.negative_contexts@), "negative_context_in_brief:"@).len();
            if s < 0 { 0 } else if s > 1000 { 1000 } else { s }
        },
    }
}

pub open spec fn sem_flags(hints: Option<SemanticHints>) -> Seq<Seq<char>> {
    match hints {
        None => Seq::empty(),
        Some(h) => hits(brief(h), views(h.hard_exclusions@), "exclusion_in_brief:"@) + hits(
            brief(h),
            views(h.negative_contexts@),
            "negative_context_in_brief:"@,
        ),
    }
}

/// The decision and its reason.
pub open spec fn verdict(hard_hit: bool, tech: int, sem: int, th: QaThresholds) -> (Seq<char>, Seq<char>) {
    if hard_hit {
        ("reject"@, "exclusión dura detectada en brief"@)
    } else if tech < th.human_review_tech || sem < th.reject_semantic {
        ("reject"@, "calidad insuficiente"@)
    } else if tech >= th.auto_approve_tech && sem >= th.auto_approve_semantic {
        ("approve"@, "pasa controles técnicos y umbral semántico"@)
    } else {
        ("needs_human"@, "confianza media — revisar"@)
    }
}

/// `r` is the review of an image with these facts against this brief.
pub open spec fn reviewed(r: QaCheckResult, f: ImageFacts, hints: Option<SemanticHints>, th: QaThresholds) -> bool {
    match early_reject(f, th) {
        Some((t, reason)) => {
            &&& r.technical_quality == t && r.semantic_alignment == 0
            &&& r.forbidden_detected@.len() == 0
            &&& r.decision@ == "reject"@ && r.reason@ == reason
        },
        None => {
            let tech = tech_score(f);
            let sem = sem_score(hints);
            let hard = match hints {
                Some(h) => hits(brief(h), views(h.hard_exclusions@), "exclusion_in_brief:"@).len() > 0,
                None => false,
            };
            let v = verdict(hard, tech, sem, th);
            &&& r.technical_quality == tech && r.semantic_alignment == sem
            &&& views(r.forbidden_detected@) == tech_flags(f) + sem_flags(hints)
            &&& r.decision@ == v.0 && r.reason@ == v.1
        },
    }
}

fn rejected(t: u32, reason: String) -> (r: QaCheckResult)
    ensures
        r.technical_quality == t && r.semantic_alignment == 0 && r.forbidden_detected@.len() == 0,
        r.decision@ == "reject"@ && r.reason == reason,
{
    QaCheckResult {
        technical_quality: t,
        semantic_alignment: 0,
        forbidden_detected: Vec::new(),
        decision: String::from_str("reject"),
        reason,
    }
}

fn push_hits(out: &mut Vec<String>, b: &Vec<char>, terms: &Vec<String>, prefix: &str) -> (n: u64)
    ensures
        views(final(out)@) == views(old(out)@) + hits(b@, views(terms@), prefix@),
        n == hits(b@, views(terms@), prefix@).len(),
{
    let ghost o0 = views(out@);
    let mut n: u64 = 0;
    let mut i: usize = 0;
    proof {
        assert(views(terms@).take(0) =~= Seq::<Seq<char>>::empty());
        assert(o0 + Seq::<Seq<char>>::empty() =~= o0);
    }
    while i < terms.len()
        invariant
            i <= terms@.len(),
            views(out@) == o0 + hits(b@, views(terms@).take(i as int), prefix@),
            n == hits(b@, views(terms@).take(i as int), prefix@).len(),
            n <= i,
        decreases terms@.len() - i,
    {
        let ghost t = views(terms@).take(i as int + 1);
        proof {
            assert(t.drop_last() =~= views(terms@).take(i as int));
            assert(t.last() == terms@[i as int]@);
        }
        let low = to_lowercase(terms[i].as_str());
        let lc = to_chars(low.as_str());
        let ghost before = views(out@);
        if contains_sub(b, &lc) {
            let mut m = String::from_str(prefix);
            push_str(&mut m, terms[i].as_str());
            out.push(m);
            n = n + 1;
            proof {
                assert(views(out@) =~= before.push(prefix@ + terms@[i as int]@));
                assert(views(out@) =~= o0 + hits(b@, t, prefix@));
            }
        } else {
            proof {
                assert(hits(b@, t, prefix@) =~= hits(b@, views(terms@).take(i as int), prefix@));
            }
        }
        i = i + 1;
    }
    proof {
        assert(views(terms@).take(terms@.len() as int) =~= views(terms@));
    }
    n
}

/// Review an image: the early rejections (empty, too large, not an image,
/// too small), then technical quality from the luma statistics and a
/// near duplicate, semantic alignment from the brief, and the decision.
pub fn review_image(facts: &ImageFacts, hints: &Option<SemanticHints>, th: &QaThresholds) -> (r: QaCheckResult)
    requires
        facts_wf(*facts),
    ensures
        reviewed(r, *facts, *hints, *th),
{
    if facts.file_bytes == 0 {
        return rejected(0, String::from_str("empty_file: archivo vacío"));
    }
    if facts.file_bytes > th.max_file_bytes {
        return rejected(100, String::from_str("too_large: archivo supera límite"));
    }
    if !facts.mime_ok {
        return rejected(0, String::from_str("bad_mime: MIME/magic no es imagen válida"));
    }
    if facts.width < th.min_width || facts.height < th.min_height {
        let mut m = String::from_str("low_res: resolución insuficiente ");
        push_dec(&mut m, facts.width as u64);
        push_str(&mut m, "x");
        push_dec(&mut m, facts.height as u64);
        return rejected(300, m);
    }
    let n = facts.pixels;
    let s = facts.luma_sum;
    let q = facts.luma_sq_sum;
    assert(n * q <= 1_090_938_470_400 && s * s <= 1_090_938_470_400 && n * n <= 16_777_216)
        by (nonlinear_arith)
        requires
            1 <= n <= 4096,
            s <= 255 * n,
            q <= 255 * 255 * n,
    ;
    let black = s < 8 * n;
    let white = s > 247 * n;
    let nq = n * q;
    let ss = s * s;
    let detail_low = if nq >= ss { nq - ss < 20 * (n * n) } else { true };
    let mut forbidden: Vec<String> = Vec::new();
    proof {
        assert(views(forbidden@) =~= Seq::<Seq<char>>::empty());
    }
    let mut tech: i64 = 900;
    if black {
        tech = tech - 500;
        let ghost b = views(forbidden@);
        forbidden.push(String::from_str("near_black"));
        assert(views(forbidden@) =~= b.push("near_black"@));
    }
    if white {
        tech = tech - 350;
        let ghost b = views(forbidden@);
        forbidden.push(String::from_str("near_white"));
        assert(views(forbidden@) =~= b.push("near_white"@));
    }
    if detail_low {
        tech = tech - 250;
        let ghost b = views(forbidden@);
        forbidden.push(String::from_str("low_detail"));
        assert(views(forbidden@) =~= b.push("low_detail"@));
    }
    let mut tq: u32 = if tech < 0 { 0 } else if tech > 1000 { 1000 } else { tech as u32 };
    match &facts.near_duplicate {
        Some(d) => {
            if tq > 700 {
                tq = 700;
            }
            let mut m = String::from_str("near_duplicate:");
            push_str(&mut m, d.as_str());
            let ghost b = views(forbidden@);
            forbidden.push(m);
            assert(views(forbidden@) =~= b.push("near_duplicate:"@ + d@));
        },
        None => {},
    }
    proof {
        assert(views(forbidden@) =~= tech_flags(*facts));
    }
    let mut sem: u32 = 550;
    let mut hard = false;
    match hints {
        None => {
            proof {
                assert(views(forbidden@) =~= tech_flags(*facts) + sem_flags(*hints));
            }
        },
        Some(h) => {
            let mut blob = to_lowercase(h.label.as_str());
            push_str(&mut blob, " ");
            let mut mj = String::new();
            push_joined(&mut mj, &h.meanings, " ");
            proof {
                assert(Seq::<char>::empty() + join_with(views(h.meanings@), " "@) =~= join_with(
                    views(h.meanings@),
                    " "@,
                ));
            }
            let ml = to_lowercase(mj.as_str());
            push_str(&mut blob, ml.as_str());
            let bc = to_chars(blob.as_str());
            let nh = push_hits(&mut forbidden, &bc, &h.hard_exclusions, "exclusion_in_brief:");
            let nn = push_hits(&mut forbidden, &bc, &h.negative_contexts, "negative_context_in_brief:");
            proof {
                assert(views(forbidden@) =~= tech_flags(*facts) + sem_flags(*hints));
            }
            hard = nh > 0;
            let pen: u64 = if nh > 10 || nn > 10 { 1000 } else { 200 * nh + 100 * nn };
            sem = if pen >= 620 { 0 } else { (620 - pen) as u32 };
            proof {
                if nh > 10 || nn > 10 {
                    assert(620 - 200 * nh - 100 * nn < 0);
                }
            }
        },
    }
    let (dec, why) = if hard {
        ("reject", "exclusión dura detectada en brief")
    } else if tq < th.human_review_tech || sem < th.reject_semantic {
        ("reject", "calidad insuficiente")
    } else if tq >= th.auto_approve_tech && sem >= th.auto_approve_semantic {
        ("approve", "pasa controles técnicos y umbral semántico")
    } else {
        ("needs_human", "confianza media — revisar")
    };
    QaCheckResult {
        technical_quality: tq,
        semantic_alignment: sem,
        forbidden_detected: forbidden,
        decision: String::from_str(dec),
        reason: String::from_str(why),
    }
}

/// A brief that names one of its own hard exclusions is always rejected.
pub proof fn lemma_hard_exclusion_rejects(tech: int, sem: int, th: QaThresholds)
    ensures
        verdict(true, tech, sem, th).0 == "reject"@,
{
}

/// Approval needs both qualities at their approval thresholds.
pub proof fn lemma_approve_needs_thresholds(hard: bool, tech: int, sem: int, th: QaThresholds)
    requires
        verdict(hard, tech, sem, th).0 == "approve"@,
    ensures
        !hard && tech >= th.auto_approve_tech && sem >= th.auto_approve_semantic,
{
    reveal_strlit("approve");
    reveal_strlit("reject");
    reveal_strlit("needs_human");
    assert("approve"@.len() == 7 && "reject"@.len() == 6 && "needs_human"@.len() == 11);
}

} // verus!
