//! A clipping run: where its transcript comes from, the weak-candidate
//! filter and the run's summary.
use vstd::prelude::*;
use crate::clipping::{ClipCandidate, ClipReviewStatus, ClippingOptions, MIN_CLIP_SCORE, bounds_of};
use crate::export::views;
use crate::transcript::TranscriptSourceKind;
use crate::text::{push_dec, has_sub, contains_sub, to_chars};

verus! {

/// Summary of a clipping run (times in milliseconds, scores in tenths of a point).
pub struct ClippingSummary {
    pub source_duration: u64,
    pub analysis_ms: u64,
    pub candidates_found: u64,
    pub preselected: u64,
    pub high_confidence: u64,
    pub needs_review: u64,
    pub discarded: u64,
    pub best_score: u32,
    pub selected_total_duration: u64,
    pub transcript_source: TranscriptSourceKind,
    pub warnings: Vec<String>,
}

/// Number of candidates of `s` for which `f` holds.
pub open spec fn count_where(s: Seq<ClipCandidate>, f: spec_fn(ClipCandidate) -> bool) -> nat
    decreases s.len(),
{
    if s.len() == 0 {
        0
    } else {
        count_where(s.drop_last(), f) + if f(s.last()) { 1nat } else { 0nat }
    }
}

/// The candidates of `s` for which `f` holds, in order.
pub open spec fn keep_where(s: Seq<ClipCandidate>, f: spec_fn(ClipCandidate) -> bool) -> Seq<ClipCandidate>
    decreases s.len(),
{
    if s.len() == 0 {
        Seq::empty()
    } else {
        keep_where(s.drop_last(), f) + if f(s.last()) { seq![s.last()] } else { Seq::empty() }
    }
}

pub open spec fn strong(c: ClipCandidate) -> bool {
    c.score >= MIN_CLIP_SCORE
}

/// Highest score of the candidates, 0 for none.
pub open spec fn best_of(s: Seq<ClipCandidate>) -> u32
    decreases s.len(),
{
    if s.len() == 0 {
        0
    } else {
        let b = best_of(s.drop_last());
        if s.last().score > b { s.last().score } else { b }
    }
}

/// Total duration of the preselected primary clips.
pub open spec fn selected_total(s: Seq<ClipCandidate>) -> int
    decreases s.len(),
{
    if s.len() == 0 {
        0
    } else {
        selected_total(s.drop_last()) + if s.last().status == ClipReviewStatus::Preselected
            && s.last().is_primary_variant { s.last().duration as int } else { 0 }
    }
}

pub open spec fn is_found(c: ClipCandidate) -> bool {
    c.is_primary_variant && c.score >= MIN_CLIP_SCORE && c.status != ClipReviewStatus::Discarded
}

pub open spec fn is_preselected(c: ClipCandidate) -> bool {
    c.status == ClipReviewStatus::Preselected
}

pub open spec fn is_high_confidence(c: ClipCandidate) -> bool {
    c.is_primary_variant && c.score >= 720 && c.confidence >= 550
}

pub open spec fn is_review(c: ClipCandidate) -> bool {
    (c.status == ClipReviewStatus::Preselected || c.status == ClipReviewStatus::Suggested)
        && c.confidence < 600
}

pub open spec fn is_discarded(c: ClipCandidate) -> bool {
    c.status == ClipReviewStatus::Discarded
}

/// The warning about omitted weak candidates.
pub open spec fn weak_warning(n: nat) -> Seq<char> {
    "Omitidos "@ + crate::text::dec(n) + " clips con score < 50"@
}

/// Drop the candidates under the minimum score, keeping the order, and warn
/// how many went.
pub fn drop_weak_candidates(candidates: Vec<ClipCandidate>, warnings: &mut Vec<String>) -> (r: Vec<ClipCandidate>)
    ensures
        r@ == keep_where(candidates@, |c: ClipCandidate| strong(c)),
        ({
            let n = count_where(candidates@, |c: ClipCandidate| !strong(c));
            views(final(warnings)@) == views(old(warnings)@) + if n > 0 {
                seq![weak_warning(n)]
            } else {
                Seq::empty()
            }
        }),
{
    let ghost fs = |c: ClipCandidate| strong(c);
    let ghost fw = |c: ClipCandidate| !strong(c);
    let mut out: Vec<ClipCandidate> = Vec::new();
    let mut dropped: u64 = 0;
    let mut rest = candidates;
    let ghost all = rest@;
    let mut i: usize = 0;
    let n = rest.len();
    proof {
        assert(all.take(0) =~= Seq::<ClipCandidate>::empty());
    }
    while rest.len() > 0
        invariant
            all == candidates@,
            i + rest@.len() == n == all.len(),
            rest@ == all.skip(i as int),
            out@ == keep_where(all.take(i as int), fs),
            dropped == count_where(all.take(i as int), fw),
            dropped <= i,
            fs == (|c: ClipCandidate| strong(c)),
            fw == (|c: ClipCandidate| !strong(c)),
        decreases rest@.len(),
    {
        let c = rest.remove(0);
        proof {
            assert(all.take(i as int + 1).drop_last() =~= all.take(i as int));
            assert(all.take(i as int + 1).last() == c);
            assert(rest@ =~= all.skip(i as int + 1));
        }
        if c.score >= MIN_CLIP_SCORE {
            out.push(c);
        } else {
            dropped = dropped + 1;
        }
        i = i + 1;
    }
    proof {
        assert(all.take(n as int) =~= all);
    }
    if dropped > 0 {
        let mut m = String::from_str("Omitidos ");
        push_dec(&mut m, dropped);
        crate::text::push_str(&mut m, " clips con score < 50");
        let ghost before = views(warnings@);
        warnings.push(m);
        proof {
            assert(views(warnings@) =~= before + seq![weak_warning(dropped as nat)]);
        }
    } else {
        proof {
            assert(views(warnings@) =~= views(warnings@) + Seq::<Seq<char>>::empty());
        }
    }
    out
}

/// Maximum merged length of a semantic unit for a run: one fifth more than
/// the longest clip.
pub fn unit_max_duration(options: &ClippingOptions) -> (r: u64)
    requires
        bounds_of(*options).2 <= u64::MAX / 12,
    ensures
        r == bounds_of(*options).2 * 12 / 10,
{
    let (_, _, max_d) = options.resolved_bounds();
    max_d * 12 / 10
}

/// The warning when no clip reached the minimum score.
pub open spec fn none_found_warning() -> Seq<char> {
    "Ningún clip superó el score mínimo (50)"@
}

/// Some warning mentions a minimum score already.
pub open spec fn mentions_score(ws: Seq<Seq<char>>) -> bool {
    exists|k: int| 0 <= k < ws.len() && has_sub(#[trigger] ws[k], "score <"@)
}

/// The summary of a run over its final candidates: the counts by kind, the
/// best score, the total duration of the preselected primaries, and the
/// warnings with a note when no clip reached the minimum score (unless a
/// warning says so already).
pub fn clipping_summary(
    candidates: &Vec<ClipCandidate>,
    source_duration: u64,
    analysis_ms: u64,
    transcript_source: TranscriptSourceKind,
    warnings: Vec<String>,
) -> (r: ClippingSummary)
    requires
        selected_total(candidates@) <= u64::MAX,
    ensures
        r.source_duration == source_duration && r.analysis_ms == analysis_ms,
        r.transcript_source == transcript_source,
        r.candidates_found == count_where(candidates@, |c: ClipCandidate| is_found(c)),
        r.preselected == count_where(candidates@, |c: ClipCandidate| is_preselected(c)),
        r.high_confidence == count_where(candidates@, |c: ClipCandidate| is_high_confidence(c)),
        r.needs_review == count_where(candidates@, |c: ClipCandidate| is_review(c)),
        r.discarded == count_where(candidates@, |c: ClipCandidate| is_discarded(c)),
        r.best_score == best_of(candidates@),
        r.selected_total_duration == selected_total(candidates@),
        views(r.warnings@) == views(warnings@) + if r.candidates_found == 0 && !mentions_score(
            views(warnings@),
        ) {
            seq![none_found_warning()]
        } else {
            Seq::empty()
        },
{
    let ghost s = candidates@;
    let ghost f1 = |c: ClipCandidate| is_found(c);
    let ghost f2 = |c: ClipCandidate| is_preselected(c);
    let ghost f3 = |c: ClipCandidate| is_high_confidence(c);
    let ghost f4 = |c: ClipCandidate| is_review(c);
    let ghost f5 = |c: ClipCandidate| is_discarded(c);
    let mut found: u64 = 0;
    let mut pre: u64 = 0;
    let mut high: u64 = 0;
    let mut review: u64 = 0;
    let mut disc: u64 = 0;
    let mut best: u32 = 0;
    let mut total: u64 = 0;
    let mut i: usize = 0;
    proof {
        assert(s.take(0) =~= Seq::<ClipCandidate>::empty());
    }
    while i < candidates.len()
        invariant
            s == candidates@,
            i <= s.len(),
            found == count_where(s.take(i as int), f1) && found <= i,
            pre == count_where(s.take(i as int), f2) && pre <= i,
            high == count_where(s.take(i as int), f3) && high <= i,
            review == count_where(s.take(i as int), f4) && review <= i,
            disc == count_where(s.take(i as int), f5) && disc <= i,
            best == best_of(s.take(i as int)),
            total == selected_total(s.take(i as int)),
            selected_total(s) <= u64::MAX,
            f1 == (|c: ClipCandidate| is_found(c)),
            f2 == (|c: ClipCandidate| is_preselected(c)),
            f3 == (|c: ClipCandidate| is_high_confidence(c)),
            f4 == (|c: ClipCandidate| is_review(c)),
            f5 == (|c: ClipCandidate| is_discarded(c)),
        decreases s.len() - i,
    {
        let c = &candidates[i];
        proof {
            assert(s.take(i as int + 1).drop_last() =~= s.take(i as int));
            assert(s.take(i as int + 1).last() == s[i as int]);
            lemma_selected_prefix(s, i as int + 1);
        }
        if c.is_primary_variant && c.score >= MIN_CLIP_SCORE && c.status != ClipReviewStatus::Discarded {
            found = found + 1;
        }
        if c.status == ClipReviewStatus::Preselected {
            pre = pre + 1;
        }
        if c.is_primary_variant && c.score >= 720 && c.confidence >= 550 {
            high = high + 1;
        }
        if (c.status == ClipReviewStatus::Preselected || c.status == ClipReviewStatus::Suggested)
            && c.confidence < 600 {
            review = review + 1;
        }
        if c.status == ClipReviewStatus::Discarded {
            disc = disc + 1;
        }
        if c.score > best {
            best = c.score;
        }
        if c.status == ClipReviewStatus::Preselected && c.is_primary_variant {
            total = total + c.duration;
        }
        i = i + 1;
    }
    proof {
        assert(s.take(s.len() as int) =~= s);
    }
    let mut ws = warnings;
    let ghost w0 = views(ws@);
    let mut mentioned = false;
    let mut k: usize = 0;
    let pat = to_chars("score <");
    while k < ws.len()
        invariant
            k <= ws@.len(),
            views(ws@) == w0,
            mentioned == exists|j: int| 0 <= j < k && has_sub(#[trigger] w0[j], "score <"@),
            pat@ == "score <"@,
        decreases ws@.len() - k,
    {
        let wc = to_chars(ws[k].as_str());
        let h = contains_sub(&wc, &pat);
        proof {
            assert(w0[k as int] == ws@[k as int]@);
            if h {
                assert(has_sub(w0[k as int], "score <"@));
            }
        }
        mentioned = mentioned || h;
        k = k + 1;
    }
    if found == 0 && !mentioned {
        ws.push(String::from_str("Ningún clip superó el score mínimo (50)"));
        proof {
            assert(views(ws@) =~= w0 + seq![none_found_warning()]);
        }
    } else {
        proof {
            assert(views(ws@) =~= w0 + Seq::<Seq<char>>::empty());
        }
    }
    ClippingSummary {
        source_duration,
        analysis_ms,
        candidates_found: found,
        preselected: pre,
        high_confidence: high,
        needs_review: review,
        discarded: disc,
        best_score: best,
        selected_total_duration: total,
        transcript_source,
        warnings: ws,
    }
}

proof fn lemma_selected_prefix(s: Seq<ClipCandidate>, k: int)
    requires
        0 <= k <= s.len(),
    ensures
        selected_total(s.take(k)) <= selected_total(s),
    decreases s.len(),
{
    if k < s.len() {
        lemma_selected_prefix(s.drop_last(), k);
        assert(s.drop_last().take(k) =~= s.take(k));
    } else {
        assert(s.take(k) =~= s);
    }
}


/// Where a clipping run looks for its transcript, in order: the transcript
/// file given, a subtitle file beside the video, Whisper (when preferred),
/// then the speech of an earlier analysis of the same video, or a new speech
/// analysis.
#[derive(Clone, Copy, Debug, PartialEq, Eq, Structural)]
pub enum SourceStep {
    Explicit,
    Sidecar,
    Whisper,
    Reuse,
    Analyze,
    Finished,
}

/// What a step found.
pub enum SourceEvent {
    /// A transcript file: none to try, or how many cues it gave, or why it failed.
    File(Option<Result<u64, String>>),
    /// Whisper: failed, gave nothing, or gave captions (by a method) that
    /// read as so many cues or could not be read.
    Whisper(Result<Option<(String, Result<u64, String>)>, String>),
    /// Speech blocks of an analysis: how many, or why the analysis failed.
    Speech(Result<u64, String>),
}

/// The step after a search that found nothing: Whisper when preferred, then
/// the earlier analysis when there is one, else a new analysis.
pub open spec fn after_files(prefer_whisper: bool, has_reuse: bool) -> SourceStep {
    if prefer_whisper { SourceStep::Whisper } else if has_reuse { SourceStep::Reuse } else { SourceStep::Analyze }
}

/// The step after Whisper found nothing.
pub open spec fn after_whisper(has_reuse: bool) -> SourceStep {
    if has_reuse { SourceStep::Reuse } else { SourceStep::Analyze }
}

/// How many cues an event brought (zero when it brought none).
pub open spec fn cues_found(ev: SourceEvent) -> int {
    match ev {
        SourceEvent::File(Some(Ok(n))) => n as int,
        SourceEvent::Whisper(Ok(Some((_, Ok(n))))) => n as int,
        SourceEvent::Speech(Ok(n)) => n as int,
        _ => 0,
    }
}

/// The step that follows `step` after `ev`: finished once cues were found
/// or after a speech step; otherwise the next place to look.
pub open spec fn source_next(step: SourceStep, ev: SourceEvent, prefer_whisper: bool, has_reuse: bool) -> SourceStep {
    if cues_found(ev) > 0 {
        SourceStep::Finished
    } else {
        match step {
            SourceStep::Explicit => SourceStep::Sidecar,
            SourceStep::Sidecar => after_files(prefer_whisper, has_reuse),
            SourceStep::Whisper => after_whisper(has_reuse),
            _ => SourceStep::Finished,
        }
    }
}

/// The warning a step leaves: a failed import of the given file; the
/// sidecar file used; how Whisper went; where speech-based clips came from.
pub open spec fn source_warning(step: SourceStep, ev: SourceEvent, path: Seq<char>) -> Option<Seq<char>> {
    match (step, ev) {
        (SourceStep::Explicit, SourceEvent::File(Some(Err(e)))) => Some("Transcript import failed ("@ + e@ + ")"@),
        (SourceStep::Sidecar, SourceEvent::File(Some(Ok(n)))) => if n > 0 { Some("Transcripción: "@ + path) } else { None },
        (SourceStep::Whisper, SourceEvent::Whisper(Ok(Some((m, Ok(n)))))) => if n > 0 { Some("Whisper captions via "@ + m@) } else { None },
        (SourceStep::Whisper, SourceEvent::Whisper(Ok(Some((_, Err(e)))))) => Some("Whisper SRT unreadable: "@ + e@),
        (SourceStep::Whisper, SourceEvent::Whisper(Err(e))) => Some("Whisper failed: "@ + e@),
        (SourceStep::Reuse, SourceEvent::Speech(Ok(n))) => if n > 0 {
            Some("Sin SRT: clips desde habla del análisis previo (importa .srt para mejor calidad)"@)
        } else {
            Some("Análisis reutilizado sin bloques de habla"@)
        },
        (SourceStep::Analyze, SourceEvent::Speech(Ok(n))) => if n > 0 {
            Some("Sin SRT/VTT: candidatos desde bloques de habla (importa subtítulos para mejor calidad)"@)
        } else {
            Some("No speech spans detected for clipping"@)
        },
        (SourceStep::Analyze, SourceEvent::Speech(Err(e))) => Some("Speech analysis failed: "@ + e@),
        _ => None,
    }
}

fn prefixed(prefix: &str, t: &str, suffix: &str) -> (r: String)
    ensures
        r@ == prefix@ + t@ + suffix@,
{
    let mut m = String::from_str(prefix);
    crate::text::push_str(&mut m, t);
    crate::text::push_str(&mut m, suffix);
    m
}

/// One step of the search for a clipping run's transcript: the next step
/// and the warning to record (see `source_next` and `source_warning`);
/// `path` is the file the step tried.
pub fn transcript_source_step(step: SourceStep, ev: &SourceEvent, path: &str, prefer_whisper: bool, has_reuse: bool) -> (r: (SourceStep, Option<String>))
    ensures
        r.0 == source_next(step, *ev, prefer_whisper, has_reuse),
        crate::safe_paths::opt_view(r.1) == source_warning(step, *ev, path@),
{
    proof {
        reveal_strlit("");
    }
    let found: u64 = match ev {
        SourceEvent::File(Some(Ok(n))) => *n,
        SourceEvent::Whisper(Ok(Some((_, Ok(n))))) => *n,
        SourceEvent::Speech(Ok(n)) => *n,
        _ => 0,
    };
    let next = if found > 0 {
        SourceStep::Finished
    } else {
        match step {
            SourceStep::Explicit => SourceStep::Sidecar,
            SourceStep::Sidecar => if prefer_whisper {
                SourceStep::Whisper
            } else if has_reuse {
                SourceStep::Reuse
            } else {
                SourceStep::Analyze
            },
            SourceStep::Whisper => if has_reuse { SourceStep::Reuse } else { SourceStep::Analyze },
            _ => SourceStep::Finished,
        }
    };
    let warning = match (step, ev) {
        (SourceStep::Explicit, SourceEvent::File(Some(Err(e)))) => Some(prefixed("Transcript import failed (", e.as_str(), ")")),
        (SourceStep::Sidecar, SourceEvent::File(Some(Ok(n)))) => if *n > 0 { Some(prefixed("Transcripción: ", path, "")) } else { None },
        (SourceStep::Whisper, SourceEvent::Whisper(Ok(Some((m, Ok(n)))))) => if *n > 0 {
            Some(prefixed("Whisper captions via ", m.as_str(), ""))
        } else {
            None
        },
        (SourceStep::Whisper, SourceEvent::Whisper(Ok(Some((_, Err(e)))))) => Some(prefixed("Whisper SRT unreadable: ", e.as_str(), "")),
        (SourceStep::Whisper, SourceEvent::Whisper(Err(e))) => Some(prefixed("Whisper failed: ", e.as_str(), "")),
        (SourceStep::Reuse, SourceEvent::Speech(Ok(n))) => if *n > 0 {
            Some(String::from_str("Sin SRT: clips desde habla del análisis previo (importa .srt para mejor calidad)"))
        } else {
            Some(String::from_str("Análisis reutilizado sin bloques de habla"))
        },
        (SourceStep::Analyze, SourceEvent::Speech(Ok(n))) => if *n > 0 {
            Some(String::from_str("Sin SRT/VTT: candidatos desde bloques de habla (importa subtítulos para mejor calidad)"))
        } else {
            Some(String::from_str("No speech spans detected for clipping"))
        },
        (SourceStep::Analyze, SourceEvent::Speech(Err(e))) => Some(prefixed("Speech analysis failed: ", e.as_str(), "")),
        _ => None,
    };
    proof {
        assert(path@ + ""@ =~= path@);
        assert(forall|t: Seq<char>| #![auto] "Transcripción: "@ + t + ""@ =~= "Transcripción: "@ + t);
        assert(forall|t: Seq<char>| #![auto] "Whisper captions via "@ + t + ""@ =~= "Whisper captions via "@ + t);
        assert(forall|t: Seq<char>| #![auto] "Whisper SRT unreadable: "@ + t + ""@ =~= "Whisper SRT unreadable: "@ + t);
        assert(forall|t: Seq<char>| #![auto] "Whisper failed: "@ + t + ""@ =~= "Whisper failed: "@ + t);
        assert(forall|t: Seq<char>| #![auto] "Speech analysis failed: "@ + t + ""@ =~= "Speech analysis failed: "@ + t);
    }
    (next, warning)
}
} // verus!
