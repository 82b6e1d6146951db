//! Transcript cues (imported captions or speech blocks) and the semantic
//! units that clip candidates are built from.
use vstd::prelude::*;

use crate::captions::{char_views, join_sp, lines_of, parse_cues, split_on, split_on_exec, srt_cues};
use crate::error::AppError;
use crate::events::{new_id, Event, EventType};
use crate::filler::{collapse, collapse_ws};
use crate::policy::{lemma_select_step, select};
use crate::text::{alnum, from_chars, is_alphanumeric, push_char, push_secs1, push_str, secs1, to_chars};
use crate::timeline::Span;

verus! {

/// A timed caption line.
#[derive(Clone, Debug)]
pub struct TranscriptCue {
    pub id: String,
    pub span: Span,
    pub text: String,
}

/// Where the cues of a clipping run came from.
#[derive(Clone, Copy, Debug, PartialEq, Eq, Structural)]
pub enum TranscriptSourceKind {
    SrtFile,
    VttFile,
    WhisperCli,
    AnalysisSpeechFallback,
}

/// Consecutive cues merged into one idea; `energy` in thousandths.
#[derive(Clone, Debug)]
pub struct SemanticUnit {
    pub id: String,
    pub span: Span,
    pub text: String,
    pub cue_ids: Vec<String>,
    pub energy: u32,
}

/// `r` holds the given timed texts as cues, each with a fresh id.
pub open spec fn cues_match(r: Seq<TranscriptCue>, c: Seq<(nat, nat, Seq<char>)>) -> bool {
    &&& r.len() == c.len()
    &&& forall|k: int| 0 <= k < r.len() ==> {
        &&& (#[trigger] r[k]).span.start == c[k].0
        &&& r[k].span.end == c[k].1
        &&& r[k].text@ == c[k].2
        &&& r[k].id@.len() == 36
    }
}

fn cues_of(text: &Vec<char>) -> (r: Vec<TranscriptCue>)
    ensures
        cues_match(r@, srt_cues(text@, true)),
{
    let parsed = parse_cues(text, true);
    let mut r: Vec<TranscriptCue> = Vec::new();
    let mut i: usize = 0;
    while i < parsed.len()
        invariant
            0 <= i <= parsed@.len(),
            parsed@.len() == srt_cues(text@, true).len(),
            forall|k: int| 0 <= k < parsed@.len() ==> ({
                let c = srt_cues(text@, true)[k];
                &&& (#[trigger] parsed@[k]).0 == c.0
                &&& parsed@[k].1 == c.1
                &&& parsed@[k].2@ == c.2
            }),
            r@.len() == i,
            cues_match(r@, srt_cues(text@, true).take(i as int)),
        decreases parsed@.len() - i,
    {
        let (s, e, t) = &parsed[i];
        let ghost old_r = r@;
        r.push(TranscriptCue { id: new_id(), span: Span { start: *s, end: *e }, text: from_chars(t) });
        proof {
            let c = srt_cues(text@, true);
            assert forall|k: int| 0 <= k < r@.len() implies {
                &&& (#[trigger] r@[k]).span.start == c.take(i as int + 1)[k].0
                &&& r@[k].span.end == c.take(i as int + 1)[k].1
                &&& r@[k].text@ == c.take(i as int + 1)[k].2
                &&& r@[k].id@.len() == 36
            } by {
                if k < i {
                    assert(r@[k] == old_r[k]);
                }
            }
        }
        i = i + 1;
    }
    proof {
        assert(srt_cues(text@, true).take(parsed@.len() as int) =~= srt_cues(text@, true));
    }
    r
}

/// Cues of an SRT text: blocks split at blank lines, a timing line with
/// `-->`, then the caption text; each cue gets a fresh id.
pub fn parse_srt_cues(text: &str) -> (r: Vec<TranscriptCue>)
    ensures
        cues_match(r@, srt_cues(text@, true)),
{
    let v = to_chars(text);
    cues_of(&v)
}

/// A text line without the `\r` that ends it.
pub open spec fn strip_cr(l: Seq<char>) -> Seq<char> {
    if l.len() > 0 && l.last() == '\r' { l.drop_last() } else { l }
}

/// The lines of a raw text as `str::lines` yields them: split at `\n`, the
/// `\r` of a `\r\n` ending dropped, no empty piece after a final newline.
pub open spec fn raw_lines(s: Seq<char>) -> Seq<Seq<char>> {
    let p = split_on(s, '\n');
    let body = p.drop_last().map_values(|l: Seq<char>| strip_cr(l));
    if p.last().len() == 0 { body } else { body.push(p.last()) }
}

/// A WebVTT header, note or style line.
pub open spec fn vtt_meta_line(l: Seq<char>) -> bool {
    crate::text::occurs_at(l, "WEBVTT"@, 0) || crate::text::occurs_at(l, "NOTE"@, 0)
        || crate::text::occurs_at(l, "STYLE"@, 0)
}

/// The lines that are not WebVTT metadata.
pub open spec fn vtt_body(ls: Seq<Seq<char>>) -> Seq<Seq<char>>
    decreases ls.len(),
{
    if ls.len() == 0 {
        Seq::empty()
    } else {
        let p = vtt_body(ls.drop_last());
        if vtt_meta_line(ls.last()) { p } else { p.push(ls.last()) }
    }
}

/// Lines joined with `\n`.
pub open spec fn join_lf(ls: Seq<Seq<char>>) -> Seq<char>
    decreases ls.len(),
{
    if ls.len() == 0 {
        Seq::empty()
    } else if ls.len() == 1 {
        ls[0]
    } else {
        join_lf(ls.drop_last()) + seq!['\n'] + ls.last()
    }
}

/// A WebVTT text without its metadata lines, read as SRT.
pub open spec fn vtt_text(s: Seq<char>) -> Seq<char> {
    join_lf(vtt_body(raw_lines(s)))
}

fn starts_with_lit(l: &Vec<char>, p: &str) -> (r: bool)
    ensures
        r == crate::text::occurs_at(l@, p@, 0),
{
    let pv = to_chars(p);
    crate::text::starts_with(l, &pv)
}

/// The text of a WebVTT file with its header, notes and styles left out.
pub fn vtt_clean(text: &Vec<char>) -> (r: Vec<char>)
    ensures
        r@ == vtt_text(text@),
{
    let parts = split_on_exec(text, '\n');
    let ghost p = split_on(text@, '\n');
    proof {
        crate::captions::lemma_split_on_nonempty(text@, '\n');
    }
    let n = parts.len();
    let mut out: Vec<char> = Vec::new();
    let mut first = true;
    let ghost mut kept: Seq<Seq<char>> = Seq::empty();
    let mut i: usize = 0;
    let ghost all = raw_lines(text@);
    let last_kept = parts[n - 1].len() > 0;
    let m: usize = if last_kept { n } else { n - 1 };
    proof {
        assert(char_views(parts@) == p);
        assert(all.len() == m);
        assert forall|k: int| 0 <= k < m implies #[trigger] all[k] == (if k < n - 1 { strip_cr(parts@[k]@) } else { parts@[k]@ }) by {
            assert(char_views(parts@)[k] == parts@[k]@);
        }
    }
    while i < m
        invariant
            0 <= i <= m <= n == parts@.len(),
            m == all.len(),
            forall|k: int| 0 <= k < m ==> #[trigger] all[k] == (if k < n - 1 { strip_cr(parts@[k]@) } else { parts@[k]@ }),
            kept == vtt_body(all.take(i as int)),
            out@ == join_lf(kept),
            first == (kept.len() == 0),
        decreases m - i,
    {
        let src = &parts[i];
        let mut line = Vec::new();
        let mut k: usize = 0;
        let cut = i + 1 < n && src.len() > 0 && src[src.len() - 1] == '\r';
        let len = if cut { src.len() - 1 } else { src.len() };
        while k < len
            invariant
                0 <= k <= len <= src@.len(),
                line@ == src@.take(k as int),
            decreases len - k,
        {
            line.push(src[k]);
            proof {
                assert(src@.take(k as int + 1) =~= src@.take(k as int).push(src@[k as int]));
            }
            k = k + 1;
        }
        proof {
            assert(line@ == all[i as int]) by {
                if cut {
                    assert(src@.take(len as int) =~= src@.drop_last());
                } else {
                    assert(src@.take(len as int) =~= src@);
                }
            }
            assert(all.take(i as int + 1).drop_last() =~= all.take(i as int));
            assert(all.take(i as int + 1).last() == all[i as int]);
        }
        let meta = starts_with_lit(&line, "WEBVTT") || starts_with_lit(&line, "NOTE") || starts_with_lit(&line, "STYLE");
        if !meta {
            let ghost before = out@;
            if !first {
                out.push('\n');
            }
            let mut q: usize = 0;
            let ghost mid = out@;
            while q < line.len()
                invariant
                    0 <= q <= line@.len(),
                    out@ == mid + line@.take(q as int),
                decreases line@.len() - q,
            {
                out.push(line[q]);
                proof {
                    assert(line@.take(q as int + 1) =~= line@.take(q as int).push(line@[q as int]));
                }
                q = q + 1;
            }
            proof {
                assert(line@.take(line@.len() as int) =~= line@);
                let nk = kept.push(line@);
                if first {
                    assert(out@ =~= line@);
                    assert(join_lf(nk) == nk[0]);
                } else {
                    assert(nk.drop_last() =~= kept);
                    assert(out@ =~= before + seq!['\n'] + line@);
                }
                kept = nk;
            }
            first = false;
        }
        i = i + 1;
    }
    proof {
        assert(all.take(m as int) =~= all);
    }
    out
}

/// Cues of a WebVTT text: the SRT reading of the text without its header,
/// note and style lines.
pub fn parse_vtt_cues(text: &str) -> (r: Vec<TranscriptCue>)
    ensures
        cues_match(r@, srt_cues(vtt_text(text@), true)),
{
    let v = to_chars(text);
    let cleaned = vtt_clean(&v);
    cues_of(&cleaned)
}

/// The cues a transcript file's text yields: WebVTT when the extension is
/// `vtt`, else SRT with WebVTT as the fallback when SRT finds nothing.
pub open spec fn transcript_cues(text: Seq<char>, ext: Seq<char>) -> Seq<(nat, nat, Seq<char>)> {
    if ext == "vtt"@ {
        srt_cues(vtt_text(text), true)
    } else if srt_cues(text, true).len() > 0 {
        srt_cues(text, true)
    } else {
        srt_cues(vtt_text(text), true)
    }
}

/// Read a transcript file's text (`ext` is its lowercased extension): the
/// cues and the kind of source, or `Invalid` when no timed cue is found.
pub fn transcript_from_text(text: &str, ext: &str) -> (r: Result<(Vec<TranscriptCue>, TranscriptSourceKind), AppError>)
    ensures
        transcript_cues(text@, ext@).len() > 0 <==> r is Ok,
        r matches Ok((cues, kind)) ==> cues_match(cues@, transcript_cues(text@, ext@))
            && kind == (if ext@ == "vtt"@ { TranscriptSourceKind::VttFile } else { TranscriptSourceKind::SrtFile }),
        r matches Err(e) ==> e matches AppError::Invalid(m) && m@ == "No timed cues found in transcript file"@,
{
    let vtt = to_chars("vtt");
    let e = to_chars(ext);
    let is_vtt = crate::text::chars_eq(&e, &vtt);
    let kind = if is_vtt { TranscriptSourceKind::VttFile } else { TranscriptSourceKind::SrtFile };
    let cues = if is_vtt {
        parse_vtt_cues(text)
    } else {
        let c = parse_srt_cues(text);
        if c.len() == 0 { parse_vtt_cues(text) } else { c }
    };
    if cues.len() == 0 {
        return Err(AppError::Invalid(String::from_str("No timed cues found in transcript file")));
    }
    Ok((cues, kind))
}

/// A speech event.
pub open spec fn is_speech(e: Event) -> bool {
    e.event_type == EventType::AudioSpeech
}

/// The placeholder text of a speech block: `[habla X.Xs–Y.Ys]`.
pub open spec fn speech_text(sp: Span) -> Seq<char> {
    "[habla "@ + secs1(sp.start) + "s–"@ + secs1(sp.end) + "s]"@
}

/// `c` is the placeholder cue of speech event `e`.
pub open spec fn speech_cue(c: TranscriptCue, e: Event) -> bool {
    c.id == e.id && c.span == e.span && c.text@ == speech_text(e.span)
}

/// Cues from speech events when no transcript is available: one per speech
/// event, in order, with a placeholder text naming its span.
pub fn cues_from_speech_events(events: &Vec<Event>) -> (r: Vec<TranscriptCue>)
    ensures
        ({
            let sp = select(events@, |e: Event| is_speech(e));
            &&& r@.len() == sp.len()
            &&& forall|k: int| 0 <= k < r@.len() ==> speech_cue(#[trigger] r@[k], sp[k])
        }),
{
    let ghost pc = |e: Event| is_speech(e);
    let mut r: Vec<TranscriptCue> = Vec::new();
    let mut i: usize = 0;
    while i < events.len()
        invariant
            0 <= i <= events@.len(),
            pc == (|e: Event| is_speech(e)),
            r@.len() == select(events@.take(i as int), pc).len(),
            forall|k: int| 0 <= k < r@.len() ==> speech_cue(#[trigger] r@[k], select(events@.take(i as int), pc)[k]),
        decreases events@.len() - i,
    {
        proof {
            lemma_select_step(events@, i as int, pc);
        }
        let ev = &events[i];
        let ghost old_r = r@;
        if ev.event_type == EventType::AudioSpeech {
            let mut text = String::new();
            push_str(&mut text, "[habla ");
            push_secs1(&mut text, ev.span.start);
            push_str(&mut text, "s–");
            push_secs1(&mut text, ev.span.end);
            push_str(&mut text, "s]");
            proof {
                assert(text@ =~= speech_text(ev.span));
            }
            r.push(TranscriptCue { id: ev.id.clone(), span: ev.span, text });
        }
        proof {
            let sel = select(events@.take(i as int + 1), pc);
            assert forall|k: int| 0 <= k < r@.len() implies speech_cue(#[trigger] r@[k], sel[k]) by {
                if k < old_r.len() {
                    assert(r@[k] == old_r[k]);
                }
            }
        }
        i = i + 1;
    }
    proof {
        assert(events@.take(events@.len() as int) =~= events@);
    }
    r
}

/// Bytes of a character in UTF-8.
pub open spec fn utf8_width(c: char) -> nat {
    if (c as u32) < 0x80 { 1 } else if (c as u32) < 0x800 { 2 } else if (c as u32) < 0x10000 { 3 } else { 4 }
}

/// Bytes of a text in UTF-8.
pub open spec fn utf8_len(s: Seq<char>) -> nat
    decreases s.len(),
{
    if s.len() == 0 { 0 } else { utf8_len(s.drop_last()) + utf8_width(s.last()) }
}

/// Alphanumeric characters of a text.
pub open spec fn alnum_count(s: Seq<char>) -> nat
    decreases s.len(),
{
    if s.len() == 0 { 0 } else { alnum_count(s.drop_last()) + if alnum(s.last()) { 1nat } else { 0nat } }
}

/// Verbal density of a unit's text in thousandths: alphanumeric characters
/// per UTF-8 byte, kept within 200..=1000.
pub open spec fn energy_of(s: Seq<char>) -> u32 {
    let b = if utf8_len(s) == 0 { 1 } else { utf8_len(s) };
    let e = alnum_count(s) * 1000 / b;
    if e < 200 { 200 } else if e > 1000 { 1000 } else { e as u32 }
}

proof fn lemma_counts(s: Seq<char>)
    ensures
        alnum_count(s) <= s.len(),
        s.len() <= utf8_len(s) <= 4 * s.len(),
    decreases s.len(),
{
    if s.len() > 0 {
        lemma_counts(s.drop_last());
    }
}

fn energy_exec(t: &Vec<char>) -> (e: u32)
    requires
        t@.len() < 0x1000_0000_0000,
    ensures
        e == energy_of(t@),
{
    let mut count: u64 = 0;
    let mut bytes: u64 = 0;
    let mut i: usize = 0;
    while i < t.len()
        invariant
            0 <= i <= t@.len(),
            t@.len() < 0x1000_0000_0000,
            count == alnum_count(t@.take(i as int)),
            bytes == utf8_len(t@.take(i as int)),
        decreases t@.len() - i,
    {
        proof {
            assert(t@.take(i as int + 1).drop_last() =~= t@.take(i as int));
            assert(t@.take(i as int + 1).last() == t@[i as int]);
            lemma_counts(t@.take(i as int));
        }
        let c = t[i];
        if is_alphanumeric(c) {
            count = count + 1;
        }
        let w: u64 = if (c as u32) < 0x80 { 1 } else if (c as u32) < 0x800 { 2 } else if (c as u32) < 0x10000 { 3 } else { 4 };
        bytes = bytes + w;
        i = i + 1;
    }
    proof {
        assert(t@.take(t@.len() as int) =~= t@);
        lemma_counts(t@);
    }
    let b = if bytes == 0 { 1 } else { bytes };
    let e = count * 1000 / b;
    if e < 200 { 200 } else if e > 1000 { 1000 } else { e as u32 }
}

/// A group of cues: start, end, texts, cue ids.
pub type CueGroup = (u64, u64, Seq<Seq<char>>, Seq<Seq<char>>);

/// Cue `c` opens a new unit after a group spanning `[s, e]`: the pause
/// before it is over `max_gap`, or the unit would last over `max_dur`.
pub open spec fn opens_unit(s: u64, e: u64, c: TranscriptCue, max_gap: u64, max_dur: u64) -> bool {
    (c.span.start > e && c.span.start - e > max_gap) || (c.span.end > s && c.span.end - s > max_dur)
}

/// The groups that cue merging forms, in order.
pub open spec fn cue_groups(cs: Seq<TranscriptCue>, max_gap: u64, max_dur: u64) -> Seq<CueGroup>
    decreases cs.len(),
{
    if cs.len() == 0 {
        Seq::empty()
    } else {
        let c = cs.last();
        let fresh: CueGroup = (c.span.start, c.span.end, seq![c.text@], seq![c.id@]);
        if cs.len() == 1 {
            seq![fresh]
        } else {
            let g = cue_groups(cs.drop_last(), max_gap, max_dur);
            let l = g.last();
            if opens_unit(l.0, l.1, c, max_gap, max_dur) {
                g.push(fresh)
            } else {
                g.update(g.len() - 1, (l.0, if c.span.end > l.1 { c.span.end } else { l.1 }, l.2.push(c.text@), l.3.push(c.id@)))
            }
        }
    }
}

proof fn lemma_cue_groups_len(cs: Seq<TranscriptCue>, max_gap: u64, max_dur: u64)
    ensures
        cs.len() > 0 ==> cue_groups(cs, max_gap, max_dur).len() >= 1,
        cue_groups(cs, max_gap, max_dur).len() <= cs.len(),
    decreases cs.len(),
{
    if cs.len() > 1 {
        lemma_cue_groups_len(cs.drop_last(), max_gap, max_dur);
    }
}

/// `u` is the unit of group `g`.
pub open spec fn unit_of(u: SemanticUnit, g: CueGroup) -> bool {
    &&& u.span.start == g.0
    &&& u.span.end == g.1
    &&& u.text@ == collapse_ws(join_sp(g.2))
    &&& crate::export::views(u.cue_ids@) == g.3
    &&& u.energy == energy_of(u.text@)
    &&& u.id@.len() == 36
}

fn make_unit(start: u64, end: u64, texts: &Vec<Vec<char>>, ids: &Vec<String>) -> (u: SemanticUnit)
    requires
        crate::captions::join_sp(char_views(texts@)).len() < 0x1000_0000_0000,
    ensures
        u.span.start == start && u.span.end == end,
        u.text@ == collapse_ws(join_sp(char_views(texts@))),
        u.cue_ids@ == ids@,
        u.energy == energy_of(u.text@),
        u.id@.len() == 36,
{
    let joined = crate::captions::join_space(texts, 0);
    proof {
        assert(char_views(texts@).skip(0) =~= char_views(texts@));
        crate::filler::lemma_collapse_len(joined@);
    }
    let clean = collapse(&joined);
    let energy = energy_exec(&clean);
    let cue_ids = crate::events::copy_strings(ids);
    SemanticUnit { id: new_id(), span: Span { start, end }, text: from_chars(&clean), cue_ids, energy }
}

/// Total characters of the cue texts.
pub open spec fn text_total(cs: Seq<TranscriptCue>) -> nat
    decreases cs.len(),
{
    if cs.len() == 0 { 0 } else { text_total(cs.drop_last()) + cs.last().text@.len() + 1 }
}

proof fn lemma_join_len(ts: Seq<Seq<char>>)
    ensures
        join_sp(ts).len() <= texts_len(ts),
    decreases ts.len(),
{
    if ts.len() > 1 {
        lemma_join_len(ts.drop_last());
    }
}

/// Total characters of the texts plus one separator each.
pub open spec fn texts_len(ts: Seq<Seq<char>>) -> nat
    decreases ts.len(),
{
    if ts.len() == 0 { 0 } else { texts_len(ts.drop_last()) + ts.last().len() + 1 }
}

proof fn lemma_text_total_prefix(cs: Seq<TranscriptCue>, i: int)
    requires
        0 <= i <= cs.len(),
    ensures
        text_total(cs.take(i)) <= text_total(cs),
    decreases cs.len() - i,
{
    if i < cs.len() {
        lemma_text_total_prefix(cs, i + 1);
        assert(cs.take(i + 1).drop_last() =~= cs.take(i));
    } else {
        assert(cs.take(i) =~= cs);
    }
}

/// Merge cues into semantic units: a cue joins the current unit unless the
/// pause before it exceeds `max_gap` or the unit would exceed `max_dur` (ms).
pub fn cues_to_semantic_units(cues: &Vec<TranscriptCue>, max_gap: u64, max_dur: u64) -> (r: Vec<SemanticUnit>)
    requires
        text_total(cues@) < 0x1000_0000_0000,
    ensures
        ({
            let g = cue_groups(cues@, max_gap, max_dur);
            &&& r@.len() == g.len()
            &&& forall|k: int| 0 <= k < r@.len() ==> unit_of(#[trigger] r@[k], g[k])
        }),
{
    let mut units: Vec<SemanticUnit> = Vec::new();
    if cues.len() == 0 {
        return units;
    }
    let mut cur_start = cues[0].span.start;
    let mut cur_end = cues[0].span.end;
    let mut texts: Vec<Vec<char>> = Vec::new();
    texts.push(to_chars(cues[0].text.as_str()));
    let mut ids: Vec<String> = Vec::new();
    ids.push(cues[0].id.clone());
    let mut i: usize = 1;
    proof {
        assert(cues@.take(1).drop_last() =~= Seq::<TranscriptCue>::empty());
        assert(char_views(texts@) =~= seq![cues@[0].text@]);
        assert(crate::export::views(ids@) =~= seq![cues@[0].id@]);
        lemma_text_total_prefix(cues@, 1);
        assert(cues@.take(1).last() == cues@[0]);
        assert(texts_len(char_views(texts@)) == text_total(cues@.take(1))) by {
            assert(char_views(texts@).drop_last() =~= Seq::<Seq<char>>::empty());
            assert(cues@.take(1).drop_last() =~= Seq::<TranscriptCue>::empty());
            assert(texts_len(char_views(texts@).drop_last()) == 0);
            assert(text_total(cues@.take(1).drop_last()) == 0);
        }
    }
    while i < cues.len()
        invariant
            1 <= i <= cues@.len(),
            text_total(cues@) < 0x1000_0000_0000,
            ({
                let g = cue_groups(cues@.take(i as int), max_gap, max_dur);
                &&& g.len() == units@.len() + 1
                &&& forall|k: int| 0 <= k < units@.len() ==> unit_of(#[trigger] units@[k], g[k])
                &&& g.last() == (cur_start, cur_end, char_views(texts@), crate::export::views(ids@))
            }),
            texts_len(char_views(texts@)) <= text_total(cues@.take(i as int)),
        decreases cues@.len() - i,
    {
        let c = &cues[i];
        let ghost t = cues@.take(i as int + 1);
        let ghost g0 = cue_groups(cues@.take(i as int), max_gap, max_dur);
        proof {
            assert(t.drop_last() =~= cues@.take(i as int));
            assert(t.last() == cues@[i as int]);
            lemma_text_total_prefix(cues@, i as int + 1);
            lemma_join_len(char_views(texts@));
        }
        let gap_break = c.span.start > cur_end && c.span.start - cur_end > max_gap;
        let dur_break = c.span.end > cur_start && c.span.end - cur_start > max_dur;
        if gap_break || dur_break {
            let u = make_unit(cur_start, cur_end, &texts, &ids);
            units.push(u);
            cur_start = c.span.start;
            cur_end = c.span.end;
            texts = Vec::new();
            texts.push(to_chars(c.text.as_str()));
            ids = Vec::new();
            ids.push(c.id.clone());
            proof {
                assert(char_views(texts@) =~= seq![c.text@]);
                assert(crate::export::views(ids@) =~= seq![c.id@]);
                assert(char_views(texts@).drop_last() =~= Seq::<Seq<char>>::empty());
                assert(texts_len(char_views(texts@).drop_last()) == 0);
                assert(texts_len(char_views(texts@)) == c.text@.len() + 1);
                assert(text_total(t) == text_total(cues@.take(i as int)) + c.text@.len() + 1);
            }
        } else {
            if c.span.end > cur_end {
                cur_end = c.span.end;
            }
            let ghost old_texts = char_views(texts@);
            let ghost old_ids = crate::export::views(ids@);
            texts.push(to_chars(c.text.as_str()));
            ids.push(c.id.clone());
            proof {
                assert(char_views(texts@) =~= old_texts.push(c.text@));
                assert(crate::export::views(ids@) =~= old_ids.push(c.id@));
                assert(char_views(texts@).drop_last() =~= old_texts);
                assert(texts_len(char_views(texts@)) == texts_len(old_texts) + c.text@.len() + 1);
                assert(text_total(t) == text_total(cues@.take(i as int)) + c.text@.len() + 1);
            }
        }
        i = i + 1;
    }
    proof {
        assert(cues@.take(cues@.len() as int) =~= cues@);
        lemma_text_total_prefix(cues@, cues@.len() as int);
        lemma_join_len(char_views(texts@));
    }
    let u = make_unit(cur_start, cur_end, &texts, &ids);
    units.push(u);
    units
}

} // verus!
