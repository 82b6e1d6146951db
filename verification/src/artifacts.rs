//! Human-facing sidecar texts of an export: YouTube chapter lines and a
//! CMX3600 cut list for NLEs.
use vstd::prelude::*;

use crate::structure::ChapterMarker;
use crate::text::{dec, dec2, dec3, push_char, push_dec, push_dec2, push_dec3, push_str};

verus! {

/// Frames at 30 fps of a time in ms, rounded to the nearest frame.
pub open spec fn frames30(ms: u64) -> nat {
    ((3 * ms as nat + 50) / 100) as nat
}

/// Non-drop 30 fps timecode `HH:MM:SS:FF` of a time in ms.
#[verifier::opaque]
pub open spec fn edl_tc(ms: u64) -> Seq<char> {
    let t = frames30(ms);
    dec2(t / 108000) + seq![':'] + dec2((t / 1800) % 60) + seq![':'] + dec2((t / 30) % 60)
        + seq![':'] + dec2(t % 30)
}

/// Timecode of a time in ms for a CMX3600 EDL (30 fps, non-drop).
pub fn format_edl_tc(ms: u64) -> (r: String)
    ensures
        r@ == edl_tc(ms),
{
    let q = ms / 100;
    let total: u64 = q * 3 + ((ms % 100) * 3 + 50) / 100;
    assert(total == frames30(ms)) by {
        assert(ms == 100 * q + ms % 100);
    }
    let mut s = String::new();
    push_dec2(&mut s, total / 108000);
    push_char(&mut s, ':');
    push_dec2(&mut s, (total / 1800) % 60);
    push_char(&mut s, ':');
    push_dec2(&mut s, (total / 30) % 60);
    push_char(&mut s, ':');
    push_dec2(&mut s, total % 30);
    proof {
        reveal(edl_tc);
        assert(s@ =~= edl_tc(ms));
    }
    s
}

/// A chapter timestamp of a time in ms: `M:SS`, or `H:MM:SS` from one hour on
/// (whole seconds, truncated).
pub open spec fn ts_text(ms: u64) -> Seq<char> {
    let s = (ms / 1000) as nat;
    if s / 3600 > 0 {
        dec(s / 3600) + seq![':'] + dec2((s % 3600) / 60) + seq![':'] + dec2(s % 60)
    } else {
        dec(s / 60) + seq![':'] + dec2(s % 60)
    }
}

/// The YouTube timestamp of a time in ms.
pub fn format_ts(ms: u64) -> (r: String)
    ensures
        r@ == ts_text(ms),
{
    let s = ms / 1000;
    let h = s / 3600;
    let mut out = String::new();
    if h > 0 {
        push_dec(&mut out, h);
        push_char(&mut out, ':');
        push_dec2(&mut out, (s % 3600) / 60);
        push_char(&mut out, ':');
        push_dec2(&mut out, s % 60);
    } else {
        push_dec(&mut out, s / 60);
        push_char(&mut out, ':');
        push_dec2(&mut out, s % 60);
    }
    proof {
        assert(out@ =~= ts_text(ms));
    }
    out
}

/// One chapter line: timestamp, title, newline.
pub open spec fn chapter_line(c: ChapterMarker) -> Seq<char> {
    ts_text(c.at_output) + seq![' '] + c.title@ + seq!['\n']
}

/// A chapter within the first half second of the output.
pub open spec fn at_start(c: ChapterMarker) -> bool {
    c.at_output < 500
}

/// The lines of the chapters, leaving out those at the start when `skip_start`.
pub open spec fn chapter_lines(cs: Seq<ChapterMarker>, skip_start: bool) -> Seq<char>
    decreases cs.len(),
{
    if cs.len() == 0 {
        Seq::empty()
    } else {
        chapter_lines(cs.drop_last(), skip_start) + if skip_start && at_start(cs.last()) {
            Seq::<char>::empty()
        } else {
            chapter_line(cs.last())
        }
    }
}

/// The chapters file: every chapter line when the first chapter opens the
/// video; otherwise an `0:00 Intro` line followed by the chapters past the
/// first half second.
pub open spec fn chapters_text(cs: Seq<ChapterMarker>) -> Seq<char> {
    if cs.len() > 0 && at_start(cs[0]) {
        chapter_lines(cs, false)
    } else {
        "0:00 Intro\n"@ + chapter_lines(cs, true)
    }
}

fn push_chapter_lines(out: &mut String, cs: &Vec<ChapterMarker>, skip_start: bool)
    ensures
        final(out)@ == old(out)@ + chapter_lines(cs@, skip_start),
{
    let mut i: usize = 0;
    while i < cs.len()
        invariant
            0 <= i <= cs@.len(),
            out@ == old(out)@ + chapter_lines(cs@.take(i as int), skip_start),
        decreases cs@.len() - i,
    {
        let c = &cs[i];
        let ghost before = out@;
        proof {
            assert(cs@.take(i as int + 1).drop_last() =~= cs@.take(i as int));
            assert(cs@.take(i as int + 1).last() == cs@[i as int]);
        }
        if !(skip_start && c.at_output < 500) {
            let ts = format_ts(c.at_output);
            push_str(out, ts.as_str());
            push_char(out, ' ');
            push_str(out, c.title.as_str());
            push_char(out, '\n');
            proof {
                assert(out@ =~= before + chapter_line(cs@[i as int]));
            }
        } else {
            proof {
                assert(before + Seq::<char>::empty() =~= before);
            }
        }
        i = i + 1;
    }
    proof {
        assert(cs@.take(cs@.len() as int) =~= cs@);
    }
}

/// The text of the `.chapters.txt` file for the given chapter markers.
pub fn chapters_txt(chapters: &Vec<ChapterMarker>) -> (r: String)
    ensures
        r@ == chapters_text(chapters@),
{
    let mut out = String::new();
    if chapters.len() > 0 && chapters[0].at_output < 500 {
        push_chapter_lines(&mut out, chapters, false);
    } else {
        push_str(&mut out, "0:00 Intro\n");
        push_chapter_lines(&mut out, chapters, true);
    }
    proof {
        assert(out@ =~= chapters_text(chapters@));
    }
    out
}

/// Length in ms of a keep range (zero when reversed).
pub open spec fn range_dur(p: (u64, u64)) -> nat {
    if p.1 > p.0 { (p.1 - p.0) as nat } else { 0 }
}

/// A keep range long enough (over 1 ms) to appear in the cut list.
pub open spec fn listed(p: (u64, u64)) -> bool {
    range_dur(p) > 1
}

/// Record time in ms at which the ranges after `keep` start.
pub open spec fn rec_total(keep: Seq<(u64, u64)>) -> nat
    decreases keep.len(),
{
    if keep.len() == 0 {
        0
    } else {
        rec_total(keep.drop_last()) + if listed(keep.last()) { range_dur(keep.last()) } else { 0 }
    }
}

/// One CMX3600 event: number, source in/out, record in/out, clip name.
pub open spec fn cmx_entry(n: nat, p: (u64, u64), rec: nat, name: Seq<char>) -> Seq<char> {
    dec3(n) + "  AX       V     C        "@ + edl_tc(p.0) + seq![' '] + edl_tc(p.1) + seq![' ']
        + edl_tc(rec as u64) + seq![' '] + edl_tc((rec + range_dur(p)) as u64) + seq!['\n']
        + "* FROM CLIP NAME: "@ + name + "\n\n"@
}

/// The events of the cut list, numbered by their position among all ranges.
pub open spec fn cmx_events(keep: Seq<(u64, u64)>, name: Seq<char>) -> Seq<char>
    decreases keep.len(),
{
    if keep.len() == 0 {
        Seq::empty()
    } else {
        let p = keep.drop_last();
        cmx_events(p, name) + if listed(keep.last()) {
            cmx_entry(keep.len(), keep.last(), rec_total(p), name)
        } else {
            Seq::<char>::empty()
        }
    }
}

/// A CMX3600 cut list of the keep ranges.
pub open spec fn cmx_text(title: Seq<char>, name: Seq<char>, keep: Seq<(u64, u64)>) -> Seq<char> {
    "TITLE: "@ + title + "\nFCM: NON-DROP FRAME\n\n"@ + cmx_events(keep, name)
}

fn push_cmx_entry(out: &mut String, n: u64, start: u64, end: u64, rec: u64, name: &str)
    requires
        rec + range_dur((start, end)) <= u64::MAX,
    ensures
        final(out)@ == old(out)@ + cmx_entry(n as nat, (start, end), rec as nat, name@),
{
    let dur: u64 = if end > start { end - start } else { 0 };
    push_dec3(out, n);
    push_str(out, "  AX       V     C        ");
    let a = format_edl_tc(start);
    push_str(out, a.as_str());
    push_char(out, ' ');
    let b = format_edl_tc(end);
    push_str(out, b.as_str());
    push_char(out, ' ');
    let c = format_edl_tc(rec);
    push_str(out, c.as_str());
    push_char(out, ' ');
    let d = format_edl_tc(rec + dur);
    push_str(out, d.as_str());
    push_char(out, '\n');
    push_str(out, "* FROM CLIP NAME: ");
    push_str(out, name);
    push_str(out, "\n\n");
    proof {
        assert(out@ =~= old(out)@ + cmx_entry(n as nat, (start, end), rec as nat, name@));
    }
}

proof fn lemma_rec_total_prefix(keep: Seq<(u64, u64)>, i: int)
    requires
        0 <= i <= keep.len(),
    ensures
        rec_total(keep.take(i)) <= rec_total(keep),
    decreases keep.len() - i,
{
    if i < keep.len() {
        lemma_rec_total_prefix(keep, i + 1);
        assert(keep.take(i + 1).drop_last() =~= keep.take(i));
    } else {
        assert(keep.take(i) =~= keep);
    }
}

/// A minimal CMX3600 EDL (source timebase) of the keep ranges, titled
/// `title`, every event taken from the clip `src_name`.
pub fn build_cmx_edl(title: &str, src_name: &str, keep: &Vec<(u64, u64)>) -> (r: String)
    requires
        rec_total(keep@) <= u64::MAX,
        keep@.len() < u64::MAX,
    ensures
        r@ == cmx_text(title@, src_name@, keep@),
{
    let mut out = String::new();
    push_str(&mut out, "TITLE: ");
    push_str(&mut out, title);
    push_str(&mut out, "\nFCM: NON-DROP FRAME\n\n");
    let ghost head = out@;
    let mut rec: u64 = 0;
    let mut i: usize = 0;
    while i < keep.len()
        invariant
            0 <= i <= keep@.len(),
            keep@.len() < u64::MAX,
            rec_total(keep@) <= u64::MAX,
            rec == rec_total(keep@.take(i as int)),
            out@ == head + cmx_events(keep@.take(i as int), src_name@),
        decreases keep@.len() - i,
    {
        let (start, end) = keep[i];
        let dur: u64 = if end > start { end - start } else { 0 };
        let ghost before = out@;
        proof {
            assert(keep@.take(i as int + 1).drop_last() =~= keep@.take(i as int));
            assert(keep@.take(i as int + 1).last() == keep@[i as int]);
            lemma_rec_total_prefix(keep@, i as int + 1);
        }
        if dur > 1 {
            push_cmx_entry(&mut out, i as u64 + 1, start, end, rec, src_name);
            rec = rec + dur;
        } else {
            proof {
                assert(before + Seq::<char>::empty() =~= before);
            }
        }
        proof {
            assert(head + cmx_events(keep@.take(i as int + 1), src_name@) =~= out@);
        }
        i = i + 1;
    }
    proof {
        assert(keep@.take(keep@.len() as int) =~= keep@);
        assert(out@ =~= cmx_text(title@, src_name@, keep@));
    }
    out
}

} // verus!
