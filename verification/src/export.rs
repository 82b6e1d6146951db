//! Export planning: keep ranges to render and the encoder filter graph.
use vstd::prelude::*;

use crate::edl::Edl;
use crate::error::AppError;
use crate::ranges::{
    has_long, lemma_merged_empty, lemma_merged_same_elems, long_enough, merge_sorted, merged_from,
    ranges_total, sort_by_start, total_length, mf_sep, mf_wf,
};
use crate::segments::{Segment, SegmentDecision};
use crate::text::{dec, milli_text, push_char, push_dec, push_milli, push_secs3, push_str, secs3};

verus! {

/// Keep ranges closer than this (ms) are fused into one.
pub const MERGE_GAP_MS: u64 = 80;

/// Keep ranges must be at least this long (ms) to be rendered.
pub const MIN_KEEP_MS: u64 = 2;

/// Keep ranges to render and the expected output duration.
#[derive(Clone, Debug)]
pub struct ExportPlan {
    pub keep_ranges: Vec<(u64, u64)>,
    pub estimated_duration: u64,
    pub filter_complex: Option<String>,
}

/// Colour correction applied while rendering (values in thousandths).
#[derive(Clone, Copy, Debug, PartialEq, Eq)]
pub struct ColorOptions {
    pub enabled: bool,
    pub brightness: i64,
    pub contrast: i64,
    pub saturation: i64,
    pub gamma: i64,
}

impl ColorOptions {
    /// Disabled, neutral correction.
    pub fn default_options() -> (c: ColorOptions)
        ensures
            !c.enabled && c.brightness == 0 && c.contrast == 1000 && c.saturation == 1000 && c.gamma == 1000,
    {
        ColorOptions { enabled: false, brightness: 0, contrast: 1000, saturation: 1000, gamma: 1000 }
    }
}

/// Audio clean-up chain options (strength and loudness in thousandths).
#[derive(Clone, Copy, Debug, PartialEq, Eq)]
pub struct AudioEnhanceOptions {
    pub enabled: bool,
    pub highpass_hz: Option<u32>,
    pub denoise: bool,
    pub denoise_strength: i64,
    pub compress: bool,
    pub normalize: bool,
    pub target_lufs: i64,
}

impl AudioEnhanceOptions {
    /// Everything off; denoise strength one half; loudness target -14 LUFS.
    pub fn default_options() -> (a: AudioEnhanceOptions)
        ensures
            !a.enabled && a.highpass_hz is None && !a.denoise && a.denoise_strength == 500 && !a.compress
                && !a.normalize && a.target_lufs == -14000,
    {
        AudioEnhanceOptions {
            enabled: false,
            highpass_hz: None,
            denoise: false,
            denoise_strength: 500,
            compress: false,
            normalize: false,
            target_lufs: -14000,
        }
    }
}

/// A keep list merged for export: order-insensitive, ranges of at most 1 ms
/// dropped, ranges at most `MERGE_GAP_MS` apart fused.
pub open spec fn export_merge_of(m: Seq<(u64, u64)>, v: Seq<(u64, u64)>) -> bool {
    merged_from(m, v, MERGE_GAP_MS, MIN_KEEP_MS)
}

/// Merge overlapping or nearly adjacent keep ranges (fewer cuts, stabler export).
pub fn merge_keep_ranges(ranges: &Vec<(u64, u64)>) -> (m: Vec<(u64, u64)>)
    ensures
        export_merge_of(m@, ranges@),
        m@.len() == 0 <==> !has_long(ranges@, MIN_KEEP_MS),
{
    let sorted = sort_by_start(ranges);
    let m = merge_sorted(&sorted, MERGE_GAP_MS, MIN_KEEP_MS);
    proof {
        lemma_merged_same_elems(m@, sorted@, ranges@, MERGE_GAP_MS, MIN_KEEP_MS);
        lemma_merged_empty(m@, ranges@, MERGE_GAP_MS, MIN_KEEP_MS);
    }
    m
}

/// Canonical path: the EDL's keep ranges, merged.
pub fn keep_ranges_from_edl(edl: &Edl) -> (m: Vec<(u64, u64)>)
    ensures
        export_merge_of(m@, edl.spec_keep()),
        m@.len() == 0 <==> !has_long(edl.spec_keep(), MIN_KEEP_MS),
{
    merge_keep_ranges(&edl.keep_ranges())
}

/// The ranges of the segments decided Keep or still Pending, in order.
pub open spec fn seg_keep(segs: Seq<Segment>) -> Seq<(u64, u64)>
    decreases segs.len(),
{
    if segs.len() == 0 {
        Seq::empty()
    } else {
        let prev = seg_keep(segs.drop_last());
        let s = segs.last();
        if s.decision == SegmentDecision::Keep || s.decision == SegmentDecision::Pending {
            prev.push((s.start, s.end))
        } else {
            prev
        }
    }
}

/// Supervision path: ranges of segments kept or pending (unresolved doubts are kept), merged.
pub fn keep_ranges_from_segments(segments: &Vec<Segment>) -> (m: Vec<(u64, u64)>)
    ensures
        export_merge_of(m@, seg_keep(segments@)),
        m@.len() == 0 <==> !has_long(seg_keep(segments@), MIN_KEEP_MS),
{
    let mut r: Vec<(u64, u64)> = Vec::new();
    let mut i: usize = 0;
    while i < segments.len()
        invariant
            0 <= i <= segments@.len(),
            r@ == seg_keep(segments@.take(i as int)),
        decreases segments@.len() - i,
    {
        proof {
            assert(segments@.take(i as int + 1).drop_last() =~= segments@.take(i as int));
        }
        let d = segments[i].decision;
        if d == SegmentDecision::Keep || d == SegmentDecision::Pending {
            r.push((segments[i].start, segments[i].end));
        }
        i = i + 1;
    }
    proof {
        assert(segments@.take(segments@.len() as int) =~= segments@);
    }
    merge_keep_ranges(&r)
}

/// The message of a refused export.
pub open spec fn nothing_to_export() -> Seq<char> {
    "No keep ranges — nothing to export"@
}

/// Keep ranges for export: explicit ranges when given; otherwise the EDL's,
/// then the segments' when those yield nothing. Refused when the chosen source
/// yields no range.
pub fn resolve_keep_ranges(edl: Option<&Edl>, segments: Option<&Vec<Segment>>, explicit: Option<Vec<(u64, u64)>>) -> (r: Result<Vec<(u64, u64)>, AppError>)
    ensures
        explicit matches Some(k) ==> match r {
            Ok(m) => has_long(k@, MIN_KEEP_MS) && export_merge_of(m@, k@),
            Err(e) => !has_long(k@, MIN_KEEP_MS) && (e matches AppError::Invalid(msg) && msg@ == nothing_to_export()),
        },
        explicit is None ==> {
            let edl_ok = edl matches Some(x) && has_long(x.spec_keep(), MIN_KEEP_MS);
            let seg_ok = segments matches Some(s) && has_long(seg_keep(s@), MIN_KEEP_MS);
            match r {
                Ok(m) => if edl_ok {
                    export_merge_of(m@, edl->0.spec_keep())
                } else {
                    seg_ok && export_merge_of(m@, seg_keep(segments->0@))
                },
                Err(e) => !edl_ok && !seg_ok && (e matches AppError::Invalid(msg) && msg@ == nothing_to_export()),
            }
        },
{
    if let Some(k) = explicit {
        let m = merge_keep_ranges(&k);
        if m.len() == 0 {
            return Err(AppError::Invalid(String::from_str("No keep ranges — nothing to export")));
        }
        return Ok(m);
    }
    if let Some(e) = edl {
        let m = keep_ranges_from_edl(e);
        if m.len() > 0 {
            return Ok(m);
        }
    }
    if let Some(segs) = segments {
        let m = keep_ranges_from_segments(segs);
        if m.len() > 0 {
            return Ok(m);
        }
    }
    Err(AppError::Invalid(String::from_str("No keep ranges — nothing to export")))
}

/// Plan from explicit keep ranges: merged ranges and their total length.
pub fn estimate_from_keep(keep: &Vec<(u64, u64)>) -> (p: ExportPlan)
    ensures
        export_merge_of(p.keep_ranges@, keep@),
        p.estimated_duration == ranges_total(p.keep_ranges@),
        p.filter_complex is None,
{
    let m = merge_keep_ranges(keep);
    proof {
        reveal(mf_sep);
        reveal(mf_wf);
    }
    let d = total_length(&m);
    ExportPlan { keep_ranges: m, estimated_duration: d, filter_complex: None }
}

/// Plan from segment decisions: merged kept/pending ranges and their total length.
pub fn estimate_export(segments: &Vec<Segment>) -> (p: ExportPlan)
    ensures
        export_merge_of(p.keep_ranges@, seg_keep(segments@)),
        p.estimated_duration == ranges_total(p.keep_ranges@),
        p.filter_complex is None,
{
    let m = keep_ranges_from_segments(segments);
    proof {
        reveal(mf_sep);
        reveal(mf_wf);
    }
    let d = total_length(&m);
    ExportPlan { keep_ranges: m, estimated_duration: d, filter_complex: None }
}

/// Denoise amount in thousandths: strength times 20, clamped to 1..30.
pub open spec fn denoise_nr(strength: i64) -> int {
    let v = strength * 20;
    if v < 1000 { 1000 } else if v > 30000 { 30000 } else { v }
}

/// A value in thousandths with one decimal, rounded.
pub open spec fn one_decimal(x: int) -> Seq<char> {
    let t = ((x + 50) / 100) as nat;
    dec(t / 10) + seq!['.'] + dec(t % 10)
}

/// The audio clean-up filters for the options, in chain order.
pub open spec fn audio_filters_spec(a: AudioEnhanceOptions) -> Seq<Seq<char>> {
    if !a.enabled {
        Seq::empty()
    } else {
        let hp = match a.highpass_hz {
            Some(hz) => seq!["highpass=f="@ + dec(hz as nat)],
            None => Seq::empty(),
        };
        let dn = if a.denoise { seq!["afftdn=nr="@ + one_decimal(denoise_nr(a.denoise_strength))] } else { Seq::empty() };
        let cp = if a.compress { seq!["acompressor=threshold=-18dB:ratio=3:attack=20:release=250"@] } else { Seq::empty() };
        let ln = if a.normalize { seq!["loudnorm=I="@ + milli_text(a.target_lufs) + ":TP=-1.5:LRA=11"@] } else { Seq::empty() };
        hp + dn + cp + ln
    }
}

/// The views of a list of texts.
pub open spec fn views(v: Seq<String>) -> Seq<Seq<char>> {
    v.map_values(|s: String| s@)
}

/// Build the audio enhancement chain (comma-separated encoder filters).
pub fn audio_enhance_filters(audio: &AudioEnhanceOptions) -> (r: Vec<String>)
    requires
        audio.denoise_strength > i64::MIN / 20 && audio.denoise_strength < i64::MAX / 20,
        audio.target_lufs > i64::MIN,
    ensures
        views(r@) == audio_filters_spec(*audio),
{
    let mut filters: Vec<String> = Vec::new();
    if !audio.enabled {
        proof {
            assert(views(filters@) =~= audio_filters_spec(*audio));
        }
        return filters;
    }
    let ghost hp: Seq<Seq<char>> = match audio.highpass_hz {
        Some(hz) => seq!["highpass=f="@ + dec(hz as nat)],
        None => Seq::empty(),
    };
    if let Some(hz) = audio.highpass_hz {
        let mut f = String::new();
        push_str(&mut f, "highpass=f=");
        push_dec(&mut f, hz as u64);
        filters.push(f);
    }
    proof {
        assert(views(filters@) =~= hp);
    }
    let ghost after_hp = views(filters@);
    if audio.denoise {
        let v = audio.denoise_strength * 20;
        let nr: i64 = if v < 1000 { 1000 } else if v > 30000 { 30000 } else { v };
        let t: u64 = ((nr + 50) / 100) as u64;
        let mut f = String::new();
        push_str(&mut f, "afftdn=nr=");
        push_dec(&mut f, t / 10);
        push_char(&mut f, '.');
        push_dec(&mut f, t % 10);
        proof {
            assert(f@ =~= "afftdn=nr="@ + one_decimal(denoise_nr(audio.denoise_strength)));
        }
        filters.push(f);
    }
    let ghost dn: Seq<Seq<char>> = if audio.denoise { seq!["afftdn=nr="@ + one_decimal(denoise_nr(audio.denoise_strength))] } else { Seq::empty() };
    proof {
        assert(views(filters@) =~= after_hp + dn);
    }
    let ghost after_dn = views(filters@);
    if audio.compress {
        filters.push(String::from_str("acompressor=threshold=-18dB:ratio=3:attack=20:release=250"));
    }
    let ghost cp: Seq<Seq<char>> = if audio.compress { seq!["acompressor=threshold=-18dB:ratio=3:attack=20:release=250"@] } else { Seq::empty() };
    proof {
        assert(views(filters@) =~= after_dn + cp);
    }
    let ghost after_cp = views(filters@);
    if audio.normalize {
        let mut f = String::new();
        push_str(&mut f, "loudnorm=I=");
        push_milli(&mut f, audio.target_lufs);
        push_str(&mut f, ":TP=-1.5:LRA=11");
        filters.push(f);
    }
    let ghost ln: Seq<Seq<char>> = if audio.normalize { seq!["loudnorm=I="@ + milli_text(audio.target_lufs) + ":TP=-1.5:LRA=11"@] } else { Seq::empty() };
    proof {
        assert(views(filters@) =~= after_cp + ln);
        assert(audio_filters_spec(*audio) =~= hp + dn + cp + ln);
    }
    filters
}

/// The keep ranges long enough to render, in order.
pub open spec fn renderable(r: Seq<(u64, u64)>) -> Seq<(u64, u64)>
    decreases r.len(),
{
    if r.len() == 0 {
        Seq::empty()
    } else {
        let prev = renderable(r.drop_last());
        if long_enough(r.last(), MIN_KEEP_MS) { prev.push(r.last()) } else { prev }
    }
}

/// One `between(t\,start\,end)` term of the select expression.
pub open spec fn between_term(x: (u64, u64)) -> Seq<char> {
    "between(t\\,"@ + secs3(x.0) + "\\,"@ + secs3(x.1) + ")"@
}

/// The select expression: the ranges' terms joined by `+`.
pub open spec fn select_expr(r: Seq<(u64, u64)>) -> Seq<char>
    decreases r.len(),
{
    if r.len() == 0 {
        Seq::empty()
    } else if r.len() == 1 {
        between_term(r[0])
    } else {
        select_expr(r.drop_last()) + "+"@ + between_term(r.last())
    }
}

/// The audio filters appended to the audio chain, each after a comma.
pub open spec fn chain_suffix(f: Seq<Seq<char>>) -> Seq<char>
    decreases f.len(),
{
    if f.len() == 0 { Seq::empty() } else { chain_suffix(f.drop_last()) + ","@ + f.last() }
}

/// The video part of the filter graph.
pub open spec fn video_part(expr: Seq<char>, color: ColorOptions) -> Seq<char> {
    if color.enabled {
        "[0:v]select='"@ + expr + "',setpts=N/FRAME_RATE/TB,eq=brightness="@ + milli_text(color.brightness)
            + ":contrast="@ + milli_text(color.contrast) + ":saturation="@ + milli_text(color.saturation)
            + ":gamma="@ + milli_text(color.gamma) + "[vout]"@
    } else {
        "[0:v]select='"@ + expr + "',setpts=N/FRAME_RATE/TB[vout]"@
    }
}

/// The audio part of the filter graph.
pub open spec fn audio_part(expr: Seq<char>, audio: Option<AudioEnhanceOptions>) -> Seq<char> {
    "[0:a]aselect='"@ + expr + "',asetpts=N/SR/TB"@ + match audio {
        Some(a) => chain_suffix(audio_filters_spec(a)),
        None => Seq::empty(),
    } + "[aout]"@
}

fn push_between(s: &mut String, x: (u64, u64))
    ensures
        final(s)@ == old(s)@ + between_term(x),
{
    push_str(s, "between(t\\,");
    push_secs3(s, x.0);
    push_str(s, "\\,");
    push_secs3(s, x.1);
    push_str(s, ")");
    proof {
        assert(s@ =~= old(s)@ + between_term(x));
    }
}

fn build_select_expr(r: &Vec<(u64, u64)>) -> (s: String)
    ensures
        s@ == select_expr(r@),
{
    let mut s = String::new();
    let mut i: usize = 0;
    while i < r.len()
        invariant
            0 <= i <= r@.len(),
            s@ == select_expr(r@.take(i as int)),
        decreases r@.len() - i,
    {
        proof {
            assert(r@.take(i as int + 1).drop_last() =~= r@.take(i as int));
            assert(r@.take(i as int + 1).last() == r@[i as int]);
        }
        if i > 0 {
            push_str(&mut s, "+");
        }
        push_between(&mut s, r[i]);
        proof {
            if i == 0 {
                assert(s@ =~= select_expr(r@.take(1)));
            } else {
                assert(s@ =~= select_expr(r@.take(i as int + 1)));
            }
        }
        i = i + 1;
    }
    proof {
        assert(r@.take(r@.len() as int) =~= r@);
    }
    s
}

/// The message when no range is marked Keep.
pub open spec fn no_keep_message() -> Seq<char> {
    "No segments marked Keep — nothing to export"@
}

/// The message when every keep range is too short.
pub open spec fn all_empty_message() -> Seq<char> {
    "All keep ranges empty"@
}

/// Build a single-pass select/aselect filter graph (stable with dozens of cuts).
pub fn build_export_filter(keep: &Vec<(u64, u64)>, has_audio: bool, color: &ColorOptions, audio: Option<&AudioEnhanceOptions>) -> (r: Result<String, AppError>)
    requires
        color.brightness > i64::MIN && color.contrast > i64::MIN && color.saturation > i64::MIN && color.gamma > i64::MIN,
        audio matches Some(a) ==> a.denoise_strength > i64::MIN / 20 && a.denoise_strength < i64::MAX / 20 && a.target_lufs > i64::MIN,
    ensures
        keep@.len() == 0 ==> (r matches Err(AppError::Invalid(m)) && m@ == no_keep_message()),
        keep@.len() > 0 && renderable(keep@).len() == 0 ==> (r matches Err(AppError::Invalid(m)) && m@ == all_empty_message()),
        renderable(keep@).len() > 0 ==> (r matches Ok(f) && f@ == {
            let expr = select_expr(renderable(keep@));
            video_part(expr, *color) + if has_audio {
                ";"@ + audio_part(expr, match audio { Some(a) => Some(*a), None => None })
            } else {
                Seq::empty()
            }
        }),
{
    if keep.len() == 0 {
        proof {
            assert(renderable(keep@) =~= Seq::<(u64, u64)>::empty());
        }
        return Err(AppError::Invalid(String::from_str("No segments marked Keep — nothing to export")));
    }
    let mut ranges: Vec<(u64, u64)> = Vec::new();
    let mut i: usize = 0;
    while i < keep.len()
        invariant
            0 <= i <= keep@.len(),
            ranges@ == renderable(keep@.take(i as int)),
        decreases keep@.len() - i,
    {
        proof {
            assert(keep@.take(i as int + 1).drop_last() =~= keep@.take(i as int));
        }
        let (s, e) = keep[i];
        if e >= s && e - s >= MIN_KEEP_MS {
            ranges.push((s, e));
        }
        i = i + 1;
    }
    proof {
        assert(keep@.take(keep@.len() as int) =~= keep@);
    }
    if ranges.len() == 0 {
        return Err(AppError::Invalid(String::from_str("All keep ranges empty")));
    }
    let expr = build_select_expr(&ranges);
    let mut out = String::new();
    if color.enabled {
        push_str(&mut out, "[0:v]select='");
        push_str(&mut out, expr.as_str());
        push_str(&mut out, "',setpts=N/FRAME_RATE/TB,eq=brightness=");
        push_milli(&mut out, color.brightness);
        push_str(&mut out, ":contrast=");
        push_milli(&mut out, color.contrast);
        push_str(&mut out, ":saturation=");
        push_milli(&mut out, color.saturation);
        push_str(&mut out, ":gamma=");
        push_milli(&mut out, color.gamma);
        push_str(&mut out, "[vout]");
    } else {
        push_str(&mut out, "[0:v]select='");
        push_str(&mut out, expr.as_str());
        push_str(&mut out, "',setpts=N/FRAME_RATE/TB[vout]");
    }
    proof {
        assert(out@ =~= video_part(expr@, *color));
    }
    let ghost vpart = out@;
    if has_audio {
        push_str(&mut out, ";");
        let ghost before = out@;
        push_str(&mut out, "[0:a]aselect='");
        push_str(&mut out, expr.as_str());
        push_str(&mut out, "',asetpts=N/SR/TB");
        let ghost mut filt: Seq<Seq<char>> = Seq::empty();
        if let Some(a) = audio {
            let fl = audio_enhance_filters(a);
            let ghost base = out@;
            let mut j: usize = 0;
            while j < fl.len()
                invariant
                    0 <= j <= fl@.len(),
                    out@ == base + chain_suffix(views(fl@.take(j as int))),
                decreases fl@.len() - j,
            {
                proof {
                    assert(views(fl@.take(j as int + 1)).drop_last() =~= views(fl@.take(j as int)));
                    assert(views(fl@.take(j as int + 1)).last() == fl@[j as int]@);
                }
                push_str(&mut out, ",");
                push_str(&mut out, fl[j].as_str());
                proof {
                    assert(out@ =~= base + chain_suffix(views(fl@.take(j as int + 1))));
                }
                j = j + 1;
            }
            proof {
                assert(fl@.take(fl@.len() as int) =~= fl@);
                filt = audio_filters_spec(*a);
            }
        }
        push_str(&mut out, "[aout]");
        proof {
            let ao = match audio { Some(a) => Some(*a), None => None };
            assert(filt == match ao { Some(a) => audio_filters_spec(a), None => Seq::<Seq<char>>::empty() });
            assert(chain_suffix(Seq::<Seq<char>>::empty()) == Seq::<char>::empty());
            assert(out@ =~= vpart + ";"@ + audio_part(expr@, ao));
        }
    }
    Ok(out)
}

} // verus!
