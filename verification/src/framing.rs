//! Vertical 9:16 framing of clips: a region of the source cropped and
//! scaled, several regions stacked, or the whole frame fitted.
use vstd::prelude::*;

use crate::clipping::{ClipFraming, FramingMode, LayoutPanel};
use crate::text::{dec, push_dec, push_str};

verus! {

/// What a probe tells of a media file (duration in ms, size in pixels).
#[derive(Clone, Copy, Debug, PartialEq, Eq)]
pub struct MediaInfo {
    pub duration: u64,
    pub width: u32,
    pub height: u32,
    pub has_audio: bool,
}

/// The framing a clip of this media starts with: the default, aimed a
/// little above center; a source already vertical (narrower than 0.7) is
/// fitted with bars instead of cropped.
pub fn default_framing_for_media(info: &MediaInfo) -> (f: ClipFraming)
    ensures
        f.center_x == 500 && f.center_y == 420 && f.zoom == 1000,
        f.width_frac == 0 && f.height_frac == 0,
        f.output_width == 1080 && f.output_height == 1920,
        f.panels@.len() == 0 && !f.tracking_ready,
        f.mode == (if info.width > 0 && info.height > 0 && 10 * (info.width as int) < 7 * (info.height as int) {
            FramingMode::FitWithBars
        } else {
            FramingMode::AutoCenter
        }),
{
    let mut f = ClipFraming::default_framing();
    f.center_y = 420;
    f.tracking_ready = false;
    if info.width > 0 && info.height > 0 {
        if 10 * (info.width as u64) < 7 * (info.height as u64) {
            f.zoom = 1000;
            f.mode = FramingMode::FitWithBars;
        }
    }
    f
}

/// `v` within `[lo, hi]`.
pub open spec fn clampi(v: int, lo: int, hi: int) -> int {
    if v < lo { lo } else if v > hi { hi } else { v }
}

/// Largest even number not above `v` (zero for negatives).
pub open spec fn even_floor(v: int) -> nat {
    if v <= 0 { 0 } else { (v - v % 2) as nat }
}

/// One axis of a region crop: the region centered at `c` with size `f`
/// (thousandths, at least 8 %) on a source of `sz` pixels gives `(length,
/// start)` in pixels: kept inside the frame, at least 2 px, both even.
pub open spec fn crop_axis(c: u32, f: u32, sz: u32) -> (nat, nat) {
    let w = clampi(f as int, 80, 1000);
    let x0 = clampi(c as int, 0, 1000);
    // in 1/2000 of a pixel
    let cw0 = if 2 * (w * sz) < 4000 { 4000 } else { 2 * (w * sz) };
    let xa = (2 * x0 - w) * sz;
    let x = if xa < 0 { 0 } else { xa };
    let cw = if x + cw0 > 2000 * sz { if 2000 * sz - x < 4000 { 4000 } else { 2000 * sz - x } } else { cw0 };
    (even_floor(cw / 2000), even_floor(x / 2000))
}

/// The crop `(w, h, x, y)` of a region centered at `(cx, cy)` of size
/// `wf`×`hf` (thousandths) in a `sw`×`sh` source.
pub open spec fn uv_crop(cx: u32, cy: u32, wf: u32, hf: u32, sw: u32, sh: u32) -> (nat, nat, nat, nat) {
    let (w, x) = crop_axis(cx, wf, sw);
    let (h, y) = crop_axis(cy, hf, sh);
    (w, h, x, y)
}

/// The crop-and-fit step for one region into an `ow`×`oh` box.
pub open spec fn uv_filter(c: (nat, nat, nat, nat), ow: u32, oh: u32) -> Seq<char> {
    "crop="@ + dec(c.0) + ":"@ + dec(c.1) + ":"@ + dec(c.2) + ":"@ + dec(c.3) + ",scale="@ + dec(ow as nat) + ":"@
        + dec(oh as nat) + ":force_original_aspect_ratio=decrease,pad="@ + dec(ow as nat) + ":"@ + dec(oh as nat)
        + ":(ow-iw)/2:(oh-ih)/2:black"@
}

fn crop_axis_exec(c: u32, f: u32, sz: u32) -> (r: (u64, u64))
    ensures
        (r.0 as nat, r.1 as nat) == crop_axis(c, f, sz),
{
    let w: i128 = if f < 80 { 80 } else if f > 1000 { 1000 } else { f as i128 };
    let x0: i128 = if c > 1000 { 1000 } else { c as i128 };
    let szi = sz as i128;
    assert(0 <= w * szi <= 1000 * 0xffff_ffff) by (nonlinear_arith)
        requires 80 <= w <= 1000, 0 <= szi <= 0xffff_ffff;
    assert(-1000 * 0xffff_ffff <= (2 * x0 - w) * szi <= 2000 * 0xffff_ffff) by (nonlinear_arith)
        requires 0 <= x0 <= 1000, 80 <= w <= 1000, 0 <= szi <= 0xffff_ffff;
    let ws = w * szi;
    let xs = (2 * x0 - w) * szi;
    let cw0: i128 = if 2 * ws < 4000 { 4000 } else { 2 * ws };
    let x: i128 = if xs < 0 { 0 } else { xs };
    let cw: i128 = if x + cw0 > 2000 * szi { if 2000 * szi - x < 4000 { 4000 } else { 2000 * szi - x } } else { cw0 };
    let a = cw / 2000;
    let d = x / 2000;
    let ea: u64 = if a <= 0 { 0 } else { (a - a % 2) as u64 };
    let ed: u64 = if d <= 0 { 0 } else { (d - d % 2) as u64 };
    (ea, ed)
}

fn uv_crop_exec(cx: u32, cy: u32, wf: u32, hf: u32, sw: u32, sh: u32) -> (r: (u64, u64, u64, u64))
    ensures
        (r.0 as nat, r.1 as nat, r.2 as nat, r.3 as nat) == uv_crop(cx, cy, wf, hf, sw, sh),
{
    let (w, x) = crop_axis_exec(cx, wf, sw);
    let (h, y) = crop_axis_exec(cy, hf, sh);
    (w, h, x, y)
}

fn push_uv_filter(s: &mut String, c: (u64, u64, u64, u64), ow: u32, oh: u32)
    ensures
        final(s)@ == old(s)@ + uv_filter((c.0 as nat, c.1 as nat, c.2 as nat, c.3 as nat), ow, oh),
{
    push_str(s, "crop=");
    push_dec(s, c.0);
    push_str(s, ":");
    push_dec(s, c.1);
    push_str(s, ":");
    push_dec(s, c.2);
    push_str(s, ":");
    push_dec(s, c.3);
    push_str(s, ",scale=");
    push_dec(s, ow as u64);
    push_str(s, ":");
    push_dec(s, oh as u64);
    push_str(s, ":force_original_aspect_ratio=decrease,pad=");
    push_dec(s, ow as u64);
    push_str(s, ":");
    push_dec(s, oh as u64);
    push_str(s, ":(ow-iw)/2:(oh-ih)/2:black");
    proof {
        assert(s@ =~= old(s)@ + uv_filter((c.0 as nat, c.1 as nat, c.2 as nat, c.3 as nat), ow, oh));
    }
}

/// `num / den` rounded to the nearest integer, halves to even (as `{:.0}` prints).
pub open spec fn round_even(num: int, den: int) -> int {
    let q = num / den;
    let r = num % den;
    if 2 * r > den || (2 * r == den && q % 2 == 1) { q + 1 } else { q }
}

fn round_even_exec(num: u128, den: u128) -> (r: u128)
    requires
        den > 0,
        num < 0x1_0000_0000_0000_0000_0000_0000,
        den < 0x1_0000_0000_0000_0000_0000_0000,
    ensures
        r == round_even(num as int, den as int),
{
    let q = num / den;
    let r = num % den;
    if 2 * r > den || (2 * r == den && q % 2 == 1) { q + 1 } else { q }
}

/// The legacy zoom crop `(w, h, x, y)` in pixels: a 9:16 window of height
/// `sh / zoom` (at most the source), centered at `(cx, cy)` kept within
/// 5 %..95 % and the window kept inside the frame; each value rounded.
/// Exact values are over the denominator `288000 · zoom`.
pub open spec fn zoom_crop(cx: u32, cy: u32, zoom: u32, sw: u32, sh: u32) -> (int, int, int, int) {
    let z: int = if zoom < 1000 { 1000 } else { zoom as int };
    let d = 288000 * z;
    let w1 = sh * 162000000;
    let w2 = sw * (288000 * z);
    let cw = if w1 < w2 { w1 } else { w2 };
    let h1 = cw / 9 * 16;
    let h2 = sh * d;
    let ch = if h1 < h2 { h1 } else { h2 };
    let kx = clampi(cx as int, 50, 950);
    let ky = clampi(cy as int, 50, 950);
    let xa = kx * sw * (288 * z) - cw / 2;
    let ya = ky * sh * (288 * z) - ch / 2;
    let mx = if sw * d - cw > 0 { sw * d - cw } else { 0 };
    let my = if sh * d - ch > 0 { sh * d - ch } else { 0 };
    let x = clampi(xa, 0, mx);
    let y = clampi(ya, 0, my);
    (round_even(cw, d), round_even(ch, d), round_even(x, d), round_even(y, d))
}

fn zoom_crop_exec(cx: u32, cy: u32, zoom: u32, sw: u32, sh: u32) -> (r: (u128, u128, u128, u128))
    ensures
        (r.0 as int, r.1 as int, r.2 as int, r.3 as int) == zoom_crop(cx, cy, zoom, sw, sh),
{
    let z: u128 = if zoom < 1000 { 1000 } else { zoom as u128 };
    let swi = sw as u128;
    let shi = sh as u128;
    assert(288000 * z <= 288000 * 0xffff_ffff);
    let d: u128 = 288000 * z;
    assert(shi * 162000000 <= 0xffff_ffff * 162000000) by (nonlinear_arith)
        requires shi <= 0xffff_ffff;
    assert(swi * d <= 0xffff_ffff * (288000 * 0xffff_ffff)) by (nonlinear_arith)
        requires swi <= 0xffff_ffff, d <= 288000 * 0xffff_ffff;
    assert(shi * d <= 0xffff_ffff * (288000 * 0xffff_ffff)) by (nonlinear_arith)
        requires shi <= 0xffff_ffff, d <= 288000 * 0xffff_ffff;
    let w1 = shi * 162000000;
    let w2 = swi * d;
    let cw = if w1 < w2 { w1 } else { w2 };
    let h1 = cw / 9 * 16;
    let h2 = shi * d;
    let ch = if h1 < h2 { h1 } else { h2 };
    let kx: u128 = if cx < 50 { 50 } else if cx > 950 { 950 } else { cx as u128 };
    let ky: u128 = if cy < 50 { 50 } else if cy > 950 { 950 } else { cy as u128 };
    assert(288 * z <= 288 * 0xffff_ffff);
    assert(kx * swi <= 950 * 0xffff_ffff) by (nonlinear_arith)
        requires kx <= 950, swi <= 0xffff_ffff;
    assert(ky * shi <= 950 * 0xffff_ffff) by (nonlinear_arith)
        requires ky <= 950, shi <= 0xffff_ffff;
    assert(kx * swi * (288 * z) <= 950 * 0xffff_ffff * (288 * 0xffff_ffff)) by (nonlinear_arith)
        requires kx * swi <= 950 * 0xffff_ffff, 288 * z <= 288 * 0xffff_ffff, 0 <= kx * swi, 0 <= z;
    assert(ky * shi * (288 * z) <= 950 * 0xffff_ffff * (288 * 0xffff_ffff)) by (nonlinear_arith)
        requires ky * shi <= 950 * 0xffff_ffff, 288 * z <= 288 * 0xffff_ffff, 0 <= ky * shi, 0 <= z;
    let xp = kx * swi * (288 * z);
    let yp = ky * shi * (288 * z);
    let sd = swi * d;
    let hd = shi * d;
    let mx = if sd > cw { sd - cw } else { 0 };
    let my = if hd > ch { hd - ch } else { 0 };
    let xa_neg = xp < cw / 2;
    let x: u128 = if xa_neg { 0 } else if xp - cw / 2 > mx { mx } else { xp - cw / 2 };
    let ya_neg = yp < ch / 2;
    let y: u128 = if ya_neg { 0 } else if yp - ch / 2 > my { my } else { yp - ch / 2 };
    (round_even_exec(cw, d), round_even_exec(ch, d), round_even_exec(x, d), round_even_exec(y, d))
}

/// The encoder filter for a 9:16 clip of an `sw`×`sh` source.
pub open spec fn crop_filter_text(f: ClipFraming, src_w: u32, src_h: u32) -> Seq<char> {
    let ow = if f.output_width < 2 { 2 } else { f.output_width };
    let oh = if f.output_height < 2 { 2 } else { f.output_height };
    let sw = if src_w < 2 { 2 } else { src_w };
    let sh = if src_h < 2 { 2 } else { src_h };
    let owt = dec(ow as nat);
    let oht = dec(oh as nat);
    if f.panels@.len() > 0 {
        vstack_text(f.panels@, sw, sh, ow, oh)
    } else if f.mode == FramingMode::BlurredBackground {
        "split[bg][fg];[bg]scale="@ + owt + ":"@ + oht + ":force_original_aspect_ratio=increase,crop="@ + owt + ":"@ + oht
            + ",boxblur=20:5[bg];[fg]scale=-2:"@ + oht + ":force_original_aspect_ratio=decrease[fg];[bg][fg]overlay=(W-w)/2:(H-h)/2"@
    } else if f.mode == FramingMode::FitWithBars {
        "scale="@ + owt + ":"@ + oht + ":force_original_aspect_ratio=decrease,pad="@ + owt + ":"@ + oht + ":(ow-iw)/2:(oh-ih)/2:black"@
    } else if f.width_frac > 50 && f.height_frac > 50 {
        uv_filter(uv_crop(f.center_x, f.center_y, f.width_frac, f.height_frac, sw, sh), ow, oh)
    } else {
        let c = zoom_crop(f.center_x, f.center_y, f.zoom, sw, sh);
        "crop="@ + dec(c.0 as nat) + ":"@ + dec(c.1 as nat) + ":"@ + dec(c.2 as nat) + ":"@ + dec(c.3 as nat)
            + ",scale="@ + owt + ":"@ + oht
    }
}

/// Panels used: at most three.
pub open spec fn panel_count(ps: Seq<LayoutPanel>) -> int {
    if ps.len() > 3 { 3 } else { ps.len() as int }
}

/// Height of panel `i` of `n` in an `oh`-pixel frame: equal shares, the
/// last taking the remainder.
pub open spec fn panel_h(i: int, n: int, oh: u32) -> u32 {
    let ph = oh as int / n;
    (if i + 1 == n { oh - ph * (n - 1) } else { ph }) as u32
}

/// The split labels `[s0]..[s{k-1}]`.
pub open spec fn labels(prefix: char, k: nat) -> Seq<char>
    decreases k,
{
    if k == 0 { Seq::empty() } else { labels(prefix, (k - 1) as nat) + seq!['[', prefix] + dec((k - 1) as nat) + seq![']'] }
}

/// The per-panel steps for panels `0..k`.
pub open spec fn panel_steps(ps: Seq<LayoutPanel>, k: nat, n: int, sw: u32, sh: u32, ow: u32, oh: u32) -> Seq<char>
    decreases k,
{
    if k == 0 {
        Seq::empty()
    } else {
        panel_steps(ps, (k - 1) as nat, n, sw, sh, ow, oh) + panel_step(ps, (k - 1) as int, n, sw, sh, ow, oh)
    }
}

/// The step that crops panel `i` into its share of the frame.
pub open spec fn panel_step(ps: Seq<LayoutPanel>, i: int, n: int, sw: u32, sh: u32, ow: u32, oh: u32) -> Seq<char> {
    let p = ps[i];
    ";[s"@ + dec(i as nat) + "]"@
        + uv_filter(uv_crop(p.center_x, p.center_y, p.width_frac, p.height_frac, sw, sh), ow, panel_h(i, n, oh))
        + "[p"@ + dec(i as nat) + "]"@
}

fn push_panel_step(s: &mut String, p: LayoutPanel, i: usize, h: u32, sw: u32, sh: u32, ow: u32)
    ensures
        final(s)@ == old(s)@ + ";[s"@ + dec(i as nat) + "]"@
            + uv_filter(uv_crop(p.center_x, p.center_y, p.width_frac, p.height_frac, sw, sh), ow, h)
            + "[p"@ + dec(i as nat) + "]"@,
{
    push_str(s, ";[s");
    push_dec(s, i as u64);
    push_str(s, "]");
    let c = uv_crop_exec(p.center_x, p.center_y, p.width_frac, p.height_frac, sw, sh);
    push_uv_filter(s, c, ow, h);
    push_str(s, "[p");
    push_dec(s, i as u64);
    push_str(s, "]");
    proof {
        assert(s@ =~= old(s)@ + ";[s"@ + dec(i as nat) + "]"@
            + uv_filter(uv_crop(p.center_x, p.center_y, p.width_frac, p.height_frac, sw, sh), ow, h)
            + "[p"@ + dec(i as nat) + "]"@);
    }
}

/// One to three regions of the source stacked into the frame.
pub open spec fn vstack_text(ps: Seq<LayoutPanel>, sw: u32, sh: u32, ow: u32, oh: u32) -> Seq<char> {
    let n = panel_count(ps);
    if n == 1 {
        let p = ps[0];
        uv_filter(uv_crop(p.center_x, p.center_y, p.width_frac, p.height_frac, sw, sh), ow, oh)
    } else {
        "split="@ + dec(n as nat) + labels('s', n as nat) + panel_steps(ps, n as nat, n, sw, sh, ow, oh)
            + ";"@ + labels('p', n as nat) + "vstack="@ + dec(n as nat)
    }
}

fn push_labels(s: &mut String, prefix: char, k: u64)
    ensures
        final(s)@ == old(s)@ + labels(prefix, k as nat),
{
    let mut i: u64 = 0;
    proof {
        assert(old(s)@ + labels(prefix, 0) =~= old(s)@);
    }
    while i < k
        invariant
            0 <= i <= k,
            s@ == old(s)@ + labels(prefix, i as nat),
        decreases k - i,
    {
        crate::text::push_char(s, '[');
        crate::text::push_char(s, prefix);
        push_dec(s, i);
        crate::text::push_char(s, ']');
        proof {
            assert(s@ =~= old(s)@ + labels(prefix, (i + 1) as nat));
        }
        i = i + 1;
    }
}

#[verifier::rlimit(100)]
#[verifier::spinoff_prover]
fn vstack_exec(ps: &Vec<LayoutPanel>, sw: u32, sh: u32, ow: u32, oh: u32) -> (r: String)
    requires
        ps@.len() > 0,
    ensures
        r@ == vstack_text(ps@, sw, sh, ow, oh),
{
    let n: usize = if ps.len() > 3 { 3 } else { ps.len() };
    let mut s = String::new();
    if n == 1 {
        let p = ps[0];
        let c = uv_crop_exec(p.center_x, p.center_y, p.width_frac, p.height_frac, sw, sh);
        push_uv_filter(&mut s, c, ow, oh);
        proof {
            assert(s@ =~= vstack_text(ps@, sw, sh, ow, oh));
        }
        return s;
    }
    let ph: u32 = oh / (n as u32);
    push_str(&mut s, "split=");
    push_dec(&mut s, n as u64);
    push_labels(&mut s, 's', n as u64);
    let ghost head = s@;
    let mut i: usize = 0;
    proof {
        assert(head + panel_steps(ps@, 0, n as int, sw, sh, ow, oh) =~= head);
    }
    while i < n
        invariant
            0 <= i <= n <= 3,
            n >= 2,
            n == panel_count(ps@),
            ps@.len() >= n,
            ph == oh as int / n as int,
            s@ == head + panel_steps(ps@, i as nat, n as int, sw, sh, ow, oh),
        decreases n - i,
    {
        let p = ps[i];
        assert(ph * (n - 1) <= oh) by (nonlinear_arith)
            requires ph == oh as int / n as int, 2 <= n <= 3, 0 <= oh;
        let h: u32 = if i + 1 == n { oh - ph * (n as u32 - 1) } else { ph };
        let ghost before = s@;
        push_panel_step(&mut s, p, i, h, sw, sh, ow);
        proof {
            assert(h == panel_h(i as int, n as int, oh));
            assert(s@ =~= before + panel_step(ps@, i as int, n as int, sw, sh, ow, oh));
            assert(s@ =~= head + panel_steps(ps@, (i + 1) as nat, n as int, sw, sh, ow, oh));
        }
        i = i + 1;
    }
    push_str(&mut s, ";");
    push_labels(&mut s, 'p', n as u64);
    push_str(&mut s, "vstack=");
    push_dec(&mut s, n as u64);
    proof {
        assert(s@ =~= vstack_text(ps@, sw, sh, ow, oh));
    }
    s
}

/// The encoder video filter for a 9:16 clip from its framing: stacked
/// regions, blurred background, fit with bars, a region crop, or the legacy
/// zoom crop.
pub fn compute_crop_filter(framing: &ClipFraming, src_w: u32, src_h: u32) -> (r: String)
    ensures
        r@ == crop_filter_text(*framing, src_w, src_h),
{
    let ow = if framing.output_width < 2 { 2 } else { framing.output_width };
    let oh = if framing.output_height < 2 { 2 } else { framing.output_height };
    let sw = if src_w < 2 { 2 } else { src_w };
    let sh = if src_h < 2 { 2 } else { src_h };
    if framing.panels.len() > 0 {
        return vstack_exec(&framing.panels, sw, sh, ow, oh);
    }
    let mut s = String::new();
    match framing.mode {
        FramingMode::BlurredBackground => {
            push_str(&mut s, "split[bg][fg];[bg]scale=");
            push_dec(&mut s, ow as u64);
            push_str(&mut s, ":");
            push_dec(&mut s, oh as u64);
            push_str(&mut s, ":force_original_aspect_ratio=increase,crop=");
            push_dec(&mut s, ow as u64);
            push_str(&mut s, ":");
            push_dec(&mut s, oh as u64);
            push_str(&mut s, ",boxblur=20:5[bg];[fg]scale=-2:");
            push_dec(&mut s, oh as u64);
            push_str(&mut s, ":force_original_aspect_ratio=decrease[fg];[bg][fg]overlay=(W-w)/2:(H-h)/2");
        },
        FramingMode::FitWithBars => {
            push_str(&mut s, "scale=");
            push_dec(&mut s, ow as u64);
            push_str(&mut s, ":");
            push_dec(&mut s, oh as u64);
            push_str(&mut s, ":force_original_aspect_ratio=decrease,pad=");
            push_dec(&mut s, ow as u64);
            push_str(&mut s, ":");
            push_dec(&mut s, oh as u64);
            push_str(&mut s, ":(ow-iw)/2:(oh-ih)/2:black");
        },
        _ => {
            if framing.width_frac > 50 && framing.height_frac > 50 {
                let c = uv_crop_exec(framing.center_x, framing.center_y, framing.width_frac, framing.height_frac, sw, sh);
                push_uv_filter(&mut s, c, ow, oh);
            } else {
                let c = zoom_crop_exec(framing.center_x, framing.center_y, framing.zoom, sw, sh);
                push_str(&mut s, "crop=");
                crate::text::push_dec128(&mut s, c.0);
                push_str(&mut s, ":");
                crate::text::push_dec128(&mut s, c.1);
                push_str(&mut s, ":");
                crate::text::push_dec128(&mut s, c.2);
                push_str(&mut s, ":");
                crate::text::push_dec128(&mut s, c.3);
                push_str(&mut s, ",scale=");
                push_dec(&mut s, ow as u64);
                push_str(&mut s, ":");
                push_dec(&mut s, oh as u64);
            }
        },
    }
    proof {
        assert(s@ =~= crop_filter_text(*framing, src_w, src_h));
    }
    s
}


} // verus!
