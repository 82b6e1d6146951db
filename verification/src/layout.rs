//! Composition geometry shared by the live preview and the encoder, so that
//! what is shown is what is exported.
//!
//! A layout's `x`, `y` are the overlay's center, `w`, `h` its size, all in
//! thousandths of the frame; `h` 0 derives the height from the width.
use vstd::prelude::*;

use crate::text::{dec, dec3, lowercase, push_char, push_dec, push_dec3, push_str, to_chars, to_lowercase};
use crate::visual::{clamp_u32, eq_lit, PlacementLayout, PlacementMode, VisualPlacement};

verus! {

/// Working frame of the longform bake.
pub const DEFAULT_FRAME_W: u32 = 1280;
pub const DEFAULT_FRAME_H: u32 = 720;

/// How an image fills its box.
#[derive(Clone, Copy, Debug, PartialEq, Eq, Structural)]
pub enum FitMode {
    Contain,
    Cover,
}

/// The fit a lowercased name asks for: "contain", else cover.
pub open spec fn fit_named(s: Seq<char>) -> FitMode {
    if s == "contain"@ { FitMode::Contain } else { FitMode::Cover }
}

impl FitMode {
    /// Parse a fit name, any case; unknown names mean cover. The name of a
    /// fit parses back to it.
    pub fn parse(s: &str) -> (f: FitMode)
        ensures
            f == fit_named(lowercase(s@)),
            s@ == "contain"@ ==> f == FitMode::Contain,
            s@ == "cover"@ ==> f == FitMode::Cover,
    {
        proof {
            reveal_strlit("contain");
            reveal_strlit("cover");
            if s@ == "contain"@ || s@ == "cover"@ {
                assert(crate::text::all_ascii(s@));
                assert(crate::text::ascii_lower(s@) =~= s@);
            }
        }
        let low = to_lowercase(s);
        let v = to_chars(low.as_str());
        if eq_lit(&v, "contain") { FitMode::Contain } else { FitMode::Cover }
    }

    /// The fit's name.
    pub fn as_str(self) -> (r: &'static str)
        ensures
            r@ == (if self == FitMode::Contain { "contain"@ } else { "cover"@ }),
    {
        match self {
            FitMode::Contain => "contain",
            FitMode::Cover => "cover",
        }
    }

    /// The encoder's `force_original_aspect_ratio` value for the fit.
    pub fn ffmpeg_force_ar(self) -> (r: &'static str)
        ensures
            r@ == (if self == FitMode::Contain { "decrease"@ } else { "increase"@ }),
    {
        match self {
            FitMode::Contain => "decrease",
            FitMode::Cover => "increase",
        }
    }
}

/// Frame-relative geometry of a placement (thousandths).
#[derive(Clone, Copy, Debug, PartialEq, Eq)]
pub struct PlacementGeom {
    pub mode_fullframe: bool,
    pub cx: u32,
    pub cy: u32,
    pub w: u32,
    pub h: u32,
    pub opacity: u32,
    pub fit_contain: bool,
}

/// The geometry of a mode, layout and fit name.
pub open spec fn geom_of(mode: PlacementMode, l: PlacementLayout, fit: Seq<char>) -> PlacementGeom {
    let contain = fit_named(lowercase(fit)) == FitMode::Contain;
    let opacity = clamp_u32(l.opacity, 50, 1000);
    match mode {
        PlacementMode::Fullframe => PlacementGeom { mode_fullframe: true, cx: 500, cy: 500, w: 1000, h: 1000, opacity, fit_contain: contain },
        PlacementMode::PictureInPicture => {
            let w = clamp_u32(l.w, 80, 1000);
            let h = if l.h > 10 { clamp_u32(l.h, 50, 1000) } else { clamp_u32(w, 50, 1000) };
            PlacementGeom { mode_fullframe: false, cx: clamp_u32(l.x, 0, 1000), cy: clamp_u32(l.y, 0, 1000), w, h, opacity, fit_contain: contain }
        },
        PlacementMode::LowerThird => {
            let w = clamp_u32(l.w, 150, 1000);
            let h = if l.h > 10 { clamp_u32(l.h, 50, 500) } else { 220 };
            PlacementGeom { mode_fullframe: false, cx: 500, cy: clamp_u32(l.y, 0, 1000), w, h, opacity, fit_contain: contain }
        },
    }
}

/// Geometry within the frame: center, size and opacity in range.
pub open spec fn geom_wf(g: PlacementGeom) -> bool {
    g.cx <= 1000 && g.cy <= 1000 && g.w <= 1000 && g.h <= 1000 && 50 <= g.opacity <= 1000
}

fn clamp_exec(v: u32, lo: u32, hi: u32) -> (r: u32)
    ensures
        r == clamp_u32(v, lo, hi),
{
    if v < lo { lo } else if v > hi { hi } else { v }
}

/// Pixel rectangle, top-left origin.
#[derive(Clone, Copy, Debug, PartialEq, Eq)]
pub struct RectPx {
    pub x: i32,
    pub y: i32,
    pub w: i32,
    pub h: i32,
}

/// `num / den` rounded to the nearest integer, halves away from zero.
pub open spec fn round_div(num: int, den: int) -> int {
    if num >= 0 { (2 * num + den) / (2 * den) } else { -((-2 * num + den) / (2 * den)) }
}

/// The box of a geometry in a `fw`×`fh` frame: size rounded (at least one
/// pixel), top-left rounded and kept inside the frame.
#[verifier::opaque]
pub open spec fn box_of(g: PlacementGeom, frame_w: u32, frame_h: u32) -> RectPx {
    if g.mode_fullframe {
        RectPx { x: 0, y: 0, w: frame_w as i32, h: frame_h as i32 }
    } else {
        let fw: int = if frame_w == 0 { 1 } else { frame_w as int };
        let fh: int = if frame_h == 0 { 1 } else { frame_h as int };
        let bw0 = round_div(g.w * fw, 1000);
        let bh0 = round_div(g.h * fh, 1000);
        let bw = if bw0 < 1 { 1 } else { bw0 };
        let bh = if bh0 < 1 { 1 } else { bh0 };
        let x0 = round_div(2 * g.cx * fw - 1000 * bw, 2000);
        let y0 = round_div(2 * g.cy * fh - 1000 * bh, 2000);
        let mx = if fw - bw > 0 { fw - bw } else { 0 };
        let my = if fh - bh > 0 { fh - bh } else { 0 };
        let x = if x0 < 0 { 0 } else if x0 > mx { mx } else { x0 };
        let y = if y0 < 0 { 0 } else if y0 > my { my } else { y0 };
        RectPx { x: x as i32, y: y as i32, w: bw as i32, h: bh as i32 }
    }
}

fn round_div_exec(num: i64, den: i64) -> (r: i64)
    requires
        den > 0,
        -0x1000_0000_0000 < num < 0x1000_0000_0000,
        den < 0x1000_0000,
    ensures
        r == round_div(num as int, den as int),
{
    if num >= 0 { (2 * num + den) / (2 * den) } else { -((den - 2 * num) / (2 * den)) }
}

impl PlacementGeom {
    /// The geometry of a mode, layout and fit.
    pub fn from_parts(mode: PlacementMode, layout: &PlacementLayout, fit: &str) -> (g: PlacementGeom)
        ensures
            g == geom_of(mode, *layout, fit@),
            geom_wf(g),
    {
        let contain = FitMode::parse(fit) == FitMode::Contain;
        let opacity = clamp_exec(layout.opacity, 50, 1000);
        match mode {
            PlacementMode::Fullframe => PlacementGeom { mode_fullframe: true, cx: 500, cy: 500, w: 1000, h: 1000, opacity, fit_contain: contain },
            PlacementMode::PictureInPicture => {
                let w = clamp_exec(layout.w, 80, 1000);
                let h = if layout.h > 10 { clamp_exec(layout.h, 50, 1000) } else { clamp_exec(w, 50, 1000) };
                PlacementGeom { mode_fullframe: false, cx: clamp_exec(layout.x, 0, 1000), cy: clamp_exec(layout.y, 0, 1000), w, h, opacity, fit_contain: contain }
            },
            PlacementMode::LowerThird => {
                let w = clamp_exec(layout.w, 150, 1000);
                let h = if layout.h > 10 { clamp_exec(layout.h, 50, 500) } else { 220 };
                PlacementGeom { mode_fullframe: false, cx: 500, cy: clamp_exec(layout.y, 0, 1000), w, h, opacity, fit_contain: contain }
            },
        }
    }

    /// The geometry of a placement.
    pub fn from_placement(pl: &VisualPlacement) -> (g: PlacementGeom)
        ensures
            g == geom_of(pl.mode, pl.layout, pl.fit@),
            geom_wf(g),
    {
        PlacementGeom::from_parts(pl.mode, &pl.layout, pl.fit.as_str())
    }

    /// The pixel box in a `frame_w`×`frame_h` frame (frames up to 100 000 px a side).
    pub fn box_px(&self, frame_w: u32, frame_h: u32) -> (r: RectPx)
        requires
            geom_wf(*self),
            frame_w <= 100_000 && frame_h <= 100_000,
        ensures
            r == box_of(*self, frame_w, frame_h),
    {
        if self.mode_fullframe {
            proof {
                reveal(box_of);
            }
            return RectPx { x: 0, y: 0, w: frame_w as i32, h: frame_h as i32 };
        }
        let fw: i64 = if frame_w == 0 { 1 } else { frame_w as i64 };
        let fh: i64 = if frame_h == 0 { 1 } else { frame_h as i64 };
        assert(self.w * fw <= 100_000_000) by (nonlinear_arith)
            requires self.w <= 1000, fw <= 100_000, 0 <= fw;
        assert(self.h * fh <= 100_000_000) by (nonlinear_arith)
            requires self.h <= 1000, fh <= 100_000, 0 <= fh;
        let bw0 = round_div_exec(self.w as i64 * fw, 1000);
        let bh0 = round_div_exec(self.h as i64 * fh, 1000);
        assert(bw0 <= 100_001) by {
            assert(self.w as i64 * fw >= 0);
            assert(bw0 == (2 * (self.w as i64 * fw) + 1000) / 2000);
        }
        assert(bh0 <= 100_001) by {
            assert(self.h as i64 * fh >= 0);
            assert(bh0 == (2 * (self.h as i64 * fh) + 1000) / 2000);
        }
        let bw = if bw0 < 1 { 1 } else { bw0 };
        let bh = if bh0 < 1 { 1 } else { bh0 };
        assert(2 * self.cx * fw <= 200_000_000) by (nonlinear_arith)
            requires self.cx <= 1000, fw <= 100_000, 0 <= fw;
        assert(2 * self.cy * fh <= 200_000_000) by (nonlinear_arith)
            requires self.cy <= 1000, fh <= 100_000, 0 <= fh;
        let x0 = round_div_exec(2 * self.cx as i64 * fw - 1000 * bw, 2000);
        let y0 = round_div_exec(2 * self.cy as i64 * fh - 1000 * bh, 2000);
        let mx = if fw - bw > 0 { fw - bw } else { 0 };
        let my = if fh - bh > 0 { fh - bh } else { 0 };
        let x = if x0 < 0 { 0 } else if x0 > mx { mx } else { x0 };
        let y = if y0 < 0 { 0 } else if y0 > my { my } else { y0 };
        proof {
            reveal(box_of);
        }
        RectPx { x: x as i32, y: y as i32, w: bw as i32, h: bh as i32 }
    }
}

/// A box in hundredths of a percent of the frame (10000 = whole frame),
/// positioned by its top-left corner.
#[derive(Clone, Copy, Debug, PartialEq, Eq)]
pub struct CssBox {
    pub left: u32,
    pub top: u32,
    pub width: u32,
    pub height: u32,
    pub opacity: u32,
    pub contain: bool,
    pub fullframe: bool,
}

/// `v` kept within `[lo, hi]`.
pub open spec fn clamp_int(v: int, lo: int, hi: int) -> int {
    if v < lo { lo } else if v > hi { hi } else { v }
}

/// The CSS box of a geometry: top-left from the center, sizes at least 1 %.
pub open spec fn css_of(g: PlacementGeom) -> CssBox {
    if g.mode_fullframe {
        CssBox { left: 0, top: 0, width: 10000, height: 10000, opacity: g.opacity, contain: g.fit_contain, fullframe: true }
    } else {
        CssBox {
            left: clamp_int(10 * g.cx - 5 * g.w, 0, 10000) as u32,
            top: clamp_int(10 * g.cy - 5 * g.h, 0, 10000) as u32,
            width: clamp_int(10 * g.w, 100, 10000) as u32,
            height: clamp_int(10 * g.h, 100, 10000) as u32,
            opacity: g.opacity,
            contain: g.fit_contain,
            fullframe: false,
        }
    }
}

fn clamp_i64(v: i64, lo: i64, hi: i64) -> (r: i64)
    ensures
        r == clamp_int(v as int, lo as int, hi as int),
{
    if v < lo { lo } else if v > hi { hi } else { v }
}

/// An opacity in thousandths as the encoder reads it: `d.ddd`.
pub open spec fn alpha_text(op: u32) -> Seq<char> {
    dec((op / 1000) as nat) + seq!['.'] + dec3((op % 1000) as nat)
}

fn push_alpha(s: &mut String, op: u32)
    ensures
        final(s)@ == old(s)@ + alpha_text(op),
{
    push_dec(s, (op / 1000) as u64);
    push_char(s, '.');
    push_dec3(s, (op % 1000) as u64);
    proof {
        assert(s@ =~= old(s)@ + alpha_text(op));
    }
}

/// The size and fit part of the encoder's scale step.
pub open spec fn scale_body_text(g: PlacementGeom, frame_w: u32, frame_h: u32) -> Seq<char> {
    if g.mode_fullframe {
        let wh = dec(frame_w as nat) + ":"@ + dec(frame_h as nat);
        if g.fit_contain {
            wh + ":force_original_aspect_ratio=decrease,pad="@ + wh + ":(ow-iw)/2:(oh-ih)/2"@
        } else {
            wh + ":force_original_aspect_ratio=increase,crop="@ + wh
        }
    } else {
        let r = box_of(g, frame_w, frame_h);
        let wf = if r.w < 80 { 80 } else { r.w as int };
        let hf = if r.h < 60 { 60 } else { r.h as int };
        let wh = dec(wf as nat) + ":"@ + dec(hf as nat);
        if g.fit_contain {
            wh + ":force_original_aspect_ratio=decrease"@
        } else {
            wh + ":force_original_aspect_ratio=increase,crop="@ + wh
        }
    }
}

/// The encoder's scale step for overlay input `idx`, labelled `ov{i}`.
pub open spec fn scale_filter_text(g: PlacementGeom, idx: u64, i: u64, frame_w: u32, frame_h: u32) -> Seq<char> {
    "["@ + dec(idx as nat) + ":v]scale="@ + scale_body_text(g, frame_w, frame_h)
        + ",format=rgba,colorchannelmixer=aa="@ + alpha_text(g.opacity) + "[ov"@ + dec(i as nat) + "]"@
}

fn push_wh(s: &mut String, w: u64, h: u64)
    ensures
        final(s)@ == old(s)@ + dec(w as nat) + ":"@ + dec(h as nat),
{
    push_dec(s, w);
    push_str(s, ":");
    push_dec(s, h);
}

/// The overlay's top-left as encoder expressions.
pub open spec fn overlay_xy_text(g: PlacementGeom, frame_w: u32, frame_h: u32) -> (Seq<char>, Seq<char>) {
    if g.mode_fullframe {
        ("(W-w)/2"@, "(H-h)/2"@)
    } else {
        let r = box_of(g, frame_w, frame_h);
        (dec(r.x as nat), dec(r.y as nat))
    }
}

proof fn lemma_box_nonneg(g: PlacementGeom, frame_w: u32, frame_h: u32)
    requires
        geom_wf(g),
        frame_w <= 100_000 && frame_h <= 100_000,
    ensures
        !g.mode_fullframe ==> box_of(g, frame_w, frame_h).x >= 0 && box_of(g, frame_w, frame_h).y >= 0
            && box_of(g, frame_w, frame_h).w >= 1 && box_of(g, frame_w, frame_h).h >= 1,
{
    reveal(box_of);
    if !g.mode_fullframe {
        let fw: int = if frame_w == 0 { 1 } else { frame_w as int };
        let fh: int = if frame_h == 0 { 1 } else { frame_h as int };
        assert(g.w * fw <= 100_000_000) by (nonlinear_arith)
            requires g.w <= 1000, fw <= 100_000, 0 <= fw;
        assert(g.h * fh <= 100_000_000) by (nonlinear_arith)
            requires g.h <= 1000, fh <= 100_000, 0 <= fh;
        assert(g.w * fw >= 0) by (nonlinear_arith)
            requires 0 <= g.w, 0 <= fw;
        assert(g.h * fh >= 0) by (nonlinear_arith)
            requires 0 <= g.h, 0 <= fh;
    }
}

impl PlacementGeom {
    /// The CSS box of the geometry.
    pub fn css_top_left(&self) -> (c: CssBox)
        requires
            geom_wf(*self),
        ensures
            c == css_of(*self),
    {
        if self.mode_fullframe {
            return CssBox { left: 0, top: 0, width: 10000, height: 10000, opacity: self.opacity, contain: self.fit_contain, fullframe: true };
        }
        CssBox {
            left: clamp_i64(10 * self.cx as i64 - 5 * self.w as i64, 0, 10000) as u32,
            top: clamp_i64(10 * self.cy as i64 - 5 * self.h as i64, 0, 10000) as u32,
            width: clamp_i64(10 * self.w as i64, 100, 10000) as u32,
            height: clamp_i64(10 * self.h as i64, 100, 10000) as u32,
            opacity: self.opacity,
            contain: self.fit_contain,
            fullframe: false,
        }
    }

    fn push_scale_body(&self, s: &mut String, frame_w: u32, frame_h: u32)
        requires
            geom_wf(*self),
            frame_w <= 100_000 && frame_h <= 100_000,
        ensures
            final(s)@ == old(s)@ + scale_body_text(*self, frame_w, frame_h),
    {
        if self.mode_fullframe {
            push_wh(s, frame_w as u64, frame_h as u64);
            if self.fit_contain {
                push_str(s, ":force_original_aspect_ratio=decrease,pad=");
                push_wh(s, frame_w as u64, frame_h as u64);
                push_str(s, ":(ow-iw)/2:(oh-ih)/2");
            } else {
                push_str(s, ":force_original_aspect_ratio=increase,crop=");
                push_wh(s, frame_w as u64, frame_h as u64);
            }
        } else {
            let r = self.box_px(frame_w, frame_h);
            proof {
                lemma_box_nonneg(*self, frame_w, frame_h);
            }
            let wf: u64 = if r.w < 80 { 80 } else { r.w as u64 };
            let hf: u64 = if r.h < 60 { 60 } else { r.h as u64 };
            push_wh(s, wf, hf);
            if self.fit_contain {
                push_str(s, ":force_original_aspect_ratio=decrease");
            } else {
                push_str(s, ":force_original_aspect_ratio=increase,crop=");
                push_wh(s, wf, hf);
            }
        }
        proof {
            assert(s@ =~= old(s)@ + scale_body_text(*self, frame_w, frame_h));
        }
    }

    /// The encoder's scale step for overlay input `idx`, output `ov{i}`.
    pub fn ffmpeg_scale_filter(&self, idx: u64, i: u64, frame_w: u32, frame_h: u32) -> (r: String)
        requires
            geom_wf(*self),
            frame_w <= 100_000 && frame_h <= 100_000,
        ensures
            r@ == scale_filter_text(*self, idx, i, frame_w, frame_h),
    {
        let mut s = String::new();
        push_str(&mut s, "[");
        push_dec(&mut s, idx);
        push_str(&mut s, ":v]scale=");
        self.push_scale_body(&mut s, frame_w, frame_h);
        push_str(&mut s, ",format=rgba,colorchannelmixer=aa=");
        push_alpha(&mut s, self.opacity);
        push_str(&mut s, "[ov");
        push_dec(&mut s, i);
        push_str(&mut s, "]");
        proof {
            assert(s@ =~= scale_filter_text(*self, idx, i, frame_w, frame_h));
        }
        s
    }

    /// The overlay position as encoder expressions: centered for full
    /// frame, else the pixel box's top-left.
    pub fn ffmpeg_overlay_xy(&self, frame_w: u32, frame_h: u32) -> (r: (String, String))
        requires
            geom_wf(*self),
            frame_w <= 100_000 && frame_h <= 100_000,
        ensures
            (r.0@, r.1@) == overlay_xy_text(*self, frame_w, frame_h),
    {
        if self.mode_fullframe {
            return (String::from_str("(W-w)/2"), String::from_str("(H-h)/2"));
        }
        let r = self.box_px(frame_w, frame_h);
        proof {
            lemma_box_nonneg(*self, frame_w, frame_h);
        }
        let mut x = String::new();
        push_dec(&mut x, r.x as u64);
        let mut y = String::new();
        push_dec(&mut y, r.y as u64);
        proof {
            assert(x@ =~= dec(r.x as nat));
            assert(y@ =~= dec(r.y as nat));
        }
        (x, y)
    }
}

} // verus!
