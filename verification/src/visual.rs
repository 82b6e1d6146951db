//! Visual plan: B-roll placements on the output timeline, their geometry and
//! the composition review that flags conflicts.
//!
//! Positions, sizes, opacities and confidences are in thousandths of the
//! frame or scale; times are output-timeline milliseconds.
use vstd::prelude::*;

use crate::events::new_id;
use crate::text::{dec, lowercase, to_chars, to_lowercase};

verus! {

/// How an image covers the frame.
#[derive(Clone, Copy, Debug, PartialEq, Eq, Structural)]
pub enum PlacementMode {
    Fullframe,
    PictureInPicture,
    LowerThird,
}

impl PlacementMode {
    /// Modes drawn over the video (everything but full frame).
    pub fn is_overlay(self) -> (r: bool)
        ensures
            r == (self != PlacementMode::Fullframe),
    {
        !matches!(self, PlacementMode::Fullframe)
    }

    /// The mode a user names: "fullframe"/"full"/"fullscreen" (any case),
    /// "lower_third"/"lowerthird"/"lower-third", anything else picture in picture.
    pub fn from_user(s: &str) -> (m: PlacementMode)
        ensures
            m == mode_named(lowercase(s@)),
    {
        let low = to_lowercase(s);
        let v = to_chars(low.as_str());
        if eq_lit(&v, "fullframe") || eq_lit(&v, "full") || eq_lit(&v, "fullscreen") {
            PlacementMode::Fullframe
        } else if eq_lit(&v, "lower_third") || eq_lit(&v, "lowerthird") || eq_lit(&v, "lower-third") {
            PlacementMode::LowerThird
        } else {
            PlacementMode::PictureInPicture
        }
    }
}

/// The mode a lowercased user name stands for.
pub open spec fn mode_named(s: Seq<char>) -> PlacementMode {
    if s == "fullframe"@ || s == "full"@ || s == "fullscreen"@ {
        PlacementMode::Fullframe
    } else if s == "lower_third"@ || s == "lowerthird"@ || s == "lower-third"@ {
        PlacementMode::LowerThird
    } else {
        PlacementMode::PictureInPicture
    }
}

/// Whether the characters spell the literal.
pub fn eq_lit(v: &Vec<char>, lit: &str) -> (r: bool)
    ensures
        r == (v@ == lit@),
{
    let l = to_chars(lit);
    crate::text::chars_eq(v, &l)
}

/// Placement layout: center `x`, `y`, width `w`, height `h` (0 derives it
/// from the width), opacity; all in thousandths.
#[derive(Clone, Copy, Debug, PartialEq, Eq)]
pub struct PlacementLayout {
    pub x: u32,
    pub y: u32,
    pub w: u32,
    pub h: u32,
    pub opacity: u32,
}

/// `v` kept within `[lo, hi]`.
pub open spec fn clamp_u32(v: u32, lo: u32, hi: u32) -> u32 {
    if v < lo { lo } else if v > hi { hi } else { v }
}

fn clamp_exec(v: u32, lo: u32, hi: u32) -> (r: u32)
    ensures
        r == clamp_u32(v, lo, hi),
{
    if v < lo { lo } else if v > hi { hi } else { v }
}

/// The default layout of a mode.
pub open spec fn layout_for(m: PlacementMode) -> PlacementLayout {
    match m {
        PlacementMode::Fullframe => PlacementLayout { x: 500, y: 500, w: 1000, h: 1000, opacity: 1000 },
        PlacementMode::PictureInPicture => PlacementLayout { x: 820, y: 180, w: 280, h: 0, opacity: 1000 },
        PlacementMode::LowerThird => PlacementLayout { x: 500, y: 820, w: 900, h: 0, opacity: 1000 },
    }
}

/// A layout kept within its ranges: center within the frame, width at least
/// 5 %, opacity at least 5 %.
pub open spec fn layout_clamped(l: PlacementLayout) -> PlacementLayout {
    PlacementLayout {
        x: clamp_u32(l.x, 0, 1000),
        y: clamp_u32(l.y, 0, 1000),
        w: clamp_u32(l.w, 50, 1000),
        h: clamp_u32(l.h, 0, 1000),
        opacity: clamp_u32(l.opacity, 50, 1000),
    }
}

impl PlacementLayout {
    /// The default layout of a mode.
    pub fn for_mode(m: PlacementMode) -> (l: PlacementLayout)
        ensures
            l == layout_for(m),
    {
        match m {
            PlacementMode::Fullframe => PlacementLayout { x: 500, y: 500, w: 1000, h: 1000, opacity: 1000 },
            PlacementMode::PictureInPicture => PlacementLayout { x: 820, y: 180, w: 280, h: 0, opacity: 1000 },
            PlacementMode::LowerThird => PlacementLayout { x: 500, y: 820, w: 900, h: 0, opacity: 1000 },
        }
    }

    /// The layout kept within its ranges.
    pub fn clamp(self) -> (l: PlacementLayout)
        ensures
            l == layout_clamped(self),
    {
        PlacementLayout {
            x: clamp_exec(self.x, 0, 1000),
            y: clamp_exec(self.y, 0, 1000),
            w: clamp_exec(self.w, 50, 1000),
            h: clamp_exec(self.h, 0, 1000),
            opacity: clamp_exec(self.opacity, 50, 1000),
        }
    }
}

/// Human review state of a placement.
#[derive(Clone, Copy, Debug, PartialEq, Eq, Structural)]
pub enum ReviewStatus {
    Pending,
    Approved,
    Conflict,
    Rejected,
}

/// One image shown over an interval of the output timeline.
#[derive(Clone, Debug)]
pub struct VisualPlacement {
    pub id: String,
    pub asset_id: String,
    pub output_start: u64,
    pub output_end: u64,
    pub mode: PlacementMode,
    pub layout: PlacementLayout,
    pub fit: String,
    pub label: Option<String>,
    pub status: String,
    pub review_status: ReviewStatus,
    pub confidence: u32,
    pub provenance: String,
    pub avoid_zones: Vec<String>,
    pub manual_override: bool,
    pub suggested_layout: Option<PlacementLayout>,
    pub suggested_mode: Option<PlacementMode>,
    pub related_text: Option<String>,
}

impl VisualPlacement {
    /// A placement a person made: active, pending review, full confidence,
    /// provenance "manual", fresh id, layout clamped.
    pub fn manual(asset_id: &str, start: u64, end: u64, mode: PlacementMode, layout: PlacementLayout, fit: &str, label: Option<String>) -> (p: VisualPlacement)
        ensures
            p.id@.len() == 36,
            p.asset_id@ == asset_id@,
            p.output_start == start && p.output_end == end,
            p.mode == mode && p.layout == layout_clamped(layout),
            p.fit@ == fit@ && p.label == label,
            p.status@ == "active"@,
            p.review_status == ReviewStatus::Pending,
            p.confidence == 1000,
            p.provenance@ == "manual"@,
            p.avoid_zones@.len() == 0,
            !p.manual_override,
            p.suggested_layout is None && p.suggested_mode is None && p.related_text is None,
    {
        VisualPlacement {
            id: new_id(),
            asset_id: String::from_str(asset_id),
            output_start: start,
            output_end: end,
            mode,
            layout: layout.clamp(),
            fit: String::from_str(fit),
            label,
            status: String::from_str("active"),
            review_status: ReviewStatus::Pending,
            confidence: 1000,
            provenance: String::from_str("manual"),
            avoid_zones: Vec::new(),
            manual_override: false,
            suggested_layout: None,
            suggested_mode: None,
            related_text: None,
        }
    }

    /// Length of the placement on the output timeline.
    pub fn duration(&self) -> (d: u64)
        ensures
            d == crate::timeline::len_of(self.output_start, self.output_end),
    {
        if self.output_end > self.output_start { self.output_end - self.output_start } else { 0 }
    }
}

/// An interval of the output timeline kept free of images.
#[derive(Clone, Debug)]
pub struct ProtectedRange {
    pub id: String,
    pub output_start: u64,
    pub output_end: u64,
    pub reason: String,
}

/// `[s1, e1)` and `[s2, e2)` overlap.
pub open spec fn overlaps(s1: u64, e1: u64, s2: u64, e2: u64) -> bool {
    s1 < e2 && e1 > s2
}

impl ProtectedRange {
    /// A protected range with a fresh id.
    pub fn new(output_start: u64, output_end: u64, reason: String) -> (r: ProtectedRange)
        ensures
            r.id@.len() == 36,
            r.output_start == output_start && r.output_end == output_end && r.reason == reason,
    {
        ProtectedRange { id: new_id(), output_start, output_end, reason }
    }

    /// Whether `[s, e)` overlaps the range.
    pub fn overlaps(&self, s: u64, e: u64) -> (r: bool)
        ensures
            r == overlaps(s, e, self.output_start, self.output_end),
    {
        s < self.output_end && e > self.output_start
    }
}

/// A region of the frame to keep visible (a face, subtitles, a logo), active
/// over `[start, end]`; rectangle top-left `x`, `y`, size `w`×`h` in thousandths.
#[derive(Clone, Debug)]
pub struct SpatialZone {
    pub id: String,
    pub kind: String,
    pub label: Option<String>,
    pub severity: String,
    pub start: u64,
    pub end: u64,
    pub x: u32,
    pub y: u32,
    pub w: u32,
    pub h: u32,
}

/// Overlap of `[a0, a1]` and `[b0, b1]`.
pub open spec fn overlap_len(a0: int, a1: int, b0: int, b1: int) -> int {
    let lo = if a0 > b0 { a0 } else { b0 };
    let hi = if a1 < b1 { a1 } else { b1 };
    if hi > lo { hi - lo } else { 0 }
}

/// Share of a box centered at `(cx, cy)` of size `bw`×`bh` that the zone
/// covers, in thousandths (0 for an empty box).
pub open spec fn zone_cover(z: SpatialZone, cx: u32, cy: u32, bw: u32, bh: u32) -> int {
    let ox = overlap_len(cx - bw / 2, cx - bw / 2 + bw, z.x as int, z.x + z.w);
    let oy = overlap_len(cy - bh / 2, cy - bh / 2 + bh, z.y as int, z.y + z.h);
    if bw == 0 || bh == 0 { 0 } else { ox * oy * 1000 / (bw * bh) }
}

impl SpatialZone {
    /// Whether the zone is active at time `t`.
    pub fn active_at(&self, t: u64) -> (r: bool)
        ensures
            r == (self.start <= t && t <= self.end),
    {
        self.start <= t && t <= self.end
    }

    /// Share of a centered box the zone covers, in thousandths.
    pub fn rect_overlap_score(&self, cx: u32, cy: u32, bw: u32, bh: u32) -> (r: u64)
        requires
            cx <= 1000 && cy <= 1000 && bw <= 1000 && bh <= 1000,
        ensures
            r == zone_cover(*self, cx, cy, bw, bh),
    {
        if bw == 0 || bh == 0 {
            return 0;
        }
        let x0: i64 = cx as i64 - (bw / 2) as i64;
        let x1: i64 = x0 + bw as i64;
        let y0: i64 = cy as i64 - (bh / 2) as i64;
        let y1: i64 = y0 + bh as i64;
        let zx0: i64 = self.x as i64;
        let zx1: i64 = self.x as i64 + self.w as i64;
        let zy0: i64 = self.y as i64;
        let zy1: i64 = self.y as i64 + self.h as i64;
        let lo_x = if x0 > zx0 { x0 } else { zx0 };
        let hi_x = if x1 < zx1 { x1 } else { zx1 };
        let lo_y = if y0 > zy0 { y0 } else { zy0 };
        let hi_y = if y1 < zy1 { y1 } else { zy1 };
        let ox: u64 = if hi_x > lo_x { (hi_x - lo_x) as u64 } else { 0 };
        let oy: u64 = if hi_y > lo_y { (hi_y - lo_y) as u64 } else { 0 };
        assert(ox <= bw && oy <= bh);
        assert(ox * oy <= bw * bh) by (nonlinear_arith)
            requires ox <= bw, oy <= bh, 0 <= ox, 0 <= oy;
        assert(bw * bh <= 1_000_000) by (nonlinear_arith)
            requires bw <= 1000, bh <= 1000;
        assert(bw * bh > 0) by (nonlinear_arith)
            requires bw > 0, bh > 0;
        let area: u64 = (bw as u64) * (bh as u64);
        (ox * oy * 1000) / area
    }
}

/// A conflict found in a plan.
#[derive(Clone, Debug)]
pub struct CompositionIssue {
    pub id: String,
    pub placement_id: String,
    pub kind: String,
    pub severity: String,
    pub message: String,
    pub suggested_x: Option<u32>,
    pub suggested_y: Option<u32>,
    pub suggested_w: Option<u32>,
}

/// The visual plan of one edit.
#[derive(Clone, Debug)]
pub struct VisualPlan {
    pub id: String,
    pub run_id: String,
    pub media_path: String,
    pub edl_fingerprint: String,
    pub placements: Vec<VisualPlacement>,
    pub protected_ranges: Vec<ProtectedRange>,
    pub spatial_zones: Vec<SpatialZone>,
    pub issues: Vec<CompositionIssue>,
    pub warnings: Vec<String>,
    /// Bumped each time the plan is invalidated.
    pub version: u64,
}

/// Some protected range of `prs` overlaps `[s, e)`.
pub open spec fn protected_in(prs: Seq<ProtectedRange>, s: u64, e: u64) -> bool {
    exists|k: int| 0 <= k < prs.len() && overlaps(s, e, (#[trigger] prs[k]).output_start, prs[k].output_end)
}

impl VisualPlan {
    /// An empty plan with a fresh id.
    pub fn new(run_id: &str, media_path: &str, edl_fingerprint: &str) -> (p: VisualPlan)
        ensures
            p.id@.len() == 36,
            p.run_id@ == run_id@ && p.media_path@ == media_path@ && p.edl_fingerprint@ == edl_fingerprint@,
            p.placements@.len() == 0 && p.protected_ranges@.len() == 0 && p.spatial_zones@.len() == 0,
            p.issues@.len() == 0 && p.warnings@.len() == 0,
            p.version == 1,
    {
        VisualPlan {
            id: new_id(),
            run_id: String::from_str(run_id),
            media_path: String::from_str(media_path),
            edl_fingerprint: String::from_str(edl_fingerprint),
            placements: Vec::new(),
            protected_ranges: Vec::new(),
            spatial_zones: Vec::new(),
            issues: Vec::new(),
            warnings: Vec::new(),
            version: 1,
        }
    }

    /// Whether `[s, e)` touches a protected range.
    pub fn is_protected(&self, s: u64, e: u64) -> (r: bool)
        ensures
            r == protected_in(self.protected_ranges@, s, e),
    {
        let mut i: usize = 0;
        while i < self.protected_ranges.len()
            invariant
                0 <= i <= self.protected_ranges@.len(),
                forall|k: int| 0 <= k < i ==> !overlaps(s, e, (#[trigger] self.protected_ranges@[k]).output_start, self.protected_ranges@[k].output_end),
            decreases self.protected_ranges@.len() - i,
        {
            if self.protected_ranges[i].overlaps(s, e) {
                return true;
            }
            i = i + 1;
        }
        false
    }
}

/// `a` and `b` hold the same text, or both hold none.
pub open spec fn same_opt_text(a: Option<String>, b: Option<String>) -> bool {
    match (a, b) {
        (Some(x), Some(y)) => x@ == y@,
        (None, None) => true,
        _ => false,
    }
}

/// `a` and `b` hold the same texts in the same order.
pub open spec fn same_texts(a: Seq<String>, b: Seq<String>) -> bool {
    a.len() == b.len() && forall|i: int| 0 <= i < a.len() ==> (#[trigger] a[i])@ == b[i]@
}

fn copy_opt_text(o: &Option<String>) -> (r: Option<String>)
    ensures
        same_opt_text(r, *o),
{
    match o {
        Some(t) => Some(t.clone()),
        None => None,
    }
}

fn copy_texts(v: &Vec<String>) -> (r: Vec<String>)
    ensures
        same_texts(r@, v@),
{
    let mut r: Vec<String> = Vec::new();
    let mut i: usize = 0;
    while i < v.len()
        invariant
            0 <= i <= v@.len(),
            r@.len() == i,
            forall|k: int| 0 <= k < i ==> (#[trigger] r@[k])@ == v@[k]@,
        decreases v@.len() - i,
    {
        r.push(v[i].clone());
        i = i + 1;
    }
    r
}

/// Two placements agree in every field.
pub open spec fn same_placement(a: VisualPlacement, b: VisualPlacement) -> bool {
    &&& a.id@ == b.id@ && a.asset_id@ == b.asset_id@
    &&& a.output_start == b.output_start && a.output_end == b.output_end
    &&& a.mode == b.mode && a.layout == b.layout && a.fit@ == b.fit@
    &&& same_opt_text(a.label, b.label) && a.status@ == b.status@
    &&& a.review_status == b.review_status && a.confidence == b.confidence
    &&& a.provenance@ == b.provenance@ && same_texts(a.avoid_zones@, b.avoid_zones@)
    &&& a.manual_override == b.manual_override
    &&& a.suggested_layout == b.suggested_layout && a.suggested_mode == b.suggested_mode
    &&& same_opt_text(a.related_text, b.related_text)
}

/// Two protected ranges agree in every field.
pub open spec fn same_range(a: ProtectedRange, b: ProtectedRange) -> bool {
    a.id@ == b.id@ && a.output_start == b.output_start && a.output_end == b.output_end && a.reason@ == b.reason@
}

/// Two spatial zones agree in every field.
pub open spec fn same_zone(a: SpatialZone, b: SpatialZone) -> bool {
    &&& a.id@ == b.id@ && a.kind@ == b.kind@ && same_opt_text(a.label, b.label)
    &&& a.severity@ == b.severity@ && a.start == b.start && a.end == b.end
    &&& a.x == b.x && a.y == b.y && a.w == b.w && a.h == b.h
}

/// Two composition issues agree in every field.
pub open spec fn same_issue(a: CompositionIssue, b: CompositionIssue) -> bool {
    &&& a.id@ == b.id@ && a.placement_id@ == b.placement_id@ && a.kind@ == b.kind@
    &&& a.severity@ == b.severity@ && a.message@ == b.message@
    &&& a.suggested_x == b.suggested_x && a.suggested_y == b.suggested_y && a.suggested_w == b.suggested_w
}

/// Two plans agree in every field, item by item.
pub open spec fn same_plan(a: VisualPlan, b: VisualPlan) -> bool {
    &&& a.id@ == b.id@ && a.run_id@ == b.run_id@ && a.media_path@ == b.media_path@
    &&& a.edl_fingerprint@ == b.edl_fingerprint@ && a.version == b.version
    &&& a.placements@.len() == b.placements@.len()
    &&& forall|i: int| 0 <= i < a.placements@.len() ==> same_placement(#[trigger] a.placements@[i], b.placements@[i])
    &&& a.protected_ranges@.len() == b.protected_ranges@.len()
    &&& forall|i: int| 0 <= i < a.protected_ranges@.len() ==> same_range(#[trigger] a.protected_ranges@[i], b.protected_ranges@[i])
    &&& a.spatial_zones@.len() == b.spatial_zones@.len()
    &&& forall|i: int| 0 <= i < a.spatial_zones@.len() ==> same_zone(#[trigger] a.spatial_zones@[i], b.spatial_zones@[i])
    &&& a.issues@.len() == b.issues@.len()
    &&& forall|i: int| 0 <= i < a.issues@.len() ==> same_issue(#[trigger] a.issues@[i], b.issues@[i])
    &&& same_texts(a.warnings@, b.warnings@)
}

impl VisualPlacement {
    /// A copy of the placement.
    pub fn duplicate(&self) -> (r: Self)
        ensures
            same_placement(r, *self),
    {
        VisualPlacement {
            id: self.id.clone(),
            asset_id: self.asset_id.clone(),
            output_start: self.output_start,
            output_end: self.output_end,
            mode: self.mode,
            layout: self.layout,
            fit: self.fit.clone(),
            label: copy_opt_text(&self.label),
            status: self.status.clone(),
            review_status: self.review_status,
            confidence: self.confidence,
            provenance: self.provenance.clone(),
            avoid_zones: copy_texts(&self.avoid_zones),
            manual_override: self.manual_override,
            suggested_layout: self.suggested_layout,
            suggested_mode: self.suggested_mode,
            related_text: copy_opt_text(&self.related_text),
        }
    }
}

impl VisualPlan {
    /// A copy of the plan.
    pub fn duplicate(&self) -> (r: Self)
        ensures
            same_plan(r, *self),
    {
        let mut placements: Vec<VisualPlacement> = Vec::new();
        let mut i: usize = 0;
        while i < self.placements.len()
            invariant
                0 <= i <= self.placements@.len(),
                placements@.len() == i,
                forall|k: int| 0 <= k < i ==> same_placement(#[trigger] placements@[k], self.placements@[k]),
            decreases self.placements@.len() - i,
        {
            placements.push(self.placements[i].duplicate());
            i = i + 1;
        }
        let mut ranges: Vec<ProtectedRange> = Vec::new();
        let mut i: usize = 0;
        while i < self.protected_ranges.len()
            invariant
                0 <= i <= self.protected_ranges@.len(),
                ranges@.len() == i,
                forall|k: int| 0 <= k < i ==> same_range(#[trigger] ranges@[k], self.protected_ranges@[k]),
            decreases self.protected_ranges@.len() - i,
        {
            let pr = &self.protected_ranges[i];
            ranges.push(ProtectedRange {
                id: pr.id.clone(),
                output_start: pr.output_start,
                output_end: pr.output_end,
                reason: pr.reason.clone(),
            });
            i = i + 1;
        }
        let mut zones: Vec<SpatialZone> = Vec::new();
        let mut i: usize = 0;
        while i < self.spatial_zones.len()
            invariant
                0 <= i <= self.spatial_zones@.len(),
                zones@.len() == i,
                forall|k: int| 0 <= k < i ==> same_zone(#[trigger] zones@[k], self.spatial_zones@[k]),
            decreases self.spatial_zones@.len() - i,
        {
            let z = &self.spatial_zones[i];
            zones.push(SpatialZone {
                id: z.id.clone(),
                kind: z.kind.clone(),
                label: copy_opt_text(&z.label),
                severity: z.severity.clone(),
                start: z.start,
                end: z.end,
                x: z.x,
                y: z.y,
                w: z.w,
                h: z.h,
            });
            i = i + 1;
        }
        let mut issues: Vec<CompositionIssue> = Vec::new();
        let mut i: usize = 0;
        while i < self.issues.len()
            invariant
                0 <= i <= self.issues@.len(),
                issues@.len() == i,
                forall|k: int| 0 <= k < i ==> same_issue(#[trigger] issues@[k], self.issues@[k]),
            decreases self.issues@.len() - i,
        {
            let c = &self.issues[i];
            issues.push(CompositionIssue {
                id: c.id.clone(),
                placement_id: c.placement_id.clone(),
                kind: c.kind.clone(),
                severity: c.severity.clone(),
                message: c.message.clone(),
                suggested_x: c.suggested_x,
                suggested_y: c.suggested_y,
                suggested_w: c.suggested_w,
            });
            i = i + 1;
        }
        VisualPlan {
            id: self.id.clone(),
            run_id: self.run_id.clone(),
            media_path: self.media_path.clone(),
            edl_fingerprint: self.edl_fingerprint.clone(),
            placements,
            protected_ranges: ranges,
            spatial_zones: zones,
            issues,
            warnings: copy_texts(&self.warnings),
            version: self.version,
        }
    }
}

} // verus!
