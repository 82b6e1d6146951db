//! Editing the visual plan of a session: manual placements, edits of a
//! placement, snapping, and invalidation when the cut changes.
use vstd::prelude::*;
use crate::compose::{VisualSession, evaluate_composition, restore_suggested, snap_placement_edges};
use crate::error::AppError;
use crate::export::views;
use crate::text::{lowercase, to_lowercase, str_eq, has_sub, to_chars, contains_sub};
use crate::visual::{
    PlacementLayout, PlacementMode, ReviewStatus, VisualPlacement, VisualPlan, layout_clamped,
    mode_named, protected_in, layout_for,
};

verus! {

/// The interval of a manual placement on an output of `out_dur` ms: both
/// ends kept within the output (at least 100 ms long); an interval shorter
/// than 250 ms grows to 3.5 s (within the output). `None` when it is empty.
pub open spec fn manual_interval(out_dur: u64, start: u64, end: u64) -> Option<(u64, u64)> {
    let d = if out_dur < 100 { 100 } else { out_dur };
    let s = if start > d { d } else { start };
    let e0 = if end > d { d } else { end };
    let e = if e0 < s + 250 { if s + 3500 < d { (s + 3500) as u64 } else { d } } else { e0 };
    if e <= s { None } else { Some((s, e)) }
}

/// The interval of a manual placement (see `manual_interval`).
pub fn manual_placement_interval(out_dur: u64, start: u64, end: u64) -> (r: Result<(u64, u64), AppError>)
    ensures
        r matches Ok(x) ==> manual_interval(out_dur, start, end) == Some(x),
        r is Err ==> manual_interval(out_dur, start, end) is None,
        r matches Err(AppError::Invalid(m)) ==> m@ == "Intervalo de salida inválido para el placement."@,
        r is Err ==> r matches Err(AppError::Invalid(_)),
{
    let d = if out_dur < 100 { 100 } else { out_dur };
    let s = if start > d { d } else { start };
    let e0 = if end > d { d } else { end };
    let e = if (e0 as u128) < (s as u128) + 250 {
        if (s as u128) + 3500 < d as u128 { s + 3500 } else { d }
    } else {
        e0
    };
    if e <= s {
        Err(AppError::Invalid(String::from_str("Intervalo de salida inválido para el placement.")))
    } else {
        Ok((s, e))
    }
}

/// The layout of a new placement: the mode's layout with the given center
/// and width put in.
pub open spec fn manual_layout(mode: PlacementMode, x: Option<u32>, y: Option<u32>, w: Option<u32>) -> PlacementLayout {
    let l = layout_for(mode);
    layout_clamped(PlacementLayout {
        x: match x { Some(v) => v, None => l.x },
        y: match y { Some(v) => v, None => l.y },
        w: match w { Some(v) => v, None => l.w },
        ..l
    })
}

/// What a manual placement asks for (times in ms, geometry in thousandths).
pub struct ManualPlacement {
    pub asset_id: String,
    pub asset_title: String,
    pub output_start: u64,
    pub output_end: u64,
    pub display_mode: String,
    pub position_x: Option<u32>,
    pub position_y: Option<u32>,
    pub size_w: Option<u32>,
    pub fit: Option<String>,
    pub label: Option<String>,
}

/// The session's plan ready for the cut with fingerprint `fp`: a new plan
/// when there is none, emptied (with a warning) when it was made for another cut.
pub open spec fn plan_for_cut(s: VisualSession, fp: Seq<char>, p: VisualPlan) -> bool {
    match s.plan {
        None => p.placements@.len() == 0 && p.protected_ranges@.len() == 0 && p.edl_fingerprint@ == fp,
        Some(old) => if old.edl_fingerprint@ == fp {
            p == old
        } else {
            &&& p.edl_fingerprint@ == fp && p.placements@.len() == 0 && p.protected_ranges@.len() == 0
            &&& p.id == old.id && p.version == old.version
            &&& views(p.warnings@) == views(old.warnings@).push("EDL cambió: plan visual reiniciado."@)
        },
    }
}

fn ensure_plan(session: &mut VisualSession, fp: &str, media_path: &str)
    ensures
        final(session).plan matches Some(p) && plan_for_cut(*old(session), fp@, p),
        final(session).edl_fp == old(session).edl_fp && final(session).plan_path == old(session).plan_path,
{
    match session.plan.take() {
        None => {
            let run_id = match &session.edl_fp {
                Some(f) => f.clone(),
                None => String::from_str(fp),
            };
            session.plan = Some(VisualPlan::new(run_id.as_str(), media_path, fp));
        },
        Some(mut p) => {
            if !str_eq(p.edl_fingerprint.as_str(), fp) {
                p.edl_fingerprint = String::from_str(fp);
                p.placements = Vec::new();
                p.protected_ranges = Vec::new();
                let ghost w0 = views(p.warnings@);
                p.warnings.push(String::from_str("EDL cambió: plan visual reiniciado."));
                proof {
                    assert(views(p.warnings@) =~= w0.push("EDL cambió: plan visual reiniciado."@));
                }
            }
            session.plan = Some(p);
        },
    }
}

fn drop_library_empty_warnings(ws: &mut Vec<String>)
    ensures
        forall|k: int| 0 <= k < final(ws)@.len() ==> !has_sub(#[trigger] final(ws)@[k]@, "Biblioteca vacía"@),
        forall|k: int| 0 <= k < old(ws)@.len() && !has_sub(#[trigger] old(ws)@[k]@, "Biblioteca vacía"@)
            ==> views(final(ws)@).contains(old(ws)@[k]@),
{
    let pat = to_chars("Biblioteca vacía");
    let ghost w0 = old(ws)@;
    let mut kept: Vec<String> = Vec::new();
    let mut i: usize = 0;
    while i < ws.len()
        invariant
            *ws == *old(ws),
            w0 == old(ws)@,
            i <= w0.len(),
            pat@ == "Biblioteca vacía"@,
            forall|k: int| 0 <= k < kept@.len() ==> !has_sub(#[trigger] kept@[k]@, "Biblioteca vacía"@),
            forall|k: int| 0 <= k < i && !has_sub(#[trigger] w0[k]@, "Biblioteca vacía"@)
                ==> views(kept@).contains(w0[k]@),
        decreases w0.len() - i,
    {
        let wc = to_chars(ws[i].as_str());
        if !contains_sub(&wc, &pat) {
            let ghost b = views(kept@);
            kept.push(ws[i].clone());
            proof {
                assert(views(kept@) =~= b.push(w0[i as int]@));
                assert forall|k: int| 0 <= k < i + 1 && !has_sub(#[trigger] w0[k]@, "Biblioteca vacía"@)
                    implies views(kept@).contains(w0[k]@) by {
                    if k < i {
                        let j = choose|j: int| 0 <= j < b.len() && b[j] == w0[k]@;
                        assert(views(kept@)[j] == w0[k]@);
                    } else {
                        assert(views(kept@)[b.len() as int] == w0[k]@);
                    }
                }
            }
        }
        i = i + 1;
    }
    *ws = kept;
}

/// Add a placement made by hand to the session's plan for the cut `fp`
/// (output of `out_dur` ms): the interval as `manual_interval` makes it, the
/// plan reset when it was made for another cut, `Invalid` when the interval
/// is empty or protected; the composition is then evaluated, warnings about
/// an empty library dropped, and the session remembers the cut.
pub fn create_manual_placement(
    session: &mut VisualSession,
    fp: &str,
    media_path: &str,
    out_dur: u64,
    req: &ManualPlacement,
) -> (r: Result<(), AppError>)
    ensures
        manual_interval(out_dur, req.output_start, req.output_end) is None ==> (r matches Err(
            AppError::Invalid(m),
        ) && m@ == "Intervalo de salida inválido para el placement."@ && *final(session) == *old(session)),
        manual_interval(out_dur, req.output_start, req.output_end) matches Some(iv) ==> ({
            &&& final(session).plan matches Some(p) && exists|p0: VisualPlan| #[trigger] plan_for_cut(*old(session), fp@, p0) && {
                if protected_in(p0.protected_ranges@, iv.0, iv.1) {
                    &&& r matches Err(AppError::Invalid(m)) && m@
                        == "Ese intervalo está protegido (sin imágenes). Quita el rango protegido o elige otro momento."@
                    &&& p == p0
                } else {
                    let n = p0.placements@.len();
                    let q = p.placements@[n as int];
                    &&& r is Ok
                    &&& p.placements@.len() == n + 1
                    &&& q.asset_id@ == req.asset_id@ && q.output_start == iv.0 && q.output_end == iv.1
                    &&& q.mode == mode_named(lowercase(req.display_mode@))
                    &&& q.layout == layout_clamped(manual_layout(q.mode, req.position_x, req.position_y, req.size_w))
                    &&& q.fit@ == (match req.fit { Some(f) => f@, None => "cover"@ })
                    &&& crate::safe_paths::opt_view(q.label) == Some(match req.label { Some(l) => l@, None => req.asset_title@ })
                    &&& q.id@.len() == 36 && q.status@ == "active"@
                    &&& p.edl_fingerprint@ == fp@ && p.protected_ranges == p0.protected_ranges
                    &&& forall|k: int| 0 <= k < p.warnings@.len() ==> !has_sub(#[trigger] p.warnings@[k]@, "Biblioteca vacía"@)
                    &&& final(session).edl_fp matches Some(f) && f@ == fp@
                }
            }
        }),
{
    let (start, end) = match manual_placement_interval(out_dur, req.output_start, req.output_end) {
        Ok(x) => x,
        Err(e) => return Err(e),
    };
    let mode = PlacementMode::from_user(req.display_mode.as_str());
    let mut layout = PlacementLayout::for_mode(mode);
    match req.position_x {
        Some(x) => layout.x = x,
        None => {},
    }
    match req.position_y {
        Some(y) => layout.y = y,
        None => {},
    }
    match req.size_w {
        Some(w) => layout.w = w,
        None => {},
    }
    let layout = layout.clamp();
    let ghost s0 = *session;
    ensure_plan(session, fp, media_path);
    let ghost p0 = session.plan->0;
    let mut plan = session.plan.take().unwrap();
    assert(plan == p0);
    if plan.is_protected(start, end) {
        session.plan = Some(plan);
        return Err(
            AppError::Invalid(
                String::from_str(
                    "Ese intervalo está protegido (sin imágenes). Quita el rango protegido o elige otro momento.",
                ),
            ),
        );
    }
    let fit_s: String = match &req.fit {
        Some(f) => f.clone(),
        None => String::from_str("cover"),
    };
    let label = match &req.label {
        Some(l) => Some(l.clone()),
        None => Some(req.asset_title.clone()),
    };
    let pl = VisualPlacement::manual(req.asset_id.as_str(), start, end, mode, layout, fit_s.as_str(), label);
    plan.placements.push(pl);
    evaluate_composition(&mut plan);
    drop_library_empty_warnings(&mut plan.warnings);
    session.plan = Some(plan);
    session.edl_fp = Some(String::from_str(fp));
    Ok(())
}

/// Changes asked of a placement (times in ms, geometry in thousandths).
pub struct PlacementEdit {
    pub output_start: Option<u64>,
    pub output_end: Option<u64>,
    pub display_mode: Option<String>,
    pub position_x: Option<u32>,
    pub position_y: Option<u32>,
    pub size_w: Option<u32>,
    pub size_h: Option<u32>,
    pub fit: Option<String>,
    pub status: Option<String>,
    pub review_status: Option<String>,
    pub manual_override: Option<bool>,
    pub related_text: Option<String>,
    pub restore_ai: Option<bool>,
    pub opacity: Option<u32>,
}

/// The review state a person names (lower-cased), Spanish or English.
pub open spec fn review_named(s: Seq<char>) -> ReviewStatus {
    if s == "approved"@ || s == "aceptado"@ || s == "ok"@ {
        ReviewStatus::Approved
    } else if s == "conflict"@ || s == "conflicto"@ {
        ReviewStatus::Conflict
    } else if s == "rejected"@ || s == "rechazado"@ {
        ReviewStatus::Rejected
    } else {
        ReviewStatus::Pending
    }
}

/// The review state a person names, in any case.
pub fn review_status_from(s: &str) -> (r: ReviewStatus)
    ensures
        r == review_named(lowercase(s@)),
{
    let low = to_lowercase(s);
    let l = low.as_str();
    if str_eq(l, "approved") || str_eq(l, "aceptado") || str_eq(l, "ok") {
        ReviewStatus::Approved
    } else if str_eq(l, "conflict") || str_eq(l, "conflicto") {
        ReviewStatus::Conflict
    } else if str_eq(l, "rejected") || str_eq(l, "rechazado") {
        ReviewStatus::Rejected
    } else {
        ReviewStatus::Pending
    }
}

/// The timing and mode steps of an edit.
pub open spec fn edit_timing(p: VisualPlacement, e: PlacementEdit) -> VisualPlacement {
    let p1 = match e.output_start {
        Some(s) => VisualPlacement { output_start: s, manual_override: true, ..p },
        None => p,
    };
    let p2 = match e.output_end {
        Some(t) => {
            let min_end = if p1.output_start > u64::MAX - 250 { u64::MAX } else { (p1.output_start + 250) as u64 };
            VisualPlacement { output_end: if t > min_end { t } else { min_end }, manual_override: true, ..p1 }
        },
        None => p1,
    };
    match e.display_mode {
        Some(m) => {
            let mode = mode_named(lowercase(m@));
            let keep = e.position_x is Some || e.position_y is Some || e.size_w is Some;
            VisualPlacement {
                mode,
                layout: if keep { p2.layout } else { layout_for(mode) },
                manual_override: true,
                ..p2
            }
        },
        None => p2,
    }
}

/// The geometry steps of an edit.
pub open spec fn edit_geometry(p: VisualPlacement, e: PlacementEdit) -> VisualPlacement {
    let l = p.layout;
    let l1 = PlacementLayout {
        x: match e.position_x { Some(v) => v, None => l.x },
        y: match e.position_y { Some(v) => v, None => l.y },
        w: match e.size_w { Some(v) => v, None => l.w },
        h: match e.size_h { Some(v) => v, None => l.h },
        opacity: match e.opacity { Some(v) => v, None => l.opacity },
    };
    let touched = e.position_x is Some || e.position_y is Some || e.size_w is Some || e.size_h is Some;
    VisualPlacement {
        layout: layout_clamped(l1),
        manual_override: p.manual_override || touched,
        ..p
    }
}

/// The remaining steps of an edit: fit, status, review, override, text.
pub open spec fn edit_rest(p: VisualPlacement, e: PlacementEdit) -> VisualPlacement {
    let p1 = match e.fit {
        Some(f) => VisualPlacement { fit: f, manual_override: true, ..p },
        None => p,
    };
    let p2 = match e.status {
        Some(st) => VisualPlacement { status: st, ..p1 },
        None => p1,
    };
    let p3 = match e.review_status {
        Some(rs) => VisualPlacement { review_status: review_named(lowercase(rs@)), ..p2 },
        None => p2,
    };
    let p4 = match e.manual_override {
        Some(mo) => VisualPlacement { manual_override: mo, ..p3 },
        None => p3,
    };
    match e.related_text {
        Some(t) => VisualPlacement { related_text: Some(t), ..p4 },
        None => p4,
    }
}

/// `p` with the AI-suggested layout and mode restored and manual override cleared.
pub open spec fn restored_of(p: VisualPlacement) -> VisualPlacement {
    let layout = match p.suggested_layout { Some(l) => layout_clamped(l), None => layout_for(p.mode) };
    let mode = match p.suggested_mode { Some(m) => m, None => p.mode };
    VisualPlacement { layout, mode, manual_override: false, ..p }
}

/// `q` is `p` edited by `e`: the AI suggestion restored first when asked,
/// then each given change in turn.
pub open spec fn edited(p: VisualPlacement, e: PlacementEdit, q: VisualPlacement) -> bool {
    let r = if e.restore_ai == Some(true) { restored_of(p) } else { p };
    q == edit_rest(edit_geometry(edit_timing(r, e), e), e)
}

fn timing_step(pl: &mut VisualPlacement, e: &PlacementEdit)
    ensures
        *final(pl) == edit_timing(*old(pl), *e),
{
    match e.output_start {
        Some(s) => {
            pl.output_start = s;
            pl.manual_override = true;
        },
        None => {},
    }
    match e.output_end {
        Some(t) => {
            let min_end = pl.output_start.saturating_add(250);
            pl.output_end = if t > min_end { t } else { min_end };
            pl.manual_override = true;
        },
        None => {},
    }
    match &e.display_mode {
        Some(m) => {
            pl.mode = PlacementMode::from_user(m.as_str());
            if e.position_x.is_none() && e.position_y.is_none() && e.size_w.is_none() {
                pl.layout = PlacementLayout::for_mode(pl.mode);
            }
            pl.manual_override = true;
        },
        None => {},
    }
}

fn geometry_step(pl: &mut VisualPlacement, e: &PlacementEdit)
    ensures
        *final(pl) == edit_geometry(*old(pl), *e),
{
    let mut l = pl.layout;
    let touched = e.position_x.is_some() || e.position_y.is_some() || e.size_w.is_some() || e.size_h.is_some();
    match e.position_x {
        Some(v) => l.x = v,
        None => {},
    }
    match e.position_y {
        Some(v) => l.y = v,
        None => {},
    }
    match e.size_w {
        Some(v) => l.w = v,
        None => {},
    }
    match e.size_h {
        Some(v) => l.h = v,
        None => {},
    }
    match e.opacity {
        Some(v) => l.opacity = v,
        None => {},
    }
    pl.layout = l.clamp();
    pl.manual_override = pl.manual_override || touched;
}

fn rest_step(pl: &mut VisualPlacement, e: PlacementEdit)
    ensures
        *final(pl) == edit_rest(*old(pl), e),
{
    let ghost e0 = e;
    let PlacementEdit { fit, status, review_status, manual_override, related_text, .. } = e;
    match fit {
        Some(f) => {
            pl.fit = f;
            pl.manual_override = true;
        },
        None => {},
    }
    match status {
        Some(st) => pl.status = st,
        None => {},
    }
    match review_status {
        Some(rs) => pl.review_status = review_status_from(rs.as_str()),
        None => {},
    }
    match manual_override {
        Some(mo) => pl.manual_override = mo,
        None => {},
    }
    match related_text {
        Some(t) => pl.related_text = Some(t),
        None => {},
    }
}

/// Apply an edit to a placement.
pub fn apply_edit(pl: &mut VisualPlacement, e: PlacementEdit)
    ensures
        edited(*old(pl), e, *final(pl)),
{
    if e.restore_ai == Some(true) {
        restore_suggested(pl);
    }
    timing_step(pl, &e);
    geometry_step(pl, &e);
    rest_step(pl, e);
}

/// Position of the placement with this id.
pub open spec fn placement_index(ps: Seq<VisualPlacement>, id: Seq<char>) -> int {
    choose|i: int| 0 <= i < ps.len() && ps[i].id@ == id && forall|j: int| 0 <= j < i ==> (#[trigger] ps[j]).id@ != id
}

fn find_placement(ps: &Vec<VisualPlacement>, id: &str) -> (r: Option<usize>)
    ensures
        r is None ==> forall|j: int| 0 <= j < ps@.len() ==> (#[trigger] ps@[j]).id@ != id@,
        r matches Some(i) ==> (i < ps@.len() && ps@[i as int].id@ == id@ && forall|j: int| 0 <= j < i ==> (
        #[trigger] ps@[j]).id@ != id@),
{
    let mut i: usize = 0;
    while i < ps.len()
        invariant
            i <= ps@.len(),
            forall|j: int| 0 <= j < i ==> (#[trigger] ps@[j]).id@ != id@,
        decreases ps@.len() - i,
    {
        if str_eq(ps[i].id.as_str(), id) {
            return Some(i);
        }
        i = i + 1;
    }
    None
}

/// What an edit of an existing placement leaves: the placement edited in
/// place, and the plan evaluated again unless the edit is refused.
pub open spec fn edit_outcome(p0: VisualPlan, after: Option<VisualPlan>, id: Seq<char>, e: PlacementEdit, r: Result<(), AppError>) -> bool {
    let i = placement_index(p0.placements@, id);
    match after {
        Some(p1) => {
            &&& p1.placements@.len() == p0.placements@.len()
            &&& p1.protected_ranges == p0.protected_ranges
            &&& exists|q: VisualPlacement| #[trigger] edited(p0.placements@[i], e, q) && {
                let blocked = q.status@ == "active"@ && !q.manual_override && protected_in(p0.protected_ranges@, q.output_start, q.output_end);
                &&& blocked ==> (r matches Err(AppError::Invalid(m)) && m@
                    == "El placement cae en un rango protegido. Activa override o mueve el bloque."@
                    && p1.placements@ == p0.placements@.update(i, q) && p1.issues == p0.issues)
                &&& !blocked ==> (r is Ok && p1.placements@[i].id == q.id && p1.placements@[i].output_start == q.output_start
                    && p1.placements@[i].output_end == q.output_end && p1.placements@[i].layout == q.layout
                    && p1.placements@[i].status == q.status)
            }
        },
        None => false,
    }
}

/// Edit a placement of the session's plan (the first with this id): `Invalid`
/// without a plan, `NotFound` for an unknown id. The edit stays even when the
/// result is refused: an active placement without manual override that now
/// touches a protected range is `Invalid`; otherwise the composition is evaluated again.
pub fn update_placement(session: &mut VisualSession, placement_id: &str, e: PlacementEdit) -> (r: Result<(), AppError>)
    ensures
        old(session).plan is None ==> (r matches Err(AppError::Invalid(m)) && m@ == "No hay VisualPlan en sesión."@
            && *final(session) == *old(session)),
        old(session).plan matches Some(p0) && (forall|j: int| 0 <= j < p0.placements@.len() ==> (#[trigger] p0.placements@[j]).id@ != placement_id@)
            ==> (r matches Err(AppError::NotFound(m)) && m@ == placement_id@ && *final(session) == *old(session)),
        old(session).plan matches Some(p0) ==> ((exists|j: int| 0 <= j < p0.placements@.len()
            && (#[trigger] p0.placements@[j]).id@ == placement_id@) ==> edit_outcome(p0, final(session).plan,
            placement_id@, e, r)),
        final(session).edl_fp == old(session).edl_fp,
{
    let mut plan = match session.plan.take() {
        Some(p) => p,
        None => return Err(AppError::Invalid(String::from_str("No hay VisualPlan en sesión."))),
    };
    let ghost p0 = plan;
    let i = match find_placement(&plan.placements, placement_id) {
        Some(i) => i,
        None => {
            session.plan = Some(plan);
            return Err(AppError::NotFound(String::from_str(placement_id)));
        },
    };
    proof {
        assert(placement_index(p0.placements@, placement_id@) == i as int) by {
            let c = placement_index(p0.placements@, placement_id@);
            assert(0 <= i < p0.placements@.len() && p0.placements@[i as int].id@ == placement_id@
                && forall|j: int| 0 <= j < i ==> (#[trigger] p0.placements@[j]).id@ != placement_id@);
            if c < i {
                assert(p0.placements@[c].id@ == placement_id@);
            } else if c > i {
                assert(p0.placements@[i as int].id@ != placement_id@);
            }
        }
    }
    let mut pl = plan.placements.remove(i);
    apply_edit(&mut pl, e);
    let ghost q = pl;
    let active = str_eq(pl.status.as_str(), "active");
    let blocked = active && !pl.manual_override && plan.is_protected(pl.output_start, pl.output_end);
    plan.placements.insert(i, pl);
    proof {
        assert(plan.placements@ =~= p0.placements@.update(i as int, q));
    }
    if blocked {
        session.plan = Some(plan);
        return Err(
            AppError::Invalid(
                String::from_str("El placement cae en un rango protegido. Activa override o mueve el bloque."),
            ),
        );
    }
    evaluate_composition(&mut plan);
    session.plan = Some(plan);
    Ok(())
}

/// The edges a snap gives: each edge moved to its nearest anchor within the
/// threshold, the end kept at least 250 ms after the start.
pub open spec fn snapped_edges(anchors: Seq<u64>, start: u64, end: u64, threshold: u64) -> (u64, u64) {
    let s = crate::compose::snap_fold(anchors, start, threshold).0;
    let e = crate::compose::snap_fold(anchors, end, threshold).0;
    (s, if e > s + 250 { e } else { (s + 250) as u64 })
}

/// The edit a snap applies: the new edges, marked as set by hand.
pub open spec fn snap_edit(se: (u64, u64)) -> PlacementEdit {
    PlacementEdit {
        output_start: Some(se.0),
        output_end: Some(se.1),
        display_mode: None,
        position_x: None,
        position_y: None,
        size_w: None,
        size_h: None,
        fit: None,
        status: None,
        review_status: None,
        manual_override: Some(true),
        related_text: None,
        restore_ai: None,
        opacity: None,
    }
}

/// Snap a placement's edges to the nearest anchors (within `threshold` ms,
/// 180 ms when not given) and apply them as a manual edit (see
/// `update_placement`).
pub fn snap_placement(
    session: &mut VisualSession,
    placement_id: &str,
    output_start: u64,
    output_end: u64,
    anchors: &Vec<u64>,
    threshold: Option<u64>,
) -> (r: Result<(), AppError>)
    requires
        crate::compose::snap_fold(anchors@, output_start, match threshold { Some(t) => t, None => 180 }).0
            <= u64::MAX - 250,
    ensures
        old(session).plan is None ==> (r matches Err(AppError::Invalid(m)) && m@ == "No hay VisualPlan en sesión."@
            && *final(session) == *old(session)),
        old(session).plan matches Some(p0) && (forall|j: int| 0 <= j < p0.placements@.len() ==> (#[trigger] p0.placements@[j]).id@ != placement_id@)
            ==> (r matches Err(AppError::NotFound(m)) && m@ == placement_id@ && *final(session) == *old(session)),
        old(session).plan matches Some(p0) ==> ((exists|j: int| 0 <= j < p0.placements@.len()
            && (#[trigger] p0.placements@[j]).id@ == placement_id@) ==> edit_outcome(p0, final(session).plan,
            placement_id@, snap_edit(snapped_edges(anchors@, output_start, output_end,
            match threshold { Some(t) => t, None => 180 })), r)),
        final(session).edl_fp == old(session).edl_fp,
{
    let thr = match threshold {
        Some(t) => t,
        None => 180,
    };
    let (s, e) = snap_placement_edges(output_start, output_end, anchors, thr);
    let edit = PlacementEdit {
        output_start: Some(s),
        output_end: Some(e),
        display_mode: None,
        position_x: None,
        position_y: None,
        size_w: None,
        size_h: None,
        fit: None,
        status: None,
        review_status: None,
        manual_override: Some(true),
        related_text: None,
        restore_ai: None,
        opacity: None,
    };
    assert(edit == snap_edit(snapped_edges(anchors@, output_start, output_end, thr)));
    update_placement(session, placement_id, edit)
}

/// The plan after an invalidation: no placements, a warning, a new version.
pub open spec fn invalidated(before: Option<VisualPlan>, after: Option<VisualPlan>) -> bool {
    match (before, after) {
        (Some(p0), Some(p1)) => {
            &&& p1.placements@.len() == 0 && p1.version == p0.version + 1
            &&& views(p1.warnings@) == views(p0.warnings@).push(
                "EDL cambió: VisualPlan invalidado. Vuelve a generar sugerencias."@)
            &&& p1.id == p0.id && p1.protected_ranges == p0.protected_ranges
        },
        (None, None) => true,
        _ => false,
    }
}

/// When the cut changed (its fingerprint is not the one the session holds):
/// the plan loses its placements, gets a warning and a new version, and the
/// session takes the new fingerprint. Whether it changed.
pub fn invalidate_if_edl_changed(session: &mut VisualSession, fp: &str) -> (r: bool)
    requires
        old(session).plan matches Some(p) ==> p.version < u64::MAX,
    ensures
        r == !(old(session).edl_fp matches Some(f) && f@ == fp@),
        !r ==> *final(session) == *old(session),
        r ==> (final(session).edl_fp matches Some(f) && f@ == fp@),
        r ==> invalidated(old(session).plan, final(session).plan),
{
    let same = match &session.edl_fp {
        Some(f) => str_eq(f.as_str(), fp),
        None => false,
    };
    if same {
        return false;
    }
    match session.plan.take() {
        Some(mut p) => {
            let ghost w0 = views(p.warnings@);
            p.warnings.push(String::from_str("EDL cambió: VisualPlan invalidado. Vuelve a generar sugerencias."));
            proof {
                assert(views(p.warnings@) =~= w0.push("EDL cambió: VisualPlan invalidado. Vuelve a generar sugerencias."@));
            }
            p.placements = Vec::new();
            p.version = p.version + 1;
            session.plan = Some(p);
        },
        None => {},
    }
    session.edl_fp = Some(String::from_str(fp));
    true
}

} // verus!
