//! Rendering a visual plan: which placements are drawn, and the encoder's
//! overlay filter graph for them (same geometry as the live preview).
use vstd::prelude::*;
use crate::error::AppError;
use crate::export::views;
use crate::layout::{PlacementGeom, geom_of, geom_wf, scale_filter_text, overlay_xy_text};
use crate::text::{dec, push_dec, push_str, push_secs3, secs3};
use crate::visual::{VisualPlacement, VisualPlan, protected_in};
use crate::needs::{join_with, push_joined};

verus! {

/// A placement is drawn when it is active and lies outside every protected range.
pub open spec fn drawn(plan: VisualPlan, p: VisualPlacement) -> bool {
    p.status@ == "active"@ && !protected_in(plan.protected_ranges@, p.output_start, p.output_end)
}

/// Indices of the drawn placements, in order.
pub open spec fn drawn_indices(plan: VisualPlan, n: int) -> Seq<usize>
    decreases n,
{
    if n <= 0 {
        Seq::empty()
    } else {
        drawn_indices(plan, n - 1) + if drawn(plan, plan.placements@[n - 1]) {
            seq![(n - 1) as usize]
        } else {
            Seq::empty()
        }
    }
}

/// The placements of a plan that a render draws (their indices): `Invalid`
/// when there are none.
pub fn active_placements(plan: &VisualPlan) -> (r: Result<Vec<usize>, AppError>)
    ensures
        drawn_indices(*plan, plan.placements@.len() as int).len() == 0 ==> (r matches Err(
            AppError::Invalid(m),
        ) && m@ == "VisualPlan sin placements activos"@),
        drawn_indices(*plan, plan.placements@.len() as int).len() > 0 ==> (r matches Ok(v) && v@
            == drawn_indices(*plan, plan.placements@.len() as int)),
{
    let mut v: Vec<usize> = Vec::new();
    let mut i: usize = 0;
    while i < plan.placements.len()
        invariant
            i <= plan.placements@.len(),
            v@ == drawn_indices(*plan, i as int),
        decreases plan.placements@.len() - i,
    {
        let p = &plan.placements[i];
        let act = crate::text::str_eq(p.status.as_str(), "active");
        if act && !plan.is_protected(p.output_start, p.output_end) {
            v.push(i);
        }
        i = i + 1;
    }
    if v.len() == 0 {
        Err(AppError::Invalid(String::from_str("VisualPlan sin placements activos")))
    } else {
        Ok(v)
    }
}

/// The first step of the graph: the cut video scaled and padded to the frame.
pub open spec fn base_part(w: u32, h: u32) -> Seq<char> {
    "[0:v]scale="@ + dec(w as nat) + ":"@ + dec(h as nat)
        + ":force_original_aspect_ratio=decrease,pad="@ + dec(w as nat) + ":"@ + dec(h as nat)
        + ":(ow-iw)/2:(oh-ih)/2,setsar=1[base0]"@
}

/// The label of the video after `k` overlays.
pub open spec fn label_after(k: nat) -> Seq<char> {
    if k == 0 { "[base0]"@ } else { "[v"@ + dec((k - 1) as nat) + "]"@ }
}

/// The overlay step `i` of a placement.
pub open spec fn overlay_part(p: VisualPlacement, i: nat, w: u32, h: u32) -> Seq<char> {
    let xy = overlay_xy_text(geom_of(p.mode, p.layout, p.fit@), w, h);
    label_after(i) + "[ov"@ + dec(i) + "]overlay="@ + xy.0 + ":"@ + xy.1 + ":enable='between(t\\,"@
        + secs3(p.output_start) + "\\,"@ + secs3(p.output_end) + ")'[v"@ + dec(i) + "]"@
}

/// The steps of the graph for the drawn placements `ps`.
pub open spec fn graph_parts(ps: Seq<VisualPlacement>, w: u32, h: u32) -> Seq<Seq<char>>
    decreases ps.len(),
{
    if ps.len() == 0 {
        seq![base_part(w, h)]
    } else {
        let i = (ps.len() - 1) as nat;
        let p = ps.last();
        graph_parts(ps.drop_last(), w, h) + seq![
            scale_filter_text(geom_of(p.mode, p.layout, p.fit@), (i + 1) as u64, i as u64, w, h),
            overlay_part(p, i, w, h),
        ]
    }
}

fn push_lit(v: &mut Vec<String>, s: String)
    ensures
        views(final(v)@) == views(old(v)@).push(s@),
{
    let ghost b = views(v@);
    v.push(s);
    proof {
        assert(views(v@) =~= b.push(s@));
    }
}

/// The encoder's filter graph that draws the placements `ps` (in order) over
/// the cut video in a `w`×`h` frame, and the label of its last output.
pub fn overlay_filter_graph(ps: &Vec<VisualPlacement>, w: u32, h: u32) -> (r: (String, String))
    requires
        w <= 100_000 && h <= 100_000,
        ps@.len() < u64::MAX,
    ensures
        r.0@ == join_with(graph_parts(ps@, w, h), ";"@),
        r.1@ == label_after(ps@.len()),
{
    let mut parts: Vec<String> = Vec::new();
    let mut b = String::from_str("[0:v]scale=");
    push_dec(&mut b, w as u64);
    push_str(&mut b, ":");
    push_dec(&mut b, h as u64);
    push_str(&mut b, ":force_original_aspect_ratio=decrease,pad=");
    push_dec(&mut b, w as u64);
    push_str(&mut b, ":");
    push_dec(&mut b, h as u64);
    push_str(&mut b, ":(ow-iw)/2:(oh-ih)/2,setsar=1[base0]");
    proof {
        assert(views(parts@) =~= Seq::<Seq<char>>::empty());
    }
    push_lit(&mut parts, b);
    let mut last = String::from_str("[base0]");
    let mut i: usize = 0;
    proof {
        assert(ps@.take(0) =~= Seq::<VisualPlacement>::empty());
        assert(views(parts@) =~= graph_parts(ps@.take(0), w, h));
        reveal_strlit("[base0]");
    }
    while i < ps.len()
        invariant
            i <= ps@.len() < u64::MAX,
            w <= 100_000 && h <= 100_000,
            views(parts@) == graph_parts(ps@.take(i as int), w, h),
            last@ == label_after(i as nat),
        decreases ps@.len() - i,
    {
        let p = &ps[i];
        let g = PlacementGeom::from_placement(p);
        let scale = g.ffmpeg_scale_filter(i as u64 + 1, i as u64, w, h);
        let (ox, oy) = g.ffmpeg_overlay_xy(w, h);
        let mut ov = last;
        push_str(&mut ov, "[ov");
        push_dec(&mut ov, i as u64);
        push_str(&mut ov, "]overlay=");
        push_str(&mut ov, ox.as_str());
        push_str(&mut ov, ":");
        push_str(&mut ov, oy.as_str());
        push_str(&mut ov, ":enable='between(t\\,");
        push_secs3(&mut ov, p.output_start);
        push_str(&mut ov, "\\,");
        push_secs3(&mut ov, p.output_end);
        push_str(&mut ov, ")'[v");
        push_dec(&mut ov, i as u64);
        push_str(&mut ov, "]");
        push_lit(&mut parts, scale);
        push_lit(&mut parts, ov);
        let mut nl = String::from_str("[v");
        push_dec(&mut nl, i as u64);
        push_str(&mut nl, "]");
        last = nl;
        proof {
            let t = ps@.take(i as int + 1);
            assert(t.drop_last() =~= ps@.take(i as int));
            assert(t.last() == ps@[i as int]);
            assert(views(parts@) =~= graph_parts(t, w, h));
        }
        i = i + 1;
    }
    proof {
        assert(ps@.take(ps@.len() as int) =~= ps@);
    }
    let mut f = String::new();
    push_joined(&mut f, &parts, ";");
    proof {
        assert(Seq::<char>::empty() + join_with(views(parts@), ";"@) =~= join_with(views(parts@), ";"@));
    }
    (f, last)
}

/// The encoder's arguments for a render: each input (images looped, the cut
/// video first), the graph, the mapping of its last output and the cut's
/// audio, H.264/AAC settings and the temporary output.
pub open spec fn render_args_text(inputs: Seq<Seq<char>>, filter: Seq<char>, last: Seq<char>, temp: Seq<char>) -> Seq<Seq<char>> {
    seq!["-y"@] + input_args(inputs) + seq!["-filter_complex"@, filter, "-map"@, last, "-map"@,
        "0:a?"@, "-c:v"@, "libx264"@, "-preset"@, "veryfast"@, "-crf"@, "20"@, "-c:a"@, "aac"@,
        "-shortest"@, "-movflags"@, "+faststart"@, temp]
}

/// `-i` for the cut video, `-loop 1 -i` for each image after it.
pub open spec fn input_args(inputs: Seq<Seq<char>>) -> Seq<Seq<char>>
    decreases inputs.len(),
{
    if inputs.len() == 0 {
        Seq::empty()
    } else if inputs.len() == 1 {
        seq!["-i"@, inputs[0]]
    } else {
        input_args(inputs.drop_last()) + seq!["-loop"@, "1"@, "-i"@, inputs.last()]
    }
}

fn push_s(v: &mut Vec<String>, s: &str)
    ensures
        views(final(v)@) == views(old(v)@).push(s@),
{
    push_lit(v, String::from_str(s));
}

/// The encoder's arguments of a render (`inputs[0]` is the cut video).
pub fn render_args(inputs: &Vec<String>, filter: &str, last: &str, temp: &str) -> (r: Vec<String>)
    ensures
        views(r@) == render_args_text(views(inputs@), filter@, last@, temp@),
{
    let mut a: Vec<String> = Vec::new();
    proof {
        assert(views(a@) =~= Seq::<Seq<char>>::empty());
    }
    push_s(&mut a, "-y");
    let ghost head = views(a@);
    let mut i: usize = 0;
    proof {
        assert(views(inputs@).take(0) =~= Seq::<Seq<char>>::empty());
        assert(head + Seq::<Seq<char>>::empty() =~= head);
    }
    while i < inputs.len()
        invariant
            i <= inputs@.len(),
            views(a@) == head + input_args(views(inputs@).take(i as int)),
        decreases inputs@.len() - i,
    {
        proof {
            let t = views(inputs@).take(i as int + 1);
            assert(t.drop_last() =~= views(inputs@).take(i as int));
            assert(t.last() == inputs@[i as int]@);
        }
        if i > 0 {
            push_s(&mut a, "-loop");
            push_s(&mut a, "1");
        }
        push_s(&mut a, "-i");
        push_s(&mut a, inputs[i].as_str());
        proof {
            let t = views(inputs@).take(i as int + 1);
            if i == 0 {
                assert(t.len() == 1);
            }
            assert(views(a@) =~= head + input_args(t));
        }
        i = i + 1;
    }
    proof {
        assert(views(inputs@).take(inputs@.len() as int) =~= views(inputs@));
    }
    let ghost mid = views(a@);
    push_s(&mut a, "-filter_complex");
    push_s(&mut a, filter);
    push_s(&mut a, "-map");
    push_s(&mut a, last);
    push_s(&mut a, "-map");
    push_s(&mut a, "0:a?");
    push_s(&mut a, "-c:v");
    push_s(&mut a, "libx264");
    push_s(&mut a, "-preset");
    push_s(&mut a, "veryfast");
    push_s(&mut a, "-crf");
    push_s(&mut a, "20");
    push_s(&mut a, "-c:a");
    push_s(&mut a, "aac");
    push_s(&mut a, "-shortest");
    push_s(&mut a, "-movflags");
    push_s(&mut a, "+faststart");
    push_s(&mut a, temp);
    proof {
        assert(views(a@) =~= render_args_text(views(inputs@), filter@, last@, temp@));
    }
    a
}

/// The latest end of the plan's placements (what the output's size is checked against).
pub open spec fn latest_end(ps: Seq<VisualPlacement>) -> u64
    decreases ps.len(),
{
    if ps.len() == 0 {
        0
    } else {
        let m = latest_end(ps.drop_last());
        if ps.last().output_end > m { ps.last().output_end } else { m }
    }
}

/// The latest end of the plan's placements.
pub fn plan_end(plan: &VisualPlan) -> (r: u64)
    ensures
        r == latest_end(plan.placements@),
{
    let mut m: u64 = 0;
    let mut i: usize = 0;
    proof {
        assert(plan.placements@.take(0) =~= Seq::<VisualPlacement>::empty());
    }
    while i < plan.placements.len()
        invariant
            i <= plan.placements@.len(),
            m == latest_end(plan.placements@.take(i as int)),
        decreases plan.placements@.len() - i,
    {
        proof {
            let t = plan.placements@.take(i as int + 1);
            assert(t.drop_last() =~= plan.placements@.take(i as int));
        }
        if plan.placements[i].output_end > m {
            m = plan.placements[i].output_end;
        }
        i = i + 1;
    }
    proof {
        assert(plan.placements@.take(plan.placements@.len() as int) =~= plan.placements@);
    }
    m
}

} // verus!
