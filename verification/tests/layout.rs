use vigilcut::clipping::{ClipFraming, FramingMode, LayoutPanel};
use vigilcut::framing::compute_crop_filter;
use vigilcut::layout::{PlacementGeom, RectPx, DEFAULT_FRAME_H, DEFAULT_FRAME_W};
use vigilcut::visual::{PlacementLayout, PlacementMode, VisualPlacement};

// Geometry in thousandths of the frame; CSS boxes in hundredths of a percent.

fn pip_placement(cx: u32, cy: u32, w: u32, h: u32) -> VisualPlacement {
    VisualPlacement::manual(
        "a",
        0,
        2_000,
        PlacementMode::PictureInPicture,
        PlacementLayout { x: cx, y: cy, w, h, opacity: 1_000 },
        "cover",
        None,
    )
}

#[test]
fn fullframe_fills_frame() {
    let pl = VisualPlacement::manual(
        "a",
        0,
        1_000,
        PlacementMode::Fullframe,
        PlacementLayout::for_mode(PlacementMode::Fullframe),
        "cover",
        None,
    );
    let g = PlacementGeom::from_placement(&pl);
    let r = g.box_px(1280, 720);
    assert_eq!(r, RectPx { x: 0, y: 0, w: 1280, h: 720 });
    let css = g.css_top_left();
    assert!(css.fullframe);
    assert_eq!(css.width, 10_000);
}

#[test]
fn center_box_parity_css_and_px() {
    // Center at 50%, size 20% x 20%: top-left at 40%
    let pl = pip_placement(500, 500, 200, 200);
    let g = PlacementGeom::from_placement(&pl);
    let css = g.css_top_left();
    assert_eq!(css.left, 4_000);
    assert_eq!(css.top, 4_000);
    assert_eq!(css.width, 2_000);

    let r = g.box_px(1000, 1000);
    assert_eq!(r.w, 200);
    assert_eq!(r.h, 200);
    assert_eq!(r.x, 400);
    assert_eq!(r.y, 400);

    // The encoder's absolute overlay matches the pixels
    let (ox, oy) = g.ffmpeg_overlay_xy(1000, 1000);
    assert_eq!(ox, "400");
    assert_eq!(oy, "400");
}

#[test]
fn css_and_ffmpeg_same_top_left_on_default_frame() {
    let pl = pip_placement(820, 180, 280, 0);
    let g = PlacementGeom::from_placement(&pl);
    let css = g.css_top_left();
    let r = g.box_px(DEFAULT_FRAME_W, DEFAULT_FRAME_H);
    let css_x = (css.left as f64 / 10_000.0) * DEFAULT_FRAME_W as f64;
    let css_y = (css.top as f64 / 10_000.0) * DEFAULT_FRAME_H as f64;
    assert!((css_x - r.x as f64).abs() < 2.0, "x css={css_x} px={}", r.x);
    assert!((css_y - r.y as f64).abs() < 2.0, "y css={css_y} px={}", r.y);
    let (ox, oy) = g.ffmpeg_overlay_xy(DEFAULT_FRAME_W, DEFAULT_FRAME_H);
    assert_eq!(ox.parse::<i32>().unwrap(), r.x);
    assert_eq!(oy.parse::<i32>().unwrap(), r.y);
}

#[test]
fn lower_third_is_horizontally_centered() {
    let pl = VisualPlacement::manual(
        "a",
        0,
        1_000,
        PlacementMode::LowerThird,
        PlacementLayout::for_mode(PlacementMode::LowerThird),
        "contain",
        None,
    );
    let g = PlacementGeom::from_placement(&pl);
    assert_eq!(g.cx, 500);
    assert!(g.fit_contain);
}

#[test]
fn center_crop_mentions_scale() {
    let f = ClipFraming::default_framing();
    let filter = compute_crop_filter(&f, 1920, 1080);
    assert!(filter.contains("crop="));
    assert!(filter.contains("1080"));
    assert!(filter.contains("1920"));
}

#[test]
fn uv_region_crop() {
    let mut f = ClipFraming::default_framing();
    f.mode = FramingMode::Manual;
    f.center_x = 250;
    f.center_y = 500;
    f.width_frac = 400;
    f.height_frac = 900;
    let filter = compute_crop_filter(&f, 1920, 1080);
    assert!(filter.contains("crop="));
    assert!(filter.contains("scale=1080:1920"));
}

#[test]
fn multi_panel_vstack() {
    let mut f = ClipFraming::default_framing();
    f.mode = FramingMode::Manual;
    f.panels = vec![
        LayoutPanel { center_x: 300, center_y: 450, width_frac: 350, height_frac: 900 },
        LayoutPanel { center_x: 700, center_y: 450, width_frac: 350, height_frac: 900 },
    ];
    let filter = compute_crop_filter(&f, 1920, 1080);
    assert!(filter.contains("vstack=2"), "{filter}");
    assert!(filter.contains("split=2"), "{filter}");
}

#[test]
fn blur_and_fit_modes_build() {
    let mut f = ClipFraming::default_framing();
    f.mode = FramingMode::BlurredBackground;
    let b = compute_crop_filter(&f, 1280, 720);
    assert!(b.contains("boxblur") || b.contains("overlay"));
    f.mode = FramingMode::FitWithBars;
    let p = compute_crop_filter(&f, 1280, 720);
    assert!(p.contains("pad="));
}

#[test]
fn manual_center_stays_in_frame() {
    let mut f = ClipFraming::default_framing();
    f.mode = FramingMode::Manual;
    f.center_x = 900;
    f.center_y = 100;
    let filter = compute_crop_filter(&f, 1920, 1080);
    assert!(filter.contains("crop="));
    assert!(!filter.contains("crop=-"));
}
