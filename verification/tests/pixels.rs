use vigilcut::error::AppError;
use vigilcut::pixels::{average_hash_of, perceptual_hash, review_image_bytes};
use vigilcut::qa::QaThresholds;

fn png(w: u32, h: u32, f: impl Fn(u32, u32) -> u8) -> Vec<u8> {
    let img = image::RgbImage::from_fn(w, h, |x, y| {
        let v = f(x, y);
        image::Rgb([v, v, v])
    });
    let mut out = std::io::Cursor::new(Vec::new());
    image::DynamicImage::ImageRgb8(img).write_to(&mut out, image::ImageFormat::Png).unwrap();
    out.into_inner()
}

#[test]
fn average_hash_bits() {
    assert_eq!(average_hash_of(&vec![100u8; 64]), "ffffffffffffffff");
    let mut g = vec![0u8; 64];
    g[0] = 255;
    // mean 3: only value 0 reaches it
    assert_eq!(average_hash_of(&g), "0000000000000001");
    let mut h = vec![0u8; 64];
    for v in h.iter_mut().skip(32) {
        *v = 200;
    }
    assert_eq!(average_hash_of(&h), "ffffffff00000000");
    let uniform = png(32, 32, |_, _| 90);
    assert_eq!(perceptual_hash(&uniform).unwrap(), "ffffffffffffffff");
    assert!(perceptual_hash(&b"nope".to_vec()).is_err());
}

#[test]
fn review_from_bytes() {
    let th = QaThresholds::default_thresholds();
    let empty = review_image_bytes(0, &vec![], None, &None, &th).unwrap();
    assert_eq!(empty.decision, "reject");
    let text = review_image_bytes(10, &b"plain text".to_vec(), None, &None, &th).unwrap();
    assert_eq!(text.decision, "reject");
    let gradient = png(320, 320, |x, y| ((x + y) % 256) as u8);
    let r = review_image_bytes(gradient.len() as u64, &gradient, None, &None, &th).unwrap();
    assert_ne!(r.decision, "reject");
    assert!(r.forbidden_detected.is_empty());
    let black = png(320, 320, |_, _| 0);
    let b = review_image_bytes(black.len() as u64, &black, None, &None, &th).unwrap();
    assert!(b.forbidden_detected.iter().any(|f| f == "near_black"));
    let mut cut = gradient.clone();
    cut.truncate(40);
    match review_image_bytes(cut.len() as u64, &cut, None, &None, &th) {
        Err(AppError::Invalid(m)) => assert!(m.starts_with("imagen corrupta: ")),
        _ => panic!("a cut PNG is corrupt"),
    }
}
