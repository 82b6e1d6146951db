use vigilcut::download::{
    api_status, check_download_chunk, check_download_response, check_generated_bytes,
    check_resolved, follow_redirect, validate_download_target, http_error, response_image, validate_download_url, validate_image_bytes,
    ApiStatus, IpLit, ResponseImage, MAX_DOWNLOAD_BYTES,
};
use vigilcut::error::AppError;
use vigilcut::generation::ProviderError;
use vigilcut::import::{content_sha256, import_key, import_metadata};

fn v4_literal(host: &str) -> Option<IpLit> {
    let parts: Vec<&str> = host.split('.').collect();
    if parts.len() != 4 {
        return None;
    }
    let mut o = [0u8; 4];
    for (i, p) in parts.iter().enumerate() {
        o[i] = p.parse::<u8>().ok()?;
    }
    Some(IpLit::V4(o))
}

/// The whole check as the application runs it: the URL checks, then the
/// literal address or the addresses the name resolved to.
fn full_check(url: &str, base: &str, resolved: Result<Vec<(IpLit, String)>, String>) -> Result<(), ProviderError> {
    let host = validate_download_url(url, base)?.host;
    let literal = v4_literal(&host);
    let t = validate_download_target(url, base, literal)?;
    match literal {
        Some(_) => Ok(()),
        None => check_resolved(&t.host, base, &resolved),
    }
}

fn offline() -> Result<Vec<(IpLit, String)>, String> {
    Err("failed to lookup address information".to_string())
}

fn loopback_pair() -> Result<Vec<(IpLit, String)>, String> {
    Ok(vec![
        (IpLit::V4([127, 0, 0, 1]), "127.0.0.1".to_string()),
        (IpLit::V6([0, 0, 0, 0, 0, 0, 0, 1]), "::1".to_string()),
    ])
}

#[test]
fn ssrf_blocks_private_literals() {
    let base = "https://api.example.com/v1";
    for u in [
        "http://127.0.0.1/secret",
        "http://10.0.0.5/x",
        "http://192.168.1.1/x",
        "http://172.16.0.1/x",
        "http://169.254.169.254/latest/meta-data/",
        "http://100.64.0.1/x",
        "http://[::1]/x",
        "ftp://example.com/x",
    ] {
        assert!(full_check(u, base, offline()).is_err(), "expected block for {u}");
    }
}

#[test]
fn ssrf_allows_public_https() {
    let r = full_check("https://93.184.216.34/", "https://api.example.com/v1", offline());
    match r {
        Ok(_) => {}
        Err(e) => {
            let s = e.message();
            assert!(!s.contains("blocked IP") || s.contains("DNS"), "{s}");
        }
    }
}

#[test]
fn ssrf_loopback_ok_when_base_local() {
    assert!(full_check("http://127.0.0.1:20128/img.png", "http://127.0.0.1:20128/v1", offline()).is_ok());
    assert!(full_check("http://localhost:20128/img.png", "http://localhost:20128/v1", loopback_pair()).is_ok());
    assert!(full_check("http://127.0.0.1/img.png", "https://api.example.com/v1", offline()).is_err());
}

#[test]
fn download_url_parts_and_refusals() {
    let t = validate_download_url("HTTPS://Img.Example.COM/a.png", "https://api.example.com/v1").unwrap();
    assert_eq!(t.host, "img.example.com");
    assert_eq!(t.port, 443);
    let t = validate_download_url("http://example.com:8080/a.png", "https://api.example.com/v1").unwrap();
    assert_eq!(t.port, 8080);
    match validate_download_url("http://printer.local/x", "https://api.example.com/v1") {
        Err(ProviderError::InvalidResponse(m)) => assert_eq!(m, "download URL host not allowed"),
        _ => panic!("a .local host must be refused"),
    }
    assert!(validate_download_url("http://printer.local/x", "http://localhost:20128/v1").is_err());
    assert!(validate_download_url("http://app.localhost/x", "http://localhost:20128/v1").is_ok());
    match validate_download_url("not a url", "https://api.example.com/v1") {
        Err(ProviderError::InvalidResponse(m)) => assert!(m.starts_with("bad url: ")),
        _ => panic!("an unparsable URL must be refused"),
    }
    match check_resolved("example.com", "https://api.example.com/v1", &Ok(vec![])) {
        Err(ProviderError::InvalidResponse(m)) => assert_eq!(m, "DNS returned no addresses"),
        _ => panic!("no addresses must be refused"),
    }
    let mixed = Ok(vec![
        (IpLit::V4([93, 184, 216, 34]), "93.184.216.34".to_string()),
        (IpLit::V4([10, 0, 0, 1]), "10.0.0.1".to_string()),
    ]);
    match check_resolved("example.com", "https://api.example.com/v1", &mixed) {
        Err(ProviderError::InvalidResponse(m)) => assert_eq!(m, "download URL resolves to blocked IP 10.0.0.1"),
        _ => panic!("a private address must be refused"),
    }
}

#[test]
fn redirects_are_checked_again() {
    let base = "https://api.example.com/v1";
    let t = follow_redirect(0, "https://cdn.example.com/a/b.png", &Some("c.png".to_string()), base).unwrap();
    assert_eq!(t.url, "https://cdn.example.com/a/c.png");
    let t = follow_redirect(1, "https://cdn.example.com/a/b.png", &Some("https://other.example.org/x.png".to_string()), base)
        .unwrap();
    assert_eq!(t.host, "other.example.org");
    match follow_redirect(3, "https://cdn.example.com/a", &Some("x".to_string()), base) {
        Err(ProviderError::InvalidResponse(m)) => assert_eq!(m, "too many redirects"),
        _ => panic!("the last hop must not redirect"),
    }
    match follow_redirect(0, "https://cdn.example.com/a", &None, base) {
        Err(ProviderError::InvalidResponse(m)) => assert_eq!(m, "redirect without Location"),
        _ => panic!("a redirect needs a location"),
    }
    assert!(follow_redirect(0, "https://cdn.example.com/a", &Some("http://10.0.0.1/x".to_string()), base).is_ok());
}

#[test]
fn download_limits() {
    assert!(check_download_response(200, Some(10)).is_ok());
    assert!(check_download_response(204, None).is_ok());
    assert!(matches!(check_download_response(404, None), Err(ProviderError::Http { status: 404, .. })));
    assert!(check_download_response(200, Some(MAX_DOWNLOAD_BYTES + 1)).is_err());
    assert!(check_download_chunk(MAX_DOWNLOAD_BYTES - 10, 10).is_ok());
    assert!(check_download_chunk(MAX_DOWNLOAD_BYTES - 10, 11).is_err());
    assert_eq!(api_status(429), ApiStatus::RateLimited);
    assert_eq!(api_status(201), ApiStatus::Success);
    assert_eq!(api_status(500), ApiStatus::Failed);
    let long = "x".repeat(500);
    match http_error(500, &long) {
        ProviderError::Http { status, message } => {
            assert_eq!(status, 500);
            assert_eq!(message.chars().count(), 400);
        }
        _ => panic!("an http error"),
    }
}

#[test]
fn response_image_sources() {
    match response_image(&Some("aGVsbG8=".to_string()), &None).unwrap() {
        ResponseImage::Bytes(b) => assert_eq!(b, b"hello".to_vec()),
        _ => panic!("inline data comes first"),
    }
    match response_image(&None, &Some("https://x/y.png".to_string())).unwrap() {
        ResponseImage::Download(u) => assert_eq!(u, "https://x/y.png"),
        _ => panic!("a URL is downloaded"),
    }
    assert!(matches!(response_image(&Some("%%%".to_string()), &None), Err(ProviderError::InvalidResponse(_))));
    match response_image(&None, &None) {
        Err(ProviderError::InvalidResponse(m)) => assert_eq!(m, "no url or b64_json in response"),
        _ => panic!("nothing to use"),
    }
}

fn png_bytes(w: u32, h: u32) -> Vec<u8> {
    let img = image::RgbImage::from_pixel(w, h, image::Rgb([10, 200, 30]));
    let mut out = std::io::Cursor::new(Vec::new());
    image::DynamicImage::ImageRgb8(img).write_to(&mut out, image::ImageFormat::Png).unwrap();
    out.into_inner()
}

#[test]
fn image_bytes_checks() {
    let png = png_bytes(4, 3);
    assert!(validate_image_bytes(&png).is_ok());
    assert_eq!(check_generated_bytes(&png).unwrap(), "png");
    match validate_image_bytes(b"not an image at all") {
        Err(ProviderError::InvalidResponse(m)) => assert_eq!(m, "MIME no es imagen reconocida"),
        _ => panic!("text is not an image"),
    }
    let mut broken = png.clone();
    broken.truncate(20);
    match validate_image_bytes(&broken) {
        Err(ProviderError::InvalidResponse(m)) => assert!(m.starts_with("bytes no decodifican como imagen: ")),
        _ => panic!("a cut PNG does not decode"),
    }
}

#[test]
fn import_hash_and_record() {
    assert_eq!(
        content_sha256(&b"abc".to_vec()),
        "ba7816bf8f01cfea414140de5dae2223b00361a396177a9cb410ff61f20015ad"
    );
    let png = png_bytes(1600, 900);
    let k = import_key("png", &png).unwrap();
    assert_eq!(k, content_sha256(&png));
    assert_eq!(k.len(), 64);
    assert!(matches!(import_key("gif", &png), Err(AppError::Invalid(_))));
    let meta = import_metadata(&png, &None, &Some("foto".to_string())).unwrap();
    assert_eq!((meta.width, meta.height), (1600, 900));
    assert_eq!(meta.orientation, "landscape");
    assert_eq!(meta.aspect, "16:9");
    assert_eq!(meta.quality, 1000);
    assert_eq!(meta.title, "foto");
    let small = png_bytes(300, 400);
    let meta = import_metadata(&small, &Some("t".to_string()), &None).unwrap();
    assert_eq!(meta.orientation, "portrait");
    assert_eq!(meta.quality, 120);
    assert_eq!(meta.title, "t");
    assert!(matches!(import_metadata(&b"zzz".to_vec(), &None, &None), Err(AppError::Invalid(_))));
}

#[test]
fn literal_addresses_refused_unless_local() {
    let base = "https://api.example.com/v1";
    for (u, ip) in [
        ("http://127.0.0.1/secret", [127, 0, 0, 1]),
        ("http://10.0.0.5/x", [10, 0, 0, 5]),
        ("http://192.168.1.1/x", [192, 168, 1, 1]),
        ("http://169.254.169.254/latest/meta-data/", [169, 254, 169, 254]),
    ] {
        match validate_download_target(u, base, Some(IpLit::V4(ip))) {
            Err(ProviderError::InvalidResponse(m)) => assert_eq!(m, "download URL resolves to blocked IP"),
            _ => panic!("{u} must be refused"),
        }
    }
    assert!(validate_download_target("http://[::1]/x", base, Some(IpLit::V6([0, 0, 0, 0, 0, 0, 0, 1]))).is_err());
    assert!(validate_download_target("http://127.0.0.1:20128/img.png", "http://127.0.0.1:20128/v1", Some(IpLit::V4([127, 0, 0, 1]))).is_ok());
    assert!(validate_download_target("https://93.184.216.34/", base, Some(IpLit::V4([93, 184, 216, 34]))).is_ok());
    assert!(validate_download_target("ftp://example.com/x", base, None).is_err());
}
