//! What comes back from an image provider: where a result may be downloaded
//! from (no private, loopback or otherwise non-public address unless the
//! provider itself is local), and whether the bytes are an image.
use vstd::prelude::*;
use crate::generation::{ProviderError, forbidden_v4, forbidden_v6, loopback_allowed, allow_loopback_for_base,
    is_forbidden_v4, is_forbidden_v6, known_image, sniff_ok};
use crate::safe_paths::opt_view;
use crate::text::{lowercase, to_lowercase, to_chars, occurs_at, push_str};
use crate::visual::eq_lit;
use base64::Engine;

verus! {

/// The scheme, host text and port (or the scheme's known default) of a URL,
/// or the message of the error that parsing it gave.
pub uninterp spec fn url_parse(url: Seq<char>) -> Result<(Seq<char>, Option<Seq<char>>, Option<u16>), Seq<char>>;

/// The parts of a parsed URL that the checks read.
pub struct UrlParts {
    pub scheme: String,
    pub host: Option<String>,
    pub port: Option<u16>,
}

/// `reqwest::Url::parse` (the `url` crate), read through `scheme`,
/// `host_str` and `port_or_known_default`. The result, a function of the
/// text alone, is named by `url_parse`; what the parser accepts is not stated.
#[verifier::external_body]
fn parse_url(url: &str) -> (r: Result<UrlParts, String>)
    ensures
        match r {
            Ok(p) => url_parse(url@) == Ok::<(Seq<char>, Option<Seq<char>>, Option<u16>), Seq<char>>((p.scheme@, opt_view(p.host), p.port)),
            Err(e) => url_parse(url@) == Err::<(Seq<char>, Option<Seq<char>>, Option<u16>), Seq<char>>(e@),
        },
{
    match reqwest::Url::parse(url) {
        Ok(u) => Ok(UrlParts {
            scheme: u.scheme().to_string(),
            host: match u.host_str() {
                Some(h) => Some(h.to_string()),
                None => None,
            },
            port: u.port_or_known_default(),
        }),
        Err(e) => Err(e.to_string()),
    }
}

/// `s` ends with `suffix`.
pub open spec fn ends_with_lit(s: Seq<char>, suffix: Seq<char>) -> bool {
    s.len() >= suffix.len() && occurs_at(s, suffix, s.len() - suffix.len())
}

/// A host name that only means something on a private network.
pub open spec fn private_name(host: Seq<char>) -> bool {
    ends_with_lit(host, ".local"@) || ends_with_lit(host, ".internal"@) || ends_with_lit(host, ".localhost"@)
}

/// A download URL that passed the checks that need no address lookup: its
/// text, its host in lower case and the port to reach it on.
pub struct DownloadTarget {
    pub url: String,
    pub host: String,
    pub port: u16,
}

/// The checks on a download URL before any address is known: it parses, is
/// http or https, has a host, and the host is not a private-network name
/// (unless the provider is local). `Ok` gives the lower-cased host and the
/// port (the explicit one, else 443 for https and 80 for http).
pub open spec fn download_check(url: Seq<char>, base_url: Seq<char>) -> Result<(Seq<char>, u16), Seq<char>> {
    match url_parse(url) {
        Err(e) => Err("bad url: "@ + e),
        Ok(p) => if p.0 != "http"@ && p.0 != "https"@ {
            Err("url scheme not allowed"@)
        } else {
            match p.1 {
                None => Err("url missing host"@),
                Some(h) => {
                    let host = lowercase(h);
                    if private_name(host) && !loopback_allowed(base_url, host) {
                        Err("download URL host not allowed"@)
                    } else {
                        Ok((host, match p.2 { Some(port) => port, None => if p.0 == "https"@ { 443u16 } else { 80u16 } }))
                    }
                },
            }
        },
    }
}

fn ends_with_exec(s: &Vec<char>, suffix: &str) -> (r: bool)
    ensures
        r == ends_with_lit(s@, suffix@),
{
    let t = to_chars(suffix);
    crate::text::ends_with(s, &t)
}

/// The checks on a download URL that read only its text (see
/// `download_check`); a host that is an address itself is checked by
/// `validate_download_target`, a name by `check_resolved`.
pub fn validate_download_url(url: &str, base_url: &str) -> (r: Result<DownloadTarget, ProviderError>)
    ensures
        match download_check(url@, base_url@) {
            Ok(t) => r matches Ok(d) && d.url@ == url@ && d.host@ == t.0 && d.port == t.1,
            Err(m) => r matches Err(ProviderError::InvalidResponse(e)) && e@ == m,
        },
{
    let p = match parse_url(url) {
        Ok(p) => p,
        Err(e) => {
            let mut m = String::from_str("bad url: ");
            push_str(&mut m, e.as_str());
            return Err(ProviderError::InvalidResponse(m));
        },
    };
    let sc = to_chars(p.scheme.as_str());
    let is_http = eq_lit(&sc, "http");
    let is_https = eq_lit(&sc, "https");
    if !is_http && !is_https {
        return Err(ProviderError::InvalidResponse(String::from_str("url scheme not allowed")));
    }
    let h = match &p.host {
        Some(h) => h,
        None => {
            return Err(ProviderError::InvalidResponse(String::from_str("url missing host")));
        },
    };
    let host = to_lowercase(h.as_str());
    let hc = to_chars(host.as_str());
    let private = ends_with_exec(&hc, ".local") || ends_with_exec(&hc, ".internal") || ends_with_exec(&hc, ".localhost");
    if private && !allow_loopback_for_base(base_url, host.as_str()) {
        return Err(ProviderError::InvalidResponse(String::from_str("download URL host not allowed")));
    }
    let port: u16 = match p.port {
        Some(port) => port,
        None => if is_https { 443 } else { 80 },
    };
    Ok(DownloadTarget { url: String::from_str(url), host, port })
}

/// An IP address: four octets or eight segments.
#[derive(Clone, Copy, Debug)]
pub enum IpLit {
    V4([u8; 4]),
    V6([u16; 8]),
}

/// A download must not reach the address.
pub open spec fn forbidden_ip(ip: IpLit) -> bool {
    match ip {
        IpLit::V4(o) => forbidden_v4(o),
        IpLit::V6(s) => forbidden_v6(s),
    }
}

/// The address is the machine itself: 127.0.0.0/8 or ::1.
pub open spec fn loopback_ip(ip: IpLit) -> bool {
    match ip {
        IpLit::V4(o) => o[0] == 127,
        IpLit::V6(s) => s[0] == 0 && s[1] == 0 && s[2] == 0 && s[3] == 0 && s[4] == 0 && s[5] == 0 && s[6] == 0
            && s[7] == 1,
    }
}

/// Whether a download must not reach the address.
pub fn is_forbidden_ip(ip: IpLit) -> (r: bool)
    ensures
        r == forbidden_ip(ip),
{
    match ip {
        IpLit::V4(o) => is_forbidden_v4(o),
        IpLit::V6(s) => is_forbidden_v6(s),
    }
}

fn is_loopback_ip(ip: IpLit) -> (r: bool)
    ensures
        r == loopback_ip(ip),
{
    match ip {
        IpLit::V4(o) => o[0] == 127,
        IpLit::V6(s) => s[0] == 0 && s[1] == 0 && s[2] == 0 && s[3] == 0 && s[4] == 0 && s[5] == 0 && s[6] == 0
            && s[7] == 1,
    }
}

/// A host that is an address itself: refused when a download must not reach
/// it, unless the provider is local.
pub fn check_literal_ip(host: &str, ip: IpLit, base_url: &str) -> (r: Result<(), ProviderError>)
    ensures
        r is Ok <==> !(forbidden_ip(ip) && !loopback_allowed(base_url@, host@)),
        r matches Err(e) ==> (e matches ProviderError::InvalidResponse(m) && m@ == "download URL resolves to blocked IP"@),
{
    if is_forbidden_ip(ip) && !allow_loopback_for_base(base_url, host) {
        return Err(ProviderError::InvalidResponse(String::from_str("download URL resolves to blocked IP")));
    }
    Ok(())
}

/// The URL checks and, when the host is an address itself, the address
/// check: the host `literal` denotes (as the application parses the host
/// text, or `None` for a name). A private, loopback or otherwise non-public
/// literal address is refused unless the provider is local; a name still has
/// to be resolved and checked (see `check_resolved`).
pub fn validate_download_target(url: &str, base_url: &str, literal: Option<IpLit>) -> (r: Result<DownloadTarget, ProviderError>)
    ensures
        match download_check(url@, base_url@) {
            Err(m) => r matches Err(ProviderError::InvalidResponse(e)) && e@ == m,
            Ok(t) => match literal {
                Some(ip) => if forbidden_ip(ip) && !loopback_allowed(base_url@, t.0) {
                    r matches Err(ProviderError::InvalidResponse(e)) && e@ == "download URL resolves to blocked IP"@
                } else {
                    r matches Ok(d) && d.url@ == url@ && d.host@ == t.0 && d.port == t.1
                },
                None => r matches Ok(d) && d.url@ == url@ && d.host@ == t.0 && d.port == t.1,
            },
        },
{
    let t = validate_download_url(url, base_url)?;
    match literal {
        Some(ip) => {
            check_literal_ip(t.host.as_str(), ip, base_url)?;
            Ok(t)
        },
        None => Ok(t),
    }
}

/// The first resolved address that a download must not reach (a loopback
/// one is let through when the provider is local).
pub open spec fn first_blocked(addrs: Seq<(IpLit, String)>, allow: bool) -> Option<int>
    decreases addrs.len(),
{
    if addrs.len() == 0 {
        None
    } else {
        match first_blocked(addrs.drop_last(), allow) {
            Some(i) => Some(i),
            None => {
                let ip = addrs.last().0;
                if forbidden_ip(ip) && !(allow && loopback_ip(ip)) { Some(addrs.len() - 1) } else { None }
            },
        }
    }
}

proof fn lemma_first_blocked_prefix(addrs: Seq<(IpLit, String)>, allow: bool, k: int)
    requires
        0 <= k <= addrs.len(),
        first_blocked(addrs.take(k), allow) is Some,
    ensures
        first_blocked(addrs, allow) == first_blocked(addrs.take(k), allow),
    decreases addrs.len(),
{
    if k < addrs.len() {
        assert(addrs.drop_last().take(k) =~= addrs.take(k));
        lemma_first_blocked_prefix(addrs.drop_last(), allow, k);
    } else {
        assert(addrs.take(k) =~= addrs);
    }
}

/// The addresses a host name resolved to (each with its text), or the
/// lookup's error: refused when the lookup failed, found nothing, or gave an
/// address a download must not reach (a loopback one passes when the
/// provider is local).
pub fn check_resolved(host: &str, base_url: &str, addrs: &Result<Vec<(IpLit, String)>, String>) -> (r: Result<(), ProviderError>)
    ensures
        match addrs {
            Err(e) => r matches Err(ProviderError::InvalidResponse(m)) && m@ == "DNS resolve failed: "@ + e@,
            Ok(v) => if v@.len() == 0 {
                r matches Err(ProviderError::InvalidResponse(m)) && m@ == "DNS returned no addresses"@
            } else {
                match first_blocked(v@, loopback_allowed(base_url@, host@)) {
                    None => r is Ok,
                    Some(i) => r matches Err(ProviderError::InvalidResponse(m))
                        && m@ == "download URL resolves to blocked IP "@ + v@[i].1@,
                }
            },
        },
{
    match addrs {
        Err(e) => {
            let mut m = String::from_str("DNS resolve failed: ");
            push_str(&mut m, e.as_str());
            Err(ProviderError::InvalidResponse(m))
        },
        Ok(v) => {
            if v.len() == 0 {
                return Err(ProviderError::InvalidResponse(String::from_str("DNS returned no addresses")));
            }
            let allow = allow_loopback_for_base(base_url, host);
            let mut i: usize = 0;
            proof {
                assert(v@.take(0) =~= Seq::<(IpLit, String)>::empty());
            }
            while i < v.len()
                invariant
                    i <= v@.len(),
                    allow == loopback_allowed(base_url@, host@),
                    first_blocked(v@.take(i as int), allow) is None,
                    v@.len() > 0,
                    match addrs {
                        Ok(w) => w@ == v@,
                        Err(_) => false,
                    },
                decreases v@.len() - i,
            {
                let ghost t = v@.take(i as int + 1);
                proof {
                    assert(t.drop_last() =~= v@.take(i as int));
                    assert(t.last() == v@[i as int]);
                }
                let ip = v[i].0;
                if is_forbidden_ip(ip) && !(allow && is_loopback_ip(ip)) {
                    proof {
                        assert(first_blocked(t, allow) == Some(i as int));
                        lemma_first_blocked_prefix(v@, allow, i as int + 1);
                        assert(first_blocked(v@, allow) == Some(i as int));
                    }
                    let mut m = String::from_str("download URL resolves to blocked IP ");
                    push_str(&mut m, v[i].1.as_str());
                    return Err(ProviderError::InvalidResponse(m));
                }
                i = i + 1;
            }
            proof {
                assert(v@.take(v@.len() as int) =~= v@);
            }
            Ok(())
        },
    }
}


/// The most bytes an image download may have (25 MiB).
pub const MAX_DOWNLOAD_BYTES: u64 = 26214400;

/// The most redirects a download follows.
pub const MAX_REDIRECTS: u32 = 3;

/// The text of the URL that `input` names relative to `base`, or the
/// message of the error that resolving it gave.
pub uninterp spec fn url_join(base: Seq<char>, input: Seq<char>) -> Result<Seq<char>, Seq<char>>;

/// `reqwest::Url::join` (the `url` crate) on `base` parsed with
/// `reqwest::Url::parse`, written back with `to_string`. The result, a
/// function of the two texts alone, is named by `url_join`.
#[verifier::external_body]
fn join_url(base: &str, input: &str) -> (r: Result<String, String>)
    ensures
        match r {
            Ok(u) => url_join(base@, input@) == Ok::<Seq<char>, Seq<char>>(u@),
            Err(e) => url_join(base@, input@) == Err::<Seq<char>, Seq<char>>(e@),
        },
{
    match reqwest::Url::parse(base) {
        Ok(b) => match b.join(input) {
            Ok(u) => Ok(u.to_string()),
            Err(e) => Err(e.to_string()),
        },
        Err(e) => Err(e.to_string()),
    }
}

/// `s` starts with `prefix`.
pub open spec fn starts_with_lit(s: Seq<char>, prefix: Seq<char>) -> bool {
    occurs_at(s, prefix, 0)
}

/// Where a redirect at hop `hop` leads: refused at the last hop or without
/// a location; an absolute http(s) location is taken as it is, another one
/// is resolved against the current URL.
pub open spec fn redirect_check(hop: u32, current: Seq<char>, location: Option<Seq<char>>) -> Result<Seq<char>, Seq<char>> {
    if hop >= MAX_REDIRECTS {
        Err("too many redirects"@)
    } else {
        match location {
            None => Err("redirect without Location"@),
            Some(l) => if starts_with_lit(l, "http://"@) || starts_with_lit(l, "https://"@) {
                Ok(l)
            } else {
                url_join(current, l)
            },
        }
    }
}

/// The next URL of a download after a redirect at hop `hop` (see
/// `redirect_check`), checked again as a download URL.
pub fn follow_redirect(hop: u32, current: &str, location: &Option<String>, base_url: &str) -> (r: Result<DownloadTarget, ProviderError>)
    ensures
        match redirect_check(hop, current@, opt_view(*location)) {
            Err(m) => r matches Err(ProviderError::InvalidResponse(e)) && e@ == m,
            Ok(next) => match download_check(next, base_url@) {
                Ok(t) => r matches Ok(d) && d.url@ == next && d.host@ == t.0 && d.port == t.1,
                Err(m) => r matches Err(ProviderError::InvalidResponse(e)) && e@ == m,
            },
        },
{
    if hop >= MAX_REDIRECTS {
        return Err(ProviderError::InvalidResponse(String::from_str("too many redirects")));
    }
    let loc = match location {
        None => {
            return Err(ProviderError::InvalidResponse(String::from_str("redirect without Location")));
        },
        Some(l) => l,
    };
    let lc = to_chars(loc.as_str());
    let http = to_chars("http://");
    let https = to_chars("https://");
    let next = if crate::text::starts_with(&lc, &http) || crate::text::starts_with(&lc, &https) {
        String::from_str(loc.as_str())
    } else {
        match join_url(current, loc.as_str()) {
            Ok(u) => u,
            Err(e) => {
                return Err(ProviderError::InvalidResponse(e));
            },
        }
    };
    validate_download_url(next.as_str(), base_url)
}

/// A download response that is not a redirect: refused unless its status is
/// a success, or when it announces more bytes than allowed.
pub fn check_download_response(status: u16, content_length: Option<u64>) -> (r: Result<(), ProviderError>)
    ensures
        !(200 <= status <= 299) ==> (r matches Err(ProviderError::Http { status: s, message: m }) && s == status
            && m@ == "download failed"@),
        200 <= status <= 299 ==> match content_length {
            Some(n) => if n > MAX_DOWNLOAD_BYTES {
                r matches Err(ProviderError::InvalidResponse(m)) && m@ == "Content-Length exceeds max"@
            } else {
                r is Ok
            },
            None => r is Ok,
        },
{
    if !(200 <= status && status <= 299) {
        return Err(ProviderError::Http { status, message: String::from_str("download failed") });
    }
    match content_length {
        Some(n) => if n > MAX_DOWNLOAD_BYTES {
            Err(ProviderError::InvalidResponse(String::from_str("Content-Length exceeds max")))
        } else {
            Ok(())
        },
        None => Ok(()),
    }
}

/// A chunk of a download is taken only while the whole stays within the limit.
pub fn check_download_chunk(buffered: u64, chunk: u64) -> (r: Result<(), ProviderError>)
    ensures
        r is Ok <==> buffered + chunk <= MAX_DOWNLOAD_BYTES,
        r matches Err(e) ==> (e matches ProviderError::InvalidResponse(m) && m@ == "download exceeded max during stream"@),
{
    if buffered as u128 + chunk as u128 > MAX_DOWNLOAD_BYTES as u128 {
        Err(ProviderError::InvalidResponse(String::from_str("download exceeded max during stream")))
    } else {
        Ok(())
    }
}

/// The first `n` characters of a text.
fn prefix_chars(s: &str, n: usize) -> (r: String)
    ensures
        r@ == s@.take(if s@.len() < n { s@.len() as int } else { n as int }),
{
    let cs = to_chars(s);
    let mut r = String::new();
    let mut i: usize = 0;
    proof {
        assert(r@ =~= s@.take(0));
    }
    while i < cs.len() && i < n
        invariant
            cs@ == s@,
            i <= cs@.len(),
            i <= n,
            r@ == s@.take(i as int),
        decreases cs@.len() - i,
    {
        crate::text::push_char(&mut r, cs[i]);
        proof {
            assert(s@.take(i as int + 1) =~= s@.take(i as int).push(s@[i as int]));
        }
        i = i + 1;
    }
    r
}

/// How the image service answered a generation request.
#[derive(Clone, Copy, Debug, PartialEq, Eq, Structural)]
pub enum ApiStatus {
    Success,
    RateLimited,
    Failed,
}

/// 429 is rate limiting, any other status outside 200..=299 a failure.
pub fn api_status(status: u16) -> (r: ApiStatus)
    ensures
        status == 429 ==> r == ApiStatus::RateLimited,
        status != 429 && 200 <= status <= 299 ==> r == ApiStatus::Success,
        status != 429 && !(200 <= status <= 299) ==> r == ApiStatus::Failed,
{
    if status == 429 {
        ApiStatus::RateLimited
    } else if 200 <= status && status <= 299 {
        ApiStatus::Success
    } else {
        ApiStatus::Failed
    }
}

/// The error of a failed generation request: its status and the first 400
/// characters of the body.
pub fn http_error(status: u16, body: &str) -> (r: ProviderError)
    ensures
        r matches ProviderError::Http { status: s, message: m } && s == status
            && m@ == body@.take(if body@.len() < 400 { body@.len() as int } else { 400 }),
{
    ProviderError::Http { status, message: prefix_chars(body, 400) }
}

/// The bytes that base64 text stands for (standard alphabet, padded), or
/// the message of the error decoding it gave.
pub uninterp spec fn b64_decode(s: Seq<char>) -> Result<Seq<u8>, Seq<char>>;

/// `base64::engine::general_purpose::STANDARD.decode`. The result, a
/// function of the text alone, is named by `b64_decode`.
#[verifier::external_body]
fn decode_base64(s: &str) -> (r: Result<Vec<u8>, String>)
    ensures
        match r {
            Ok(b) => b64_decode(s@) == Ok::<Seq<u8>, Seq<char>>(b@),
            Err(e) => b64_decode(s@) == Err::<Seq<u8>, Seq<char>>(e@),
        },
{
    match base64::engine::general_purpose::STANDARD.decode(s) {
        Ok(b) => Ok(b),
        Err(e) => Err(e.to_string()),
    }
}

/// Where the image of a generation response is.
pub enum ResponseImage {
    Bytes(Vec<u8>),
    Download(String),
}

/// The image of a generation response: its inline base64 data when there is
/// some, else its URL; refused when the data does not decode or neither is there.
pub fn response_image(b64_json: &Option<String>, url: &Option<String>) -> (r: Result<ResponseImage, ProviderError>)
    ensures
        match b64_json {
            Some(b) => match b64_decode(b@) {
                Ok(bytes) => r matches Ok(ResponseImage::Bytes(v)) && v@ == bytes,
                Err(e) => r matches Err(ProviderError::InvalidResponse(m)) && m@ == "b64: "@ + e,
            },
            None => match url {
                Some(u) => r matches Ok(ResponseImage::Download(d)) && d@ == u@,
                None => r matches Err(ProviderError::InvalidResponse(m)) && m@ == "no url or b64_json in response"@,
            },
        },
{
    match b64_json {
        Some(b) => match decode_base64(b.as_str()) {
            Ok(v) => Ok(ResponseImage::Bytes(v)),
            Err(e) => {
                let mut m = String::from_str("b64: ");
                push_str(&mut m, e.as_str());
                Err(ProviderError::InvalidResponse(m))
            },
        },
        None => match url {
            Some(u) => Ok(ResponseImage::Download(u.clone())),
            None => Err(ProviderError::InvalidResponse(String::from_str("no url or b64_json in response"))),
        },
    }
}

/// The width and height of the image that bytes decode to, or the message
/// of the error decoding them gave.
pub uninterp spec fn image_decode(bytes: Seq<u8>) -> Result<(u32, u32), Seq<char>>;

/// `image::load_from_memory` (PNG and JPEG decoders), read through `width`
/// and `height`. The result, a function of the bytes alone, is named by
/// `image_decode`; which bytes decode is not stated.
#[verifier::external_body]
pub(crate) fn decode_image(bytes: &[u8]) -> (r: Result<(u32, u32), String>)
    ensures
        match r {
            Ok(d) => image_decode(bytes@) == Ok::<(u32, u32), Seq<char>>(d),
            Err(e) => image_decode(bytes@) == Err::<(u32, u32), Seq<char>>(e@),
        },
{
    match image::load_from_memory(bytes) {
        Ok(i) => Ok((i.width(), i.height())),
        Err(e) => Err(e.to_string()),
    }
}

/// Bytes are taken as an image only when their signature is one and they decode.
pub fn validate_image_bytes(bytes: &[u8]) -> (r: Result<(), ProviderError>)
    ensures
        !known_image(bytes@) ==> (r matches Err(ProviderError::InvalidResponse(m)) && m@ == "MIME no es imagen reconocida"@),
        known_image(bytes@) ==> match image_decode(bytes@) {
            Ok(_) => r is Ok,
            Err(e) => r matches Err(ProviderError::InvalidResponse(m)) && m@ == "bytes no decodifican como imagen: "@ + e,
        },
{
    if !sniff_ok(bytes) {
        return Err(ProviderError::InvalidResponse(String::from_str("MIME no es imagen reconocida")));
    }
    match decode_image(bytes) {
        Ok(_) => Ok(()),
        Err(e) => {
            let mut m = String::from_str("bytes no decodifican como imagen: ");
            push_str(&mut m, e.as_str());
            Err(ProviderError::InvalidResponse(m))
        },
    }
}

/// The file extension for image bytes by their signature.
pub open spec fn image_ext_of(bytes: Seq<u8>) -> Seq<char> {
    let m = crate::generation::mime_of(bytes);
    if m == "image/jpeg"@ { "jpg"@ } else if m == "image/webp"@ { "webp"@ } else { "png"@ }
}

/// Generated bytes are kept when within the size limit and an image; `Ok`
/// gives the extension to store them under.
pub fn check_generated_bytes(bytes: &Vec<u8>) -> (r: Result<&'static str, ProviderError>)
    ensures
        bytes@.len() > MAX_DOWNLOAD_BYTES ==> (r matches Err(ProviderError::InvalidResponse(m)) && m@ == "file too large"@),
        bytes@.len() <= MAX_DOWNLOAD_BYTES && !known_image(bytes@) ==> (r matches Err(ProviderError::InvalidResponse(m))
            && m@ == "MIME no es imagen reconocida"@),
        bytes@.len() <= MAX_DOWNLOAD_BYTES && known_image(bytes@) ==> match image_decode(bytes@) {
            Ok(_) => r matches Ok(ext) && ext@ == image_ext_of(bytes@),
            Err(e) => r matches Err(ProviderError::InvalidResponse(m)) && m@ == "bytes no decodifican como imagen: "@ + e,
        },
{
    if bytes.len() as u64 > MAX_DOWNLOAD_BYTES {
        return Err(ProviderError::InvalidResponse(String::from_str("file too large")));
    }
    match validate_image_bytes(bytes.as_slice()) {
        Err(e) => Err(e),
        Ok(()) => {
            let m = crate::generation::sniff_mime(bytes.as_slice());
            let mc = to_chars(m);
            proof {
                reveal_strlit("image/jpeg");
                reveal_strlit("image/webp");
                reveal_strlit("image/png");
                reveal_strlit("application/octet-stream");
            }
            if eq_lit(&mc, "image/jpeg") {
                Ok("jpg")
            } else if eq_lit(&mc, "image/webp") {
                Ok("webp")
            } else {
                Ok("png")
            }
        },
    }
}

} // verus!
