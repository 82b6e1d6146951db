//! Image generation: providers, cost policy and the checks on what comes back.
use vstd::prelude::*;

use crate::text::{has_sub, occurs_at, push_str, to_chars};
use vstd::string::StringSliceAdditionalSpecFns;
use crate::visual::eq_lit;

verus! {

/// Which image provider serves a request.
#[derive(Clone, Copy, Debug, PartialEq, Eq, Structural)]
pub enum ProviderKind {
    Mock,
    OmniRoute,
    Local,
    Pollinations,
}

/// How a generation's cost is presented: never "free" without saying how
/// that is known.
#[derive(Clone, Copy, Debug, PartialEq, Eq, Structural)]
pub enum CostKind {
    Unknown,
    FreeVerified,
    FreeConfigured,
    Local,
    Paid,
}

/// The wire name of a cost kind.
pub open spec fn cost_kind_name(k: CostKind) -> Seq<char> {
    match k {
        CostKind::Unknown => "unknown"@,
        CostKind::FreeVerified => "free_verified"@,
        CostKind::FreeConfigured => "free_configured"@,
        CostKind::Local => "local"@,
        CostKind::Paid => "paid"@,
    }
}

/// The cost kind a wire name stands for; unknown names are `Unknown`.
pub open spec fn cost_kind_named(s: Seq<char>) -> CostKind {
    if s == "free_verified"@ {
        CostKind::FreeVerified
    } else if s == "free_configured"@ {
        CostKind::FreeConfigured
    } else if s == "local"@ {
        CostKind::Local
    } else if s == "paid"@ {
        CostKind::Paid
    } else {
        CostKind::Unknown
    }
}

/// The Spanish label of a cost kind.
pub open spec fn cost_kind_label(k: CostKind) -> Seq<char> {
    match k {
        CostKind::FreeVerified => "Gratis verificado"@,
        CostKind::FreeConfigured => "Gratis configurado, no verificado"@,
        CostKind::Local => "Generación local"@,
        CostKind::Paid => "Pagado"@,
        CostKind::Unknown => "Coste desconocido"@,
    }
}

impl CostKind {
    /// The wire name.
    pub fn as_str(self) -> (r: &'static str)
        ensures
            r@ == cost_kind_name(self),
    {
        match self {
            CostKind::Unknown => "unknown",
            CostKind::FreeVerified => "free_verified",
            CostKind::FreeConfigured => "free_configured",
            CostKind::Local => "local",
            CostKind::Paid => "paid",
        }
    }

    /// The kind a wire name stands for (exact, case-sensitive).
    pub fn parse(s: &str) -> (k: CostKind)
        ensures
            k == cost_kind_named(s@),
    {
        let v = to_chars(s);
        if eq_lit(&v, "free_verified") {
            CostKind::FreeVerified
        } else if eq_lit(&v, "free_configured") {
            CostKind::FreeConfigured
        } else if eq_lit(&v, "local") {
            CostKind::Local
        } else if eq_lit(&v, "paid") {
            CostKind::Paid
        } else {
            CostKind::Unknown
        }
    }

    /// The Spanish label.
    pub fn label_es(self) -> (r: &'static str)
        ensures
            r@ == cost_kind_label(self),
    {
        match self {
            CostKind::FreeVerified => "Gratis verificado",
            CostKind::FreeConfigured => "Gratis configurado, no verificado",
            CostKind::Local => "Generación local",
            CostKind::Paid => "Pagado",
            CostKind::Unknown => "Coste desconocido",
        }
    }
}

/// Reading back a cost kind's wire name gives the kind.
pub proof fn lemma_cost_kind_roundtrip(k: CostKind)
    ensures
        cost_kind_named(cost_kind_name(k)) == k,
{
    reveal_strlit("unknown");
    reveal_strlit("free_verified");
    reveal_strlit("free_configured");
    reveal_strlit("local");
    reveal_strlit("paid");
    assert("unknown"@.len() == 7 && "free_verified"@.len() == 13 && "free_configured"@.len() == 15);
    assert("local"@.len() == 5 && "paid"@.len() == 4);
}

/// The label shown for a stored cost kind: a configured free tier that was
/// not verified says so.
pub open spec fn cost_label_text(kind: Seq<char>, free_verified: bool) -> Seq<char> {
    let k = cost_kind_named(kind);
    if k == CostKind::FreeConfigured && !free_verified {
        "Gratis configurado, no verificado"@
    } else {
        cost_kind_label(k)
    }
}

/// The cost label of a stored cost kind.
pub fn cost_label(kind: &str, free_verified: bool) -> (r: String)
    ensures
        r@ == cost_label_text(kind@, free_verified),
{
    let k = CostKind::parse(kind);
    if k == CostKind::FreeConfigured && !free_verified {
        return String::from_str("Gratis configurado, no verificado");
    }
    String::from_str(k.label_es())
}

/// Why a provider failed.
#[derive(Clone, Debug)]
pub enum ProviderError {
    Unavailable(String),
    RateLimited,
    Timeout,
    InvalidResponse(String),
    PaidDisabled,
    Http { status: u16, message: String },
    Other(String),
}

/// The message of a provider error.
pub open spec fn provider_error_text(e: ProviderError) -> Seq<char> {
    match e {
        ProviderError::Unavailable(m) => "provider unavailable: "@ + m@,
        ProviderError::RateLimited => "rate limited"@,
        ProviderError::Timeout => "timeout"@,
        ProviderError::InvalidResponse(m) => "invalid response: "@ + m@,
        ProviderError::PaidDisabled => "paid providers disabled by policy"@,
        ProviderError::Http { status, message } => "http "@ + crate::text::dec(status as nat) + ": "@ + message@,
        ProviderError::Other(m) => m@,
    }
}

impl ProviderError {
    /// The error's message.
    pub fn message(&self) -> (r: String)
        ensures
            r@ == provider_error_text(*self),
    {
        let mut s = String::new();
        match self {
            ProviderError::Unavailable(m) => {
                push_str(&mut s, "provider unavailable: ");
                push_str(&mut s, m.as_str());
            },
            ProviderError::RateLimited => push_str(&mut s, "rate limited"),
            ProviderError::Timeout => push_str(&mut s, "timeout"),
            ProviderError::InvalidResponse(m) => {
                push_str(&mut s, "invalid response: ");
                push_str(&mut s, m.as_str());
            },
            ProviderError::PaidDisabled => push_str(&mut s, "paid providers disabled by policy"),
            ProviderError::Http { status, message } => {
                push_str(&mut s, "http ");
                crate::text::push_dec(&mut s, *status as u64);
                push_str(&mut s, ": ");
                push_str(&mut s, message.as_str());
            },
            ProviderError::Other(m) => push_str(&mut s, m.as_str()),
        }
        proof {
            assert(s@ =~= provider_error_text(*self));
        }
        s
    }
}

/// Limits on spending generations; the paid budget in cents.
#[derive(Clone, Copy, Debug, PartialEq, Eq)]
pub struct CostPolicy {
    pub paid_providers_enabled: bool,
    pub opportunistic_enabled: bool,
    pub daily_paid_budget_cents: u64,
    pub max_daily_generations: u32,
    pub max_generations_per_project: u32,
    pub max_attempts_per_need: u32,
}

impl CostPolicy {
    /// Paid providers off with no budget; opportunistic generation on; 50
    /// generations a day, 20 per project, 3 attempts per need.
    pub fn default_policy() -> (p: CostPolicy)
        ensures
            !p.paid_providers_enabled && p.opportunistic_enabled && p.daily_paid_budget_cents == 0,
            p.max_daily_generations == 50 && p.max_generations_per_project == 20,
            p.max_attempts_per_need == 3,
    {
        CostPolicy {
            paid_providers_enabled: false,
            opportunistic_enabled: true,
            daily_paid_budget_cents: 0,
            max_daily_generations: 50,
            max_generations_per_project: 20,
            max_attempts_per_need: 3,
        }
    }
}

/// The answer of the cost gate.
#[derive(Clone, Debug)]
pub enum CostGate {
    Allow { free: bool },
    Deny { reason: String },
}

/// Why a queued request is refused, by the policy and the counters of the
/// day and of the project; `None` lets it through.
pub open spec fn gate_denial(p: CostPolicy, is_paid: bool, opportunistic: bool, today: u64, project_jobs: u64) -> Option<Seq<char>> {
    if opportunistic && !p.opportunistic_enabled {
        Some("generación oportunista desactivada"@)
    } else if is_paid && !p.paid_providers_enabled {
        Some("proveedores de pago deshabilitados (VIGILCUT_PAID_PROVIDERS)"@)
    } else if is_paid && p.daily_paid_budget_cents == 0 {
        Some("presupuesto diario de pago es 0"@)
    } else if today >= p.max_daily_generations {
        Some("límite diario de generaciones ("@ + crate::text::dec(p.max_daily_generations as nat) + ")"@)
    } else if project_jobs >= p.max_generations_per_project {
        Some("límite de generaciones del proyecto ("@ + crate::text::dec(p.max_generations_per_project as nat) + ")"@)
    } else {
        None
    }
}

/// Never spend silently: decide whether a generation may be queued from the
/// policy, whether it is paid or opportunistic, and the counters so far.
pub fn can_enqueue_generation(policy: &CostPolicy, is_paid: bool, opportunistic: bool, today_generations: u64, project_jobs: u64) -> (g: CostGate)
    ensures
        match gate_denial(*policy, is_paid, opportunistic, today_generations, project_jobs) {
            Some(reason) => g matches CostGate::Deny { reason: r } && r@ == reason,
            None => g matches CostGate::Allow { free } && free == !is_paid,
        },
{
    if opportunistic && !policy.opportunistic_enabled {
        return CostGate::Deny { reason: String::from_str("generación oportunista desactivada") };
    }
    if is_paid {
        if !policy.paid_providers_enabled {
            return CostGate::Deny { reason: String::from_str("proveedores de pago deshabilitados (VIGILCUT_PAID_PROVIDERS)") };
        }
        if policy.daily_paid_budget_cents == 0 {
            return CostGate::Deny { reason: String::from_str("presupuesto diario de pago es 0") };
        }
    }
    if today_generations >= policy.max_daily_generations as u64 {
        let mut r = String::from_str("límite diario de generaciones (");
        crate::text::push_dec(&mut r, policy.max_daily_generations as u64);
        push_str(&mut r, ")");
        return CostGate::Deny { reason: r };
    }
    if project_jobs >= policy.max_generations_per_project as u64 {
        let mut r = String::from_str("límite de generaciones del proyecto (");
        crate::text::push_dec(&mut r, policy.max_generations_per_project as u64);
        push_str(&mut r, ")");
        return CostGate::Deny { reason: r };
    }
    CostGate::Allow { free: !is_paid }
}

/// A paid request is never allowed while paid providers are off.
pub proof fn lemma_paid_needs_flag(p: CostPolicy, opportunistic: bool, today: u64, project_jobs: u64)
    requires
        !p.paid_providers_enabled,
    ensures
        gate_denial(p, true, opportunistic, today, project_jobs) is Some,
{
}

/// PNG signature.
pub open spec fn png_magic() -> Seq<u8> {
    seq![0x89u8, 0x50u8, 0x4eu8, 0x47u8, 0x0du8, 0x0au8, 0x1au8, 0x0au8]
}

/// The image type the leading bytes announce.
pub open spec fn mime_of(b: Seq<u8>) -> Seq<char> {
    if b.len() >= 8 && b.take(8) == png_magic() {
        "image/png"@
    } else if b.len() >= 3 && b[0] == 0xff && b[1] == 0xd8 {
        "image/jpeg"@
    } else if b.len() >= 12 && b[0] == 0x52 && b[1] == 0x49 && b[2] == 0x46 && b[3] == 0x46
        && b[8] == 0x57 && b[9] == 0x45 && b[10] == 0x42 && b[11] == 0x50 {
        "image/webp"@
    } else {
        "application/octet-stream"@
    }
}

/// The leading bytes are a PNG, JPEG or WebP signature.
pub open spec fn known_image(b: Seq<u8>) -> bool {
    mime_of(b) != "application/octet-stream"@
}

/// The MIME type of image bytes by their signature.
pub fn sniff_mime(bytes: &[u8]) -> (r: &'static str)
    ensures
        r@ == mime_of(bytes@),
{
    if bytes.len() >= 8 && bytes[0] == 0x89 && bytes[1] == 0x50 && bytes[2] == 0x4e && bytes[3] == 0x47
        && bytes[4] == 0x0d && bytes[5] == 0x0a && bytes[6] == 0x1a && bytes[7] == 0x0a {
        proof {
            assert(bytes@.take(8) =~= png_magic());
        }
        "image/png"
    } else if bytes.len() >= 3 && bytes[0] == 0xff && bytes[1] == 0xd8 {
        proof {
            if bytes@.len() >= 8 {
                assert(bytes@.take(8) != png_magic()) by {
                    assert(bytes@.take(8)[0] != png_magic()[0]);
                }
            }
        }
        "image/jpeg"
    } else if bytes.len() >= 12 && bytes[0] == 0x52 && bytes[1] == 0x49 && bytes[2] == 0x46 && bytes[3] == 0x46
        && bytes[8] == 0x57 && bytes[9] == 0x45 && bytes[10] == 0x42 && bytes[11] == 0x50 {
        proof {
            assert(bytes@.take(8) != png_magic()) by {
                assert(bytes@.take(8)[0] != png_magic()[0]);
            }
        }
        "image/webp"
    } else {
        proof {
            if bytes@.len() >= 8 {
                if bytes@.take(8) == png_magic() {
                    assert(bytes@[0] == bytes@.take(8)[0]);
                    assert(bytes@[1] == bytes@.take(8)[1]);
                    assert(bytes@[2] == bytes@.take(8)[2]);
                    assert(bytes@[3] == bytes@.take(8)[3]);
                    assert(bytes@[4] == bytes@.take(8)[4]);
                    assert(bytes@[5] == bytes@.take(8)[5]);
                    assert(bytes@[6] == bytes@.take(8)[6]);
                    assert(bytes@[7] == bytes@.take(8)[7]);
                }
            }
        }
        "application/octet-stream"
    }
}

/// Whether the bytes start with a known image signature.
pub fn sniff_ok(bytes: &[u8]) -> (r: bool)
    ensures
        r == known_image(bytes@),
{
    let m = sniff_mime(bytes);
    let v = to_chars(m);
    proof {
        reveal_strlit("application/octet-stream");
        reveal_strlit("image/png");
        reveal_strlit("image/jpeg");
        reveal_strlit("image/webp");
    }
    !eq_lit(&v, "application/octet-stream")
}

/// An IPv4 address (octets) that downloads must not reach: private,
/// loopback, link-local, broadcast, documentation, unspecified, multicast,
/// shared (100.64/10), "this network" (0/8) or benchmarking (198.18/15).
pub open spec fn forbidden_v4(o: [u8; 4]) -> bool {
    let (a, b, c, d) = (o[0], o[1], o[2], o[3]);
    ||| a == 10
    ||| (a == 172 && 16 <= b <= 31)
    ||| (a == 192 && b == 168)
    ||| a == 127
    ||| (a == 169 && b == 254)
    ||| (a == 255 && b == 255 && c == 255 && d == 255)
    ||| (a == 192 && b == 0 && c == 2)
    ||| (a == 198 && b == 51 && c == 100)
    ||| (a == 203 && b == 0 && c == 113)
    ||| (a == 0 && b == 0 && c == 0 && d == 0)
    ||| (224 <= a <= 239)
    ||| (a == 100 && 64 <= b <= 127)
    ||| a == 0
    ||| (a == 198 && (b == 18 || b == 19))
}

/// Whether an IPv4 address is forbidden as a download target.
pub fn is_forbidden_v4(o: [u8; 4]) -> (r: bool)
    ensures
        r == forbidden_v4(o),
{
    let a = o[0];
    let b = o[1];
    let c = o[2];
    let d = o[3];
    a == 10 || (a == 172 && 16 <= b && b <= 31) || (a == 192 && b == 168) || a == 127
        || (a == 169 && b == 254) || (a == 255 && b == 255 && c == 255 && d == 255)
        || (a == 192 && b == 0 && c == 2) || (a == 198 && b == 51 && c == 100)
        || (a == 203 && b == 0 && c == 113) || (a == 0 && b == 0 && c == 0 && d == 0)
        || (224 <= a && a <= 239) || (a == 100 && 64 <= b && b <= 127) || a == 0
        || (a == 198 && (b == 18 || b == 19))
}

/// The IPv4 address an IPv4-mapped IPv6 address (`::ffff:a.b.c.d`) carries.
pub open spec fn mapped_v4(s: [u16; 8]) -> Option<[u8; 4]> {
    if s[0] == 0 && s[1] == 0 && s[2] == 0 && s[3] == 0 && s[4] == 0 && s[5] == 0xffff {
        Some([(s[6] / 256) as u8, (s[6] % 256) as u8, (s[7] / 256) as u8, (s[7] % 256) as u8])
    } else {
        None
    }
}

/// An IPv6 address (segments) that downloads must not reach: loopback,
/// unspecified, multicast, unique-local (fc00::/7), link-local (fe80::/10),
/// a forbidden IPv4-mapped address, or documentation (2001:db8::/32).
pub open spec fn forbidden_v6(s: [u16; 8]) -> bool {
    let zero6 = s[0] == 0 && s[1] == 0 && s[2] == 0 && s[3] == 0 && s[4] == 0 && s[5] == 0 && s[6] == 0;
    if (zero6 && s[7] == 1) || (zero6 && s[7] == 0) || s[0] >= 0xff00 {
        true
    } else if 0xfc00 <= s[0] <= 0xfdff {
        true
    } else if 0xfe80 <= s[0] <= 0xfebf {
        true
    } else {
        match mapped_v4(s) {
            Some(v4) => forbidden_v4(v4),
            None => s[0] == 0x2001 && s[1] == 0xdb8,
        }
    }
}

/// Whether an IPv6 address is forbidden as a download target.
pub fn is_forbidden_v6(s: [u16; 8]) -> (r: bool)
    ensures
        r == forbidden_v6(s),
{
    let zero6 = s[0] == 0 && s[1] == 0 && s[2] == 0 && s[3] == 0 && s[4] == 0 && s[5] == 0 && s[6] == 0;
    if (zero6 && s[7] == 1) || (zero6 && s[7] == 0) || s[0] >= 0xff00 {
        return true;
    }
    if 0xfc00 <= s[0] && s[0] <= 0xfdff {
        return true;
    }
    if 0xfe80 <= s[0] && s[0] <= 0xfebf {
        return true;
    }
    if s[0] == 0 && s[1] == 0 && s[2] == 0 && s[3] == 0 && s[4] == 0 && s[5] == 0xffff {
        let v4: [u8; 4] = [(s[6] / 256) as u8, (s[6] % 256) as u8, (s[7] / 256) as u8, (s[7] % 256) as u8];
        proof {
            assert(mapped_v4(s) == Some(v4));
        }
        return is_forbidden_v4(v4);
    }
    s[0] == 0x2001 && s[1] == 0xdb8
}

/// A download host may be loopback only when the configured base URL is
/// itself local.
pub open spec fn loopback_allowed(base_url: Seq<char>, host: Seq<char>) -> bool {
    let base_local = has_sub(base_url, "localhost"@) || has_sub(base_url, "127.0.0.1"@) || has_sub(base_url, "[::1]"@);
    base_local && (host == "localhost"@ || host == "127.0.0.1"@ || host == "::1"@ || host == "[::1]"@
        || (host.len() >= 10 && occurs_at(host, ".localhost"@, host.len() - 10)))
}

/// Whether a loopback download host is allowed for the base URL.
pub fn allow_loopback_for_base(base_url: &str, host: &str) -> (r: bool)
    ensures
        r == loopback_allowed(base_url@, host@),
{
    let b = to_chars(base_url);
    let h = to_chars(host);
    let base_local = crate::clipping::contains_lit(&b, "localhost") || crate::clipping::contains_lit(&b, "127.0.0.1")
        || crate::clipping::contains_lit(&b, "[::1]");
    let suffix = to_chars(".localhost");
    proof {
        reveal_strlit(".localhost");
    }
    base_local && (eq_lit(&h, "localhost") || eq_lit(&h, "127.0.0.1") || eq_lit(&h, "::1") || eq_lit(&h, "[::1]")
        || crate::text::ends_with(&h, &suffix))
}

/// A request for one image.
#[derive(Clone, Debug)]
pub struct GenerationRequest {
    pub prompt: String,
    pub negative_prompt: String,
    pub model: Option<String>,
    pub width: u32,
    pub height: u32,
    pub seed: Option<i64>,
    pub job_id: String,
}

/// What a provider produced.
#[derive(Clone, Debug)]
pub struct GenerationResult {
    pub local_path: String,
    pub provider: String,
    pub model: String,
    pub mime_type: String,
    pub width: u32,
    pub height: u32,
    pub is_paid: bool,
    pub bytes: u64,
    pub cost_kind: CostKind,
    pub free_verified: bool,
    pub prompt_strategy: String,
}

/// What probing a provider found.
#[derive(Clone, Debug)]
pub struct ProviderProbe {
    pub provider: String,
    pub model: String,
    pub supports_image: bool,
    pub free_tier: bool,
    pub free_verified: bool,
    pub cost_kind: CostKind,
    pub ok: bool,
    pub latency_ms: u64,
    pub error: Option<String>,
    pub notes: Option<String>,
}

/// The offline generator of placeholder gradients.
#[derive(Clone, Copy, Debug)]
pub struct MockImageProvider;

/// FNV-1a hash of bytes (32 bits).
pub open spec fn fnv1a(b: Seq<u8>) -> u32
    decreases b.len(),
{
    if b.len() == 0 {
        2166136261
    } else {
        (((fnv1a(b.drop_last()) ^ (b.last() as u32)) as int * 16777619) % 4294967296) as u32
    }
}

impl MockImageProvider {
    /// The provider's name.
    pub fn name(&self) -> (r: &'static str)
        ensures
            r@ == "mock"@,
    {
        "mock"
    }

    /// The mock is free.
    pub fn is_free_tier(&self) -> (r: bool)
        ensures
            r,
    {
        true
    }

    /// Size of the placeholder image: the request's, kept within 64..=2048.
    pub fn output_size(&self, req: &GenerationRequest) -> (r: (u32, u32))
        ensures
            r.0 == crate::visual::clamp_u32(req.width, 64, 2048),
            r.1 == crate::visual::clamp_u32(req.height, 64, 2048),
    {
        let w = if req.width < 64 { 64 } else if req.width > 2048 { 2048 } else { req.width };
        let h = if req.height < 64 { 64 } else if req.height > 2048 { 2048 } else { req.height };
        (w, h)
    }

    /// The base color of the placeholder: bytes 2, 1 and 0 of the prompt's
    /// FNV-1a hash.
    pub fn base_color(&self, prompt: &str) -> (r: (u8, u8, u8))
        ensures
            r == ((fnv1a(prompt.spec_bytes()) / 65536 % 256) as u8, (fnv1a(prompt.spec_bytes()) / 256 % 256) as u8,
                (fnv1a(prompt.spec_bytes()) % 256) as u8),
    {
        let bytes = prompt.as_bytes();
        let mut hash: u32 = 2166136261;
        let mut i: usize = 0;
        while i < bytes.len()
            invariant
                0 <= i <= bytes@.len(),
                bytes@ == prompt.spec_bytes(),
                hash == fnv1a(bytes@.take(i as int)),
            decreases bytes@.len() - i,
        {
            proof {
                assert(bytes@.take(i as int + 1).drop_last() =~= bytes@.take(i as int));
                assert(bytes@.take(i as int + 1).last() == bytes@[i as int]);
            }
            let x = hash ^ (bytes[i] as u32);
            hash = ((x as u64 * 16777619) % 4294967296) as u32;
            i = i + 1;
        }
        proof {
            assert(bytes@.take(bytes@.len() as int) =~= bytes@);
        }
        let r = (hash / 65536 % 256) as u8;
        let g = (hash / 256 % 256) as u8;
        let b = (hash % 256) as u8;
        (r, g, b)
    }

    /// What a probe of the mock reports: local, free and verified.
    pub fn probe(&self) -> (p: ProviderProbe)
        ensures
            p.provider@ == "mock"@ && p.model@ == "mock-gradient-v1"@,
            p.supports_image && p.free_tier && p.free_verified && p.ok,
            p.cost_kind == CostKind::Local && p.latency_ms == 1 && p.error is None,
            p.notes matches Some(n) && n@ == "offline synthetic PNG — generation local, free verified"@,
    {
        ProviderProbe {
            provider: String::from_str("mock"),
            model: String::from_str("mock-gradient-v1"),
            supports_image: true,
            free_tier: true,
            free_verified: true,
            cost_kind: CostKind::Local,
            ok: true,
            latency_ms: 1,
            error: None,
            notes: Some(String::from_str("offline synthetic PNG — generation local, free verified")),
        }
    }
}

/// The OmniRoute HTTP image provider (timeout in seconds).
#[derive(Clone, Debug)]
pub struct OmniRouteImageProvider {
    pub base_url: String,
    pub api_key: Option<String>,
    pub model: String,
    pub free_configured: bool,
    pub timeout_secs: u64,
}

/// The fields of an image request body (the prompt carries the exclusions
/// too) and how the negative prompt was applied.
#[derive(Clone, Debug)]
pub struct RequestBody {
    pub model: String,
    pub prompt: String,
    pub n: u32,
    pub size: String,
    pub response_format: String,
    pub negative_prompt: Option<String>,
    pub strategy: String,
}

impl OmniRouteImageProvider {
    /// The provider's name.
    pub fn name(&self) -> (r: &'static str)
        ensures
            r@ == "omniroute"@,
    {
        "omniroute"
    }

    /// Free only when configured free (never assumed verified).
    pub fn is_free_tier(&self) -> (r: bool)
        ensures
            r == self.free_configured,
    {
        self.free_configured
    }

    /// How the provider's cost is presented.
    pub fn cost_kind(&self) -> (k: CostKind)
        ensures
            k == (if self.free_configured { CostKind::FreeConfigured } else { CostKind::Paid }),
    {
        if self.free_configured { CostKind::FreeConfigured } else { CostKind::Paid }
    }

    /// The request body for `req` and `model`: a non-blank negative prompt is
    /// sent as its own field and also folded into the prompt as
    /// " Avoid: {trimmed}."; the size is at least 256×256.
    pub fn build_body(&self, req: &GenerationRequest, model: &str) -> (b: RequestBody)
        ensures
            b.model@ == model@ && b.n == 1 && b.response_format@ == "url"@,
            b.size@ == crate::text::dec((if req.width < 256 { 256 } else { req.width }) as nat) + "x"@
                + crate::text::dec((if req.height < 256 { 256 } else { req.height }) as nat),
            ({
                let neg = crate::captions::trim(req.negative_prompt@);
                if neg.len() > 0 {
                    &&& b.prompt@ == req.prompt@ + " Avoid: "@ + neg + "."@
                    &&& b.negative_prompt == Some(req.negative_prompt)
                    &&& b.strategy@ == "negative_field+folded_into_prompt"@
                } else {
                    &&& b.prompt@ == req.prompt@
                    &&& b.negative_prompt is None
                    &&& b.strategy@ == "negative_field"@
                }
            }),
    {
        let nv = to_chars(req.negative_prompt.as_str());
        let neg = crate::captions::trim_exec(&nv);
        let mut prompt = req.prompt.clone();
        let folded = neg.len() > 0;
        if folded {
            push_str(&mut prompt, " Avoid: ");
            let nt = crate::text::from_chars(&neg);
            push_str(&mut prompt, nt.as_str());
            push_str(&mut prompt, ".");
        }
        let mut size = String::new();
        crate::text::push_dec(&mut size, (if req.width < 256 { 256 } else { req.width }) as u64);
        push_str(&mut size, "x");
        crate::text::push_dec(&mut size, (if req.height < 256 { 256 } else { req.height }) as u64);
        RequestBody {
            model: String::from_str(model),
            prompt,
            n: 1,
            size,
            response_format: String::from_str("url"),
            negative_prompt: if folded { Some(req.negative_prompt.clone()) } else { None },
            strategy: String::from_str(if folded { "negative_field+folded_into_prompt" } else { "negative_field" }),
        }
    }
}

/// The Pollinations free image service.
#[derive(Clone, Debug)]
pub struct PollinationsImageProvider {
    pub base_url: String,
    pub model: String,
}

impl PollinationsImageProvider {
    /// The provider's name.
    pub fn name(&self) -> (r: &'static str)
        ensures
            r@ == "pollinations"@,
    {
        "pollinations"
    }

    /// The service is free.
    pub fn is_free_tier(&self) -> (r: bool)
        ensures
            r,
    {
        true
    }
}

/// The provider a request goes to.
#[derive(Clone, Debug)]
pub enum ImageProvider {
    Mock(MockImageProvider),
    OmniRoute(OmniRouteImageProvider),
    Pollinations(PollinationsImageProvider),
}

impl ImageProvider {
    /// The provider's kind.
    pub fn kind(&self) -> (k: ProviderKind)
        ensures
            k == match self {
                ImageProvider::Mock(_) => ProviderKind::Mock,
                ImageProvider::OmniRoute(_) => ProviderKind::OmniRoute,
                ImageProvider::Pollinations(_) => ProviderKind::Pollinations,
            },
    {
        match self {
            ImageProvider::Mock(_) => ProviderKind::Mock,
            ImageProvider::OmniRoute(_) => ProviderKind::OmniRoute,
            ImageProvider::Pollinations(_) => ProviderKind::Pollinations,
        }
    }

    /// The provider's name.
    pub fn name(&self) -> (r: &'static str)
        ensures
            r@ == match self {
                ImageProvider::Mock(_) => "mock"@,
                ImageProvider::OmniRoute(_) => "omniroute"@,
                ImageProvider::Pollinations(_) => "pollinations"@,
            },
    {
        match self {
            ImageProvider::Mock(p) => p.name(),
            ImageProvider::OmniRoute(p) => p.name(),
            ImageProvider::Pollinations(p) => p.name(),
        }
    }

    /// Whether the provider is free.
    pub fn is_free_tier(&self) -> (r: bool)
        ensures
            r == match self {
                ImageProvider::Mock(_) => true,
                ImageProvider::OmniRoute(p) => p.free_configured,
                ImageProvider::Pollinations(_) => true,
            },
    {
        match self {
            ImageProvider::Mock(p) => p.is_free_tier(),
            ImageProvider::OmniRoute(p) => p.is_free_tier(),
            ImageProvider::Pollinations(p) => p.is_free_tier(),
        }
    }
}

/// Which provider serves: Pollinations or the mock when named (any case),
/// the mock when no OmniRoute base URL is set, else OmniRoute.
pub open spec fn provider_choice(selected_lower: Seq<char>, has_base: bool) -> ProviderKind {
    if selected_lower == "pollinations"@ {
        ProviderKind::Pollinations
    } else if selected_lower == "mock"@ || !has_base {
        ProviderKind::Mock
    } else {
        ProviderKind::OmniRoute
    }
}

/// The kind of provider to use from the configured name and whether an
/// OmniRoute base URL is set and non-empty.
pub fn select_provider_kind(selected: &str, base_url: &Option<String>) -> (k: ProviderKind)
    ensures
        k == provider_choice(crate::text::lowercase(selected@), base_url matches Some(b) && b@.len() > 0),
{
    let low = crate::text::to_lowercase(selected);
    let v = to_chars(low.as_str());
    let has_base = match base_url {
        Some(b) => to_chars(b.as_str()).len() > 0,
        None => false,
    };
    if eq_lit(&v, "pollinations") {
        ProviderKind::Pollinations
    } else if eq_lit(&v, "mock") || !has_base {
        ProviderKind::Mock
    } else {
        ProviderKind::OmniRoute
    }
}


/// The text equals `lit` when ASCII capitals are read as lower case (what
/// `str::eq_ignore_ascii_case` tests), `lit` being lower case already.
pub open spec fn eq_ascii_ci(s: Seq<char>, lit: Seq<char>) -> bool {
    s.len() == lit.len() && forall|i: int| 0 <= i < s.len() ==> crate::text::ascii_lower_char(#[trigger] s[i]) == lit[i]
}

fn eq_ascii_ci_exec(s: &str, lit: &str) -> (r: bool)
    ensures
        r == eq_ascii_ci(s@, lit@),
{
    let a = to_chars(s);
    let b = to_chars(lit);
    if a.len() != b.len() {
        return false;
    }
    let mut i: usize = 0;
    while i < a.len()
        invariant
            a@ == s@ && b@ == lit@,
            a@.len() == b@.len(),
            i <= a@.len(),
            forall|k: int| 0 <= k < i ==> crate::text::ascii_lower_char(#[trigger] a@[k]) == b@[k],
        decreases a@.len() - i,
    {
        let c = a[i];
        let l = if 'A' <= c && c <= 'Z' { ((c as u32) + 32) as u8 as char } else { c };
        assert(l == crate::text::ascii_lower_char(c)) by {
            if 'A' <= c && c <= 'Z' {
                assert(((c as u32) + 32) as u8 as char == ((c as u32) + 32) as char);
            }
        }
        if l != b[i] {
            return false;
        }
        i = i + 1;
    }
    true
}

/// A provider that is not configured as free may only be used when paid
/// providers are switched on: the setting (if any) is "1" or "true" in any
/// ASCII case.
pub open spec fn paid_switched_on(setting: Option<Seq<char>>) -> bool {
    match setting {
        Some(v) => v == "1"@ || eq_ascii_ci(v, "true"@),
        None => false,
    }
}

/// Refuse a generation with a provider that is not free while paid
/// providers are off.
pub fn paid_gate(free_configured: bool, setting: &Option<String>) -> (r: Result<(), ProviderError>)
    ensures
        r is Ok <==> (free_configured || paid_switched_on(crate::safe_paths::opt_view(*setting))),
        r is Err ==> r matches Err(ProviderError::PaidDisabled),
{
    if free_configured {
        return Ok(());
    }
    let on = match setting {
        Some(v) => crate::text::str_eq(v.as_str(), "1") || eq_ascii_ci_exec(v.as_str(), "true"),
        None => false,
    };
    if on { Ok(()) } else { Err(ProviderError::PaidDisabled) }
}

/// The most attempts a generation makes: three, or fewer when the setting
/// asks for fewer.
pub fn attempt_limit(setting: Option<u32>) -> (r: u32)
    ensures
        r == match setting {
            Some(n) => if n < 3 { n } else { 3 },
            None => 3,
        },
{
    match setting {
        Some(n) => if n < 3 { n } else { 3 },
        None => 3,
    }
}

/// What follows a failed generation attempt.
pub enum AttemptStep {
    /// Wait this long and try again.
    Retry { backoff_ms: u64 },
    /// Give up with this error.
    Stop,
}

/// 2 to the `n`.
pub open spec fn pow2_nat(n: nat) -> nat
    decreases n,
{
    if n == 0 { 1 } else { 2 * pow2_nat((n - 1) as nat) }
}

proof fn lemma_pow2_55()
    ensures
        pow2_nat(55) == 0x80_0000_0000_0000,
{
    reveal_with_fuel(pow2_nat, 56);
}

fn pow2_exec(n: u32) -> (r: u64)
    requires
        n < 56,
    ensures
        r == pow2_nat(n as nat),
{
    proof {
        lemma_pow2_55();
    }
    let mut r: u64 = 1;
    let mut i: u32 = 0;
    while i < n
        invariant
            i <= n < 56,
            r == pow2_nat(i as nat),
            pow2_nat(55) == 0x80_0000_0000_0000,
        decreases n - i,
    {
        proof {
            lemma_pow2_mono(i as nat + 1, 55);
        }
        r = 2 * r;
        i = i + 1;
    }
    r
}

proof fn lemma_pow2_mono(a: nat, b: nat)
    requires
        a <= b,
    ensures
        pow2_nat(a) <= pow2_nat(b),
    decreases b,
{
    if a < b {
        lemma_pow2_mono(a, (b - 1) as nat);
    }
}

/// After attempt `attempt` (from 0) failed: a rate limit waits
/// 200·2^attempt + 37·attempt ms and a server error (status 500 or more)
/// 300·2^attempt ms before the next attempt; any other error stops.
pub fn after_failed_attempt(attempt: u32, err: &ProviderError) -> (r: AttemptStep)
    requires
        attempt < 56,
    ensures
        err is RateLimited ==> (r matches AttemptStep::Retry { backoff_ms } && backoff_ms == 200 * pow2_nat(attempt as nat) + 37 * attempt),
        (err matches ProviderError::Http { status, .. } && status >= 500) ==> (r matches AttemptStep::Retry { backoff_ms }
            && backoff_ms == 300 * pow2_nat(attempt as nat)),
        !(err is RateLimited) && !(err matches ProviderError::Http { status, .. } && status >= 500) ==> r matches AttemptStep::Stop,
{
    proof {
        lemma_pow2_mono(attempt as nat, 55);
        lemma_pow2_55();
    }
    match err {
        ProviderError::RateLimited => {
            let p = pow2_exec(attempt);
            AttemptStep::Retry { backoff_ms: 200 * p + 37 * attempt as u64 }
        },
        ProviderError::Http { status, .. } => {
            if *status >= 500 {
                let p = pow2_exec(attempt);
                AttemptStep::Retry { backoff_ms: 300 * p }
            } else {
                AttemptStep::Stop
            }
        },
        _ => AttemptStep::Stop,
    }
}
} // verus!
