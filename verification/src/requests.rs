//! Requests to grow the library: "get N images of this concept". A request
//! is validated, previewed against the day's limits, and confirmed into
//! generation slots.
use vstd::prelude::*;
use crate::captions::{trim, trim_exec};
use crate::error::AppError;
use crate::export::views;
use crate::needs::VisualNeed;
use crate::text::{to_chars, from_chars, push_str, push_dec};
use crate::transcript::utf8_len;
use crate::visual::eq_lit;

verus! {

/// What a person asks for when making a request.
pub struct CreateLibraryRequest {
    pub title: String,
    pub target_count: u32,
    pub desired_format: String,
    pub positive_contexts: Vec<String>,
    pub negative_contexts: Vec<String>,
    pub hard_exclusions: Vec<String>,
    pub priority: i32,
}

impl CreateLibraryRequest {
    /// A request for `title` with the defaults: three images, 16:9, priority 50.
    pub fn with_title(title: &str) -> (r: CreateLibraryRequest)
        ensures
            r.title@ == title@ && r.target_count == 3 && r.desired_format@ == "16:9"@ && r.priority == 50,
            r.positive_contexts@.len() == 0 && r.negative_contexts@.len() == 0 && r.hard_exclusions@.len() == 0,
    {
        CreateLibraryRequest {
            title: String::from_str(title),
            target_count: 3,
            desired_format: String::from_str("16:9"),
            positive_contexts: Vec::new(),
            negative_contexts: Vec::new(),
            hard_exclusions: Vec::new(),
            priority: 50,
        }
    }
}

/// The texts trimmed, the empty ones dropped.
pub open spec fn nonblank_trimmed(v: Seq<String>) -> Seq<Seq<char>>
    decreases v.len(),
{
    if v.len() == 0 {
        Seq::empty()
    } else {
        let p = nonblank_trimmed(v.drop_last());
        let t = trim(v.last()@);
        if t.len() > 0 { p.push(t) } else { p }
    }
}

/// A list of contexts as a request keeps it: trimmed, without empty ones,
/// at most twenty.
pub open spec fn clean_list(v: Seq<String>) -> Seq<Seq<char>> {
    let t = nonblank_trimmed(v);
    if t.len() > 20 { t.take(20) } else { t }
}

/// The image formats a request may ask for.
pub open spec fn request_format_ok(f: Seq<char>) -> bool {
    f == "16:9"@ || f == "9:16"@ || f == "1:1"@ || f == "4:5"@
}

/// `x` kept within `lo..=hi`.
pub open spec fn clamp_int(x: int, lo: int, hi: int) -> int {
    if x < lo { lo } else if x > hi { hi } else { x }
}

fn clean_texts(v: &Vec<String>) -> (r: Vec<String>)
    ensures
        views(r@) == clean_list(v@),
{
    let mut r: Vec<String> = Vec::new();
    let mut i: usize = 0;
    proof {
        assert(v@.take(0) =~= Seq::<String>::empty());
        assert(views(r@) =~= nonblank_trimmed(v@.take(0)));
    }
    while i < v.len()
        invariant
            i <= v@.len(),
            views(r@) == nonblank_trimmed(v@.take(i as int)),
        decreases v@.len() - i,
    {
        let ghost t = v@.take(i as int + 1);
        proof {
            assert(t.drop_last() =~= v@.take(i as int));
            assert(t.last() == v@[i as int]);
        }
        let c = to_chars(v[i].as_str());
        let tc = trim_exec(&c);
        if tc.len() > 0 {
            let s = from_chars(&tc);
            let ghost b = views(r@);
            r.push(s);
            proof {
                assert(views(r@) =~= b.push(trim(v@[i as int]@)));
            }
        }
        i = i + 1;
    }
    proof {
        assert(v@.take(v@.len() as int) =~= v@);
    }
    if r.len() > 20 {
        let ghost b = views(r@);
        r.truncate(20);
        proof {
            assert(views(r@) =~= b.take(20));
        }
    }
    r
}

fn trimmed(s: &String) -> (r: String)
    ensures
        r@ == trim(s@),
{
    let c = to_chars(s.as_str());
    let t = trim_exec(&c);
    from_chars(&t)
}

/// Check and tidy a request: the title trimmed, between 3 and 180 bytes;
/// the count kept within 1..=10 and the priority within 0..=100; the format
/// trimmed and one of 16:9, 9:16, 1:1, 4:5; the context lists cleaned (see
/// `clean_list`). The title is trimmed whatever the outcome, the count,
/// priority and format also when only the format is refused.
pub fn validate_request(input: &mut CreateLibraryRequest) -> (r: Result<(), AppError>)
    ensures
        final(input).title@ == trim(old(input).title@),
        !(3 <= utf8_len(trim(old(input).title@)) <= 180) ==> ({
            &&& r matches Err(AppError::Invalid(m)) && m@ == "La instrucción debe tener entre 3 y 180 caracteres."@
            &&& final(input).target_count == old(input).target_count && final(input).priority == old(input).priority
            &&& final(input).desired_format == old(input).desired_format
            &&& final(input).positive_contexts == old(input).positive_contexts
            &&& final(input).negative_contexts == old(input).negative_contexts
            &&& final(input).hard_exclusions == old(input).hard_exclusions
        }),
        3 <= utf8_len(trim(old(input).title@)) <= 180 ==> ({
            &&& final(input).target_count as int == clamp_int(old(input).target_count as int, 1, 10)
            &&& final(input).priority as int == clamp_int(old(input).priority as int, 0, 100)
            &&& final(input).desired_format@ == trim(old(input).desired_format@)
            &&& if request_format_ok(trim(old(input).desired_format@)) {
                &&& r is Ok
                &&& views(final(input).positive_contexts@) == clean_list(old(input).positive_contexts@)
                &&& views(final(input).negative_contexts@) == clean_list(old(input).negative_contexts@)
                &&& views(final(input).hard_exclusions@) == clean_list(old(input).hard_exclusions@)
            } else {
                &&& r matches Err(AppError::Invalid(m)) && m@ == "El formato debe ser 16:9, 9:16, 1:1 o 4:5."@
                &&& final(input).positive_contexts == old(input).positive_contexts
                &&& final(input).negative_contexts == old(input).negative_contexts
                &&& final(input).hard_exclusions == old(input).hard_exclusions
            }
        }),
{
    let t = trimmed(&input.title);
    input.title = t;
    let tc = to_chars(input.title.as_str());
    let n = crate::clipping::utf8_len_exec(&tc);
    if n < 3 || n > 180 {
        return Err(AppError::Invalid(String::from_str("La instrucción debe tener entre 3 y 180 caracteres.")));
    }
    input.target_count = if input.target_count < 1 { 1 } else if input.target_count > 10 { 10 } else { input.target_count };
    input.priority = if input.priority < 0 { 0 } else if input.priority > 100 { 100 } else { input.priority };
    let f = trimmed(&input.desired_format);
    input.desired_format = f;
    let fc = to_chars(input.desired_format.as_str());
    if !(eq_lit(&fc, "16:9") || eq_lit(&fc, "9:16") || eq_lit(&fc, "1:1") || eq_lit(&fc, "4:5")) {
        return Err(AppError::Invalid(String::from_str("El formato debe ser 16:9, 9:16, 1:1 o 4:5.")));
    }
    let p = clean_texts(&input.positive_contexts);
    input.positive_contexts = p;
    let q = clean_texts(&input.negative_contexts);
    input.negative_contexts = q;
    let h = clean_texts(&input.hard_exclusions);
    input.hard_exclusions = h;
    Ok(())
}


/// The texts of a JSON array of strings, or `None` when the text is not one.
pub uninterp spec fn json_string_list(s: Seq<char>) -> Option<Seq<Seq<char>>>;

/// `serde_json::from_str::<Vec<String>>`. The result, a function of the text
/// alone, is named by `json_string_list`.
#[verifier::external_body]
fn parse_string_list(s: &str) -> (r: Option<Vec<String>>)
    ensures
        match r {
            Some(v) => json_string_list(s@) == Some(views(v@)),
            None => json_string_list(s@) is None,
        },
{
    match serde_json::from_str::<Vec<String>>(s) {
        Ok(v) => Some(v),
        Err(_) => None,
    }
}

/// The JSON text of a list of strings, or `None` when writing it failed.
pub uninterp spec fn json_of_strings(v: Seq<Seq<char>>) -> Option<Seq<char>>;

/// `serde_json::to_string` on a list of strings. The result, a function of
/// the texts alone, is named by `json_of_strings`.
#[verifier::external_body]
fn write_string_list(v: &Vec<String>) -> (r: Option<String>)
    ensures
        match r {
            Some(t) => json_of_strings(views(v@)) == Some(t@),
            None => json_of_strings(views(v@)) is None,
        },
{
    match serde_json::to_string(v) {
        Ok(t) => Some(t),
        Err(_) => None,
    }
}

/// A stored list of contexts read back: empty when the text is not a JSON
/// list of strings.
pub fn parse_list(s: &str) -> (r: Vec<String>)
    ensures
        views(r@) == match json_string_list(s@) {
            Some(v) => v,
            None => Seq::empty(),
        },
{
    match parse_string_list(s) {
        Some(v) => v,
        None => {
            let r: Vec<String> = Vec::new();
            proof {
                assert(views(r@) =~= Seq::<Seq<char>>::empty());
            }
            r
        },
    }
}

/// A list of contexts as stored: its JSON text, "[]" when writing it failed.
pub fn list_json(v: &Vec<String>) -> (r: String)
    ensures
        r@ == match json_of_strings(views(v@)) {
            Some(t) => t,
            None => "[]"@,
        },
{
    match write_string_list(v) {
        Some(t) => t,
        None => String::from_str("[]"),
    }
}

/// A request as stored, with its progress.
pub struct LibraryRequest {
    pub id: String,
    pub concept_id: String,
    pub title: String,
    pub target_count: u32,
    pub desired_format: String,
    pub positive_contexts: Vec<String>,
    pub negative_contexts: Vec<String>,
    pub hard_exclusions: Vec<String>,
    pub priority: i32,
    pub status: String,
    pub useful_assets: u32,
    pub queued: u32,
    pub running: u32,
    pub awaiting_review: u32,
    pub failed: u32,
    pub deficit: u32,
    pub created_at: String,
    pub updated_at: String,
}

/// A request's row as read from the store, its lists still JSON text.
pub struct RequestRow {
    pub id: String,
    pub concept_id: String,
    pub title: String,
    pub target_count: i64,
    pub desired_format: String,
    pub positive_contexts: String,
    pub negative_contexts: String,
    pub hard_exclusions: String,
    pub priority: i32,
    pub status: String,
    pub created_at: String,
    pub updated_at: String,
}

/// A count read from the store: a failed read is zero, a negative count is
/// zero, a larger one keeps its low 32 bits.
pub open spec fn stored_count(v: Option<i64>) -> u32 {
    match v {
        Some(x) => if x < 0 { 0 } else { x as u32 },
        None => 0,
    }
}

fn count_or_zero(v: Option<i64>) -> (r: u32)
    ensures
        r == stored_count(v),
{
    match v {
        Some(x) => crate::library::count_of(x),
        None => 0,
    }
}

/// A request with its progress counted: usable images of its concept, its
/// jobs queued, running and failed, candidates awaiting review (each a count
/// as `stored_count` reads it), and what is still missing of its target.
pub fn hydrate_request(
    row: RequestRow,
    useful: Option<i64>,
    jobs: Option<(Option<i64>, Option<i64>, Option<i64>)>,
    awaiting: Option<i64>,
) -> (r: LibraryRequest)
    ensures
        r.id == row.id && r.concept_id == row.concept_id && r.title == row.title,
        r.target_count == (if row.target_count < 0 { 0 } else { row.target_count as u32 }),
        r.desired_format == row.desired_format && r.priority == row.priority && r.status == row.status,
        views(r.positive_contexts@) == (match json_string_list(row.positive_contexts@) { Some(v) => v, None => Seq::empty() }),
        views(r.negative_contexts@) == (match json_string_list(row.negative_contexts@) { Some(v) => v, None => Seq::empty() }),
        views(r.hard_exclusions@) == (match json_string_list(row.hard_exclusions@) { Some(v) => v, None => Seq::empty() }),
        r.useful_assets == stored_count(useful),
        r.queued == (match jobs { Some(j) => stored_count(j.0), None => 0 }),
        r.running == (match jobs { Some(j) => stored_count(j.1), None => 0 }),
        r.failed == (match jobs { Some(j) => stored_count(j.2), None => 0 }),
        r.awaiting_review == stored_count(awaiting),
        r.deficit == (if r.target_count >= r.useful_assets { r.target_count - r.useful_assets } else { 0 }),
        r.created_at == row.created_at && r.updated_at == row.updated_at,
{
    let target = crate::library::count_of(row.target_count);
    let useful_n = count_or_zero(useful);
    let (q, ru, f) = match jobs {
        Some(j) => (count_or_zero(j.0), count_or_zero(j.1), count_or_zero(j.2)),
        None => (0, 0, 0),
    };
    let pos = parse_list(row.positive_contexts.as_str());
    let neg = parse_list(row.negative_contexts.as_str());
    let hard = parse_list(row.hard_exclusions.as_str());
    LibraryRequest {
        id: row.id,
        concept_id: row.concept_id,
        title: row.title,
        target_count: target,
        desired_format: row.desired_format,
        positive_contexts: pos,
        negative_contexts: neg,
        hard_exclusions: hard,
        priority: row.priority,
        status: row.status,
        useful_assets: useful_n,
        queued: q,
        running: ru,
        awaiting_review: count_or_zero(awaiting),
        failed: f,
        deficit: target.saturating_sub(useful_n),
        created_at: row.created_at,
        updated_at: row.updated_at,
    }
}

/// A request with what confirming it would do now.
pub struct LibraryRequestPreview {
    pub request: LibraryRequest,
    pub can_confirm: bool,
    pub max_enqueueable: u32,
    pub blocked_reason: Option<String>,
    pub provider: String,
}

/// The most generations a request may start now: its deficit, within what is
/// left of today's local limit and the per-project limit.
pub open spec fn max_enqueueable(deficit: u32, remaining_today: u32, per_project: u32) -> u32 {
    let a = if deficit <= remaining_today { deficit } else { remaining_today };
    if a <= per_project { a } else { per_project }
}

/// What confirming a request would do, given the library's snapshot and the
/// per-project limit: it can be confirmed when nothing is missing, or when
/// the library can work and some generation may start; the reason it is
/// blocked is that coverage is reached, else the snapshot's.
pub fn preview_request(request: LibraryRequest, snapshot: &crate::library::LibraryDashboard, per_project: u32) -> (r: LibraryRequestPreview)
    ensures
        r.request == request,
        r.max_enqueueable == max_enqueueable(request.deficit, snapshot.limits.local_remaining_today, per_project),
        r.can_confirm == (request.deficit == 0 || (snapshot.can_work && r.max_enqueueable > 0)),
        request.deficit == 0 ==> (r.blocked_reason matches Some(m) && m@ == "El concepto ya tiene la cobertura solicitada."@),
        request.deficit != 0 ==> r.blocked_reason == snapshot.blocked_reason,
        r.provider@ == snapshot.provider.name@,
{
    let rem = snapshot.limits.local_remaining_today;
    let a = if request.deficit <= rem { request.deficit } else { rem };
    let m = if a <= per_project { a } else { per_project };
    let can = request.deficit == 0 || (snapshot.can_work && m > 0);
    let reason = if request.deficit == 0 {
        Some(String::from_str("El concepto ya tiene la cobertura solicitada."))
    } else {
        crate::events::copy_opt_string(&snapshot.blocked_reason)
    };
    LibraryRequestPreview {
        request,
        can_confirm: can,
        max_enqueueable: m,
        blocked_reason: reason,
        provider: snapshot.provider.name.clone(),
    }
}

/// What confirming a request does.
pub enum ConfirmPlan {
    /// Nothing is missing: the preview stands as it is.
    Covered,
    /// Generation slots `first .. first + count` are to be made.
    Slots { first: u32, count: u32 },
}

/// Confirming a request with `existing` slots already made: nothing to do
/// when nothing is missing; refused (with the blocked reason, or a generic
/// one) when it cannot be confirmed; else as many new slots as may start,
/// up to the target.
pub fn confirm_plan(p: &LibraryRequestPreview, existing: Option<i64>) -> (r: Result<ConfirmPlan, AppError>)
    ensures
        p.request.deficit == 0 ==> r matches Ok(ConfirmPlan::Covered),
        p.request.deficit != 0 && !p.can_confirm ==> (r matches Err(AppError::Invalid(m)) && m@ == match p.blocked_reason {
            Some(b) => b@,
            None => "La solicitud no puede ejecutarse."@,
        }),
        p.request.deficit != 0 && p.can_confirm ==> ({
            let e = stored_count(existing);
            let room = if p.request.target_count >= e { p.request.target_count - e } else { 0 };
            r matches Ok(ConfirmPlan::Slots { first, count }) && first == e
                && count == (if p.max_enqueueable <= room { p.max_enqueueable as int } else { room })
        }),
{
    if p.request.deficit == 0 {
        return Ok(ConfirmPlan::Covered);
    }
    if !p.can_confirm {
        return Err(AppError::Invalid(match &p.blocked_reason {
            Some(b) => b.clone(),
            None => String::from_str("La solicitud no puede ejecutarse."),
        }));
    }
    let e = count_or_zero(existing);
    let room = p.request.target_count.saturating_sub(e);
    let count = if p.max_enqueueable <= room { p.max_enqueueable } else { room };
    Ok(ConfirmPlan::Slots { first: e, count })
}

/// The project key of a request's needs.
pub fn request_project_key(id: &str) -> (r: String)
    ensures
        r@ == "library_request:"@ + id@,
{
    let mut s = String::from_str("library_request:");
    push_str(&mut s, id);
    s
}

/// The idempotency key of a request's generation slot.
pub fn slot_key(id: &str, slot: u32) -> (r: String)
    ensures
        r@ == "library:"@ + id@ + ":slot:"@ + crate::text::dec(slot as nat) + ":v1"@,
{
    let mut s = String::from_str("library:");
    push_str(&mut s, id);
    push_str(&mut s, ":slot:");
    push_dec(&mut s, slot as u64);
    push_str(&mut s, ":v1");
    s
}

/// The need a slot of the request generates for: a fresh need for its title
/// in the request's project, with its concept, contexts, exclusions, format
/// and priority.
pub fn slot_need(request: &LibraryRequest, now: &str) -> (n: VisualNeed)
    ensures
        n.id@.len() == 36 && n.project_key@ == "library_request:"@ + request.id@ && n.label@ == request.title@,
        n.concept_id matches Some(c) && c@ == request.concept_id@,
        views(n.required_contexts@) == views(request.positive_contexts@),
        views(n.forbidden_contexts@) == views(request.negative_contexts@),
        views(n.hard_exclusions@) == views(request.hard_exclusions@),
        n.desired_aspect@ == request.desired_format@ && n.priority == request.priority,
        n.coverage == crate::needs::NeedCoverage::Uncovered && n.matched_asset_id is None && n.generation_job_id is None,
        n.created_at@ == now@ && n.updated_at@ == now@,
{
    let key = request_project_key(request.id.as_str());
    let mut n = VisualNeed::from_label(key.as_str(), request.title.as_str(), now);
    n.concept_id = Some(request.concept_id.clone());
    n.required_contexts = crate::events::copy_strings(&request.positive_contexts);
    n.forbidden_contexts = crate::events::copy_strings(&request.negative_contexts);
    n.hard_exclusions = crate::events::copy_strings(&request.hard_exclusions);
    n.desired_aspect = request.desired_format.clone();
    n.priority = request.priority;
    n
}

/// How many requests a listing returns: the limit asked, within 1..=100.
pub fn request_list_limit(limit: usize) -> (r: i64)
    ensures
        r as int == clamp_int(limit as int, 1, 100),
{
    if limit < 1 { 1 } else if limit > 100 { 100 } else { limit as i64 }
}

} // verus!
