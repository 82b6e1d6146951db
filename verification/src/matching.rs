//! Explainable matching of library assets to a visual need: the library is
//! searched before anything is generated. Match scores are in
//! twenty-thousandths (20000 = 1.0), so every weight is a whole number.
use vstd::prelude::*;
use crate::export::views;
use crate::captions::char_views;
use crate::needs::{NeedCoverage, VisualNeed};
use crate::text::{lowercase, to_lowercase, to_chars, has_sub, contains_sub, chars_eq, push_str, str_eq};

verus! {

/// Whether an asset can be used.
#[derive(Clone, Copy, Debug, PartialEq, Eq, Structural)]
pub enum AssetStatus {
    Active,
    Missing,
    Invalid,
    Archived,
}

/// The license under which an asset may be used.
#[derive(Clone, Copy, Debug, PartialEq, Eq, Structural)]
pub enum LicenseStatus {
    Owned,
    Licensed,
    PublicDomain,
    Unknown,
}

/// An image of the library, with what it shows and means (qualities in thousandths).
pub struct MediaAsset {
    pub id: String,
    pub title: String,
    pub managed_path: String,
    pub thumbnail_path: Option<String>,
    pub status: AssetStatus,
    pub license_status: LicenseStatus,
    pub tags: Vec<String>,
    pub concepts: Vec<String>,
    pub meanings: Vec<String>,
    pub literal_description: Vec<String>,
    pub positive_contexts: Vec<String>,
    pub negative_contexts: Vec<String>,
    pub hard_exclusions: Vec<String>,
    pub aspect_ratio: Option<String>,
    pub allow_same_video_repeat: bool,
    pub times_used: u32,
    pub technical_score: Option<u32>,
    pub quality_score: Option<u32>,
}

/// What a search asks for besides the need.
pub struct MatchOptions {
    /// Least score kept (twenty-thousandths).
    pub min_score: i64,
    pub prefer_aspect: Option<String>,
    /// Assets already used in this project.
    pub used_in_project: Vec<String>,
}

impl MatchOptions {
    /// Keep scores from 0.28, prefer 16:9, nothing used yet.
    pub fn default_options() -> (r: MatchOptions)
        ensures
            r.min_score == 5600,
            r.prefer_aspect matches Some(a) && a@ == "16:9"@,
            r.used_in_project@.len() == 0,
    {
        MatchOptions { min_score: 5600, prefer_aspect: Some(String::from_str("16:9")), used_in_project: Vec::new() }
    }
}

/// The lower-cased texts.
pub open spec fn lows(v: Seq<String>) -> Seq<Seq<char>> {
    v.map_values(|s: String| lowercase(s@))
}

/// Some text of `ts` is `x`.
pub open spec fn any_eq(ts: Seq<Seq<char>>, x: Seq<char>) -> bool {
    exists|i: int| 0 <= i < ts.len() && #[trigger] ts[i] == x
}

/// Some text of `ts` is `x` or mentions it.
pub open spec fn any_eq_or_has(ts: Seq<Seq<char>>, x: Seq<char>) -> bool {
    exists|i: int| 0 <= i < ts.len() && (#[trigger] ts[i] == x || has_sub(ts[i], x))
}

/// Some text of `ts` is `x` or lies inside it.
pub open spec fn any_eq_or_in(ts: Seq<Seq<char>>, x: Seq<char>) -> bool {
    exists|i: int| 0 <= i < ts.len() && (#[trigger] ts[i] == x || has_sub(x, ts[i]))
}

/// Some text of `ts` mentions `x` or lies inside it.
pub open spec fn any_has_either(ts: Seq<Seq<char>>, x: Seq<char>) -> bool {
    exists|i: int| 0 <= i < ts.len() && (has_sub(#[trigger] ts[i], x) || has_sub(x, ts[i]))
}

/// Some text of `ts` is `x`, lies inside it or mentions it.
pub open spec fn any_related(ts: Seq<Seq<char>>, x: Seq<char>) -> bool {
    exists|i: int| 0 <= i < ts.len() && (#[trigger] ts[i] == x || has_sub(x, ts[i]) || has_sub(ts[i], x))
}

/// A hard exclusion (lower-cased) rules the asset out when a required context
/// is it or mentions it, or a term of the need is it.
pub open spec fn exclusion_blocks(ex: Seq<char>, ctxs: Seq<Seq<char>>, terms: Seq<Seq<char>>) -> bool {
    any_eq_or_has(ctxs, ex) || any_eq(terms, ex)
}

/// A negative context of the asset (lower-cased) rules it out when the need
/// is about it (a term equal to it or inside it, or the label mentions it)
/// and a required context mentions it or lies inside it.
pub open spec fn negative_blocks(nl: Seq<char>, label: Seq<char>, ctxs: Seq<Seq<char>>, terms: Seq<Seq<char>>) -> bool {
    (any_eq_or_in(terms, nl) || has_sub(label, nl)) && any_has_either(ctxs, nl)
}

pub open spec fn any_exclusion_blocks(exs: Seq<Seq<char>>, ctxs: Seq<Seq<char>>, terms: Seq<Seq<char>>) -> bool {
    exists|i: int| 0 <= i < exs.len() && exclusion_blocks(#[trigger] exs[i], ctxs, terms)
}

pub open spec fn any_negative_blocks(negs: Seq<Seq<char>>, label: Seq<char>, ctxs: Seq<Seq<char>>, terms: Seq<Seq<char>>) -> bool {
    exists|i: int| 0 <= i < negs.len() && negative_blocks(#[trigger] negs[i], label, ctxs, terms)
}

/// The asset is ruled out for the need.
pub open spec fn ruled_out(n: VisualNeed, a: MediaAsset) -> bool {
    let ctxs = lows(n.required_contexts@);
    let terms = lows(n.terms@);
    any_exclusion_blocks(lows(a.hard_exclusions@ + n.hard_exclusions@), ctxs, terms)
        || any_negative_blocks(lows(a.negative_contexts@), lowercase(n.label@), ctxs, terms)
}

/// An asset meaning (lower-cased) matches the need: it is the label, or a
/// term is it, lies inside it or contains it.
pub open spec fn concept_hit(cl: Seq<char>, label: Seq<char>, terms: Seq<Seq<char>>) -> bool {
    cl == label || any_related(terms, cl)
}

/// A tag (lower-cased) matches: a term is it or lies inside it, or the label mentions it.
pub open spec fn tag_hit(tl: Seq<char>, label: Seq<char>, terms: Seq<Seq<char>>) -> bool {
    any_eq_or_in(terms, tl) || has_sub(label, tl)
}

/// A positive context of the asset (lower-cased) matches a required context
/// that is it or mentions it.
pub open spec fn context_hit(pl: Seq<char>, ctxs: Seq<Seq<char>>) -> bool {
    any_eq_or_has(ctxs, pl)
}

/// Reasons for the asset meanings that match, in order.
pub open spec fn concept_reasons(items: Seq<String>, label: Seq<char>, terms: Seq<Seq<char>>) -> Seq<Seq<char>>
    decreases items.len(),
{
    if items.len() == 0 {
        Seq::empty()
    } else {
        concept_reasons(items.drop_last(), label, terms) + if concept_hit(lowercase(items.last()@), label, terms) {
            seq!["concept:"@ + items.last()@]
        } else {
            Seq::empty()
        }
    }
}

/// Reasons for the tags that match, in order.
pub open spec fn tag_reasons(items: Seq<String>, label: Seq<char>, terms: Seq<Seq<char>>) -> Seq<Seq<char>>
    decreases items.len(),
{
    if items.len() == 0 {
        Seq::empty()
    } else {
        tag_reasons(items.drop_last(), label, terms) + if tag_hit(lowercase(items.last()@), label, terms) {
            seq!["tag:"@ + items.last()@]
        } else {
            Seq::empty()
        }
    }
}

/// Reasons for the positive contexts that match, in order.
pub open spec fn context_reasons(items: Seq<String>, ctxs: Seq<Seq<char>>) -> Seq<Seq<char>>
    decreases items.len(),
{
    if items.len() == 0 {
        Seq::empty()
    } else {
        context_reasons(items.drop_last(), ctxs) + if context_hit(lowercase(items.last()@), ctxs) {
            seq!["context:"@ + items.last()@]
        } else {
            Seq::empty()
        }
    }
}

/// The first term that the title mentions.
pub open spec fn title_term(terms: Seq<Seq<char>>, title: Seq<char>) -> Option<Seq<char>>
    decreases terms.len(),
{
    if terms.len() == 0 {
        None
    } else {
        match title_term(terms.drop_last(), title) {
            Some(t) => Some(t),
            None => if has_sub(title, terms.last()) { Some(terms.last()) } else { None },
        }
    }
}

/// The aspect step: (score change, reasons, format fits, will crop).
pub open spec fn aspect_step(pref: Option<String>, ar: Option<String>) -> (int, Seq<Seq<char>>, bool, bool) {
    match (pref, ar) {
        (Some(p), Some(a)) => if a@ == p@ {
            (1600, seq!["aspect:"@ + a@], true, false)
        } else if (a@ == "landscape"@ && p@ == "16:9"@) || (a@ == "portrait"@ && p@ == "9:16"@) {
            (600, seq!["aspect:crop_ok"@], true, true)
        } else {
            (-1000, seq!["aspect:mismatch"@], a@ == "landscape"@ || a@ == "portrait"@, true)
        },
        _ => (0, Seq::empty(), true, false),
    }
}

/// The score and the reasons of an asset that is not ruled out, before clamping.
pub open spec fn raw_score(n: VisualNeed, a: MediaAsset, o: MatchOptions) -> (int, Seq<Seq<char>>) {
    let label = lowercase(n.label@);
    let terms = lows(n.terms@);
    let ctxs = lows(n.required_contexts@);
    let meanings = a.concepts@ + a.meanings@ + a.literal_description@;
    let r1 = concept_reasons(meanings, label, terms);
    let r2 = tag_reasons(a.tags@, label, terms);
    let tt = title_term(terms, lowercase(a.title@));
    let r3 = match tt { Some(t) => seq!["title:"@ + t], None => Seq::empty() };
    let r4 = context_reasons(a.positive_contexts@, ctxs);
    let asp = aspect_step(o.prefer_aspect, a.aspect_ratio);
    let same = views(o.used_in_project@).contains(a.id@) && !a.allow_same_video_repeat;
    let r5 = if same { seq!["penalty:same_project"@] } else { Seq::empty() };
    let r6 = if a.times_used > 0 { seq!["penalty:used_before"@] } else { Seq::empty() };
    let q = match a.technical_score { Some(q) => q as int, None => match a.quality_score { Some(q) => q as int, None => 0 } };
    let score = 8000 * r1.len() + 4400 * r2.len() + (if tt is Some { 3000int } else { 0 }) + 2400 * r4.len()
        + asp.0 - (if same { 7000int } else { 0 }) - 1000 * (if a.times_used > 6 { 6int } else { a.times_used as int }) + q;
    (score, r1 + r2 + r3 + r4 + asp.1 + r5 + r6)
}

/// A scored asset: score (twenty-thousandths, within 0..=30000), reasons,
/// exclusions checked, whether its format fits, whether it will be cropped.
pub struct AssetScore {
    pub score: i64,
    pub reasons: Vec<String>,
    pub exclusions_checked: Vec<String>,
    pub format_ok: bool,
    pub will_crop: bool,
}

/// `r` scores asset `a` for need `n`: nothing when the asset is ruled out or
/// has no reason and scores under 0.2.
pub open spec fn scored(r: Option<AssetScore>, n: VisualNeed, a: MediaAsset, o: MatchOptions) -> bool {
    let (s, rs) = raw_score(n, a, o);
    if ruled_out(n, a) || (rs.len() == 0 && s < 4000) {
        r is None
    } else {
        let asp = aspect_step(o.prefer_aspect, a.aspect_ratio);
        r matches Some(x) && {
            &&& x.score == (if s < 0 { 0 } else if s > 30000 { 30000 } else { s })
            &&& views(x.reasons@) == rs
            &&& views(x.exclusions_checked@) == views(a.hard_exclusions@) + views(n.hard_exclusions@)
                + views(a.negative_contexts@).map_values(|s: Seq<char>| "neg:"@ + s)
            &&& x.format_ok == asp.2 && x.will_crop == asp.3
        }
    }
}

pub(crate) fn lower_all(v: &Vec<String>) -> (r: Vec<Vec<char>>)
    ensures
        char_views(r@) == lows(v@),
{
    let mut r: Vec<Vec<char>> = Vec::new();
    let mut i: usize = 0;
    while i < v.len()
        invariant
            i <= v@.len(),
            char_views(r@) =~= lows(v@).take(i as int),
        decreases v@.len() - i,
    {
        let l = to_lowercase(v[i].as_str());
        let c = to_chars(l.as_str());
        let ghost b = char_views(r@);
        r.push(c);
        proof {
            assert(char_views(r@) =~= b.push(lowercase(v@[i as int]@)));
        }
        i = i + 1;
    }
    proof {
        assert(lows(v@).take(v@.len() as int) =~= lows(v@));
    }
    r
}

pub(crate) fn lower_chars(s: &str) -> (r: Vec<char>)
    ensures
        r@ == lowercase(s@),
{
    let l = to_lowercase(s);
    to_chars(l.as_str())
}

fn any_eq_exec(ts: &Vec<Vec<char>>, x: &Vec<char>) -> (r: bool)
    ensures
        r == any_eq(char_views(ts@), x@),
{
    let mut i: usize = 0;
    while i < ts.len()
        invariant
            i <= ts@.len(),
            forall|j: int| 0 <= j < i ==> !(#[trigger] char_views(ts@)[j] == x@),
        decreases ts@.len() - i,
    {
        if chars_eq(&ts[i], x) {
            assert(char_views(ts@)[i as int] == x@);
            return true;
        }
        i = i + 1;
    }
    false
}

fn any_eq_or_has_exec(ts: &Vec<Vec<char>>, x: &Vec<char>) -> (r: bool)
    ensures
        r == any_eq_or_has(char_views(ts@), x@),
{
    let mut i: usize = 0;
    while i < ts.len()
        invariant
            i <= ts@.len(),
            forall|j: int| 0 <= j < i ==> !(#[trigger] char_views(ts@)[j] == x@ || has_sub(char_views(ts@)[j], x@)),
        decreases ts@.len() - i,
    {
        if chars_eq(&ts[i], x) || contains_sub(&ts[i], x) {
            assert(char_views(ts@)[i as int] == ts@[i as int]@);
            return true;
        }
        i = i + 1;
    }
    false
}

fn any_eq_or_in_exec(ts: &Vec<Vec<char>>, x: &Vec<char>) -> (r: bool)
    ensures
        r == any_eq_or_in(char_views(ts@), x@),
{
    let mut i: usize = 0;
    while i < ts.len()
        invariant
            i <= ts@.len(),
            forall|j: int| 0 <= j < i ==> !(#[trigger] char_views(ts@)[j] == x@ || has_sub(x@, char_views(ts@)[j])),
        decreases ts@.len() - i,
    {
        if chars_eq(&ts[i], x) || contains_sub(x, &ts[i]) {
            assert(char_views(ts@)[i as int] == ts@[i as int]@);
            return true;
        }
        i = i + 1;
    }
    false
}

fn any_has_either_exec(ts: &Vec<Vec<char>>, x: &Vec<char>) -> (r: bool)
    ensures
        r == any_has_either(char_views(ts@), x@),
{
    let mut i: usize = 0;
    while i < ts.len()
        invariant
            i <= ts@.len(),
            forall|j: int| 0 <= j < i ==> !(has_sub(#[trigger] char_views(ts@)[j], x@) || has_sub(x@, char_views(ts@)[j])),
        decreases ts@.len() - i,
    {
        if contains_sub(&ts[i], x) || contains_sub(x, &ts[i]) {
            assert(char_views(ts@)[i as int] == ts@[i as int]@);
            return true;
        }
        i = i + 1;
    }
    false
}

fn any_related_exec(ts: &Vec<Vec<char>>, x: &Vec<char>) -> (r: bool)
    ensures
        r == any_related(char_views(ts@), x@),
{
    let mut i: usize = 0;
    while i < ts.len()
        invariant
            i <= ts@.len(),
            forall|j: int| 0 <= j < i ==> !(#[trigger] char_views(ts@)[j] == x@ || has_sub(x@, char_views(ts@)[j])
                || has_sub(char_views(ts@)[j], x@)),
        decreases ts@.len() - i,
    {
        if chars_eq(&ts[i], x) || contains_sub(x, &ts[i]) || contains_sub(&ts[i], x) {
            assert(char_views(ts@)[i as int] == ts@[i as int]@);
            return true;
        }
        i = i + 1;
    }
    false
}

/// Whether the need rules the asset out (see `ruled_out`).
fn ruled_out_exec(n: &VisualNeed, a: &MediaAsset) -> (r: bool)
    ensures
        r == ruled_out(*n, *a),
{
    let ctxs = lower_all(&n.required_contexts);
    let terms = lower_all(&n.terms);
    let label = lower_chars(n.label.as_str());
    let ah = lower_all(&a.hard_exclusions);
    let nh = lower_all(&n.hard_exclusions);
    let ghost exs = lows(a.hard_exclusions@ + n.hard_exclusions@);
    proof {
        assert(exs =~= char_views(ah@) + char_views(nh@));
    }
    let mut i: usize = 0;
    while i < ah.len()
        invariant
            i <= ah@.len(),
            exs == char_views(ah@) + char_views(nh@),
            exs == lows(a.hard_exclusions@ + n.hard_exclusions@),
            char_views(ctxs@) == lows(n.required_contexts@) && char_views(terms@) == lows(n.terms@),
            forall|j: int| 0 <= j < i ==> !exclusion_blocks(#[trigger] exs[j], char_views(ctxs@), char_views(terms@)),
        decreases ah@.len() - i,
    {
        if any_eq_or_has_exec(&ctxs, &ah[i]) || any_eq_exec(&terms, &ah[i]) {
            assert(exs[i as int] == ah@[i as int]@);
            assert(exclusion_blocks(exs[i as int], char_views(ctxs@), char_views(terms@)));
            return true;
        }
        assert(exs[i as int] == ah@[i as int]@);
        i = i + 1;
    }
    let mut k: usize = 0;
    while k < nh.len()
        invariant
            k <= nh@.len(),
            exs == char_views(ah@) + char_views(nh@),
            exs == lows(a.hard_exclusions@ + n.hard_exclusions@),
            char_views(ctxs@) == lows(n.required_contexts@) && char_views(terms@) == lows(n.terms@),
            forall|j: int| 0 <= j < ah@.len() + k ==> !exclusion_blocks(#[trigger] exs[j], char_views(ctxs@), char_views(terms@)),
        decreases nh@.len() - k,
    {
        let ghost at = ah@.len() + k;
        assert(exs[at] == nh@[k as int]@);
        if any_eq_or_has_exec(&ctxs, &nh[k]) || any_eq_exec(&terms, &nh[k]) {
            assert(exclusion_blocks(exs[at], char_views(ctxs@), char_views(terms@)));
            return true;
        }
        k = k + 1;
    }
    let negs = lower_all(&a.negative_contexts);
    let mut m: usize = 0;
    while m < negs.len()
        invariant
            m <= negs@.len(),
            char_views(negs@) == lows(a.negative_contexts@),
            label@ == lowercase(n.label@),
            char_views(ctxs@) == lows(n.required_contexts@) && char_views(terms@) == lows(n.terms@),
            !any_exclusion_blocks(exs, char_views(ctxs@), char_views(terms@)),
            exs == lows(a.hard_exclusions@ + n.hard_exclusions@),
            forall|j: int| 0 <= j < m ==> !negative_blocks(#[trigger] char_views(negs@)[j], label@, char_views(ctxs@), char_views(terms@)),
        decreases negs@.len() - m,
    {
        let about = any_eq_or_in_exec(&terms, &negs[m]) || contains_sub(&label, &negs[m]);
        let ctx = any_has_either_exec(&ctxs, &negs[m]);
        assert(char_views(negs@)[m as int] == negs@[m as int]@);
        if about && ctx {
            return true;
        }
        m = m + 1;
    }
    false
}

proof fn lemma_concept_concat(a: Seq<String>, b: Seq<String>, label: Seq<char>, terms: Seq<Seq<char>>)
    ensures
        concept_reasons(a + b, label, terms) == concept_reasons(a, label, terms) + concept_reasons(b, label, terms),
    decreases b.len(),
{
    if b.len() == 0 {
        assert(a + b =~= a);
        assert(concept_reasons(a, label, terms) + Seq::<Seq<char>>::empty() =~= concept_reasons(a, label, terms));
    } else {
        lemma_concept_concat(a, b.drop_last(), label, terms);
        assert((a + b).drop_last() =~= a + b.drop_last());
        assert((a + b).last() == b.last());
        assert(concept_reasons(a + b, label, terms) =~= concept_reasons(a, label, terms) + concept_reasons(b, label, terms));
    }
}

pub(crate) fn push_prefixed(out: &mut Vec<String>, prefix: &str, s: &str)
    ensures
        views(final(out)@) == views(old(out)@).push(prefix@ + s@),
{
    let mut m = String::from_str(prefix);
    push_str(&mut m, s);
    let ghost b = views(out@);
    out.push(m);
    proof {
        assert(views(out@) =~= b.push(prefix@ + s@));
    }
}

pub(crate) fn push_concept_reasons(out: &mut Vec<String>, items: &Vec<String>, label: &Vec<char>, terms: &Vec<Vec<char>>) -> (n: u64)
    ensures
        views(final(out)@) == views(old(out)@) + concept_reasons(items@, label@, char_views(terms@)),
        n == concept_reasons(items@, label@, char_views(terms@)).len(),
        n <= items@.len(),
{
    let ghost o0 = views(out@);
    let mut n: u64 = 0;
    let mut i: usize = 0;
    proof {
        assert(items@.take(0) =~= Seq::<String>::empty());
        assert(o0 + Seq::<Seq<char>>::empty() =~= o0);
    }
    while i < items.len()
        invariant
            i <= items@.len(),
            views(out@) == o0 + concept_reasons(items@.take(i as int), label@, char_views(terms@)),
            n == concept_reasons(items@.take(i as int), label@, char_views(terms@)).len(),
            n <= i,
        decreases items@.len() - i,
    {
        let ghost t = items@.take(i as int + 1);
        proof {
            assert(t.drop_last() =~= items@.take(i as int));
            assert(t.last() == items@[i as int]);
        }
        let cl = lower_chars(items[i].as_str());
        if chars_eq(&cl, label) || any_related_exec(terms, &cl) {
            push_prefixed(out, "concept:", items[i].as_str());
            n = n + 1;
            proof {
                assert(views(out@) =~= o0 + concept_reasons(t, label@, char_views(terms@)));
            }
        } else {
            proof {
                assert(concept_reasons(t, label@, char_views(terms@)) =~= concept_reasons(items@.take(i as int), label@, char_views(terms@)));
            }
        }
        i = i + 1;
    }
    proof {
        assert(items@.take(items@.len() as int) =~= items@);
    }
    n
}

pub(crate) fn push_tag_reasons(out: &mut Vec<String>, items: &Vec<String>, label: &Vec<char>, terms: &Vec<Vec<char>>) -> (n: u64)
    ensures
        views(final(out)@) == views(old(out)@) + tag_reasons(items@, label@, char_views(terms@)),
        n == tag_reasons(items@, label@, char_views(terms@)).len(),
        n <= items@.len(),
{
    let ghost o0 = views(out@);
    let mut n: u64 = 0;
    let mut i: usize = 0;
    proof {
        assert(items@.take(0) =~= Seq::<String>::empty());
        assert(o0 + Seq::<Seq<char>>::empty() =~= o0);
    }
    while i < items.len()
        invariant
            i <= items@.len(),
            views(out@) == o0 + tag_reasons(items@.take(i as int), label@, char_views(terms@)),
            n == tag_reasons(items@.take(i as int), label@, char_views(terms@)).len(),
            n <= i,
        decreases items@.len() - i,
    {
        let ghost t = items@.take(i as int + 1);
        proof {
            assert(t.drop_last() =~= items@.take(i as int));
            assert(t.last() == items@[i as int]);
        }
        let tl = lower_chars(items[i].as_str());
        if any_eq_or_in_exec(terms, &tl) || contains_sub(label, &tl) {
            push_prefixed(out, "tag:", items[i].as_str());
            n = n + 1;
            proof {
                assert(views(out@) =~= o0 + tag_reasons(t, label@, char_views(terms@)));
            }
        } else {
            proof {
                assert(tag_reasons(t, label@, char_views(terms@)) =~= tag_reasons(items@.take(i as int), label@, char_views(terms@)));
            }
        }
        i = i + 1;
    }
    proof {
        assert(items@.take(items@.len() as int) =~= items@);
    }
    n
}

fn push_context_reasons(out: &mut Vec<String>, items: &Vec<String>, ctxs: &Vec<Vec<char>>) -> (n: u64)
    ensures
        views(final(out)@) == views(old(out)@) + context_reasons(items@, char_views(ctxs@)),
        n == context_reasons(items@, char_views(ctxs@)).len(),
        n <= items@.len(),
{
    let ghost o0 = views(out@);
    let mut n: u64 = 0;
    let mut i: usize = 0;
    proof {
        assert(items@.take(0) =~= Seq::<String>::empty());
        assert(o0 + Seq::<Seq<char>>::empty() =~= o0);
    }
    while i < items.len()
        invariant
            i <= items@.len(),
            views(out@) == o0 + context_reasons(items@.take(i as int), char_views(ctxs@)),
            n == context_reasons(items@.take(i as int), char_views(ctxs@)).len(),
            n <= i,
        decreases items@.len() - i,
    {
        let ghost t = items@.take(i as int + 1);
        proof {
            assert(t.drop_last() =~= items@.take(i as int));
            assert(t.last() == items@[i as int]);
        }
        let pl = lower_chars(items[i].as_str());
        if any_eq_or_has_exec(ctxs, &pl) {
            push_prefixed(out, "context:", items[i].as_str());
            n = n + 1;
            proof {
                assert(views(out@) =~= o0 + context_reasons(t, char_views(ctxs@)));
            }
        } else {
            proof {
                assert(context_reasons(t, char_views(ctxs@)) =~= context_reasons(items@.take(i as int), char_views(ctxs@)));
            }
        }
        i = i + 1;
    }
    proof {
        assert(items@.take(items@.len() as int) =~= items@);
    }
    n
}

pub(crate) fn title_term_exec(terms: &Vec<Vec<char>>, title: &Vec<char>) -> (r: Option<usize>)
    ensures
        r is None ==> title_term(char_views(terms@), title@) is None,
        r matches Some(i) ==> i < terms@.len() && title_term(char_views(terms@), title@) == Some(terms@[i as int]@),
{
    let mut i: usize = 0;
    proof {
        assert(char_views(terms@).take(0) =~= Seq::<Seq<char>>::empty());
    }
    while i < terms.len()
        invariant
            i <= terms@.len(),
            title_term(char_views(terms@).take(i as int), title@) is None,
        decreases terms@.len() - i,
    {
        let ghost t = char_views(terms@).take(i as int + 1);
        proof {
            assert(t.drop_last() =~= char_views(terms@).take(i as int));
            assert(t.last() == terms@[i as int]@);
        }
        if contains_sub(title, &terms[i]) {
            proof {
                lemma_title_prefix(char_views(terms@), title@, i as int + 1);
            }
            return Some(i);
        }
        i = i + 1;
    }
    proof {
        assert(char_views(terms@).take(terms@.len() as int) =~= char_views(terms@));
    }
    None
}

proof fn lemma_title_prefix(ts: Seq<Seq<char>>, title: Seq<char>, k: int)
    requires
        0 <= k <= ts.len(),
        title_term(ts.take(k), title) is Some,
    ensures
        title_term(ts, title) == title_term(ts.take(k), title),
    decreases ts.len(),
{
    if k < ts.len() {
        assert(ts.drop_last().take(k) =~= ts.take(k));
        lemma_title_prefix(ts.drop_last(), title, k);
    } else {
        assert(ts.take(k) =~= ts);
    }
}

pub(crate) fn contains_id(ids: &Vec<String>, id: &str) -> (r: bool)
    ensures
        r == views(ids@).contains(id@),
{
    let mut i: usize = 0;
    while i < ids.len()
        invariant
            i <= ids@.len(),
            forall|j: int| 0 <= j < i ==> views(ids@)[j] != id@,
        decreases ids@.len() - i,
    {
        if str_eq(ids[i].as_str(), id) {
            assert(views(ids@)[i as int] == id@);
            return true;
        }
        i = i + 1;
    }
    false
}

fn aspect_exec(pref: &Option<String>, ar: &Option<String>, out: &mut Vec<String>) -> (r: (i64, bool, bool))
    ensures
        ({
            let t = aspect_step(*pref, *ar);
            &&& r.0 == t.0 && r.1 == t.2 && r.2 == t.3
            &&& views(final(out)@) == views(old(out)@) + t.1
        }),
{
    let ghost o0 = views(out@);
    match (pref, ar) {
        (Some(p), Some(a)) => {
            if str_eq(a.as_str(), p.as_str()) {
                push_prefixed(out, "aspect:", a.as_str());
                proof {
                    assert(views(out@) =~= o0 + seq!["aspect:"@ + a@]);
                }
                (1600, true, false)
            } else if (str_eq(a.as_str(), "landscape") && str_eq(p.as_str(), "16:9")) || (str_eq(a.as_str(), "portrait")
                && str_eq(p.as_str(), "9:16")) {
                push_prefixed(out, "aspect:crop_ok", "");
                proof {
                    assert("aspect:crop_ok"@ + ""@ =~= "aspect:crop_ok"@) by {
                        reveal_strlit("");
                    }
                    assert(views(out@) =~= o0 + seq!["aspect:crop_ok"@]);
                }
                (600, true, true)
            } else {
                push_prefixed(out, "aspect:mismatch", "");
                proof {
                    assert("aspect:mismatch"@ + ""@ =~= "aspect:mismatch"@) by {
                        reveal_strlit("");
                    }
                    assert(views(out@) =~= o0 + seq!["aspect:mismatch"@]);
                }
                let ok = str_eq(a.as_str(), "landscape") || str_eq(a.as_str(), "portrait");
                (-1000, ok, true)
            }
        },
        _ => {
            proof {
                assert(views(out@) =~= o0 + Seq::<Seq<char>>::empty());
            }
            (0, true, false)
        },
    }
}

/// The number of items an asset may list in each of its descriptions.
pub open spec fn asset_wf(a: MediaAsset) -> bool {
    a.concepts@.len() + a.meanings@.len() + a.literal_description@.len() <= 1_000_000
        && a.tags@.len() <= 1_000_000 && a.positive_contexts@.len() <= 1_000_000
}

/// Score an asset for a need (see `scored`).
#[verifier::rlimit(60)]
pub fn score_asset(n: &VisualNeed, a: &MediaAsset, o: &MatchOptions) -> (r: Option<AssetScore>)
    requires
        asset_wf(*a),
    ensures
        scored(r, *n, *a, *o),
{
    if ruled_out_exec(n, a) {
        return None;
    }
    let mut excl: Vec<String> = Vec::new();
    let mut i: usize = 0;
    proof {
        assert(views(excl@) =~= views(a.hard_exclusions@).take(0));
    }
    while i < a.hard_exclusions.len()
        invariant
            i <= a.hard_exclusions@.len(),
            views(excl@) == views(a.hard_exclusions@).take(i as int),
        decreases a.hard_exclusions@.len() - i,
    {
        let ghost b = views(excl@);
        let c = a.hard_exclusions[i].clone();
        excl.push(c);
        proof {
            assert(views(excl@) =~= b.push(a.hard_exclusions@[i as int]@));
            assert(views(excl@) =~= views(a.hard_exclusions@).take(i as int + 1));
        }
        i = i + 1;
    }
    let ghost e1 = views(excl@);
    proof {
        assert(e1 =~= views(a.hard_exclusions@));
    }
    let mut k: usize = 0;
    proof {
        assert(views(excl@) =~= e1 + views(n.hard_exclusions@).take(0));
    }
    while k < n.hard_exclusions.len()
        invariant
            k <= n.hard_exclusions@.len(),
            views(excl@) == e1 + views(n.hard_exclusions@).take(k as int),
        decreases n.hard_exclusions@.len() - k,
    {
        let ghost b = views(excl@);
        let c = n.hard_exclusions[k].clone();
        excl.push(c);
        proof {
            assert(views(excl@) =~= b.push(n.hard_exclusions@[k as int]@));
            assert(views(excl@) =~= e1 + views(n.hard_exclusions@).take(k as int + 1));
        }
        k = k + 1;
    }
    let ghost e2 = views(excl@);
    proof {
        assert(e2 =~= views(a.hard_exclusions@) + views(n.hard_exclusions@));
    }
    let mut m: usize = 0;
    proof {
        assert(views(excl@) =~= e2 + views(a.negative_contexts@).map_values(|s: Seq<char>| "neg:"@ + s).take(0));
    }
    while m < a.negative_contexts.len()
        invariant
            m <= a.negative_contexts@.len(),
            views(excl@) == e2 + views(a.negative_contexts@).map_values(|s: Seq<char>| "neg:"@ + s).take(m as int),
        decreases a.negative_contexts@.len() - m,
    {
        push_prefixed(&mut excl, "neg:", a.negative_contexts[m].as_str());
        proof {
            assert(views(excl@) =~= e2 + views(a.negative_contexts@).map_values(|s: Seq<char>| "neg:"@ + s).take(m as int + 1));
        }
        m = m + 1;
    }
    proof {
        assert(views(a.negative_contexts@).map_values(|s: Seq<char>| "neg:"@ + s).take(a.negative_contexts@.len() as int)
            =~= views(a.negative_contexts@).map_values(|s: Seq<char>| "neg:"@ + s));
    }
    let label = lower_chars(n.label.as_str());
    let terms = lower_all(&n.terms);
    let ctxs = lower_all(&n.required_contexts);
    let mut reasons: Vec<String> = Vec::new();
    proof {
        assert(views(reasons@) =~= Seq::<Seq<char>>::empty());
    }
    let c1 = push_concept_reasons(&mut reasons, &a.concepts, &label, &terms);
    let c2 = push_concept_reasons(&mut reasons, &a.meanings, &label, &terms);
    let c3 = push_concept_reasons(&mut reasons, &a.literal_description, &label, &terms);
    proof {
        lemma_concept_concat(a.concepts@, a.meanings@, label@, char_views(terms@));
        lemma_concept_concat(a.concepts@ + a.meanings@, a.literal_description@, label@, char_views(terms@));
        assert(Seq::<Seq<char>>::empty() + concept_reasons(a.concepts@, label@, char_views(terms@)) + concept_reasons(a.meanings@, label@, char_views(terms@))
            + concept_reasons(a.literal_description@, label@, char_views(terms@))
            =~= concept_reasons(a.concepts@ + a.meanings@ + a.literal_description@, label@, char_views(terms@)));
    }
    let nt = push_tag_reasons(&mut reasons, &a.tags, &label, &terms);
    let title = lower_chars(a.title.as_str());
    let tt = title_term_exec(&terms, &title);
    let has_title = match tt {
        Some(j) => {
            let mut m2 = String::from_str("title:");
            let ts = crate::text::from_chars(&terms[j]);
            push_str(&mut m2, ts.as_str());
            let ghost b = views(reasons@);
            reasons.push(m2);
            proof {
                assert(views(reasons@) =~= b + seq!["title:"@ + char_views(terms@)[j as int]]);
            }
            true
        },
        None => {
            proof {
                assert(views(reasons@) =~= views(reasons@) + Seq::<Seq<char>>::empty());
            }
            false
        },
    };
    let np = push_context_reasons(&mut reasons, &a.positive_contexts, &ctxs);
    let (ad, format_ok, will_crop) = aspect_exec(&o.prefer_aspect, &a.aspect_ratio, &mut reasons);
    let same = contains_id(&o.used_in_project, a.id.as_str()) && !a.allow_same_video_repeat;
    if same {
        push_prefixed(&mut reasons, "penalty:same_project", "");
        proof {
            assert("penalty:same_project"@ + ""@ =~= "penalty:same_project"@) by {
                reveal_strlit("");
            }
        }
    } else {
        proof {
            assert(views(reasons@) =~= views(reasons@) + Seq::<Seq<char>>::empty());
        }
    }
    let ghost before6 = views(reasons@);
    if a.times_used > 0 {
        push_prefixed(&mut reasons, "penalty:used_before", "");
        proof {
            assert("penalty:used_before"@ + ""@ =~= "penalty:used_before"@) by {
                reveal_strlit("");
            }
        }
    } else {
        proof {
            assert(views(reasons@) =~= before6 + Seq::<Seq<char>>::empty());
        }
    }
    let q: i64 = match a.technical_score {
        Some(q) => q as i64,
        None => match a.quality_score {
            Some(q) => q as i64,
            None => 0,
        },
    };
    let times: i64 = if a.times_used > 6 { 6 } else { a.times_used as i64 };
    let concepts = (c1 + c2 + c3) as i64;
    let score: i64 = 8000 * concepts + 4400 * (nt as i64) + (if has_title { 3000 } else { 0 }) + 2400 * (np as i64) + ad
        - (if same { 7000 } else { 0 }) - 1000 * times + q;
    proof {
        let (s0, rs0) = raw_score(*n, *a, *o);
        assert(score == s0);
        assert(views(reasons@) =~= rs0);
    }
    if reasons.len() == 0 && score < 4000 {
        return None;
    }
    let clamped = if score < 0 { 0 } else if score > 30000 { 30000 } else { score };
    Some(AssetScore { score: clamped, reasons, exclusions_checked: excl, format_ok, will_crop })
}

/// The score of an asset that is not dropped, kept within 0..=1.5.
pub open spec fn clamp_score(s: int) -> int {
    if s < 0 { 0 } else if s > 30000 { 30000 } else { s }
}

/// The asset can be offered for the need: active, with a known license,
/// scored, and at least the least score asked.
pub open spec fn offered(n: VisualNeed, a: MediaAsset, o: MatchOptions) -> bool {
    let (s, rs) = raw_score(n, a, o);
    &&& a.status == AssetStatus::Active
    &&& a.license_status != LicenseStatus::Unknown
    &&& !ruled_out(n, a)
    &&& !(rs.len() == 0 && s < 4000)
    &&& clamp_score(s) >= o.min_score
}

/// Positions of the offered assets, in order.
pub open spec fn offered_idx(n: VisualNeed, assets: Seq<MediaAsset>, o: MatchOptions) -> Seq<usize>
    decreases assets.len(),
{
    if assets.len() == 0 {
        Seq::empty()
    } else {
        offered_idx(n, assets.drop_last(), o) + if offered(n, assets.last(), o) {
            seq![(assets.len() - 1) as usize]
        } else {
            Seq::empty()
        }
    }
}

/// An asset offered for a need, with why.
pub struct MatchCandidate {
    pub asset_id: String,
    pub asset_title: String,
    /// Twenty-thousandths.
    pub score: i64,
    pub reasons: Vec<String>,
    pub exclusions_checked: Vec<String>,
    pub format_ok: bool,
    pub will_crop: bool,
    pub times_used: u32,
    pub thumbnail_path: Option<String>,
}

/// `c` offers asset `a` for need `n`.
pub open spec fn candidate_of(c: MatchCandidate, a: MediaAsset, n: VisualNeed, o: MatchOptions) -> bool {
    let (s, rs) = raw_score(n, a, o);
    let asp = aspect_step(o.prefer_aspect, a.aspect_ratio);
    &&& c.asset_id@ == a.id@ && c.asset_title@ == a.title@
    &&& c.score == clamp_score(s)
    &&& views(c.reasons@) == rs
    &&& views(c.exclusions_checked@) == views(a.hard_exclusions@) + views(n.hard_exclusions@)
        + views(a.negative_contexts@).map_values(|x: Seq<char>| "neg:"@ + x)
    &&& c.format_ok == asp.2 && c.will_crop == asp.3
    &&& c.times_used == a.times_used
    &&& crate::safe_paths::opt_view(c.thumbnail_path) == crate::safe_paths::opt_view(a.thumbnail_path)
}

/// Keys ordering the offered assets by score, highest first, then by position.
pub open spec fn offer_keys(n: VisualNeed, assets: Seq<MediaAsset>, o: MatchOptions) -> Seq<((u64, u64, u64), usize)> {
    let idx = offered_idx(n, assets, o);
    Seq::new(idx.len(), |j: int| (((30000 - clamp_score(raw_score(n, assets[idx[j] as int], o).0)) as u64, j as u64, 0u64), j as usize))
}

proof fn lemma_offered_bounds(n: VisualNeed, assets: Seq<MediaAsset>, o: MatchOptions)
    requires
        assets.len() <= usize::MAX,
    ensures
        forall|j: int| 0 <= j < offered_idx(n, assets, o).len() ==> #[trigger] offered_idx(n, assets, o)[j] < assets.len()
            && offered(n, assets[offered_idx(n, assets, o)[j] as int], o),
        offered_idx(n, assets, o).len() <= assets.len(),
    decreases assets.len(),
{
    if assets.len() > 0 {
        lemma_offered_bounds(n, assets.drop_last(), o);
        let p = offered_idx(n, assets.drop_last(), o);
        assert forall|j: int| 0 <= j < offered_idx(n, assets, o).len() implies #[trigger] offered_idx(n, assets, o)[j] < assets.len()
            && offered(n, assets[offered_idx(n, assets, o)[j] as int], o) by {
            if j < p.len() {
                assert(offered_idx(n, assets, o)[j] == p[j]);
                assert(assets.drop_last()[p[j] as int] == assets[p[j] as int]);
            } else {
                assert(offered_idx(n, assets, o)[j] == (assets.len() - 1) as usize);
            }
        }
    }
}

fn copy_candidate(c: &MatchCandidate) -> (r: MatchCandidate)
    ensures
        r.asset_id@ == c.asset_id@ && r.asset_title@ == c.asset_title@ && r.score == c.score,
        views(r.reasons@) == views(c.reasons@) && views(r.exclusions_checked@) == views(c.exclusions_checked@),
        r.format_ok == c.format_ok && r.will_crop == c.will_crop && r.times_used == c.times_used,
        crate::safe_paths::opt_view(r.thumbnail_path) == crate::safe_paths::opt_view(c.thumbnail_path),
{
    MatchCandidate {
        asset_id: c.asset_id.clone(),
        asset_title: c.asset_title.clone(),
        score: c.score,
        reasons: crate::events::copy_strings(&c.reasons),
        exclusions_checked: crate::events::copy_strings(&c.exclusions_checked),
        format_ok: c.format_ok,
        will_crop: c.will_crop,
        times_used: c.times_used,
        thumbnail_path: match &c.thumbnail_path {
            Some(p) => Some(p.clone()),
            None => None,
        },
    }
}

/// Each found candidate offers the asset at its position.
pub open spec fn found_ok(found: Seq<MatchCandidate>, idx: Seq<usize>, assets: Seq<MediaAsset>, n: VisualNeed, o: MatchOptions) -> bool {
    &&& found.len() == idx.len()
    &&& forall|k: int| 0 <= k < found.len() ==> idx[k] < assets.len() && candidate_of(#[trigger] found[k], assets[idx[k] as int], n, o)
}

/// Rank the library's assets for a need: the offered ones (active, with a
/// known license, not ruled out, scoring at least the least score asked),
/// highest score first and otherwise in library order.
pub fn match_need_against(n: &VisualNeed, assets: &Vec<MediaAsset>, o: &MatchOptions) -> (r: Vec<MatchCandidate>)
    requires
        forall|i: int| 0 <= i < assets@.len() ==> asset_wf(#[trigger] assets@[i]),
        assets@.len() < u64::MAX,
    ensures
        exists|ks: Seq<((u64, u64, u64), usize)>| #![trigger crate::sort::keys3_ascending(ks)]
            crate::sort::keys3_ascending(ks) && ks.to_multiset() == offer_keys(*n, assets@, *o).to_multiset() && {
                let idx = offered_idx(*n, assets@, *o);
                &&& r@.len() == idx.len()
                &&& forall|k: int| 0 <= k < r@.len() ==> candidate_of(#[trigger] r@[k], assets@[idx[ks[k].1 as int] as int], *n, *o)
            },
{
    let mut found: Vec<MatchCandidate> = Vec::new();
    let ghost mut idx: Seq<usize> = Seq::empty();
    let mut i: usize = 0;
    proof {
        assert(assets@.take(0) =~= Seq::<MediaAsset>::empty());
    }
    while i < assets.len()
        invariant
            i <= assets@.len() < u64::MAX,
            forall|t: int| 0 <= t < assets@.len() ==> asset_wf(#[trigger] assets@[t]),
            idx == offered_idx(*n, assets@.take(i as int), *o),
            found_ok(found@, idx, assets@, *n, *o),
            forall|k: int| 0 <= k < idx.len() ==> #[trigger] idx[k] < i,
        decreases assets@.len() - i,
    {
        let a = &assets[i];
        let ghost t = assets@.take(i as int + 1);
        proof {
            assert(t.drop_last() =~= assets@.take(i as int));
            assert(t.last() == assets@[i as int]);
        }
        if a.status == AssetStatus::Active && a.license_status != LicenseStatus::Unknown {
            match score_asset(n, a, o) {
                Some(sc) => {
                    if sc.score >= o.min_score {
                        let c = MatchCandidate {
                            asset_id: a.id.clone(),
                            asset_title: a.title.clone(),
                            score: sc.score,
                            reasons: sc.reasons,
                            exclusions_checked: sc.exclusions_checked,
                            format_ok: sc.format_ok,
                            will_crop: sc.will_crop,
                            times_used: a.times_used,
                            thumbnail_path: match &a.thumbnail_path {
                                Some(p) => Some(p.clone()),
                                None => None,
                            },
                        };
                        let ghost f_old = found@;
                        found.push(c);
                        proof {
                            idx = idx.push(i);
                            assert forall|k: int| 0 <= k < found@.len() implies idx[k] < assets@.len()
                                && candidate_of(#[trigger] found@[k], assets@[idx[k] as int], *n, *o) by {
                                if k < f_old.len() {
                                    assert(found@[k] == f_old[k]);
                                }
                            }
                        }
                    }
                },
                None => {},
            }
        }
        i = i + 1;
    }
    proof {
        assert(assets@.take(assets@.len() as int) =~= assets@);
        lemma_offered_bounds(*n, assets@, *o);
    }
    let m = found.len();
    let mut keyed: Vec<((u64, u64, u64), usize)> = Vec::new();
    let mut j: usize = 0;
    while j < m
        invariant
            j <= m == found@.len() == idx.len() < u64::MAX,
            idx == offered_idx(*n, assets@, *o),
            found_ok(found@, idx, assets@, *n, *o),
            keyed@ =~= offer_keys(*n, assets@, *o).take(j as int),
        decreases m - j,
    {
        proof {
            let (s0, rs0) = raw_score(*n, assets@[idx[j as int] as int], *o);
            assert(found@[j as int].score == clamp_score(s0));
        }
        keyed.push((((30000 - found[j].score) as u64, j as u64, 0u64), j));
        j = j + 1;
    }
    proof {
        assert(keyed@ =~= offer_keys(*n, assets@, *o));
    }
    let sorted = crate::sort::sort_by_key3(keyed);
    let ghost ks = sorted@;
    proof {
        broadcast use vstd::seq_lib::group_to_multiset_ensures;
        let ek = offer_keys(*n, assets@, *o);
        assert forall|q: int| 0 <= q < ks.len() implies (#[trigger] ks[q]).1 < m by {
            assert(ks.contains(ks[q]));
            assert(ks.to_multiset().count(ks[q]) > 0);
            assert(ek.to_multiset().count(ks[q]) > 0);
            assert(ek.contains(ks[q]));
            let w = choose|w: int| 0 <= w < ek.len() && ek[w] == ks[q];
            assert(ek[w].1 == w as usize);
        }
    }
    let mut out: Vec<MatchCandidate> = Vec::new();
    let mut q: usize = 0;
    while q < sorted.len()
        invariant
            q <= sorted@.len() == ks.len() == m,
            sorted@ == ks,
            found@.len() == m,
            idx == offered_idx(*n, assets@, *o),
            forall|t: int| 0 <= t < ks.len() ==> (#[trigger] ks[t]).1 < m,
            found_ok(found@, idx, assets@, *n, *o),
            out@.len() == q,
            forall|k: int| 0 <= k < q ==> candidate_of(#[trigger] out@[k], assets@[idx[ks[k].1 as int] as int], *n, *o),
        decreases m - q,
    {
        let s = sorted[q].1;
        let c = copy_candidate(&found[s]);
        out.push(c);
        q = q + 1;
    }
    out
}

/// The need takes offered asset `a` as its match.
pub open spec fn matched_to(n0: VisualNeed, n1: VisualNeed, a: MediaAsset, o: MatchOptions, now: Seq<char>) -> bool {
    let (s, rs) = raw_score(n0, a, o);
    &&& n1.matched_asset_id matches Some(id) && id@ == a.id@
    &&& n1.match_score == Some(clamp_score(s) as u32)
    &&& views(n1.match_reasons@) == rs
    &&& n1.coverage == NeedCoverage::Matched
    &&& n1.updated_at@ == now
    &&& n1.id == n0.id && n1.label == n0.label && n1.terms == n0.terms
}

/// The need took the offered asset at rank position `q`, which scores no
/// lower than any other offered asset.
pub open spec fn best_match_at(n0: VisualNeed, n1: VisualNeed, assets: Seq<MediaAsset>, o: MatchOptions, now: Seq<char>, q: int) -> bool {
    let idx = offered_idx(n0, assets, o);
    &&& 0 <= q < idx.len()
    &&& matched_to(n0, n1, assets[idx[q] as int], o, now)
    &&& forall|j: int| 0 <= j < idx.len() ==> clamp_score(raw_score(n0, assets[idx[j] as int], o).0)
        <= clamp_score(raw_score(n0, assets[idx[q] as int], o).0)
}

/// Take the best offered asset of the library as the need's match (the
/// highest score; the earliest in the library among equals). Whether one was offered.
pub fn apply_best_match(need: &mut VisualNeed, assets: &Vec<MediaAsset>, o: &MatchOptions, now: &str) -> (r: bool)
    requires
        forall|i: int| 0 <= i < assets@.len() ==> asset_wf(#[trigger] assets@[i]),
        assets@.len() < u64::MAX,
    ensures
        r == (offered_idx(*old(need), assets@, *o).len() > 0),
        !r ==> *final(need) == *old(need),
        r ==> exists|q: int| #![trigger offered_idx(*old(need), assets@, *o)[q]] best_match_at(*old(need), *final(need), assets@, *o, now@, q),
{
    let ranked = match_need_against(need, assets, o);
    if ranked.len() == 0 {
        return false;
    }
    let ghost n0 = *need;
    let ghost idx = offered_idx(n0, assets@, *o);
    proof {
        broadcast use vstd::seq_lib::group_to_multiset_ensures;
        let ks = choose|ks: Seq<((u64, u64, u64), usize)>| crate::sort::keys3_ascending(ks)
            && ks.to_multiset() == offer_keys(n0, assets@, *o).to_multiset() && {
                &&& ranked@.len() == idx.len()
                &&& forall|k: int| 0 <= k < ranked@.len() ==> candidate_of(#[trigger] ranked@[k], assets@[idx[ks[k].1 as int] as int], n0, *o)
            };
        let ek = offer_keys(n0, assets@, *o);
        assert(ks.len() == ek.len()) by {
            assert(ks.to_multiset().len() == ks.len());
            assert(ek.to_multiset().len() == ek.len());
        }
        let q = ks[0].1 as int;
        assert(ks.contains(ks[0]));
        assert(ks.to_multiset().count(ks[0]) > 0);
        assert(ek.contains(ks[0]));
        let w0 = choose|w: int| 0 <= w < ek.len() && ek[w] == ks[0];
        assert(w0 == q);
        assert forall|j: int| 0 <= j < idx.len() implies clamp_score(raw_score(n0, assets@[idx[j] as int], *o).0)
            <= clamp_score(raw_score(n0, assets@[idx[q] as int], *o).0) by {
            assert(ek[j] == ek[j]);
            assert(ek.contains(ek[j]));
            assert(ek.to_multiset().count(ek[j]) > 0);
            assert(ks.contains(ek[j]));
            let t = choose|t: int| 0 <= t < ks.len() && ks[t] == ek[j];
            if t > 0 {
                assert(crate::sort::le3_spec(ks[0].0, ks[t].0));
            }
            lemma_clamp_range(raw_score(n0, assets@[idx[j] as int], *o).0);
            lemma_clamp_range(raw_score(n0, assets@[idx[q] as int], *o).0);
        }
        assert(candidate_of(ranked@[0], assets@[idx[q] as int], n0, *o));
        lemma_clamp_range(raw_score(n0, assets@[idx[q] as int], *o).0);
    }
    let best = &ranked[0];
    need.matched_asset_id = Some(best.asset_id.clone());
    need.match_score = Some(best.score as u32);
    need.match_reasons = crate::events::copy_strings(&best.reasons);
    need.coverage = NeedCoverage::Matched;
    need.updated_at = String::from_str(now);
    true
}

proof fn lemma_clamp_range(s: int)
    ensures
        0 <= clamp_score(s) <= 30000,
{
}

} // verus!
