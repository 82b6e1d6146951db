//! Filler words ("muletillas") in caption lines.
use vstd::prelude::*;

use crate::events::{Event, EventPayload, EventType};
use crate::text::{alnum, is_alphanumeric, is_whitespace, is_ws, lowercase, occurs_at, to_chars, to_lowercase, from_chars};
use crate::timeline::Span;

verus! {

/// The words of a text (maximal runs of non-whitespace), joined by single spaces.
pub open spec fn collapse_ws(s: Seq<char>) -> Seq<char>
    decreases s.len(),
{
    if s.len() == 0 {
        Seq::empty()
    } else {
        let p = collapse_ws(s.drop_last());
        let c = s.last();
        if is_ws(c) {
            p
        } else if s.len() >= 2 && !is_ws(s[s.len() - 2]) {
            p.push(c)
        } else if p.len() == 0 {
            seq![c]
        } else {
            p.push(' ').push(c)
        }
    }
}

/// The words of a text, in order.
pub open spec fn words(s: Seq<char>) -> Seq<Seq<char>>
    decreases s.len(),
{
    if s.len() == 0 {
        Seq::empty()
    } else {
        let p = words(s.drop_last());
        let c = s.last();
        if is_ws(c) {
            p
        } else if s.len() >= 2 && !is_ws(s[s.len() - 2]) {
            p.update(p.len() - 1, p.last().push(c))
        } else {
            p.push(seq![c])
        }
    }
}

proof fn lemma_words_nonempty(s: Seq<char>)
    ensures
        s.len() >= 1 && !is_ws(s.last()) ==> words(s).len() >= 1,
        collapse_ws(s).len() == 0 <==> words(s).len() == 0,
    decreases s.len(),
{
    if s.len() > 0 {
        lemma_words_nonempty(s.drop_last());
        let p = s.drop_last();
        if s.len() >= 2 && !is_ws(s[s.len() - 2]) {
            assert(p.last() == s[s.len() - 2]);
        }
    }
}

/// Collapsing whitespace never lengthens a text.
pub proof fn lemma_collapse_len(s: Seq<char>)
    ensures
        collapse_ws(s).len() <= s.len(),
    decreases s.len(),
{
    if s.len() > 0 {
        lemma_collapse_len(s.drop_last());
        let p = s.drop_last();
        if s.len() >= 2 && !is_ws(s[s.len() - 2]) {
        } else if !is_ws(s.last()) && collapse_ws(p).len() > 0 {
            lemma_collapse_len_gap(p);
        }
    }
}

/// After a whitespace character (or at the start) the collapsed text is
/// shorter than the text.
proof fn lemma_collapse_len_gap(s: Seq<char>)
    requires
        s.len() >= 1 ==> is_ws(s.last()),
        collapse_ws(s).len() > 0,
    ensures
        collapse_ws(s).len() < s.len(),
    decreases s.len(),
{
    if s.len() > 0 {
        let p = s.drop_last();
        lemma_collapse_len(p);
    }
}

/// Every word has at least one character.
pub proof fn lemma_words_nonempty_each(s: Seq<char>)
    ensures
        forall|k: int| 0 <= k < words(s).len() ==> (#[trigger] words(s)[k]).len() >= 1,
    decreases s.len(),
{
    if s.len() > 0 {
        lemma_words_nonempty_each(s.drop_last());
        lemma_words_nonempty(s.drop_last());
        let p = s.drop_last();
        if s.len() >= 2 && !is_ws(s[s.len() - 2]) {
            assert(p.last() == s[s.len() - 2]);
        }
    }
}

/// A character replaced by a space unless it is alphanumeric or whitespace.
pub open spec fn clean_char(c: char) -> char {
    if alnum(c) || is_ws(c) { c } else { ' ' }
}

/// A caption line normalised for matching: lowercased, punctuation turned into
/// spaces, words joined by single spaces.
pub open spec fn normalized(s: Seq<char>) -> Seq<char> {
    collapse_ws(lowercase(s).map_values(|c: char| clean_char(c)))
}

/// Collapse the whitespace of a character sequence.
pub fn collapse(v: &Vec<char>) -> (r: Vec<char>)
    ensures
        r@ == collapse_ws(v@),
{
    let mut r: Vec<char> = Vec::new();
    let mut i: usize = 0;
    while i < v.len()
        invariant
            0 <= i <= v@.len(),
            r@ == collapse_ws(v@.take(i as int)),
        decreases v@.len() - i,
    {
        let c = v[i];
        let ghost t = v@.take(i as int + 1);
        proof {
            assert(t.drop_last() =~= v@.take(i as int));
            assert(t.last() == c);
            if i >= 1 {
                assert(t[t.len() - 2] == v@[i - 1]);
            }
        }
        if is_whitespace(c) {
        } else if i >= 1 && !is_whitespace(v[i - 1]) {
            r.push(c);
        } else if r.len() == 0 {
            r.push(c);
            proof {
                assert(r@ =~= seq![c]);
            }
        } else {
            r.push(' ');
            r.push(c);
        }
        i = i + 1;
    }
    proof {
        assert(v@.take(v@.len() as int) =~= v@);
    }
    r
}

/// Normalise a caption line for filler matching.
pub fn normalize(s: &str) -> (r: String)
    ensures
        r@ == normalized(s@),
{
    let low = to_lowercase(s);
    let cs = to_chars(low.as_str());
    let mut cleaned: Vec<char> = Vec::new();
    let mut i: usize = 0;
    while i < cs.len()
        invariant
            0 <= i <= cs@.len(),
            cs@ == lowercase(s@),
            cleaned@ == cs@.take(i as int).map_values(|c: char| clean_char(c)),
        decreases cs@.len() - i,
    {
        let c = cs[i];
        let k = if is_alphanumeric(c) || is_whitespace(c) { c } else { ' ' };
        cleaned.push(k);
        proof {
            assert(cs@.take(i as int + 1).map_values(|c: char| clean_char(c)) =~= cs@.take(i as int).map_values(|c: char| clean_char(c)).push(k));
        }
        i = i + 1;
    }
    proof {
        assert(cs@.take(cs@.len() as int) =~= cs@);
    }
    let out = collapse(&cleaned);
    from_chars(&out)
}

/// Spanish and English filler words and phrases.
pub open spec fn filler_phrases() -> Seq<Seq<char>> {
    seq![
        "eh"@, "ehh"@, "mmm"@, "mm"@, "este"@, "esto"@, "o sea"@, "tipo"@, "digamos"@,
        "bueno"@, "vale"@, "entonces"@, "como que"@, "la verdad"@, "en plan"@, "pues"@,
        "a ver"@, "uh"@, "um"@, "uhm"@, "like"@, "you know"@, "i mean"@, "sort of"@,
        "kind of"@, "basically"@, "actually"@, "right"@, "so"@,
    ]
}

fn filler_phrase(i: usize) -> (r: &'static str)
    requires
        i < 29,
    ensures
        r@ == filler_phrases()[i as int],
{
    match i {
        0 => "eh", 1 => "ehh", 2 => "mmm", 3 => "mm", 4 => "este", 5 => "esto", 6 => "o sea",
        7 => "tipo", 8 => "digamos", 9 => "bueno", 10 => "vale", 11 => "entonces",
        12 => "como que", 13 => "la verdad", 14 => "en plan", 15 => "pues", 16 => "a ver",
        17 => "uh", 18 => "um", 19 => "uhm", 20 => "like", 21 => "you know", 22 => "i mean",
        23 => "sort of", 24 => "kind of", 25 => "basically", 26 => "actually", 27 => "right",
        _ => "so",
    }
}

/// A hesitation sound: only the letters e, h, m and u.
pub open spec fn is_hesitation(w: Seq<char>) -> bool {
    forall|k: int| 0 <= k < w.len() ==> (#[trigger] w[k] == 'e' || w[k] == 'h' || w[k] == 'm' || w[k] == 'u')
}

/// A word that counts as filler.
pub open spec fn is_filler_word(w: Seq<char>) -> bool {
    filler_phrases().contains(w) || is_hesitation(w)
}

/// A normalised line is a filler phrase, or opens with one.
pub open spec fn opens_with_filler(norm: Seq<char>) -> bool {
    exists|i: int| 0 <= i < filler_phrases().len() && (norm == #[trigger] filler_phrases()[i]
        || occurs_at(norm, filler_phrases()[i].push(' '), 0))
}

/// A normalised caption line that is filler: it opens with a filler phrase,
/// or it has one to four words, each a filler word or hesitation sound.
pub open spec fn filler_line(norm: Seq<char>) -> bool {
    ||| opens_with_filler(norm)
    ||| (1 <= words(norm).len() <= 4 && forall|k: int| 0 <= k < words(norm).len() ==> is_filler_word(#[trigger] words(norm)[k]))
}

/// `norm` begins with the words `f` and then a space.
pub open spec fn begins_with_then_space(norm: Seq<char>, f: Seq<char>) -> bool {
    norm.len() > f.len() && norm.take(f.len() as int) == f && norm[f.len() as int] == ' '
}

proof fn lemma_prefix_space(norm: Seq<char>, f: Seq<char>)
    ensures
        occurs_at(norm, f.push(' '), 0) <==> begins_with_then_space(norm, f),
{
    let g = f.push(' ');
    if occurs_at(norm, g, 0) {
        let sub = norm.subrange(0, g.len() as int);
        assert(sub == g);
        assert forall|k: int| 0 <= k < f.len() implies norm.take(f.len() as int)[k] == f[k] by {
            assert(sub[k] == norm[k]);
            assert(g[k] == f[k]);
        }
        assert(norm.take(f.len() as int) =~= f);
        assert(sub[f.len() as int] == norm[f.len() as int]);
        assert(g[f.len() as int] == ' ');
    }
    if begins_with_then_space(norm, f) {
        assert forall|k: int| 0 <= k < g.len() implies norm.subrange(0, g.len() as int)[k] == g[k] by {
            if k < f.len() {
                assert(norm.take(f.len() as int)[k] == norm[k]);
            }
        }
        assert(norm.subrange(0, g.len() as int) =~= g);
    }
}

/// A line that is a filler phrase, begins with one followed by a space, or
/// has one to four words that are all filler words or hesitation sounds.
pub open spec fn filler_shape(norm: Seq<char>) -> bool {
    ||| exists|i: int| 0 <= i < filler_phrases().len() && (norm == #[trigger] filler_phrases()[i]
        || begins_with_then_space(norm, filler_phrases()[i]))
    ||| 1 <= words(norm).len() <= 4
        && forall|k: int| 0 <= k < words(norm).len() ==> is_filler_word(#[trigger] words(norm)[k])
}

/// A normalised caption line is filler exactly when it is one of the filler
/// phrases, or begins with one of them followed by a space, or has one to
/// four words each of which is a filler word or a hesitation sound. So a
/// line that merely begins with the letters of a filler ("solo …" after
/// "so") is not filler for that.
pub proof fn lemma_filler_line_shape(norm: Seq<char>)
    ensures
        filler_line(norm) <==> (
            (exists|i: int| 0 <= i < filler_phrases().len() && (norm == #[trigger] filler_phrases()[i]
                || begins_with_then_space(norm, filler_phrases()[i])))
            || (1 <= words(norm).len() <= 4
                && forall|k: int| 0 <= k < words(norm).len() ==> is_filler_word(#[trigger] words(norm)[k]))),
{
    assert forall|i: int| 0 <= i < filler_phrases().len() implies
        (occurs_at(norm, #[trigger] filler_phrases()[i].push(' '), 0) <==> begins_with_then_space(norm, filler_phrases()[i])) by {
        lemma_prefix_space(norm, filler_phrases()[i]);
    }
}

fn eq_chars(a: &Vec<char>, b: &Vec<char>) -> (r: bool)
    ensures
        r == (a@ == b@),
{
    if a.len() != b.len() {
        return false;
    }
    let mut k: usize = 0;
    while k < a.len()
        invariant
            a@.len() == b@.len(),
            0 <= k <= a@.len(),
            forall|m: int| 0 <= m < k ==> a@[m] == b@[m],
        decreases a@.len() - k,
    {
        if a[k] != b[k] {
            return false;
        }
        k = k + 1;
    }
    proof {
        assert(a@ =~= b@);
    }
    true
}

fn prefix_eq(h: &Vec<char>, n: &Vec<char>) -> (r: bool)
    ensures
        r == occurs_at(h@, n@, 0),
{
    if n.len() > h.len() {
        return false;
    }
    let mut k: usize = 0;
    while k < n.len()
        invariant
            n@.len() <= h@.len(),
            0 <= k <= n@.len(),
            forall|m: int| 0 <= m < k ==> h@[m] == n@[m],
        decreases n@.len() - k,
    {
        if h[k] != n[k] {
            proof {
                assert(h@.subrange(0, n@.len() as int)[k as int] != n@[k as int]);
            }
            return false;
        }
        k = k + 1;
    }
    proof {
        assert(h@.subrange(0, n@.len() as int) =~= n@);
    }
    true
}

fn is_filler_word_exec(w: &Vec<char>) -> (r: bool)
    ensures
        r == is_filler_word(w@),
{
    let mut i: usize = 0;
    while i < 29
        invariant
            0 <= i <= 29,
            forall|j: int| 0 <= j < i ==> filler_phrases()[j] != w@,
        decreases 29 - i,
    {
        let f = to_chars(filler_phrase(i));
        if eq_chars(&f, w) {
            proof {
                assert(filler_phrases()[i as int] == w@);
            }
            return true;
        }
        i = i + 1;
    }
    let mut k: usize = 0;
    while k < w.len()
        invariant
            0 <= k <= w@.len(),
            forall|m: int| 0 <= m < k ==> (w@[m] == 'e' || w@[m] == 'h' || w@[m] == 'm' || w@[m] == 'u'),
            forall|j: int| 0 <= j < 29 ==> filler_phrases()[j] != w@,
        decreases w@.len() - k,
    {
        let c = w[k];
        if !(c == 'e' || c == 'h' || c == 'm' || c == 'u') {
            proof {
                assert(filler_phrases().len() == 29);
                if filler_phrases().contains(w@) {
                    let j = choose|j: int| 0 <= j < filler_phrases().len() && filler_phrases()[j] == w@;
                    assert(filler_phrases()[j] != w@);
                }
            }
            return false;
        }
        k = k + 1;
    }
    true
}

/// Split a text into its words.
pub fn split_words(v: &Vec<char>) -> (r: Vec<Vec<char>>)
    ensures
        r@.len() == words(v@).len(),
        forall|k: int| 0 <= k < r@.len() ==> (#[trigger] r@[k])@ == words(v@)[k],
{
    let mut r: Vec<Vec<char>> = Vec::new();
    let mut cur: Vec<char> = Vec::new();
    let mut in_word = false;
    let mut i: usize = 0;
    while i < v.len()
        invariant
            0 <= i <= v@.len(),
            in_word == (i >= 1 && !is_ws(v@[i - 1])),
            in_word ==> words(v@.take(i as int)).len() == r@.len() + 1 && cur@ == words(v@.take(i as int)).last(),
            !in_word ==> words(v@.take(i as int)).len() == r@.len() && cur@.len() == 0,
            forall|k: int| 0 <= k < r@.len() ==> (#[trigger] r@[k])@ == words(v@.take(i as int))[k],
        decreases v@.len() - i,
    {
        let c = v[i];
        let ghost t = v@.take(i as int + 1);
        proof {
            assert(t.drop_last() =~= v@.take(i as int));
            assert(t.last() == c);
            if i >= 1 {
                assert(t[t.len() - 2] == v@[i - 1]);
            }
        }
        if is_whitespace(c) {
            if in_word {
                let w = cur;
                r.push(w);
                cur = Vec::new();
                in_word = false;
            }
        } else {
            cur.push(c);
            proof {
                if !in_word {
                    assert(cur@ =~= seq![c]);
                }
            }
            in_word = true;
        }
        i = i + 1;
    }
    if in_word {
        r.push(cur);
    }
    proof {
        assert(v@.take(v@.len() as int) =~= v@);
    }
    r
}

/// Whether a normalised caption line is filler.
pub fn is_filler_line(norm: &str) -> (r: bool)
    ensures
        r == filler_line(norm@),
        r == filler_shape(norm@),
{
    proof {
        lemma_filler_line_shape(norm@);
    }
    let n = to_chars(norm);
    let mut i: usize = 0;
    while i < 29
        invariant
            0 <= i <= 29,
            n@ == norm@,
            filler_line(norm@) == filler_shape(norm@),
            forall|j: int| 0 <= j < i ==> !(n@ == #[trigger] filler_phrases()[j]
                || occurs_at(n@, filler_phrases()[j].push(' '), 0)),
        decreases 29 - i,
    {
        let f = to_chars(filler_phrase(i));
        let mut fs = to_chars(filler_phrase(i));
        fs.push(' ');
        if eq_chars(&n, &f) || prefix_eq(&n, &fs) {
            return true;
        }
        i = i + 1;
    }
    let ws = split_words(&n);
    if ws.len() == 0 || ws.len() > 4 {
        return false;
    }
    let mut k: usize = 0;
    while k < ws.len()
        invariant
            0 <= k <= ws@.len(),
            n@ == norm@,
            ws@.len() == words(n@).len(),
            filler_line(norm@) == filler_shape(norm@),
            forall|m: int| 0 <= m < ws@.len() ==> (#[trigger] ws@[m])@ == words(n@)[m],
            forall|m: int| 0 <= m < k ==> is_filler_word(#[trigger] words(n@)[m]),
            !opens_with_filler(n@),
        decreases ws@.len() - k,
    {
        if !is_filler_word_exec(&ws[k]) {
            return false;
        }
        k = k + 1;
    }
    true
}

/// A filler event for a caption cue: confidence 880 for lines of at most
/// two words, 720 otherwise.
pub open spec fn filler_confidence(norm: Seq<char>) -> u32 {
    if words(norm).len() <= 2 { 880 } else { 720 }
}

/// Caption cues whose line, normalised, is non-empty filler.
pub open spec fn filler_cue(c: (u64, u64, String)) -> bool {
    normalized(c.2@).len() > 0 && filler_line(normalized(c.2@))
}

/// `e` is the filler event of cue `c` for run `run_id`.
pub open spec fn filler_event_of(e: Event, c: (u64, u64, String), run_id: Seq<char>) -> bool {
    &&& e.run_id@ == run_id
    &&& e.event_type == EventType::SpeechFiller
    &&& e.source@ == "filler@1.0.0"@
    &&& e.span == (Span { start: c.0, end: c.1 })
    &&& e.score == filler_confidence(normalized(c.2@))
    &&& e.payload.text == Some(c.2)
    &&& e.tags@.len() == 2
    &&& e.tags@[0]@ == "filler"@
    &&& e.tags@[1]@ == "removable_candidate"@
}

/// The filler cues, in order.
pub open spec fn filler_cues(cues: Seq<(u64, u64, String)>) -> Seq<(u64, u64, String)>
    decreases cues.len(),
{
    if cues.len() == 0 {
        Seq::empty()
    } else {
        let p = filler_cues(cues.drop_last());
        if filler_cue(cues.last()) { p.push(cues.last()) } else { p }
    }
}

/// Filler events from timed caption cues `(start ms, end ms, text)`: one per
/// cue whose normalised line is filler.
pub fn detect_fillers_from_cues(run_id: &str, cues: &Vec<(u64, u64, String)>) -> (r: Vec<Event>)
    ensures
        r@.len() == filler_cues(cues@).len(),
        forall|k: int| 0 <= k < r@.len() ==> filler_event_of(#[trigger] r@[k], filler_cues(cues@)[k], run_id@),
{
    let mut r: Vec<Event> = Vec::new();
    let mut i: usize = 0;
    while i < cues.len()
        invariant
            0 <= i <= cues@.len(),
            r@.len() == filler_cues(cues@.take(i as int)).len(),
            forall|k: int| 0 <= k < r@.len() ==> filler_event_of(#[trigger] r@[k], filler_cues(cues@.take(i as int))[k], run_id@),
        decreases cues@.len() - i,
    {
        let c = &cues[i];
        proof {
            assert(cues@.take(i as int + 1).drop_last() =~= cues@.take(i as int));
            assert(cues@.take(i as int + 1).last() == cues@[i as int]);
        }
        let norm = normalize(c.2.as_str());
        let nv = to_chars(norm.as_str());
        let ghost old_r = r@;
        if nv.len() > 0 && is_filler_line(norm.as_str()) {
            let ws = split_words(&nv);
            let conf: u32 = if ws.len() <= 2 { 880 } else { 720 };
            let mut payload = EventPayload::empty();
            payload.text = Some(c.2.clone());
            let e = Event::new(run_id, EventType::SpeechFiller, "filler@1.0.0", Span { start: c.0, end: c.1 }, conf, payload)
                .with_tag("filler").with_tag("removable_candidate");
            r.push(e);
            proof {
                assert(e.tags@[0] == e.tags@.take(1)[0]);
            }
        }
        proof {
            let f = filler_cues(cues@.take(i as int + 1));
            assert forall|k: int| 0 <= k < r@.len() implies filler_event_of(#[trigger] r@[k], f[k], run_id@) by {
                if k < old_r.len() {
                    assert(r@[k] == old_r[k]);
                }
            }
        }
        i = i + 1;
    }
    proof {
        assert(cues@.take(cues@.len() as int) =~= cues@);
    }
    r
}

/// Filler events from an SRT caption text, read as the filler detector
/// reads captions (see `filler_block_cue`).
pub fn detect_fillers_from_srt_text(run_id: &str, text: &str) -> (r: Vec<Event>)
    ensures
        ({
            let cs = crate::captions::srt_cues(text@, false);
            exists|cues: Seq<(u64, u64, String)>| {
                &&& cues.len() == cs.len()
                &&& (forall|k: int| 0 <= k < cues.len() ==> (#[trigger] cues[k]).0 == cs[k].0
                    && cues[k].1 == cs[k].1 && cues[k].2@ == cs[k].2)
                &&& r@.len() == filler_cues(cues).len()
                &&& forall|k: int| 0 <= k < r@.len() ==> filler_event_of(#[trigger] r@[k], filler_cues(cues)[k], run_id@)
            }
        }),
{
    let v = to_chars(text);
    let parsed = crate::captions::parse_cues(&v, false);
    let mut cues: Vec<(u64, u64, String)> = Vec::new();
    let mut i: usize = 0;
    while i < parsed.len()
        invariant
            0 <= i <= parsed@.len(),
            cues@.len() == i,
            forall|k: int| 0 <= k < i ==> (#[trigger] cues@[k]).0 == parsed@[k].0
                && cues@[k].1 == parsed@[k].1 && cues@[k].2@ == parsed@[k].2@,
        decreases parsed@.len() - i,
    {
        let (s, e, t) = &parsed[i];
        cues.push((*s, *e, from_chars(t)));
        i = i + 1;
    }
    let r = detect_fillers_from_cues(run_id, &cues);
    proof {
        let cs = crate::captions::srt_cues(text@, false);
        assert(forall|k: int| 0 <= k < cues@.len() ==> (#[trigger] cues@[k]).0 == cs[k].0
                    && cues@[k].1 == cs[k].1 && cues@[k].2@ == cs[k].2);
    }
    r
}

} // verus!
