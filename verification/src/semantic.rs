//! Deterministic extraction of semantic events from a transcript: frequent
//! keywords, two-word phrases and concepts of a small domain dictionary,
//! each placed on the output timeline. Scores are in thousandths.
use vstd::prelude::*;
use crate::captions::{trim, trim_exec, char_views};
use crate::export::views;
use crate::needs::{SemanticEvent, SemanticKind};
use crate::text::{alnum, lowercase, to_lowercase, to_chars, has_sub, contains_sub, chars_eq, is_alphanumeric};
use crate::time_map::{TimeMap, map_span_seq, longest_index};
use crate::timeline::Span;
use crate::transcript::TranscriptCue;

verus! {

/// Spanish words too common to mean anything.
pub open spec fn stop_words() -> Seq<Seq<char>> {
    seq!["el"@, "la"@, "los"@, "las"@, "un"@, "una"@, "unos"@, "unas"@, "de"@, "del"@, "al"@, "a"@,
        "en"@, "y"@, "o"@, "que"@, "se"@, "es"@, "son"@, "por"@, "para"@, "con"@, "sin"@, "como"@,
        "más"@, "muy"@, "ya"@, "lo"@, "su"@, "sus"@, "me"@, "te"@, "nos"@, "les"@, "le"@, "mi"@,
        "tu"@, "si"@, "no"@, "esto"@, "esta"@, "ese"@, "esa"@, "hay"@, "fue"@, "ser"@, "está"@,
        "están"@, "porque"@, "cuando"@, "donde"@, "qué"@, "cuál"@]
}

fn stop_list() -> (r: Vec<&'static str>)
    ensures
        r@.len() == stop_words().len(),
        forall|i: int| 0 <= i < r@.len() ==> (#[trigger] r@[i])@ == stop_words()[i],
{
    vec!["el", "la", "los", "las", "un", "una", "unos", "unas", "de", "del", "al", "a", "en", "y",
        "o", "que", "se", "es", "son", "por", "para", "con", "sin", "como", "más", "muy", "ya", "lo",
        "su", "sus", "me", "te", "nos", "les", "le", "mi", "tu", "si", "no", "esto", "esta", "ese",
        "esa", "hay", "fue", "ser", "está", "están", "porque", "cuando", "donde", "qué", "cuál"]
}

/// A character that separates words: not alphanumeric and not an accented
/// Spanish letter.
pub open spec fn is_sep(c: char) -> bool {
    !alnum(c) && c != 'á' && c != 'é' && c != 'í' && c != 'ó' && c != 'ú' && c != 'ñ'
}

/// The pieces of a text between separators (n separators give n + 1 pieces).
pub open spec fn pieces(s: Seq<char>) -> Seq<Seq<char>>
    decreases s.len(),
{
    if s.len() == 0 {
        seq![Seq::empty()]
    } else {
        let p = pieces(s.drop_last());
        if is_sep(s.last()) {
            p.push(Seq::empty())
        } else {
            p.update(p.len() - 1, p.last().push(s.last()))
        }
    }
}

proof fn lemma_pieces_nonempty(s: Seq<char>)
    ensures
        pieces(s).len() >= 1,
    decreases s.len(),
{
    if s.len() > 0 {
        lemma_pieces_nonempty(s.drop_last());
    }
}

/// A piece that counts as a word: three characters or more, not a stop word.
pub open spec fn is_token(p: Seq<char>) -> bool {
    p.len() >= 3 && !stop_words().contains(p)
}

/// The words of a text: lower-cased, split at separators, trimmed, kept when
/// they count as words.
pub open spec fn tokens_of(text: Seq<char>) -> Seq<Seq<char>> {
    pieces(lowercase(text)).map_values(|p: Seq<char>| trim(p)).filter(|p: Seq<char>| is_token(p))
}

fn is_sep_exec(c: char) -> (r: bool)
    ensures
        r == is_sep(c),
{
    !is_alphanumeric(c) && c != 'á' && c != 'é' && c != 'í' && c != 'ó' && c != 'ú' && c != 'ñ'
}

fn is_stop(p: &Vec<char>, stops: &Vec<&'static str>) -> (r: bool)
    requires
        stops@.len() == stop_words().len(),
        forall|i: int| 0 <= i < stops@.len() ==> (#[trigger] stops@[i])@ == stop_words()[i],
    ensures
        r == stop_words().contains(p@),
{
    let mut i: usize = 0;
    while i < stops.len()
        invariant
            i <= stops@.len() == stop_words().len(),
            forall|j: int| 0 <= j < stops@.len() ==> (#[trigger] stops@[j])@ == stop_words()[j],
            forall|j: int| 0 <= j < i ==> stop_words()[j] != p@,
        decreases stops@.len() - i,
    {
        let w = to_chars(stops[i]);
        if chars_eq(&w, p) {
            assert(stop_words()[i as int] == p@);
            return true;
        }
        i = i + 1;
    }
    false
}

/// The words of a text (see `tokens_of`).
pub fn tokenize(text: &str) -> (r: Vec<Vec<char>>)
    ensures
        char_views(r@) == tokens_of(text@),
{
    let low = to_lowercase(text);
    let cs = to_chars(low.as_str());
    let mut ps: Vec<Vec<char>> = Vec::new();
    ps.push(Vec::new());
    let mut i: usize = 0;
    proof {
        assert(cs@.take(0) =~= Seq::<char>::empty());
        assert(char_views(ps@) =~= pieces(cs@.take(0)));
    }
    while i < cs.len()
        invariant
            i <= cs@.len(),
            char_views(ps@) == pieces(cs@.take(i as int)),
            ps@.len() >= 1,
        decreases cs@.len() - i,
    {
        let c = cs[i];
        let ghost t = cs@.take(i as int + 1);
        proof {
            assert(t.drop_last() =~= cs@.take(i as int));
            assert(t.last() == c);
        }
        if is_sep_exec(c) {
            let ghost b = char_views(ps@);
            ps.push(Vec::new());
            proof {
                assert(char_views(ps@) =~= b.push(Seq::<char>::empty()));
            }
        } else {
            let last = ps.len() - 1;
            let ghost b = char_views(ps@);
            let mut piece = ps.remove(last);
            piece.push(c);
            ps.push(piece);
            proof {
                assert(char_views(ps@) =~= b.update(b.len() - 1, b.last().push(c)));
            }
        }
        i = i + 1;
    }
    proof {
        assert(cs@.take(cs@.len() as int) =~= cs@);
    }
    let stops = stop_list();
    let mut out: Vec<Vec<char>> = Vec::new();
    let mut k: usize = 0;
    let ghost ts = pieces(lowercase(text@)).map_values(|p: Seq<char>| trim(p));
    proof {
        assert(ts.take(0).filter(|p: Seq<char>| is_token(p)) =~= Seq::<Seq<char>>::empty());
        assert(char_views(out@) =~= ts.take(0).filter(|p: Seq<char>| is_token(p)));
    }
    while k < ps.len()
        invariant
            k <= ps@.len(),
            char_views(ps@) == pieces(lowercase(text@)),
            ts == pieces(lowercase(text@)).map_values(|p: Seq<char>| trim(p)),
            stops@.len() == stop_words().len(),
            forall|i: int| 0 <= i < stops@.len() ==> (#[trigger] stops@[i])@ == stop_words()[i],
            char_views(out@) == ts.take(k as int).filter(|p: Seq<char>| is_token(p)),
        decreases ps@.len() - k,
    {
        let p = trim_exec(&ps[k]);
        proof {
            assert(ts[k as int] == trim(ps@[k as int]@));
            assert(ts.take(k as int + 1).drop_last() =~= ts.take(k as int));
            reveal(Seq::filter);
        }
        if p.len() >= 3 && !is_stop(&p, &stops) {
            let ghost b = char_views(out@);
            out.push(p);
            proof {
                assert(char_views(out@) =~= b.push(ts[k as int]));
                assert(ts.take(k as int + 1).filter(|p: Seq<char>| is_token(p)) =~= b.push(ts[k as int]));
            }
        } else {
            proof {
                assert(ts.take(k as int + 1).filter(|p: Seq<char>| is_token(p)) =~= ts.take(k as int).filter(|p: Seq<char>| is_token(p)));
            }
        }
        k = k + 1;
    }
    proof {
        assert(ts.take(ps@.len() as int) =~= ts);
    }
    out
}

/// The domain dictionary: a concept and the words that reveal it.
pub open spec fn concept_seeds() -> Seq<(Seq<char>, Seq<Seq<char>>)> {
    seq![
        ("inflacion"@, seq!["inflación"@, "inflacion"@, "precios"@, "ipc"@]),
        ("alimentos"@, seq!["alimentos"@, "comida"@, "mercado"@, "canasta"@]),
        ("economia"@, seq!["economía"@, "economia"@, "mercados"@, "pib"@]),
        ("tecnologia"@, seq!["tecnología"@, "tecnologia"@, "software"@, "app"@, "ia"@]),
        ("salud"@, seq!["salud"@, "médico"@, "medico"@, "hospital"@]),
        ("educacion"@, seq!["educación"@, "educacion"@, "escuela"@, "universidad"@]),
        ("trabajo"@, seq!["trabajo"@, "empleo"@, "oficina"@, "empresa"@]),
        ("viaje"@, seq!["viaje"@, "turismo"@, "aeropuerto"@, "hotel"@])
    ]
}

/// A semantic event as values: kind, label, terms, score, source span,
/// output span, transcript segments, method.
pub type EventView = (SemanticKind, Seq<char>, Seq<Seq<char>>, u32, Span, Option<Span>, Seq<Seq<char>>, Seq<char>);

pub open spec fn ev_view(e: SemanticEvent) -> EventView {
    (e.kind, e.label@, views(e.terms@), e.score, e.source_span, e.output_span, views(e.transcript_segment_ids@), e.method@)
}

/// The longest surviving output part of a source span.
pub open spec fn primary(tm: TimeMap, span: Span) -> Option<Span> {
    let parts = map_span_seq(tm.spec_ranges(), span.start, span.end);
    if parts.len() == 0 { None } else { Some(parts[longest_index(parts)]) }
}

/// Every word of the transcript, in order.
pub open spec fn all_tokens(segs: Seq<TranscriptCue>) -> Seq<Seq<char>>
    decreases segs.len(),
{
    if segs.len() == 0 {
        Seq::empty()
    } else {
        all_tokens(segs.drop_last()) + tokens_of(segs.last().text@)
    }
}

/// How many times `t` occurs in `s`.
pub open spec fn occurrences(s: Seq<Seq<char>>, t: Seq<char>) -> nat
    decreases s.len(),
{
    if s.len() == 0 {
        0
    } else {
        occurrences(s.drop_last(), t) + if s.last() == t { 1nat } else { 0nat }
    }
}

/// Score of a keyword seen `n` times: 0.35 plus 0.08 a time, at most 0.85.
pub open spec fn keyword_score(n: nat) -> u32 {
    if 350 + 80 * n > 850 { 850 } else { (350 + 80 * n) as u32 }
}

/// Keyword events of a segment's words: words of four characters or more
/// seen between once and twelve times in the transcript.
pub open spec fn keyword_events(toks: Seq<Seq<char>>, all: Seq<Seq<char>>, seg: TranscriptCue, out: Span) -> Seq<EventView>
    decreases toks.len(),
{
    if toks.len() == 0 {
        Seq::empty()
    } else {
        let t = toks.last();
        let n = occurrences(all, t);
        keyword_events(toks.drop_last(), all, seg, out) + if 1 <= n <= 12 && t.len() >= 4 {
            seq![(SemanticKind::Keyword, t, seq![t], keyword_score(n), seg.span, Some(out), seq![seg.id@], "freq_keyword_es"@)]
        } else {
            Seq::empty()
        }
    }
}

/// Phrase events of two consecutive words (at least eight characters with the space).
pub open spec fn bigram_events(toks: Seq<Seq<char>>, seg: TranscriptCue, out: Span) -> Seq<EventView>
    decreases toks.len(),
{
    if toks.len() < 2 {
        Seq::empty()
    } else {
        let a = toks[toks.len() - 2];
        let b = toks.last();
        let phrase = a + " "@ + b;
        bigram_events(toks.drop_last(), seg, out) + if phrase.len() >= 8 {
            seq![(SemanticKind::Phrase, phrase, seq![a, b], 550u32, seg.span, Some(out), seq![seg.id@], "bigram_es"@)]
        } else {
            Seq::empty()
        }
    }
}

/// Some word of `syns` occurs in `text`.
pub open spec fn mentions_any(text: Seq<char>, syns: Seq<Seq<char>>) -> bool {
    exists|i: int| 0 <= i < syns.len() && has_sub(text, #[trigger] syns[i])
}

/// Concept events of the dictionary entries that the segment mentions.
pub open spec fn concept_events(seeds: Seq<(Seq<char>, Seq<Seq<char>>)>, seg: TranscriptCue, out: Span) -> Seq<EventView>
    decreases seeds.len(),
{
    if seeds.len() == 0 {
        Seq::empty()
    } else {
        let (c, syns) = seeds.last();
        concept_events(seeds.drop_last(), seg, out) + if mentions_any(lowercase(seg.text@), syns) {
            seq![(SemanticKind::Concept, c, syns, 780u32, seg.span, Some(out), seq![seg.id@], "concept_dict"@)]
        } else {
            Seq::empty()
        }
    }
}

/// The events of one segment: none when it has no word or was cut away.
pub open spec fn segment_events(seg: TranscriptCue, all: Seq<Seq<char>>, tm: TimeMap) -> Seq<EventView> {
    let toks = tokens_of(seg.text@);
    if toks.len() == 0 {
        Seq::empty()
    } else {
        match primary(tm, seg.span) {
            None => Seq::empty(),
            Some(out) => keyword_events(toks, all, seg, out) + bigram_events(toks, seg, out) + concept_events(concept_seeds(), seg, out),
        }
    }
}

/// The events of the segments, in order.
pub open spec fn raw_events(segs: Seq<TranscriptCue>, all: Seq<Seq<char>>, tm: TimeMap) -> Seq<EventView>
    decreases segs.len(),
{
    if segs.len() == 0 {
        Seq::empty()
    } else {
        raw_events(segs.drop_last(), all, tm) + segment_events(segs.last(), all, tm)
    }
}

pub open spec fn ev_views(v: Seq<SemanticEvent>) -> Seq<EventView> {
    v.map_values(|e: SemanticEvent| ev_view(e))
}

fn occurrences_exec(all: &Vec<Vec<char>>, t: &Vec<char>) -> (r: u64)
    ensures
        r == occurrences(char_views(all@), t@),
{
    let mut n: u64 = 0;
    let mut i: usize = 0;
    proof {
        assert(char_views(all@).take(0) =~= Seq::<Seq<char>>::empty());
    }
    while i < all.len()
        invariant
            i <= all@.len(),
            n == occurrences(char_views(all@).take(i as int), t@),
            n <= i,
        decreases all@.len() - i,
    {
        proof {
            let x = char_views(all@).take(i as int + 1);
            assert(x.drop_last() =~= char_views(all@).take(i as int));
            assert(x.last() == all@[i as int]@);
        }
        if chars_eq(&all[i], t) {
            n = n + 1;
        }
        i = i + 1;
    }
    proof {
        assert(char_views(all@).take(all@.len() as int) =~= char_views(all@));
    }
    n
}

fn texts_of(v: &Vec<Vec<char>>) -> (r: Vec<String>)
    ensures
        views(r@) == char_views(v@),
{
    let mut r: Vec<String> = Vec::new();
    let mut i: usize = 0;
    while i < v.len()
        invariant
            i <= v@.len(),
            views(r@) =~= char_views(v@).take(i as int),
        decreases v@.len() - i,
    {
        let ghost b = views(r@);
        r.push(crate::text::from_chars(&v[i]));
        proof {
            assert(views(r@) =~= b.push(v@[i as int]@));
        }
        i = i + 1;
    }
    proof {
        assert(char_views(v@).take(v@.len() as int) =~= char_views(v@));
    }
    r
}

fn make_event(run_id: &str, kind: SemanticKind, label: &Vec<char>, terms: &Vec<Vec<char>>, score: u32, seg: &TranscriptCue, out: Span, method: &str) -> (e: SemanticEvent)
    ensures
        ev_view(e) == (kind, label@, char_views(terms@), score, seg.span, Some(out), seq![seg.id@], method@),
        e.id@.len() == 36,
        e.run_id@ == run_id@,
{
    let mut ids: Vec<String> = Vec::new();
    let sid = seg.id.clone();
    ids.push(sid);
    proof {
        assert(views(ids@) =~= seq![seg.id@]);
    }
    SemanticEvent {
        id: crate::events::new_id(),
        run_id: String::from_str(run_id),
        kind,
        source_span: seg.span,
        output_span: Some(out),
        label: crate::text::from_chars(label),
        terms: texts_of(terms),
        score,
        transcript_segment_ids: ids,
        method: String::from_str(method),
    }
}

/// Events made so far carry fresh ids and the run's id.
pub open spec fn stamped(v: Seq<SemanticEvent>, run_id: Seq<char>) -> bool {
    forall|k: int| 0 <= k < v.len() ==> (#[trigger] v[k]).id@.len() == 36 && v[k].run_id@ == run_id
}

fn push_event(v: &mut Vec<SemanticEvent>, e: SemanticEvent, Ghost(run_id): Ghost<Seq<char>>)
    requires
        stamped(old(v)@, run_id),
        e.id@.len() == 36 && e.run_id@ == run_id,
    ensures
        ev_views(final(v)@) == ev_views(old(v)@).push(ev_view(e)),
        stamped(final(v)@, run_id),
{
    let ghost b = ev_views(v@);
    let ghost v0 = v@;
    v.push(e);
    proof {
        assert(ev_views(v@) =~= b.push(ev_view(e)));
        assert forall|k: int| 0 <= k < v@.len() implies (#[trigger] v@[k]).id@.len() == 36 && v@[k].run_id@ == run_id by {
            if k < v0.len() {
                assert(v@[k] == v0[k]);
            }
        }
    }
}

fn push_keywords(v: &mut Vec<SemanticEvent>, toks: &Vec<Vec<char>>, all: &Vec<Vec<char>>, seg: &TranscriptCue, out: Span, run_id: &str)
    requires
        stamped(old(v)@, run_id@),
    ensures
        ev_views(final(v)@) == ev_views(old(v)@) + keyword_events(char_views(toks@), char_views(all@), *seg, out),
        stamped(final(v)@, run_id@),
{
    let ghost v0 = ev_views(v@);
    let mut i: usize = 0;
    proof {
        assert(char_views(toks@).take(0) =~= Seq::<Seq<char>>::empty());
        assert(v0 + Seq::<EventView>::empty() =~= v0);
    }
    while i < toks.len()
        invariant
            i <= toks@.len(),
            ev_views(v@) == v0 + keyword_events(char_views(toks@).take(i as int), char_views(all@), *seg, out),
            stamped(v@, run_id@),
        decreases toks@.len() - i,
    {
        let ghost t = char_views(toks@).take(i as int + 1);
        proof {
            assert(t.drop_last() =~= char_views(toks@).take(i as int));
            assert(t.last() == toks@[i as int]@);
        }
        let n = occurrences_exec(all, &toks[i]);
        if 1 <= n && n <= 12 && toks[i].len() >= 4 {
            let score: u32 = if 350 + 80 * n > 850 { 850 } else { (350 + 80 * n) as u32 };
            let mut terms: Vec<Vec<char>> = Vec::new();
            terms.push(toks[i].clone());
            proof {
                assert(char_views(terms@) =~= seq![toks@[i as int]@]);
            }
            let e = make_event(run_id, SemanticKind::Keyword, &toks[i], &terms, score, seg, out, "freq_keyword_es");
            push_event(v, e, Ghost(run_id@));
            proof {
                assert(ev_views(v@) =~= v0 + keyword_events(t, char_views(all@), *seg, out));
            }
        } else {
            proof {
                assert(keyword_events(t, char_views(all@), *seg, out) =~= keyword_events(char_views(toks@).take(i as int), char_views(all@), *seg, out));
            }
        }
        i = i + 1;
    }
    proof {
        assert(char_views(toks@).take(toks@.len() as int) =~= char_views(toks@));
    }
}

fn push_bigrams(v: &mut Vec<SemanticEvent>, toks: &Vec<Vec<char>>, seg: &TranscriptCue, out: Span, run_id: &str)
    requires
        stamped(old(v)@, run_id@),
    ensures
        ev_views(final(v)@) == ev_views(old(v)@) + bigram_events(char_views(toks@), *seg, out),
        stamped(final(v)@, run_id@),
{
    let ghost v0 = ev_views(v@);
    if toks.len() < 2 {
        proof {
            assert(v0 + Seq::<EventView>::empty() =~= v0);
        }
        return;
    }
    let mut i: usize = 1;
    proof {
        let t1 = char_views(toks@).take(1);
        assert(bigram_events(t1, *seg, out) =~= Seq::<EventView>::empty());
        assert(v0 + Seq::<EventView>::empty() =~= v0);
    }
    while i < toks.len()
        invariant
            1 <= i <= toks@.len(),
            ev_views(v@) == v0 + bigram_events(char_views(toks@).take(i as int), *seg, out),
            stamped(v@, run_id@),
        decreases toks@.len() - i,
    {
        let ghost t = char_views(toks@).take(i as int + 1);
        proof {
            assert(t.drop_last() =~= char_views(toks@).take(i as int));
            assert(t.last() == toks@[i as int]@);
            assert(t[t.len() - 2] == toks@[i - 1]@);
        }
        let a = &toks[i - 1];
        let b = &toks[i];
        let mut phrase: Vec<char> = a.clone();
        phrase.push(' ');
        let mut j: usize = 0;
        let ghost p0 = phrase@;
        while j < b.len()
            invariant
                j <= b@.len(),
                phrase@ == p0 + b@.take(j as int),
            decreases b@.len() - j,
        {
            phrase.push(b[j]);
            proof {
                assert(b@.take(j as int + 1) =~= b@.take(j as int).push(b@[j as int]));
            }
            j = j + 1;
        }
        proof {
            assert(b@.take(b@.len() as int) =~= b@);
            assert(phrase@ =~= a@ + " "@ + b@) by {
                reveal_strlit(" ");
            }
        }
        if phrase.len() >= 8 {
            let mut terms: Vec<Vec<char>> = Vec::new();
            terms.push(a.clone());
            terms.push(b.clone());
            proof {
                assert(char_views(terms@) =~= seq![a@, b@]);
            }
            let e = make_event(run_id, SemanticKind::Phrase, &phrase, &terms, 550, seg, out, "bigram_es");
            push_event(v, e, Ghost(run_id@));
            proof {
                assert(ev_views(v@) =~= v0 + bigram_events(t, *seg, out));
            }
        } else {
            proof {
                assert(bigram_events(t, *seg, out) =~= bigram_events(char_views(toks@).take(i as int), *seg, out));
            }
        }
        i = i + 1;
    }
    proof {
        assert(char_views(toks@).take(toks@.len() as int) =~= char_views(toks@));
    }
}

fn seed_table() -> (r: Vec<(&'static str, Vec<&'static str>)>)
    ensures
        r@.len() == concept_seeds().len(),
        forall|i: int| 0 <= i < r@.len() ==> (#[trigger] r@[i]).0@ == concept_seeds()[i].0
            && r@[i].1@.len() == concept_seeds()[i].1.len()
            && forall|j: int| 0 <= j < r@[i].1@.len() ==> (#[trigger] r@[i].1@[j])@ == concept_seeds()[i].1[j],
{
    let r = vec![
        ("inflacion", vec!["inflación", "inflacion", "precios", "ipc"]),
        ("alimentos", vec!["alimentos", "comida", "mercado", "canasta"]),
        ("economia", vec!["economía", "economia", "mercados", "pib"]),
        ("tecnologia", vec!["tecnología", "tecnologia", "software", "app", "ia"]),
        ("salud", vec!["salud", "médico", "medico", "hospital"]),
        ("educacion", vec!["educación", "educacion", "escuela", "universidad"]),
        ("trabajo", vec!["trabajo", "empleo", "oficina", "empresa"]),
        ("viaje", vec!["viaje", "turismo", "aeropuerto", "hotel"]),
    ];
    r
}

fn push_concepts(v: &mut Vec<SemanticEvent>, seg: &TranscriptCue, out: Span, run_id: &str)
    requires
        stamped(old(v)@, run_id@),
    ensures
        ev_views(final(v)@) == ev_views(old(v)@) + concept_events(concept_seeds(), *seg, out),
        stamped(final(v)@, run_id@),
{
    let ghost v0 = ev_views(v@);
    let table = seed_table();
    let low = to_lowercase(seg.text.as_str());
    let lc = to_chars(low.as_str());
    let mut i: usize = 0;
    proof {
        assert(concept_seeds().take(0) =~= Seq::<(Seq<char>, Seq<Seq<char>>)>::empty());
        assert(v0 + Seq::<EventView>::empty() =~= v0);
    }
    while i < table.len()
        invariant
            i <= table@.len() == concept_seeds().len(),
            forall|k: int| 0 <= k < table@.len() ==> (#[trigger] table@[k]).0@ == concept_seeds()[k].0
                && table@[k].1@.len() == concept_seeds()[k].1.len()
                && forall|j: int| 0 <= j < table@[k].1@.len() ==> (#[trigger] table@[k].1@[j])@ == concept_seeds()[k].1[j],
            lc@ == lowercase(seg.text@),
            ev_views(v@) == v0 + concept_events(concept_seeds().take(i as int), *seg, out),
            stamped(v@, run_id@),
        decreases table@.len() - i,
    {
        let ghost t = concept_seeds().take(i as int + 1);
        proof {
            assert(t.drop_last() =~= concept_seeds().take(i as int));
            assert(t.last() == concept_seeds()[i as int]);
        }
        let syns = &table[i].1;
        let ghost sv = concept_seeds()[i as int].1;
        let mut hit = false;
        let mut j: usize = 0;
        while j < syns.len()
            invariant
                j <= syns@.len() == sv.len(),
                forall|q: int| 0 <= q < syns@.len() ==> (#[trigger] syns@[q])@ == sv[q],
                lc@ == lowercase(seg.text@),
                hit == exists|q: int| 0 <= q < j && has_sub(lc@, #[trigger] sv[q]),
            decreases syns@.len() - j,
        {
            let w = to_chars(syns[j]);
            let h = contains_sub(&lc, &w);
            proof {
                assert(w@ == sv[j as int]);
            }
            hit = hit || h;
            j = j + 1;
        }
        if hit {
            let label = to_chars(table[i].0);
            let mut terms: Vec<Vec<char>> = Vec::new();
            let mut q: usize = 0;
            while q < syns.len()
                invariant
                    q <= syns@.len() == sv.len(),
                    forall|m: int| 0 <= m < syns@.len() ==> (#[trigger] syns@[m])@ == sv[m],
                    char_views(terms@) =~= sv.take(q as int),
                decreases syns@.len() - q,
            {
                let w = to_chars(syns[q]);
                let ghost b = char_views(terms@);
                terms.push(w);
                proof {
                    assert(char_views(terms@) =~= b.push(sv[q as int]));
                }
                q = q + 1;
            }
            proof {
                assert(sv.take(sv.len() as int) =~= sv);
            }
            let e = make_event(run_id, SemanticKind::Concept, &label, &terms, 780, seg, out, "concept_dict");
            push_event(v, e, Ghost(run_id@));
            proof {
                assert(ev_views(v@) =~= v0 + concept_events(t, *seg, out));
            }
        } else {
            proof {
                assert(concept_events(t, *seg, out) =~= concept_events(concept_seeds().take(i as int), *seg, out));
            }
        }
        i = i + 1;
    }
    proof {
        assert(concept_seeds().take(concept_seeds().len() as int) =~= concept_seeds());
    }
}

/// Events keyed for ordering by score, highest first, then by position.
pub open spec fn event_order_keys(raw: Seq<EventView>) -> Seq<((u64, u64, u64), usize)> {
    Seq::new(raw.len(), |i: int| (((0xffff_ffffu64 - raw[i].3) as u64, i as u64, 0u64), i as usize))
}

/// The de-duplication key of an event: its label in lower case and the whole
/// second its source span starts in (the floor of its start in seconds).
pub open spec fn dedupe_key(e: EventView) -> (Seq<char>, int) {
    (lowercase(e.1), crate::text::floor_secs(e.4.start as nat) as int)
}

pub open spec fn key_seen(raw: Seq<EventView>, picked: Seq<usize>, k: (Seq<char>, int)) -> bool {
    exists|j: int| 0 <= j < picked.len() && dedupe_key(raw[picked[j] as int]) == k
}

/// The events kept in `ord`: the first of each key, at most eighty.
pub open spec fn kept_events(raw: Seq<EventView>, ord: Seq<usize>) -> Seq<usize>
    decreases ord.len(),
{
    if ord.len() == 0 {
        Seq::empty()
    } else {
        let p = kept_events(raw, ord.drop_last());
        let i = ord.last();
        let k = dedupe_key(raw[i as int]);
        if p.len() < 80 && !key_seen(raw, p, k) { p.push(i) } else { p }
    }
}

fn copy_event(e: &SemanticEvent) -> (r: SemanticEvent)
    ensures
        ev_view(r) == ev_view(*e),
        r.id@ == e.id@ && r.run_id@ == e.run_id@,
{
    SemanticEvent {
        id: e.id.clone(),
        run_id: e.run_id.clone(),
        kind: e.kind,
        source_span: e.source_span,
        output_span: e.output_span,
        label: e.label.clone(),
        terms: crate::events::copy_strings(&e.terms),
        score: e.score,
        transcript_segment_ids: crate::events::copy_strings(&e.transcript_segment_ids),
        method: e.method.clone(),
    }
}

/// Semantic events of a transcript, placed on the output timeline of
/// `time_map`: its keyword, phrase and concept events, highest score first
/// (ties in transcript order), one per label and starting second, at most eighty.
pub fn extract_semantic_events(segments: &Vec<TranscriptCue>, run_id: &str, time_map: &TimeMap) -> (r: Vec<SemanticEvent>)
    requires
        time_map.wf(),
    ensures
        ({
            let raw = raw_events(segments@, all_tokens(segments@), *time_map);
            exists|ks: Seq<((u64, u64, u64), usize)>| #![trigger crate::sort::keys3_ascending(ks)]
                crate::sort::keys3_ascending(ks) && ks.to_multiset() == event_order_keys(raw).to_multiset() && {
                    let p = kept_events(raw, ks.map_values(|x: ((u64, u64, u64), usize)| x.1));
                    &&& r@.len() == p.len()
                    &&& forall|k: int| 0 <= k < p.len() ==> ev_view(#[trigger] r@[k]) == raw[p[k] as int]
                        && r@[k].id@.len() == 36 && r@[k].run_id@ == run_id@
                }
        }),
{
    let ghost segs = segments@;
    // the words of each segment, and of the whole transcript
    let mut per: Vec<Vec<Vec<char>>> = Vec::new();
    let mut all: Vec<Vec<char>> = Vec::new();
    let mut i: usize = 0;
    proof {
        assert(segs.take(0) =~= Seq::<TranscriptCue>::empty());
        assert(char_views(all@) =~= all_tokens(segs.take(0)));
    }
    while i < segments.len()
        invariant
            i <= segs.len(),
            segs == segments@,
            per@.len() == i,
            forall|k: int| 0 <= k < i ==> char_views((#[trigger] per@[k])@) == tokens_of(segs[k].text@),
            char_views(all@) == all_tokens(segs.take(i as int)),
        decreases segs.len() - i,
    {
        let toks = tokenize(segments[i].text.as_str());
        let ghost b = char_views(all@);
        let mut j: usize = 0;
        while j < toks.len()
            invariant
                j <= toks@.len(),
                char_views(all@) == b + char_views(toks@).take(j as int),
            decreases toks@.len() - j,
        {
            let ghost a0 = char_views(all@);
            let w = toks[j].clone();
            assert(w@ == toks@[j as int]@);
            all.push(w);
            proof {
                assert(char_views(all@) =~= a0.push(w@));
                assert(char_views(toks@).take(j as int + 1) =~= char_views(toks@).take(j as int).push(toks@[j as int]@));
                assert(char_views(all@) =~= b + char_views(toks@).take(j as int + 1));
            }
            j = j + 1;
        }
        proof {
            let t = segs.take(i as int + 1);
            assert(t.drop_last() =~= segs.take(i as int));
            assert(t.last() == segs[i as int]);
            assert(char_views(toks@).take(toks@.len() as int) =~= char_views(toks@));
        }
        per.push(toks);
        i = i + 1;
    }
    proof {
        assert(segs.take(segs.len() as int) =~= segs);
    }
    let ghost allv = all_tokens(segs);
    // the raw events, segment by segment
    let mut raw: Vec<SemanticEvent> = Vec::new();
    let mut q: usize = 0;
    proof {
        assert(ev_views(raw@) =~= raw_events(segs.take(0), allv, *time_map));
    }
    while q < segments.len()
        invariant
            q <= segs.len(),
            segs == segments@,
            per@.len() == segs.len(),
            forall|k: int| 0 <= k < segs.len() ==> char_views((#[trigger] per@[k])@) == tokens_of(segs[k].text@),
            char_views(all@) == allv,
            allv == all_tokens(segs),
            time_map.wf(),
            ev_views(raw@) == raw_events(segs.take(q as int), allv, *time_map),
            stamped(raw@, run_id@),
        decreases segs.len() - q,
    {
        let seg = &segments[q];
        let toks = &per[q];
        let ghost before = ev_views(raw@);
        proof {
            let t = segs.take(q as int + 1);
            assert(t.drop_last() =~= segs.take(q as int));
            assert(t.last() == segs[q as int]);
        }
        if toks.len() > 0 {
            match time_map.primary_output_span(seg.span) {
                Some(out) => {
                    push_keywords(&mut raw, toks, &all, seg, out, run_id);
                    push_bigrams(&mut raw, toks, seg, out, run_id);
                    push_concepts(&mut raw, seg, out, run_id);
                    proof {
                        assert(ev_views(raw@) =~= before + segment_events(*seg, allv, *time_map));
                    }
                },
                None => {
                    proof {
                        assert(ev_views(raw@) =~= before + segment_events(*seg, allv, *time_map));
                    }
                },
            }
        } else {
            proof {
                assert(ev_views(raw@) =~= before + segment_events(*seg, allv, *time_map));
            }
        }
        q = q + 1;
    }
    proof {
        assert(segs.take(segs.len() as int) =~= segs);
    }
    let ghost rv = ev_views(raw@);
    assert(rv == raw_events(segs, allv, *time_map));
    // highest score first
    let n = raw.len();
    let mut keyed: Vec<((u64, u64, u64), usize)> = Vec::new();
    let mut k: usize = 0;
    while k < n
        invariant
            k <= n == raw@.len() == rv.len(),
            rv == ev_views(raw@),
            keyed@ =~= event_order_keys(rv).take(k as int),
        decreases n - k,
    {
        assert(rv[k as int].3 == raw@[k as int].score);
        keyed.push(((0xffff_ffffu64 - raw[k].score as u64, k as u64, 0u64), k));
        k = k + 1;
    }
    proof {
        assert(keyed@ =~= event_order_keys(rv));
    }
    let sorted = crate::sort::sort_by_key3(keyed);
    let ghost ks = sorted@;
    let ghost ord = ks.map_values(|x: ((u64, u64, u64), usize)| x.1);
    proof {
        broadcast use vstd::seq_lib::group_to_multiset_ensures;
        let ek = event_order_keys(rv);
        assert forall|t: int| 0 <= t < ks.len() implies (#[trigger] ks[t]).1 < n by {
            assert(ks.contains(ks[t]));
            assert(ks.to_multiset().count(ks[t]) > 0);
            assert(ek.to_multiset().count(ks[t]) > 0);
            assert(ek.contains(ks[t]));
            let w = choose|w: int| 0 <= w < ek.len() && ek[w] == ks[t];
            assert(ek[w].1 == w as usize);
        }
    }
    // first of each key, at most eighty
    let mut out: Vec<SemanticEvent> = Vec::new();
    let mut keys: Vec<(Vec<char>, u128)> = Vec::new();
    let ghost mut pk: Seq<usize> = Seq::empty();
    let mut m: usize = 0;
    proof {
        assert(ord.take(0) =~= Seq::<usize>::empty());
    }
    while m < sorted.len()
        invariant
            m <= sorted@.len() == ks.len(),
            sorted@ == ks,
            ord == ks.map_values(|x: ((u64, u64, u64), usize)| x.1),
            forall|t: int| 0 <= t < ks.len() ==> (#[trigger] ks[t]).1 < n,
            n == raw@.len(),
            rv == ev_views(raw@),
            stamped(raw@, run_id@),
            pk == kept_events(rv, ord.take(m as int)),
            out@.len() == pk.len() && keys@.len() == pk.len(),
            forall|j: int| 0 <= j < pk.len() ==> pk[j] < n,
            forall|j: int| 0 <= j < pk.len() ==> ((#[trigger] keys@[j]).0@, keys@[j].1 as int) == dedupe_key(rv[pk[j] as int]),
            forall|j: int| 0 <= j < pk.len() ==> ev_view(#[trigger] out@[j]) == rv[pk[j] as int]
                && out@[j].id@.len() == 36 && out@[j].run_id@ == run_id@,
        decreases ks.len() - m,
    {
        let idx = sorted[m].1;
        proof {
            let t = ord.take(m as int + 1);
            assert(t.drop_last() =~= ord.take(m as int));
            assert(t.last() == ks[m as int].1);
        }
        let e = &raw[idx];
        let lk = crate::text::to_lowercase(e.label.as_str());
        let kc = to_chars(lk.as_str());
        let sec = crate::text::floor_secs_exec(e.source_span.start);
        proof {
            assert(rv[idx as int] == ev_view(raw@[idx as int]));
        }
        let mut seen = false;
        let mut j: usize = 0;
        while j < keys.len()
            invariant
                j <= keys@.len() == pk.len(),
                (kc@, sec as int) == dedupe_key(rv[idx as int]),
                forall|t: int| 0 <= t < pk.len() ==> ((#[trigger] keys@[t]).0@, keys@[t].1 as int) == dedupe_key(rv[pk[t] as int]),
                seen == exists|t: int| 0 <= t < j && dedupe_key(rv[pk[t] as int]) == (kc@, sec as int),
            decreases keys@.len() - j,
        {
            let same = chars_eq(&keys[j].0, &kc) && keys[j].1 == sec;
            proof {
                assert((keys@[j as int].0@, keys@[j as int].1 as int) == dedupe_key(rv[pk[j as int] as int]));
            }
            seen = seen || same;
            j = j + 1;
        }
        if out.len() < 80 && !seen {
            let c = copy_event(e);
            out.push(c);
            keys.push((kc, sec));
            proof {
                pk = pk.push(idx);
            }
        }
        m = m + 1;
    }
    proof {
        assert(ord.take(ks.len() as int) =~= ord);
    }
    out
}

} // verus!
