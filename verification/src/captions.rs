//! SRT / WebVTT caption text: blocks, lines, timestamps.
//!
//! Times are read into milliseconds. A time field is a decimal number of
//! ASCII digits with an optional fraction (`.` or `,`); digits past the
//! third decimal are dropped.
use vstd::prelude::*;

use crate::filler::{split_words, words};
use crate::text::{is_whitespace, is_ws, occurs_at};

verus! {

/// Character sequences of a list of character vectors.
pub open spec fn char_views(v: Seq<Vec<char>>) -> Seq<Seq<char>> {
    v.map_values(|x: Vec<char>| x@)
}

/// Every `\r\n` turned into `\n`.
pub open spec fn crlf(s: Seq<char>) -> Seq<char>
    decreases s.len(),
{
    if s.len() == 0 {
        s
    } else if s.len() >= 2 && s[s.len() - 2] == '\r' && s.last() == '\n' {
        crlf(s.take(s.len() - 2)).push('\n')
    } else {
        crlf(s.drop_last()).push(s.last())
    }
}

/// Replace every `\r\n` by `\n`.
pub fn crlf_to_lf(v: &Vec<char>) -> (r: Vec<char>)
    ensures
        r@ == crlf(v@),
{
    let mut r: Vec<char> = Vec::new();
    let mut i: usize = 0;
    while i < v.len()
        invariant
            0 <= i <= v@.len(),
            r@ == crlf(v@.take(i as int)),
            1 <= i < v@.len() ==> !(v@[i - 1] == '\r' && v@[i as int] == '\n'),
        decreases v@.len() - i,
    {
        if i + 1 < v.len() && v[i] == '\r' && v[i + 1] == '\n' {
            r.push('\n');
            proof {
                let t = v@.take(i as int + 2);
                assert(t.take(t.len() - 2) =~= v@.take(i as int));
            }
            i = i + 2;
        } else {
            let c = v[i];
            r.push(c);
            proof {
                let t = v@.take(i as int + 1);
                assert(t.drop_last() =~= v@.take(i as int));
                if i >= 1 {
                    assert(t[t.len() - 2] == v@[i - 1]);
                }
            }
            i = i + 1;
        }
    }
    proof {
        assert(v@.take(v@.len() as int) =~= v@);
    }
    r
}

/// The pieces of a text between occurrences of a blank line (`\n\n`),
/// matched left to right as `str::split` does.
pub open spec fn split_blocks(s: Seq<char>) -> Seq<Seq<char>>
    decreases s.len(),
{
    if s.len() < 2 {
        seq![s]
    } else if s[0] == '\n' && s[1] == '\n' {
        seq![Seq::<char>::empty()] + split_blocks(s.skip(2))
    } else {
        let r = split_blocks(s.drop_first());
        r.update(0, seq![s[0]] + r[0])
    }
}

proof fn lemma_split_blocks_nonempty(s: Seq<char>)
    ensures
        split_blocks(s).len() >= 1,
    decreases s.len(),
{
    if s.len() >= 2 {
        if s[0] == '\n' && s[1] == '\n' {
            lemma_split_blocks_nonempty(s.skip(2));
        } else {
            lemma_split_blocks_nonempty(s.drop_first());
        }
    }
}

/// Split a text at its blank lines (`\n\n`).
pub fn split_blocks_exec(v: &Vec<char>) -> (r: Vec<Vec<char>>)
    ensures
        char_views(r@) == split_blocks(v@),
{
    let mut out: Vec<Vec<char>> = Vec::new();
    let mut cur: Vec<char> = Vec::new();
    let mut i: usize = 0;
    proof {
        assert(v@.skip(0) =~= v@);
        lemma_split_blocks_nonempty(v@);
        assert(split_blocks(v@) =~= char_views(out@).push(cur@ + split_blocks(v@.skip(0))[0]) + split_blocks(v@.skip(0)).drop_first());
    }
    while i < v.len()
        invariant
            0 <= i <= v@.len(),
            ({
                let b = split_blocks(v@.skip(i as int));
                split_blocks(v@) == char_views(out@).push(cur@ + b[0]) + b.drop_first()
            }),
        decreases v@.len() - i,
    {
        let ghost rest = v@.skip(i as int);
        proof {
            lemma_split_blocks_nonempty(rest);
        }
        if i + 1 < v.len() && v[i] == '\n' && v[i + 1] == '\n' {
            let ghost old_out = char_views(out@);
            let ghost old_cur = cur@;
            let done = cur;
            out.push(done);
            cur = Vec::new();
            proof {
                assert(rest[0] == '\n' && rest[1] == '\n');
                assert(rest.skip(2) =~= v@.skip(i as int + 2));
                let b2 = split_blocks(v@.skip(i as int + 2));
                lemma_split_blocks_nonempty(v@.skip(i as int + 2));
                assert(char_views(out@) =~= old_out.push(old_cur));
                assert(old_cur + Seq::<char>::empty() =~= old_cur);
                assert(split_blocks(rest) =~= seq![Seq::<char>::empty()] + b2);
                assert(old_out.push(old_cur + split_blocks(rest)[0]) + split_blocks(rest).drop_first()
                    =~= char_views(out@).push(cur@ + b2[0]) + b2.drop_first());
            }
            i = i + 2;
        } else {
            let c = v[i];
            let ghost old_cur = cur@;
            cur.push(c);
            proof {
                assert(rest.drop_first() =~= v@.skip(i as int + 1));
                let b1 = split_blocks(v@.skip(i as int + 1));
                lemma_split_blocks_nonempty(v@.skip(i as int + 1));
                if rest.len() >= 2 {
                    assert(split_blocks(rest) == b1.update(0, seq![c] + b1[0]));
                    assert(old_cur + (seq![c] + b1[0]) =~= cur@ + b1[0]);
                    assert(split_blocks(rest).drop_first() =~= b1.drop_first());
                } else {
                    assert(rest.len() == 1);
                    assert(v@.skip(i as int + 1) =~= Seq::<char>::empty());
                    assert(b1 =~= seq![Seq::<char>::empty()]);
                    assert(rest =~= seq![c]);
                    assert(old_cur + rest =~= cur@ + b1[0]);
                }
            }
            i = i + 1;
        }
    }
    proof {
        assert(v@.skip(v@.len() as int) =~= Seq::<char>::empty());
        assert(cur@ + Seq::<char>::empty() =~= cur@);
    }
    out.push(cur);
    proof {
        assert(char_views(out@) =~= split_blocks(v@));
    }
    out
}

/// The pieces of a text between the occurrences of `sep`.
pub open spec fn split_on(s: Seq<char>, sep: char) -> Seq<Seq<char>>
    decreases s.len(),
{
    if s.len() == 0 {
        seq![Seq::<char>::empty()]
    } else {
        let p = split_on(s.drop_last(), sep);
        if s.last() == sep {
            p.push(Seq::<char>::empty())
        } else {
            p.update(p.len() - 1, p.last().push(s.last()))
        }
    }
}

pub proof fn lemma_split_on_nonempty(s: Seq<char>, sep: char)
    ensures
        split_on(s, sep).len() >= 1,
    decreases s.len(),
{
    if s.len() > 0 {
        lemma_split_on_nonempty(s.drop_last(), sep);
    }
}

/// The lines of a text as `str::lines` yields them when no `\r\n` is left:
/// the pieces between `\n`, without the empty piece after a final `\n`.
pub open spec fn lines_of(s: Seq<char>) -> Seq<Seq<char>> {
    let p = split_on(s, '\n');
    if p.last().len() == 0 { p.drop_last() } else { p }
}

/// Split a text at every `sep`.
pub fn split_on_exec(v: &Vec<char>, sep: char) -> (r: Vec<Vec<char>>)
    ensures
        char_views(r@) == split_on(v@, sep),
{
    let mut out: Vec<Vec<char>> = Vec::new();
    let mut cur: Vec<char> = Vec::new();
    let mut i: usize = 0;
    proof {
        assert(v@.take(0) =~= Seq::<char>::empty());
        assert(char_views(out@).push(cur@) =~= split_on(v@.take(0), sep));
    }
    while i < v.len()
        invariant
            0 <= i <= v@.len(),
            char_views(out@).push(cur@) == split_on(v@.take(i as int), sep),
        decreases v@.len() - i,
    {
        let c = v[i];
        let ghost t = v@.take(i as int + 1);
        proof {
            assert(t.drop_last() =~= v@.take(i as int));
            assert(t.last() == c);
        }
        let ghost old_out = char_views(out@);
        let ghost old_cur = cur@;
        if c == sep {
            let done = cur;
            out.push(done);
            cur = Vec::new();
            proof {
                assert(char_views(out@) =~= old_out.push(old_cur));
                assert(char_views(out@).push(cur@) =~= split_on(t, sep));
            }
        } else {
            cur.push(c);
            proof {
                assert(char_views(out@) =~= old_out);
                assert(char_views(out@).push(cur@) =~= split_on(t, sep));
            }
        }
        i = i + 1;
    }
    proof {
        assert(v@.take(v@.len() as int) =~= v@);
    }
    out.push(cur);
    out
}

/// The lines of a text (split at `\n`, no empty last line).
pub fn lines_exec(v: &Vec<char>) -> (r: Vec<Vec<char>>)
    ensures
        char_views(r@) == lines_of(v@),
{
    let mut parts = split_on_exec(v, '\n');
    proof {
        lemma_split_on_nonempty(v@, '\n');
    }
    let n = parts.len();
    if parts[n - 1].len() == 0 {
        let ghost before = parts@;
        parts.pop();
        proof {
            assert(char_views(parts@) =~= char_views(before).drop_last());
        }
    }
    parts
}

/// The text without leading and trailing whitespace.
pub open spec fn trim(s: Seq<char>) -> Seq<char>
    decreases s.len(),
{
    if s.len() == 0 {
        s
    } else if is_ws(s[0]) {
        trim(s.drop_first())
    } else if is_ws(s.last()) {
        trim(s.drop_last())
    } else {
        s
    }
}

/// Strip leading and trailing whitespace.
pub fn trim_exec(v: &Vec<char>) -> (r: Vec<char>)
    ensures
        r@ == trim(v@),
{
    let mut a: usize = 0;
    let mut b: usize = v.len();
    proof {
        assert(v@.subrange(0, v@.len() as int) =~= v@);
    }
    while a < b && is_whitespace(v[a])
        invariant
            0 <= a <= b == v@.len(),
            trim(v@) == trim(v@.subrange(a as int, b as int)),
        decreases b - a,
    {
        proof {
            assert(v@.subrange(a as int, b as int).drop_first() =~= v@.subrange(a as int + 1, b as int));
        }
        a = a + 1;
    }
    while a < b && is_whitespace(v[b - 1])
        invariant
            0 <= a <= b <= v@.len(),
            trim(v@) == trim(v@.subrange(a as int, b as int)),
            a < b ==> !is_ws(v@[a as int]),
        decreases b - a,
    {
        proof {
            let w = v@.subrange(a as int, b as int);
            assert(w.drop_last() =~= v@.subrange(a as int, b as int - 1));
            assert(w[0] == v@[a as int]);
        }
        b = b - 1;
    }
    let mut r: Vec<char> = Vec::new();
    let mut k: usize = a;
    while k < b
        invariant
            a <= k <= b <= v@.len(),
            r@ == v@.subrange(a as int, k as int),
        decreases b - k,
    {
        r.push(v[k]);
        proof {
            assert(v@.subrange(a as int, k as int + 1) =~= v@.subrange(a as int, k as int).push(v@[k as int]));
        }
        k = k + 1;
    }
    proof {
        let w = v@.subrange(a as int, b as int);
        if w.len() > 0 {
            assert(w[0] == v@[a as int]);
            assert(w.last() == v@[b - 1]);
        }
    }
    r
}

/// Index of the first occurrence of `n` in `h` at or after `i`.
pub open spec fn find_from(h: Seq<char>, n: Seq<char>, i: int) -> Option<int>
    decreases h.len() + 1 - i,
{
    if i < 0 || i > h.len() {
        None
    } else if occurs_at(h, n, i) {
        Some(i)
    } else {
        find_from(h, n, i + 1)
    }
}

/// Index of the first occurrence of `n` in `h`.
pub open spec fn first_occ(h: Seq<char>, n: Seq<char>) -> Option<int> {
    find_from(h, n, 0)
}

proof fn lemma_find_from_bounds(h: Seq<char>, n: Seq<char>, i: int)
    ensures
        find_from(h, n, i) matches Some(k) ==> i <= k && occurs_at(h, n, k),
    decreases h.len() + 1 - i,
{
    if 0 <= i <= h.len() && !occurs_at(h, n, i) {
        lemma_find_from_bounds(h, n, i + 1);
    }
}

/// The first index at which `n` occurs in `h`.
pub fn find_sub(h: &Vec<char>, n: &Vec<char>) -> (r: Option<usize>)
    ensures
        match r {
            Some(i) => first_occ(h@, n@) == Some(i as int),
            None => first_occ(h@, n@) is None,
        },
        r matches Some(i) ==> occurs_at(h@, n@, i as int),
{
    let mut i: usize = 0;
    while i < h.len()
        invariant
            0 <= i <= h@.len(),
            first_occ(h@, n@) == find_from(h@, n@, i as int),
        decreases h@.len() - i,
    {
        if crate::text::matches_at(h, n, i) {
            return Some(i);
        }
        i = i + 1;
    }
    if crate::text::matches_at(h, n, i) {
        return Some(i);
    }
    proof {
        assert(find_from(h@, n@, i as int + 1) is None);
    }
    None
}

/// An ASCII decimal digit.
pub open spec fn is_digit(c: char) -> bool {
    '0' <= c && c <= '9'
}

/// Every character is an ASCII digit.
pub open spec fn all_digits(s: Seq<char>) -> bool {
    forall|k: int| 0 <= k < s.len() ==> is_digit(#[trigger] s[k])
}

/// The value of a string of decimal digits.
pub open spec fn digits_val(s: Seq<char>) -> nat
    decreases s.len(),
{
    if s.len() == 0 {
        0
    } else {
        digits_val(s.drop_last()) * 10 + ((s.last() as int - '0' as int) as nat)
    }
}

/// The first three digits of a fraction, padded with zeros.
pub open spec fn frac3(f: Seq<char>) -> nat {
    digits_val((f + seq!['0', '0', '0']).take(3))
}

/// A decimal number (`12`, `12.5`, `.5`, `12.`) in thousandths, fraction
/// truncated to three digits; `None` for anything else.
pub open spec fn decimal_th(s: Seq<char>) -> Option<nat> {
    match first_occ(s, seq!['.']) {
        None => if s.len() >= 1 && all_digits(s) { Some(digits_val(s) * 1000) } else { None },
        Some(i) => {
            let ip = s.take(i);
            let fp = s.skip(i + 1);
            if all_digits(ip) && all_digits(fp) && ip.len() + fp.len() >= 1 {
                Some(digits_val(ip) * 1000 + frac3(fp))
            } else {
                None
            }
        },
    }
}

proof fn lemma_digits_prefix(s: Seq<char>, k: int)
    requires
        0 <= k <= s.len(),
        all_digits(s),
    ensures
        digits_val(s.take(k)) <= digits_val(s),
    decreases s.len() - k,
{
    if k < s.len() {
        lemma_digits_prefix(s, k + 1);
        assert(s.take(k + 1).drop_last() =~= s.take(k));
        assert(s.take(k + 1).last() == s[k]);
    } else {
        assert(s.take(k) =~= s);
    }
}

/// The value of the digits `v[lo..hi]`, or `None` when it exceeds `u64`.
fn digits_value(v: &Vec<char>, lo: usize, hi: usize) -> (r: Option<u64>)
    requires
        lo <= hi <= v@.len(),
        all_digits(v@.subrange(lo as int, hi as int)),
    ensures
        match r {
            Some(x) => x == digits_val(v@.subrange(lo as int, hi as int)),
            None => digits_val(v@.subrange(lo as int, hi as int)) > u64::MAX,
        },
{
    let ghost s = v@.subrange(lo as int, hi as int);
    let mut acc: u64 = 0;
    let mut k: usize = lo;
    while k < hi
        invariant
            lo <= k <= hi <= v@.len(),
            s == v@.subrange(lo as int, hi as int),
            all_digits(s),
            acc == digits_val(s.take(k - lo)),
        decreases hi - k,
    {
        proof {
            assert(s.take(k - lo + 1).drop_last() =~= s.take(k - lo));
            assert(s.take(k - lo + 1).last() == v@[k as int]);
            assert(is_digit(s[k - lo]));
            lemma_digits_prefix(s, k - lo + 1);
        }
        let d = v[k];
        let dv: u64 = (d as u32 - '0' as u32) as u64;
        let t = acc.checked_mul(10);
        match t {
            None => {
                return None;
            },
            Some(t) => {
                let u = t.checked_add(dv);
                match u {
                    None => {
                        return None;
                    },
                    Some(u) => {
                        acc = u;
                    },
                }
            },
        }
        k = k + 1;
    }
    proof {
        assert(s.take(hi - lo) =~= s);
    }
    Some(acc)
}

fn all_digits_in(v: &Vec<char>, lo: usize, hi: usize) -> (r: bool)
    requires
        lo <= hi <= v@.len(),
    ensures
        r == all_digits(v@.subrange(lo as int, hi as int)),
{
    let mut k: usize = lo;
    while k < hi
        invariant
            lo <= k <= hi <= v@.len(),
            forall|m: int| lo <= m < k ==> is_digit(#[trigger] v@[m]),
        decreases hi - k,
    {
        if !('0' <= v[k] && v[k] <= '9') {
            proof {
                assert(!is_digit(v@.subrange(lo as int, hi as int)[k - lo]));
            }
            return false;
        }
        k = k + 1;
    }
    proof {
        assert forall|m: int| 0 <= m < hi - lo implies is_digit(#[trigger] v@.subrange(lo as int, hi as int)[m]) by {
            assert(v@.subrange(lo as int, hi as int)[m] == v@[lo + m]);
        }
    }
    true
}

/// A decimal number in thousandths; `None` when malformed or beyond `u64`.
pub fn parse_decimal(v: &Vec<char>) -> (r: Option<u64>)
    ensures
        match r {
            Some(x) => decimal_th(v@) == Some(x as nat),
            None => decimal_th(v@) matches None || decimal_th(v@).unwrap() > u64::MAX,
        },
{
    let dot = vec!['.'];
    proof {
        assert(dot@ =~= seq!['.']);
    }
    let n = v.len();
    match find_sub(v, &dot) {
        None => {
            proof {
                assert(v@.subrange(0, n as int) =~= v@);
            }
            if n >= 1 && all_digits_in(v, 0, n) {
                match digits_value(v, 0, n) {
                    None => None,
                    Some(x) => x.checked_mul(1000),
                }
            } else {
                None
            }
        },
        Some(i) => {
            proof {
                assert(v@.subrange(0, i as int) =~= v@.take(i as int));
                assert(v@.subrange(i as int + 1, n as int) =~= v@.skip(i as int + 1));
            }
            if !(all_digits_in(v, 0, i) && all_digits_in(v, i + 1, n) && (i >= 1 || i + 1 < n)) {
                return None;
            }
            let ip = digits_value(v, 0, i);
            // the first three fraction digits, zero padded
            let mut frac: u64 = 0;
            let mut k: usize = 0;
            let ghost fp = v@.skip(i as int + 1);
            let ghost padded = (fp + seq!['0', '0', '0']).take(3);
            proof {
                assert forall|m: int| 0 <= m < 3 implies is_digit(#[trigger] padded[m]) by {
                    if m < fp.len() {
                        assert(padded[m] == fp[m]);
                    }
                }
            }
            while k < 3
                invariant
                    0 <= k <= 3,
                    i + 1 <= n == v@.len(),
                    fp == v@.skip(i as int + 1),
                    padded == (fp + seq!['0', '0', '0']).take(3),
                    all_digits(padded),
                    frac == digits_val(padded.take(k as int)),
                    k == 0 ==> frac == 0,
                    k == 1 ==> frac < 10,
                    k == 2 ==> frac < 100,
                decreases 3 - k,
            {
                let c = if k < n - (i + 1) { v[i + 1 + k] } else { '0' };
                proof {
                    assert(padded.take(k as int + 1).drop_last() =~= padded.take(k as int));
                    assert(padded.take(k as int + 1).last() == padded[k as int]);
                    if (k as int) < fp.len() {
                        assert(padded[k as int] == fp[k as int]);
                    } else {
                        assert(padded[k as int] == '0');
                    }
                    assert(is_digit(padded[k as int]));
                }
                frac = frac * 10 + (c as u32 - '0' as u32) as u64;
                k = k + 1;
            }
            proof {
                assert(padded.take(3) =~= padded);
            }
            match ip {
                None => {
                    None
                },
                Some(x) => {
                    match x.checked_mul(1000) {
                        None => None,
                        Some(y) => y.checked_add(frac),
                    }
                },
            }
        },
    }
}

/// Commas read as decimal points.
pub open spec fn comma_to_dot(s: Seq<char>) -> Seq<char> {
    s.map_values(|c: char| if c == ',' { '.' } else { c })
}

/// A caption time in ms: `H:M:S`, `M:S`, or, when `plain_ok`, a bare
/// number of seconds; each field a decimal number, `,` read as `.`.
pub open spec fn ts_ms(s: Seq<char>, plain_ok: bool) -> Option<nat> {
    let t = comma_to_dot(s);
    let p = split_on(t, ':');
    if p.len() == 3 {
        match (decimal_th(p[0]), decimal_th(p[1]), decimal_th(p[2])) {
            (Some(h), Some(m), Some(x)) => Some(h * 3600 + m * 60 + x),
            _ => None,
        }
    } else if p.len() == 2 {
        match (decimal_th(p[0]), decimal_th(p[1])) {
            (Some(m), Some(x)) => Some(m * 60 + x),
            _ => None,
        }
    } else if p.len() == 1 && plain_ok {
        decimal_th(t)
    } else {
        None
    }
}

/// A caption time in ms (see `ts_ms`); `None` when malformed or beyond `u64`.
pub fn parse_ts(v: &Vec<char>, plain_ok: bool) -> (r: Option<u64>)
    ensures
        match r {
            Some(x) => ts_ms(v@, plain_ok) == Some(x as nat),
            None => ts_ms(v@, plain_ok) matches None || ts_ms(v@, plain_ok).unwrap() > u64::MAX,
        },
{
    let mut t: Vec<char> = Vec::new();
    let mut i: usize = 0;
    while i < v.len()
        invariant
            0 <= i <= v@.len(),
            t@ == comma_to_dot(v@.take(i as int)),
        decreases v@.len() - i,
    {
        let c = if v[i] == ',' { '.' } else { v[i] };
        t.push(c);
        proof {
            assert(comma_to_dot(v@.take(i as int + 1)) =~= comma_to_dot(v@.take(i as int)).push(c));
        }
        i = i + 1;
    }
    proof {
        assert(v@.take(v@.len() as int) =~= v@);
    }
    let p = split_on_exec(&t, ':');
    proof {
        assert(p@.len() == split_on(t@, ':').len());
        assert forall|k: int| 0 <= k < p@.len() implies (#[trigger] p@[k])@ == split_on(t@, ':')[k] by {
            assert(char_views(p@)[k] == p@[k]@);
        }
    }
    if p.len() == 3 {
        let h = parse_decimal(&p[0]);
        let m = parse_decimal(&p[1]);
        let x = parse_decimal(&p[2]);
        match (h, m, x) {
            (Some(h), Some(m), Some(x)) => {
                let a = h.checked_mul(3600);
                let b = m.checked_mul(60);
                match (a, b) {
                    (Some(a), Some(b)) => {
                        let ab = a.checked_add(b);
                        match ab {
                            Some(ab) => ab.checked_add(x),
                            None => None,
                        }
                    },
                    _ => None,
                }
            },
            _ => None,
        }
    } else if p.len() == 2 {
        let m = parse_decimal(&p[0]);
        let x = parse_decimal(&p[1]);
        match (m, x) {
            (Some(m), Some(x)) => {
                match m.checked_mul(60) {
                    Some(b) => b.checked_add(x),
                    None => None,
                }
            },
            _ => None,
        }
    } else if p.len() == 1 && plain_ok {
        parse_decimal(&t)
    } else {
        None
    }
}

/// The parts of a text joined by single spaces.
pub open spec fn join_sp(parts: Seq<Seq<char>>) -> Seq<char>
    decreases parts.len(),
{
    if parts.len() == 0 {
        Seq::empty()
    } else if parts.len() == 1 {
        parts[0]
    } else {
        join_sp(parts.drop_last()) + seq![' '] + parts.last()
    }
}

/// Joining non-empty words gives a non-empty text.
pub proof fn lemma_join_nonempty(parts: Seq<Seq<char>>)
    requires
        parts.len() >= 1,
        parts[0].len() >= 1,
    ensures
        join_sp(parts).len() >= 1,
    decreases parts.len(),
{
    if parts.len() > 1 {
        lemma_join_nonempty(parts.drop_last());
    }
}

/// Join texts with single spaces.
pub fn join_space(parts: &Vec<Vec<char>>, from: usize) -> (r: Vec<char>)
    requires
        from <= parts@.len(),
    ensures
        r@ == join_sp(char_views(parts@).skip(from as int)),
{
    let mut r: Vec<char> = Vec::new();
    let mut i: usize = from;
    while i < parts.len()
        invariant
            from <= i <= parts@.len(),
            r@ == join_sp(char_views(parts@).subrange(from as int, i as int)),
        decreases parts@.len() - i,
    {
        let ghost before = r@;
        proof {
            let t = char_views(parts@).subrange(from as int, i as int + 1);
            assert(t.drop_last() =~= char_views(parts@).subrange(from as int, i as int));
            assert(t.last() == parts@[i as int]@);
        }
        if i > from {
            r.push(' ');
        }
        let p = &parts[i];
        let mut k: usize = 0;
        let ghost mid = r@;
        while k < p.len()
            invariant
                0 <= k <= p@.len(),
                r@ == mid + p@.take(k as int),
            decreases p@.len() - k,
        {
            r.push(p[k]);
            proof {
                assert(p@.take(k as int + 1) =~= p@.take(k as int).push(p@[k as int]));
            }
            k = k + 1;
        }
        proof {
            assert(p@.take(p@.len() as int) =~= p@);
            if i == from {
                assert(before =~= Seq::<char>::empty());
                assert(r@ =~= p@);
            } else {
                assert(r@ =~= before + seq![' '] + p@);
            }
        }
        i = i + 1;
    }
    proof {
        assert(char_views(parts@).subrange(from as int, parts@.len() as int) =~= char_views(parts@).skip(from as int));
    }
    r
}

/// The separator of caption timings.
pub open spec fn arrow() -> Seq<char> {
    seq!['-', '-', '>']
}

/// Index of the first line, at or after `k`, that holds `-->`.
pub open spec fn find_timing(ls: Seq<Seq<char>>, k: int) -> Option<int>
    decreases ls.len() - k,
{
    if k < 0 || k >= ls.len() {
        None
    } else if first_occ(ls[k], arrow()) is Some {
        Some(k)
    } else {
        find_timing(ls, k + 1)
    }
}

/// Index of the timing line: the first line that holds `-->`, else `dflt`.
pub open spec fn timing_index(ls: Seq<Seq<char>>, dflt: int) -> int {
    match find_timing(ls, 0) {
        Some(k) => k,
        None => dflt,
    }
}

proof fn lemma_find_timing_bounds(ls: Seq<Seq<char>>, k: int)
    ensures
        find_timing(ls, k) matches Some(j) ==> k <= j < ls.len(),
    decreases ls.len() - k,
{
    if 0 <= k < ls.len() && !(first_occ(ls[k], arrow()) is Some) {
        lemma_find_timing_bounds(ls, k + 1);
    }
}

fn arrow_exec() -> (r: Vec<char>)
    ensures
        r@ == arrow(),
{
    let r = vec!['-', '-', '>'];
    proof {
        assert(r@ =~= arrow());
    }
    r
}

fn timing_line(ls: &Vec<Vec<char>>, dflt: usize) -> (r: usize)
    ensures
        r == timing_index(char_views(ls@), dflt as int),
{
    let a = arrow_exec();
    let mut k: usize = 0;
    while k < ls.len()
        invariant
            0 <= k <= ls@.len(),
            a@ == arrow(),
            find_timing(char_views(ls@), 0) == find_timing(char_views(ls@), k as int),
        decreases ls@.len() - k,
    {
        proof {
            assert(char_views(ls@)[k as int] == ls@[k as int]@);
        }
        if find_sub(&ls[k], &a).is_some() {
            return k;
        }
        k = k + 1;
    }
    dflt
}

/// The first word of a text, or the empty text.
pub open spec fn first_word(s: Seq<char>) -> Seq<char> {
    if words(s).len() > 0 { words(s)[0] } else { Seq::empty() }
}

fn first_word_exec(v: &Vec<char>) -> (r: Vec<char>)
    ensures
        r@ == first_word(v@),
{
    let ws = split_words(v);
    if ws.len() > 0 {
        let mut w = ws;
        let ghost wv = w@;
        let x = w.swap_remove(0);
        proof {
            assert(x == wv[0]);
        }
        x
    } else {
        Vec::new()
    }
}

/// A time that fits the library's `u64` milliseconds.
pub open spec fn fits(t: Option<nat>) -> bool {
    t matches Some(x) && x <= u64::MAX
}

/// Lines trimmed, empty ones dropped.
pub open spec fn trimmed_lines(ls: Seq<Seq<char>>) -> Seq<Seq<char>>
    decreases ls.len(),
{
    if ls.len() == 0 {
        Seq::empty()
    } else {
        let p = trimmed_lines(ls.drop_last());
        if trim(ls.last()).len() > 0 { p.push(trim(ls.last())) } else { p }
    }
}

/// The cue of one SRT block as the filler detector reads it: trimmed
/// non-empty lines, at least two; the timing line is the first holding
/// `-->` (else the first line); the text is the following lines joined by spaces.
pub open spec fn filler_block_cue(b: Seq<char>) -> Option<(nat, nat, Seq<char>)> {
    let ls = trimmed_lines(lines_of(b));
    if ls.len() < 2 {
        None
    } else {
        let idx = timing_index(ls, 0);
        let tl = ls[idx];
        match first_occ(tl, arrow()) {
            None => None,
            Some(o) => {
                let st = ts_ms(trim(tl.take(o)), false);
                let en = ts_ms(first_word(tl.skip(o + 3)), false);
                if fits(st) && fits(en) {
                    Some((st.unwrap(), en.unwrap(), join_sp(ls.skip(idx + 1))))
                } else {
                    None
                }
            },
        }
    }
}

/// The cue of one block as the transcript importer reads it: the block
/// trimmed and non-empty, at least two lines; the timing line is the first
/// holding `-->` (else the second line); each side's first word is a time;
/// at least one text line follows, joined by spaces.
pub open spec fn transcript_block_cue(b: Seq<char>) -> Option<(nat, nat, Seq<char>)> {
    let tb = trim(b);
    let ls = lines_of(tb);
    if tb.len() == 0 || ls.len() < 2 {
        None
    } else {
        let idx = timing_index(ls, 1);
        let tl = ls[idx];
        match first_occ(tl, arrow()) {
            None => None,
            Some(o) => {
                let rest = tl.skip(o + 3);
                let second = match first_occ(rest, arrow()) {
                    Some(o2) => rest.take(o2),
                    None => rest,
                };
                let st = ts_ms(first_word(tl.take(o)), true);
                let en = ts_ms(first_word(second), true);
                if words(tl.take(o)).len() > 0 && words(second).len() > 0 && fits(st) && fits(en)
                    && ls.len() > idx + 1 {
                    Some((st.unwrap(), en.unwrap(), join_sp(ls.skip(idx + 1))))
                } else {
                    None
                }
            },
        }
    }
}

/// The cues of the blocks, in order, for the given reader.
pub open spec fn block_cues(bs: Seq<Seq<char>>, transcript: bool) -> Seq<(nat, nat, Seq<char>)>
    decreases bs.len(),
{
    if bs.len() == 0 {
        Seq::empty()
    } else {
        let p = block_cues(bs.drop_last(), transcript);
        let c = if transcript { transcript_block_cue(bs.last()) } else { filler_block_cue(bs.last()) };
        match c {
            Some(x) => p.push(x),
            None => p,
        }
    }
}

/// The cues of an SRT text for the given reader.
pub open spec fn srt_cues(text: Seq<char>, transcript: bool) -> Seq<(nat, nat, Seq<char>)> {
    block_cues(split_blocks(crlf(text)), transcript)
}

/// The characters `v[lo..hi]`.
pub fn sub_chars(v: &Vec<char>, lo: usize, hi: usize) -> (r: Vec<char>)
    requires
        lo <= hi <= v@.len(),
    ensures
        r@ == v@.subrange(lo as int, hi as int),
{
    let mut r: Vec<char> = Vec::new();
    let mut k: usize = lo;
    while k < hi
        invariant
            lo <= k <= hi <= v@.len(),
            r@ == v@.subrange(lo as int, k as int),
        decreases hi - k,
    {
        r.push(v[k]);
        proof {
            assert(v@.subrange(lo as int, k as int + 1) =~= v@.subrange(lo as int, k as int).push(v@[k as int]));
        }
        k = k + 1;
    }
    r
}

fn trimmed_nonempty_lines(b: &Vec<char>) -> (r: Vec<Vec<char>>)
    ensures
        char_views(r@) == trimmed_lines(lines_of(b@)),
{
    let raw = lines_exec(b);
    let mut ls: Vec<Vec<char>> = Vec::new();
    let mut i: usize = 0;
    while i < raw.len()
        invariant
            0 <= i <= raw@.len(),
            char_views(raw@) == lines_of(b@),
            char_views(ls@) == trimmed_lines(char_views(raw@).take(i as int)),
        decreases raw@.len() - i,
    {
        let t = trim_exec(&raw[i]);
        let ghost before = char_views(ls@);
        proof {
            let w = char_views(raw@).take(i as int + 1);
            assert(w.drop_last() =~= char_views(raw@).take(i as int));
            assert(w.last() == raw@[i as int]@);
        }
        if t.len() > 0 {
            ls.push(t);
            proof {
                assert(char_views(ls@) =~= before.push(t@));
            }
        }
        i = i + 1;
    }
    proof {
        assert(char_views(raw@).take(raw@.len() as int) =~= char_views(raw@));
    }
    ls
}

/// The cue of one SRT block as the filler detector reads it.
#[verifier::spinoff_prover]
pub fn filler_block(b: &Vec<char>) -> (r: Option<(u64, u64, Vec<char>)>)
    ensures
        match r {
            Some(c) => filler_block_cue(b@) == Some((c.0 as nat, c.1 as nat, c.2@)),
            None => filler_block_cue(b@) is None,
        },
{
    let ls = trimmed_nonempty_lines(b);
    if ls.len() < 2 {
        return None;
    }
    let idx = timing_line(&ls, 0);
    proof {
        lemma_find_timing_bounds(char_views(ls@), 0);
    }
    let tl = &ls[idx];
    proof {
        assert(char_views(ls@)[idx as int] == tl@);
    }
    let a = arrow_exec();
    match find_sub(tl, &a) {
        None => None,
        Some(o) => {
            proof {
                assert(a@.len() == 3);
                assert(occurs_at(tl@, a@, o as int));
                assert(o + 3 <= tl@.len());
            }
            assert(o + 3 <= tl.len());
            let after: usize = o + 3;
            let head = sub_chars(tl, 0, o);
            let st_text = trim_exec(&head);
            let tail = sub_chars(tl, after, tl.len());
            let en_text = first_word_exec(&tail);
            proof {
                assert(head@ =~= tl@.take(o as int));
                assert(tail@ =~= tl@.skip(o as int + 3));
            }
            let st = parse_ts(&st_text, false);
            let en = parse_ts(&en_text, false);
            match (st, en) {
                (Some(x), Some(y)) => {
                    let text = join_space(&ls, idx + 1);
                    Some((x, y, text))
                },
                _ => None,
            }
        },
    }
}

/// The cue of one block as the transcript importer reads it.
pub fn transcript_block(b: &Vec<char>) -> (r: Option<(u64, u64, Vec<char>)>)
    ensures
        match r {
            Some(c) => transcript_block_cue(b@) == Some((c.0 as nat, c.1 as nat, c.2@)),
            None => transcript_block_cue(b@) is None,
        },
{
    let tb = trim_exec(b);
    if tb.len() == 0 {
        return None;
    }
    let ls = lines_exec(&tb);
    if ls.len() < 2 {
        return None;
    }
    let idx = timing_line(&ls, 1);
    proof {
        lemma_find_timing_bounds(char_views(ls@), 0);
    }
    let tl = &ls[idx];
    proof {
        assert(char_views(ls@)[idx as int] == tl@);
    }
    let a = arrow_exec();
    match find_sub(tl, &a) {
        None => None,
        Some(o) => {
            proof {
                assert(a@.len() == 3);
                assert(occurs_at(tl@, a@, o as int));
                assert(o + 3 <= tl@.len());
            }
            let head = sub_chars(tl, 0, o);
            let rest = sub_chars(tl, o + 3, tl.len());
            proof {
                assert(head@ =~= tl@.take(o as int));
                assert(rest@ =~= tl@.skip(o as int + 3));
            }
            let second = match find_sub(&rest, &a) {
                Some(o2) => {
                    let s2 = sub_chars(&rest, 0, o2);
                    proof {
                        assert(s2@ =~= rest@.take(o2 as int));
                    }
                    s2
                },
                None => rest,
            };
            let hw = split_words(&head);
            let sw = split_words(&second);
            if hw.len() == 0 || sw.len() == 0 {
                return None;
            }
            let st_text = first_word_exec(&head);
            let en_text = first_word_exec(&second);
            let st = parse_ts(&st_text, true);
            let en = parse_ts(&en_text, true);
            match (st, en) {
                (Some(x), Some(y)) => {
                    if ls.len() > idx + 1 {
                        let text = join_space(&ls, idx + 1);
                        Some((x, y, text))
                    } else {
                        None
                    }
                },
                _ => None,
            }
        },
    }
}

/// The cues of an SRT text, for the filler detector (`transcript` false) or
/// the transcript importer (`transcript` true).
pub fn parse_cues(text: &Vec<char>, transcript: bool) -> (r: Vec<(u64, u64, Vec<char>)>)
    ensures
        r@.len() == srt_cues(text@, transcript).len(),
        forall|k: int| 0 <= k < r@.len() ==> ({
            let c = srt_cues(text@, transcript)[k];
            &&& (#[trigger] r@[k]).0 == c.0
            &&& r@[k].1 == c.1
            &&& r@[k].2@ == c.2
        }),
{
    let norm = crlf_to_lf(text);
    let blocks = split_blocks_exec(&norm);
    let ghost bs = char_views(blocks@);
    let mut r: Vec<(u64, u64, Vec<char>)> = Vec::new();
    let mut i: usize = 0;
    while i < blocks.len()
        invariant
            0 <= i <= blocks@.len(),
            bs == char_views(blocks@),
            bs == split_blocks(crlf(text@)),
            r@.len() == block_cues(bs.take(i as int), transcript).len(),
            forall|k: int| 0 <= k < r@.len() ==> ({
                let c = block_cues(bs.take(i as int), transcript)[k];
                &&& (#[trigger] r@[k]).0 == c.0
                &&& r@[k].1 == c.1
                &&& r@[k].2@ == c.2
            }),
        decreases blocks@.len() - i,
    {
        proof {
            assert(bs.take(i as int + 1).drop_last() =~= bs.take(i as int));
            assert(bs.take(i as int + 1).last() == blocks@[i as int]@);
        }
        let ghost old_r = r@;
        let c = if transcript { transcript_block(&blocks[i]) } else { filler_block(&blocks[i]) };
        match c {
            Some(x) => {
                r.push(x);
                proof {
                    assert forall|k: int| 0 <= k < old_r.len() implies #[trigger] r@[k] == old_r[k] by {}
                }
            },
            None => {},
        }
        i = i + 1;
    }
    proof {
        assert(bs.take(blocks@.len() as int) =~= bs);
    }
    r
}

proof fn lemma_split_no_sep(s: Seq<char>, sep: char)
    requires
        forall|k: int| 0 <= k < s.len() ==> s[k] != sep,
    ensures
        split_on(s, sep) == seq![s],
    decreases s.len(),
{
    if s.len() > 0 {
        lemma_split_no_sep(s.drop_last(), sep);
        assert(s.drop_last().push(s.last()) =~= s);
        assert(seq![s.drop_last()].update(0, s.drop_last().push(s.last())) =~= seq![s]);
    } else {
        assert(s =~= Seq::<char>::empty());
    }
}

proof fn lemma_split_after_sep(p: Seq<char>, q: Seq<char>, sep: char)
    requires
        forall|k: int| 0 <= k < q.len() ==> q[k] != sep,
    ensures
        split_on(p + seq![sep] + q, sep) == split_on(p, sep).push(q),
    decreases q.len(),
{
    lemma_split_on_nonempty(p, sep);
    if q.len() == 0 {
        let s = p + seq![sep] + q;
        assert(s.drop_last() =~= p);
        assert(s.last() == sep);
        assert(q =~= Seq::<char>::empty());
    } else {
        let q1 = q.drop_last();
        lemma_split_after_sep(p, q1, sep);
        let s = p + seq![sep] + q;
        assert(s.drop_last() =~= p + seq![sep] + q1);
        assert(s.last() == q.last());
        assert(q1.push(q.last()) =~= q);
        let sp = split_on(p, sep);
        assert(sp.push(q1).update(sp.len() as int, q1.push(q.last())) =~= sp.push(q));
    }
}

/// The value of a decimal digit.
pub open spec fn digit_value(c: char) -> int {
    c as int - '0' as int
}

proof fn lemma_digits_val_push(s: Seq<char>, c: char)
    requires
        is_digit(c),
    ensures
        digits_val(s.push(c)) == digits_val(s) * 10 + digit_value(c),
{
    assert(s.push(c).drop_last() =~= s);
    assert(s.push(c).last() == c);
}

proof fn lemma_two_digits_val(a: char, b: char)
    requires
        is_digit(a) && is_digit(b),
    ensures
        digits_val(seq![a, b]) == 10 * digit_value(a) + digit_value(b),
{
    let e = Seq::<char>::empty();
    assert(digits_val(e) == 0);
    lemma_digits_val_push(e, a);
    assert(e.push(a) =~= seq![a]);
    lemma_digits_val_push(seq![a], b);
    assert(seq![a].push(b) =~= seq![a, b]);
}

proof fn lemma_two_digits(a: char, b: char)
    requires
        is_digit(a) && is_digit(b),
    ensures
        decimal_th(seq![a, b]) == Some(((10 * digit_value(a) + digit_value(b)) * 1000) as nat),
{
    let s = seq![a, b];
    let dot = seq!['.'];
    assert(!occurs_at(s, dot, 0)) by { assert(s.subrange(0, 1)[0] == a); }
    assert(!occurs_at(s, dot, 1)) by { assert(s.subrange(1, 2)[0] == b); }
    assert(!occurs_at(s, dot, 2));
    assert(find_from(s, dot, 3) is None);
    assert(find_from(s, dot, 2) is None);
    assert(find_from(s, dot, 1) is None);
    assert(first_occ(s, dot) is None);
    assert(all_digits(s));
    lemma_two_digits_val(a, b);
}

proof fn lemma_seconds_field(a: char, b: char, f1: char, f2: char, f3: char)
    requires
        is_digit(a) && is_digit(b) && is_digit(f1) && is_digit(f2) && is_digit(f3),
    ensures
        decimal_th(seq![a, b, '.', f1, f2, f3]) == Some(((10 * digit_value(a) + digit_value(b)) * 1000
            + 100 * digit_value(f1) + 10 * digit_value(f2) + digit_value(f3)) as nat),
{
    let s = seq![a, b, '.', f1, f2, f3];
    let dot = seq!['.'];
    assert(!occurs_at(s, dot, 0)) by { assert(s.subrange(0, 1)[0] == a); }
    assert(!occurs_at(s, dot, 1)) by { assert(s.subrange(1, 2)[0] == b); }
    assert(occurs_at(s, dot, 2)) by { assert(s.subrange(2, 3) =~= dot); }
    assert(find_from(s, dot, 2) == Some(2int));
    assert(find_from(s, dot, 1) == Some(2int));
    assert(first_occ(s, dot) == Some(2int));
    let ip = s.take(2);
    let fp = s.skip(3);
    assert(ip =~= seq![a, b]);
    assert(fp =~= seq![f1, f2, f3]);
    assert(all_digits(ip));
    assert(all_digits(fp));
    lemma_two_digits_val(a, b);
    let f = (fp + seq!['0', '0', '0']).take(3);
    assert(f =~= seq![f1, f2, f3]);
    lemma_two_digits_val(f1, f2);
    lemma_digits_val_push(seq![f1, f2], f3);
    assert(seq![f1, f2].push(f3) =~= f);
    assert(frac3(fp) == 100 * digit_value(f1) + 10 * digit_value(f2) + digit_value(f3));
}

/// An SRT time `HH:MM:SS,mmm` (two digits each for hours, minutes and
/// seconds, three for milliseconds) is ((HH·60 + MM)·60 + SS)·1000 + mmm
/// milliseconds: one more minute is 60 000 ms more, one more hour
/// 3 600 000 ms more.
pub proof fn lemma_srt_time_value(
    h1: char, h2: char, m1: char, m2: char, s1: char, s2: char, f1: char, f2: char, f3: char, plain_ok: bool,
)
    requires
        is_digit(h1) && is_digit(h2) && is_digit(m1) && is_digit(m2) && is_digit(s1) && is_digit(s2),
        is_digit(f1) && is_digit(f2) && is_digit(f3),
    ensures
        ts_ms(seq![h1, h2, ':', m1, m2, ':', s1, s2, ',', f1, f2, f3], plain_ok) == Some(
            ((((10 * digit_value(h1) + digit_value(h2)) * 60 + 10 * digit_value(m1) + digit_value(m2)) * 60
                + 10 * digit_value(s1) + digit_value(s2)) * 1000
                + 100 * digit_value(f1) + 10 * digit_value(f2) + digit_value(f3)) as nat),
{
    let s = seq![h1, h2, ':', m1, m2, ':', s1, s2, ',', f1, f2, f3];
    let t = comma_to_dot(s);
    let hh = seq![h1, h2];
    let mm = seq![m1, m2];
    let ss = seq![s1, s2, '.', f1, f2, f3];
    assert(t =~= hh + seq![':'] + mm + seq![':'] + ss);
    lemma_split_no_sep(hh, ':');
    lemma_split_after_sep(hh, mm, ':');
    lemma_split_after_sep(hh + seq![':'] + mm, ss, ':');
    assert(split_on(t, ':') =~= seq![hh, mm, ss]);
    lemma_two_digits(h1, h2);
    lemma_two_digits(m1, m2);
    lemma_seconds_field(s1, s2, f1, f2, f3);
}

} // verus!
