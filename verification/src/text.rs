//! Text helpers: characters, whitespace, decimal numbers.
use vstd::prelude::*;

verus! {

/// Unicode `White_Space` characters (what `char::is_whitespace` tests).
pub open spec fn is_ws(c: char) -> bool {
    ||| ('\u{9}' <= c && c <= '\u{d}')
    ||| c == ' '
    ||| c == '\u{85}'
    ||| c == '\u{a0}'
    ||| c == '\u{1680}'
    ||| ('\u{2000}' <= c && c <= '\u{200a}')
    ||| c == '\u{2028}'
    ||| c == '\u{2029}'
    ||| c == '\u{202f}'
    ||| c == '\u{205f}'
    ||| c == '\u{3000}'
}

/// Whether `c` is Unicode whitespace.
pub fn is_whitespace(c: char) -> (r: bool)
    ensures
        r == is_ws(c),
{
    ('\u{9}' <= c && c <= '\u{d}') || c == ' ' || c == '\u{85}' || c == '\u{a0}' || c
        == '\u{1680}' || ('\u{2000}' <= c && c <= '\u{200a}') || c == '\u{2028}' || c
        == '\u{2029}' || c == '\u{202f}' || c == '\u{205f}' || c == '\u{3000}'
}

/// What `char::is_alphanumeric` answers for a character (Unicode Alphabetic or Numeric).
pub uninterp spec fn alnum(c: char) -> bool;

/// What `char::is_alphabetic` answers for a character (Unicode Alphabetic).
pub uninterp spec fn alpha(c: char) -> bool;

/// What `str::to_lowercase` returns for a text.
pub uninterp spec fn lowercase(s: Seq<char>) -> Seq<char>;

/// `char::is_alphanumeric`: the result is the named Unicode property of `c`.
#[verifier::external_body]
pub fn is_alphanumeric(c: char) -> (r: bool)
    ensures
        r == alnum(c),
{
    c.is_alphanumeric()
}

/// `char::is_alphabetic`: the result is the named Unicode property of `c`.
#[verifier::external_body]
pub fn is_alphabetic(c: char) -> (r: bool)
    ensures
        r == alpha(c),
{
    c.is_alphabetic()
}

/// Every character is ASCII.
pub open spec fn all_ascii(s: Seq<char>) -> bool {
    forall|i: int| 0 <= i < s.len() ==> (#[trigger] s[i]) as u32 <= 0x7f
}

/// An ASCII letter in lower case; any other character as it is.
pub open spec fn ascii_lower_char(c: char) -> char {
    if 'A' <= c && c <= 'Z' { ((c as u32) + 32) as char } else { c }
}

/// A text with its ASCII capitals in lower case.
pub open spec fn ascii_lower(s: Seq<char>) -> Seq<char> {
    s.map_values(|c: char| ascii_lower_char(c))
}

/// `str::to_lowercase`: the result is the named lowercase mapping of the
/// text; on ASCII text it lowers the capitals A-Z and keeps every other
/// character (the Unicode lowercase mapping restricted to ASCII, as std
/// documents next to `to_ascii_lowercase`).
#[verifier::external_body]
pub fn to_lowercase(s: &str) -> (r: String)
    ensures
        r@ == lowercase(s@),
        all_ascii(s@) ==> r@ == ascii_lower(s@),
{
    s.to_lowercase()
}

/// `String::push`: appends one character.
#[verifier::external_body]
pub fn push_char(s: &mut String, c: char)
    ensures
        final(s)@ == old(s)@.push(c),
{
    s.push(c)
}

/// The characters of a text.
pub fn to_chars(s: &str) -> (r: Vec<char>)
    ensures
        r@ == s@,
{
    broadcast use vstd::string::group_string_axioms;
    let mut r: Vec<char> = Vec::new();
    for c in it: s.chars()
        invariant
            it.seq() == s@,
            r@ == s@.take(it.index() as int),
    {
        r.push(c);
    }
    r
}

/// A text made of the given characters.
pub fn from_chars(v: &Vec<char>) -> (s: String)
    ensures
        s@ == v@,
{
    let mut s = String::new();
    let mut i: usize = 0;
    while i < v.len()
        invariant
            0 <= i <= v.len(),
            s@ == v@.take(i as int),
        decreases v.len() - i,
    {
        push_char(&mut s, v[i]);
        proof {
            assert(v@.take(i as int + 1) =~= v@.take(i as int).push(v@[i as int]));
        }
        i = i + 1;
    }
    proof {
        assert(v@.take(v@.len() as int) =~= v@);
    }
    s
}

/// The decimal digit character for `d < 10`.
pub open spec fn digit(d: int) -> char {
    if d == 0 { '0' } else if d == 1 { '1' } else if d == 2 { '2' } else if d == 3 { '3' }
    else if d == 4 { '4' } else if d == 5 { '5' } else if d == 6 { '6' } else if d == 7 { '7' }
    else if d == 8 { '8' } else { '9' }
}

/// Decimal notation of a natural number, without leading zeros.
pub open spec fn dec(n: nat) -> Seq<char>
    decreases n,
{
    if n < 10 {
        seq![digit(n as int)]
    } else {
        dec(n / 10).push(digit((n % 10) as int))
    }
}

/// Decimal notation padded with zeros to at least two digits.
pub open spec fn dec2(n: nat) -> Seq<char> {
    if n < 10 { seq!['0', digit(n as int)] } else { dec(n) }
}

pub fn digit_char(d: u64) -> (c: char)
    requires
        d < 10,
    ensures
        c == digit(d as int),
{
    if d == 0 { '0' } else if d == 1 { '1' } else if d == 2 { '2' } else if d == 3 { '3' }
    else if d == 4 { '4' } else if d == 5 { '5' } else if d == 6 { '6' } else if d == 7 { '7' }
    else if d == 8 { '8' } else { '9' }
}

/// Append the decimal notation of `n`.
pub fn push_dec(s: &mut String, n: u64)
    ensures
        final(s)@ == old(s)@ + dec(n as nat),
    decreases n,
{
    if n < 10 {
        push_char(s, digit_char(n));
        proof {
            assert(old(s)@.push(digit(n as int)) =~= old(s)@ + seq![digit(n as int)]);
        }
    } else {
        push_dec(s, n / 10);
        let ghost mid = s@;
        push_char(s, digit_char(n % 10));
        proof {
            assert(s@ =~= old(s)@ + dec((n / 10) as nat).push(digit((n % 10) as int)));
        }
    }
}

/// Append the decimal notation of `n`, zero-padded to two digits.
pub fn push_dec2(s: &mut String, n: u64)
    ensures
        final(s)@ == old(s)@ + dec2(n as nat),
{
    if n < 10 {
        push_char(s, '0');
        push_char(s, digit_char(n));
        proof {
            assert(s@ =~= old(s)@ + seq!['0', digit(n as int)]);
        }
    } else {
        push_dec(s, n);
    }
}

/// Append a text.
pub fn push_str(s: &mut String, t: &str)
    ensures
        final(s)@ == old(s)@ + t@,
{
    s.append(t);
}

/// `n / d` rounded to a whole number, halves to the even neighbour.
pub open spec fn round_half_even(n: nat, d: nat) -> nat {
    let q = n / d;
    let r = n % d;
    if 2 * r > d || (2 * r == d && q % 2 == 1) { q + 1 } else { q }
}

/// 2^52.
pub open spec fn two52() -> nat {
    0x10_0000_0000_0000
}

/// 2^53.
pub open spec fn two53() -> nat {
    0x20_0000_0000_0000
}

/// The numerator of `num / den` doubled (and the multiplier `a` with it)
/// until the quotient is at least 2^52.
pub open spec fn grow(num: nat, den: nat, a: nat) -> (nat, nat)
    decreases (if 0 < num && num < den * two52() { den * two52() - num } else { 0 }),
{
    if 0 < num && num < den * two52() {
        grow(2 * num, den, 2 * a)
    } else {
        (num, a)
    }
}

/// The denominator of `num / den` doubled (and the multiplier `b` with it)
/// until the quotient is below 2^53.
pub open spec fn shrink(num: nat, den: nat, b: nat) -> (nat, nat)
    decreases (if 0 < den && num >= den * two53() { num - den * two53() + 1 } else { 0 }),
{
    if 0 < den && num >= den * two53() {
        shrink(num, 2 * den, 2 * b)
    } else {
        (den, b)
    }
}

/// The binary64 number nearest `n / d` (ties to even), as `(m, b, a)` with
/// value `m * b / a`: `m` is the 53-bit significand that `n * a / (d * b)`
/// rounds to, the powers of two `a` and `b` bringing that quotient into
/// 2^52 .. 2^53.
pub open spec fn rn53(n: nat, d: nat) -> (nat, nat, nat) {
    let (n1, a) = grow(n, d, 1);
    let (den, b) = shrink(n1, d, 1);
    (round_half_even(n1, den), b, a)
}

/// `p` times the binary64 number nearest `ms / 1000` (the seconds value a
/// time in milliseconds stands for), rounded to a whole number with halves
/// to the even neighbour: the digits that `{:.k}` prints for those seconds
/// when `p` is 10^k.
pub open spec fn scaled_secs(ms: nat, p: nat) -> nat {
    let (m, b, a) = rn53(ms, 1000);
    round_half_even(p * m * b, a)
}

/// A score in thousandths as the whole percentage that `{:.0}` prints for
/// `score * 100.0`: the score is the binary64 number nearest `score / 1000`,
/// the product is rounded to binary64, and the result to a whole number with
/// halves to the even neighbour.
pub open spec fn pct(score: u32) -> nat {
    pct_of(score as nat)
}

/// A value in thousandths as the whole percentage that `{:.0}` prints for
/// `value * 100.0` (see `pct`).
pub open spec fn pct_of(x: nat) -> nat {
    let (m, b, a) = rn53(x, 1000);
    let (m2, b2, a2) = rn53(100 * m * b, a);
    round_half_even(m2 * b2, a2)
}

/// Milliseconds as seconds with two decimals, as `{:.2}` prints them.
pub open spec fn secs2(ms: u64) -> Seq<char> {
    let c = scaled_secs(ms as nat, 100);
    dec(c / 100) + seq!['.'] + dec2(c % 100)
}

/// Milliseconds as seconds with one decimal, as `{:.1}` prints them.
pub open spec fn secs1(ms: u64) -> Seq<char> {
    let d = scaled_secs(ms as nat, 10);
    dec(d / 10) + seq!['.'] + dec(d % 10)
}

fn round_half_even_exec(n: u128, d: u128) -> (r: u128)
    requires
        d > 0,
    ensures
        r == round_half_even(n as nat, d as nat),
        r <= n / d + 1,
{
    let q = n / d;
    let r = n % d;
    if (r > d - r) || (r == d - r && q % 2 == 1) {
        assert(r > 0);
        assert(q <= n / 2) by {
            vstd::arithmetic::div_mod::lemma_div_is_ordered_by_denominator(n as int, 2, d as int);
        }
        q + 1
    } else {
        q
    }
}

/// The binary64 number nearest `n / d` (see `rn53`).
fn rn53_exec(n: u128, d: u128) -> (r: (u128, u128, u128))
    requires
        1 <= d < 0x40_0000_0000_0000_0000,
        n < 0x10_0000_0000_0000_0000_0000_0000,
    ensures
        (r.0 as nat, r.1 as nat, r.2 as nat) == rn53(n as nat, d as nat),
        r.0 <= 0x20_0000_0000_0000,
        1 <= r.1 && (r.1 == 1 || r.1 <= n / 0x10_0000_0000_0000),
        1 <= r.2 && (r.2 == 1 || r.2 < d * 0x20_0000_0000_0000),
{
    let ghost g = grow(n as nat, d as nat, 1);
    let mut num: u128 = n;
    let mut a: u128 = 1;
    while 0 < num && num < d * 0x10_0000_0000_0000
        invariant
            grow(num as nat, d as nat, a as nat) == g,
            1 <= d < 0x40_0000_0000_0000_0000,
            1 <= a,
            num == 0 ==> a == 1,
            num == 0 || a <= num,
            num == n || num < d * 0x20_0000_0000_0000,
            a == 1 || num < d * 0x20_0000_0000_0000,
            n < 0x10_0000_0000_0000_0000_0000_0000,
        decreases (if 0 < num && num < d * 0x10_0000_0000_0000 { d * 0x10_0000_0000_0000 - num } else { 0 }),
    {
        num = 2 * num;
        a = 2 * a;
    }
    assert(g == (num as nat, a as nat));
    assert(a == 1 || (a <= num && num < d * 0x20_0000_0000_0000));
    let ghost h = shrink(num as nat, d as nat, 1);
    let mut den: u128 = d;
    let mut b: u128 = 1;
    while 0 < den && num >= den * 0x20_0000_0000_0000
        invariant
            shrink(num as nat, den as nat, b as nat) == h,
            1 <= d < 0x40_0000_0000_0000_0000,
            den == d * b,
            1 <= b <= den,
            b == 1 || (num == n && den <= num / 0x10_0000_0000_0000),
            1 <= a,
            a == 1 || (a <= num && num < d * 0x20_0000_0000_0000),
            num == n || num < d * 0x20_0000_0000_0000,
            n < 0x10_0000_0000_0000_0000_0000_0000,
        decreases (if 0 < den && num >= den * 0x20_0000_0000_0000 { num - den * 0x20_0000_0000_0000 + 1 } else { 0 }),
    {
        assert(num == n) by {
            if num != n {
                assert(den == d) by {
                    if b != 1 {
                        assert(num == n);
                    }
                }
            }
        }
        assert(2 * den <= num / 0x10_0000_0000_0000) by {
            vstd::arithmetic::div_mod::lemma_div_is_ordered(den * 0x20_0000_0000_0000, num as int, 0x10_0000_0000_0000);
            vstd::arithmetic::div_mod::lemma_div_multiples_vanish(2 * den as int, 0x10_0000_0000_0000);
        }
        assert(2 * den == d * (2 * b)) by (nonlinear_arith)
            requires
                den == d * b,
        ;
        den = 2 * den;
        b = 2 * b;
    }
    assert(h == (den as nat, b as nat));
    assert(num < den * 0x20_0000_0000_0000);
    assert(num / den < 0x20_0000_0000_0000) by {
        vstd::arithmetic::div_mod::lemma_multiply_divide_lt(num as int, den as int, 0x20_0000_0000_0000);
    }
    let m = round_half_even_exec(num, den);
    assert(b == 1 || b <= n / 0x10_0000_0000_0000) by {
        if b != 1 {
            vstd::arithmetic::div_mod::lemma_div_is_ordered(b as int, den as int, 1);
        }
    }
    assert(a == 1 || a < d * 0x20_0000_0000_0000);
    (m, b, a)
}

/// The digits of `ms / 1000` seconds times `p` (see `scaled_secs`).
pub fn scaled_secs_exec(ms: u64, p: u64) -> (t: u128)
    requires
        1 <= p <= 1000,
    ensures
        t == scaled_secs(ms as nat, p as nat),
{
    let (m, b, a) = rn53_exec(ms as u128, 1000);
    assert(b <= 0x1000) by {
        if b != 1 {
            vstd::arithmetic::div_mod::lemma_div_is_ordered(ms as int, 0x1_0000_0000_0000_0000, 0x10_0000_0000_0000);
        }
    }
    assert(p * m * b <= 1000 * 0x20_0000_0000_0000 * 0x1000) by (nonlinear_arith)
        requires
            p <= 1000,
            m <= 0x20_0000_0000_0000,
            b <= 0x1000,
    ;
    assert(p * m <= 1000 * 0x20_0000_0000_0000) by (nonlinear_arith)
        requires
            p <= 1000,
            m <= 0x20_0000_0000_0000,
    ;
    let pm: u128 = p as u128 * m;
    let x: u128 = pm * b;
    round_half_even_exec(x, a)
}

/// The whole seconds of a time in milliseconds as `f64::floor` gives them
/// for the binary64 number nearest `ms / 1000`.
pub open spec fn floor_secs(ms: nat) -> nat {
    let (m, b, a) = rn53(ms, 1000);
    (m * b) / a
}

/// The whole seconds of a time in milliseconds (see `floor_secs`).
pub fn floor_secs_exec(ms: u64) -> (t: u128)
    ensures
        t == floor_secs(ms as nat),
{
    let (m, b, a) = rn53_exec(ms as u128, 1000);
    assert(b <= 0x1000) by {
        if b != 1 {
            vstd::arithmetic::div_mod::lemma_div_is_ordered(ms as int, 0x1_0000_0000_0000_0000, 0x10_0000_0000_0000);
        }
    }
    assert(m * b <= 0x20_0000_0000_0000 * 0x1000) by (nonlinear_arith)
        requires
            m <= 0x20_0000_0000_0000,
            b <= 0x1000,
    ;
    (m * b) / a
}

/// The whole percentage of a value in thousandths (see `pct_of`).
pub fn pct_exec(x: u64) -> (r: u128)
    ensures
        r == pct_of(x as nat),
{
    let (m, b, a) = rn53_exec(x as u128, 1000);
    assert(b <= 0x1000) by {
        if b != 1 {
            vstd::arithmetic::div_mod::lemma_div_is_ordered(x as int, 0x1_0000_0000_0000_0000, 0x10_0000_0000_0000);
        }
    }
    assert(100 * m * b <= 100 * 0x20_0000_0000_0000 * 0x1000) by (nonlinear_arith)
        requires
            m <= 0x20_0000_0000_0000,
            b <= 0x1000,
    ;
    let hm: u128 = 100 * m;
    let (m2, b2, a2) = rn53_exec(hm * b, a);
    assert(b2 <= 0x10_0000) by {
        if b2 != 1 {
            vstd::arithmetic::div_mod::lemma_div_is_ordered((hm * b) as int, 100 * 0x20_0000_0000_0000 * 0x1000int, 0x10_0000_0000_0000);
        }
    }
    assert(m2 * b2 <= 0x20_0000_0000_0000 * 0x10_0000) by (nonlinear_arith)
        requires
            m2 <= 0x20_0000_0000_0000,
            b2 <= 0x10_0000,
    ;
    round_half_even_exec(m2 * b2, a2)
}

/// Append a value in thousandths as a whole percentage (see `pct_of`).
pub fn push_pct_of(s: &mut String, x: u64)
    ensures
        final(s)@ == old(s)@ + dec(pct_of(x as nat)),
{
    let p = pct_exec(x);
    push_dec128(s, p);
}

/// Append a number's decimal notation.
pub fn push_dec128(s: &mut String, n: u128)
    ensures
        final(s)@ == old(s)@ + dec(n as nat),
    decreases n,
{
    if n < 10 {
        push_char(s, digit_char(n as u64));
        proof {
            assert(old(s)@.push(digit(n as int)) =~= old(s)@ + seq![digit(n as int)]);
        }
    } else {
        push_dec128(s, n / 10);
        push_char(s, digit_char((n % 10) as u64));
        proof {
            assert(s@ =~= old(s)@ + dec((n / 10) as nat).push(digit((n % 10) as int)));
        }
    }
}

/// Append a score in thousandths as a whole percentage (see `pct`).
pub fn push_pct(s: &mut String, score: u32)
    ensures
        final(s)@ == old(s)@ + dec(pct(score)),
{
    let p = pct_exec(score as u64);
    push_dec128(s, p);
}

/// Append milliseconds as seconds with two decimals (see `secs2`).
pub fn push_secs2(s: &mut String, ms: u64)
    ensures
        final(s)@ == old(s)@ + secs2(ms),
{
    let c = scaled_secs_exec(ms, 100);
    push_dec128(s, c / 100);
    push_char(s, '.');
    push_dec2(s, (c % 100) as u64);
    proof {
        assert(s@ =~= old(s)@ + secs2(ms));
    }
}

/// Append milliseconds as seconds with one decimal (see `secs1`).
pub fn push_secs1(s: &mut String, ms: u64)
    ensures
        final(s)@ == old(s)@ + secs1(ms),
{
    let d = scaled_secs_exec(ms, 10);
    push_dec128(s, d / 10);
    push_char(s, '.');
    push_dec(s, (d % 10) as u64);
    proof {
        assert(s@ =~= old(s)@ + secs1(ms));
    }
}

/// `n` occurs in `h` starting at index `i`.
pub open spec fn occurs_at(h: Seq<char>, n: Seq<char>, i: int) -> bool {
    0 <= i && i + n.len() <= h.len() && h.subrange(i, i + n.len()) == n
}

/// `n` occurs somewhere in `h`.
pub open spec fn has_sub(h: Seq<char>, n: Seq<char>) -> bool {
    exists|i: int| occurs_at(h, n, i)
}

/// Whether `n` occurs in `h` at index `i`.
pub fn matches_at(h: &Vec<char>, n: &Vec<char>, i: usize) -> (r: bool)
    ensures
        r == occurs_at(h@, n@, i as int),
{
    if i > h.len() || n.len() > h.len() - i {
        return false;
    }
    let hl = h.len();
    let mut k: usize = 0;
    while k < n.len()
        invariant
            hl == h@.len(),
            i + n@.len() <= hl,
            0 <= k <= n@.len(),
            forall|m: int| 0 <= m < k ==> h@[i + m] == n@[m],
        decreases n@.len() - k,
    {
        if h[i + k] != n[k] {
            proof {
                assert(h@.subrange(i as int, i + n@.len())[k as int] != n@[k as int]);
            }
            return false;
        }
        k = k + 1;
    }
    proof {
        assert(h@.subrange(i as int, i + n@.len()) =~= n@);
    }
    true
}

/// Whether `n` occurs somewhere in `h`.
pub fn contains_sub(h: &Vec<char>, n: &Vec<char>) -> (r: bool)
    ensures
        r == has_sub(h@, n@),
{
    let mut i: usize = 0;
    while i < h.len()
        invariant
            0 <= i <= h@.len(),
            forall|j: int| 0 <= j < i ==> !occurs_at(h@, n@, j),
        decreases h@.len() - i,
    {
        if matches_at(h, n, i) {
            return true;
        }
        i = i + 1;
    }
    if matches_at(h, n, i) {
        return true;
    }
    proof {
        assert forall|j: int| !occurs_at(h@, n@, j) by {
            if 0 <= j && j + n@.len() <= h@.len() {
                assert(j <= h@.len());
            }
        }
    }
    false
}

/// Whether `h` starts with `n`.
pub fn starts_with(h: &Vec<char>, n: &Vec<char>) -> (r: bool)
    ensures
        r == occurs_at(h@, n@, 0),
{
    matches_at(h, n, 0)
}

/// Whether `h` ends with `n`.
pub fn ends_with(h: &Vec<char>, n: &Vec<char>) -> (r: bool)
    ensures
        r == (n@.len() <= h@.len() && occurs_at(h@, n@, h@.len() - n@.len())),
{
    if n.len() > h.len() {
        return false;
    }
    matches_at(h, n, h.len() - n.len())
}

/// Whether two texts are equal.
pub fn chars_eq(a: &Vec<char>, b: &Vec<char>) -> (r: bool)
    ensures
        r == (a@ == b@),
{
    if a.len() != b.len() {
        return false;
    }
    let r = matches_at(a, b, 0);
    proof {
        if r {
            assert(a@.subrange(0, a@.len() as int) =~= a@);
        } else {
            assert(a@.subrange(0, a@.len() as int) =~= a@);
        }
    }
    r
}

/// Whether two texts are equal.
pub fn str_eq(a: &str, b: &str) -> (r: bool)
    ensures
        r == (a@ == b@),
{
    let x = to_chars(a);
    let y = to_chars(b);
    chars_eq(&x, &y)
}

/// Whether `c` occurs in `h`.
pub fn has_char(h: &Vec<char>, c: char) -> (r: bool)
    ensures
        r == h@.contains(c),
{
    let mut i: usize = 0;
    while i < h.len()
        invariant
            0 <= i <= h@.len(),
            forall|j: int| 0 <= j < i ==> h@[j] != c,
        decreases h@.len() - i,
    {
        if h[i] == c {
            return true;
        }
        i = i + 1;
    }
    false
}

/// Decimal notation padded with zeros to at least three digits.
pub open spec fn dec3(n: nat) -> Seq<char> {
    if n < 10 { seq!['0', '0', digit(n as int)] } else if n < 100 { seq!['0'] + dec(n) } else { dec(n) }
}

/// Milliseconds as seconds with exactly three decimals.
pub open spec fn secs3(ms: u64) -> Seq<char> {
    dec((ms / 1000) as nat) + seq!['.'] + dec3((ms % 1000) as nat)
}

/// The digits of a fraction in thousandths (`0 < f < 1000`) without trailing zeros.
pub open spec fn frac_trimmed(f: nat) -> Seq<char> {
    if f % 100 == 0 { seq![digit((f / 100) as int)] } else if f % 10 == 0 { dec2(f / 10) } else { dec3(f) }
}

/// A value in thousandths written as the shortest decimal (no trailing zeros,
/// no decimal point for whole numbers), as a float prints.
pub open spec fn milli_text(x: i64) -> Seq<char> {
    let a: nat = if x < 0 { (-x) as nat } else { x as nat };
    (if x < 0 { seq!['-'] } else { Seq::<char>::empty() }) + dec(a / 1000)
        + (if a % 1000 == 0 { Seq::<char>::empty() } else { seq!['.'] + frac_trimmed(a % 1000) })
}

/// Append a number zero-padded to three digits.
pub fn push_dec3(s: &mut String, n: u64)
    ensures
        final(s)@ == old(s)@ + dec3(n as nat),
{
    if n < 10 {
        push_char(s, '0');
        push_char(s, '0');
        push_dec(s, n);
        proof {
            assert(s@ =~= old(s)@ + dec3(n as nat));
        }
    } else if n < 100 {
        push_char(s, '0');
        push_dec(s, n);
        proof {
            assert(s@ =~= old(s)@ + dec3(n as nat));
        }
    } else {
        push_dec(s, n);
    }
}

/// Append milliseconds as seconds with three decimals.
pub fn push_secs3(s: &mut String, ms: u64)
    ensures
        final(s)@ == old(s)@ + secs3(ms),
{
    push_dec(s, ms / 1000);
    push_char(s, '.');
    push_dec3(s, ms % 1000);
    proof {
        assert(s@ =~= old(s)@ + secs3(ms));
    }
}

/// Append a value in thousandths as the shortest decimal.
pub fn push_milli(s: &mut String, x: i64)
    requires
        x > i64::MIN,
    ensures
        final(s)@ == old(s)@ + milli_text(x),
{
    let a: u64 = if x < 0 { (-x) as u64 } else { x as u64 };
    let ghost s0 = s@;
    if x < 0 {
        push_char(s, '-');
    }
    let ghost s1 = s@;
    push_dec(s, a / 1000);
    let f = a % 1000;
    if f != 0 {
        push_char(s, '.');
        if f % 100 == 0 {
            push_char(s, digit_char(f / 100));
            proof {
                assert(seq![digit((f / 100) as int)] == frac_trimmed(f as nat));
            }
        } else if f % 10 == 0 {
            push_dec2(s, f / 10);
        } else {
            push_dec3(s, f);
        }
    }
    proof {
        assert(s@ =~= old(s)@ + milli_text(x));
    }
}

} // verus!
