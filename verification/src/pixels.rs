//! What the library reads of an image's pixels: a small gray preview for the
//! technical review, and an 8×8 gray grid for the average hash that finds
//! near duplicates.
use vstd::prelude::*;
use crate::error::AppError;
use crate::import::hex_digit;
use crate::qa::{ImageFacts, QaCheckResult, QaThresholds, SemanticHints, facts_wf, reviewed, review_image};
use crate::text::push_str;

verus! {

/// The size of the image that bytes decode to and the gray values (row by
/// row) of its preview scaled to fit 64×64, or the decoder's error message.
pub uninterp spec fn luma_preview(bytes: Seq<u8>) -> Result<(u32, u32, Seq<u8>), Seq<char>>;

/// `image::load_from_memory`, then `thumbnail(64, 64)`, `to_luma8` and
/// `into_raw`. The result, a function of the bytes alone, is named by
/// `luma_preview`; that the preview has between 1 and 4096 values follows
/// from `resize_dimensions` (each side rounded, at least 1, at most 64).
#[verifier::external_body]
fn decode_luma_preview(bytes: &[u8]) -> (r: Result<(u32, u32, Vec<u8>), String>)
    ensures
        match r {
            Ok(p) => luma_preview(bytes@) == Ok::<(u32, u32, Seq<u8>), Seq<char>>((p.0, p.1, p.2@))
                && 1 <= p.2@.len() <= 4096,
            Err(e) => luma_preview(bytes@) == Err::<(u32, u32, Seq<u8>), Seq<char>>(e@),
        },
{
    match image::load_from_memory(bytes) {
        Ok(i) => Ok((i.width(), i.height(), i.thumbnail(64, 64).to_luma8().into_raw())),
        Err(e) => Err(e.to_string()),
    }
}

/// The gray values (row by row) of an image scaled to exactly 8×8, or the
/// decoder's error message.
pub uninterp spec fn luma_grid(bytes: Seq<u8>) -> Result<Seq<u8>, Seq<char>>;

/// `image::load_from_memory`, then `resize_exact(8, 8, Triangle)`,
/// `to_luma8` and `into_raw`: 64 values. The result, a function of the
/// bytes alone, is named by `luma_grid`.
#[verifier::external_body]
fn decode_luma_grid(bytes: &[u8]) -> (r: Result<Vec<u8>, String>)
    ensures
        match r {
            Ok(g) => luma_grid(bytes@) == Ok::<Seq<u8>, Seq<char>>(g@) && g@.len() == 64,
            Err(e) => luma_grid(bytes@) == Err::<Seq<u8>, Seq<char>>(e@),
        },
{
    match image::load_from_memory(bytes) {
        Ok(i) => Ok(i.resize_exact(8, 8, image::imageops::FilterType::Triangle).to_luma8().into_raw()),
        Err(e) => Err(e.to_string()),
    }
}

/// The sum of the values.
pub open spec fn sum_of(v: Seq<u8>) -> int
    decreases v.len(),
{
    if v.len() == 0 { 0 } else { sum_of(v.drop_last()) + v.last() }
}

/// The sum of the squares of the values.
pub open spec fn sq_sum_of(v: Seq<u8>) -> int
    decreases v.len(),
{
    if v.len() == 0 { 0 } else { sq_sum_of(v.drop_last()) + v.last() * v.last() }
}

/// One hex digit of the average hash: bit `t` of nibble `j` is set when
/// value `4j + t` is at least the average.
pub open spec fn nibble(v: Seq<u8>, avg: int, j: int) -> int {
    (if v[4 * j] >= avg { 1int } else { 0 }) + (if v[4 * j + 1] >= avg { 2int } else { 0 })
        + (if v[4 * j + 2] >= avg { 4int } else { 0 }) + (if v[4 * j + 3] >= avg { 8int } else { 0 })
}

/// The average hash of an 8×8 gray grid: bit `i` set when value `i` is at
/// least the (truncated) mean, written as 16 lower-case hex digits, the
/// highest bits first.
pub open spec fn average_hash(v: Seq<u8>) -> Seq<char> {
    let avg = sum_of(v) / 64;
    Seq::new(16, |k: int| hex_digit(nibble(v, avg, 15 - k)))
}

proof fn lemma_sum_bound(v: Seq<u8>)
    ensures
        0 <= sum_of(v) <= 255 * v.len(),
        0 <= sq_sum_of(v) <= 65025 * v.len(),
    decreases v.len(),
{
    if v.len() > 0 {
        lemma_sum_bound(v.drop_last());
        let x = v.last();
        assert(x * x <= 255 * 255) by (nonlinear_arith)
            requires
                x <= 255,
        ;
        assert(0 <= x * x) by (nonlinear_arith);
        assert(sq_sum_of(v) == sq_sum_of(v.drop_last()) + x * x);
        assert(sum_of(v) == sum_of(v.drop_last()) + x);
        assert(v.drop_last().len() == v.len() - 1);
    }
}

fn sums(v: &Vec<u8>) -> (r: (u64, u64))
    requires
        v@.len() <= 4096,
    ensures
        r.0 == sum_of(v@),
        r.1 == sq_sum_of(v@),
{
    let mut s: u64 = 0;
    let mut q: u64 = 0;
    let mut i: usize = 0;
    proof {
        assert(v@.take(0) =~= Seq::<u8>::empty());
    }
    while i < v.len()
        invariant
            i <= v@.len() <= 4096,
            s == sum_of(v@.take(i as int)),
            q == sq_sum_of(v@.take(i as int)),
        decreases v@.len() - i,
    {
        let ghost t = v@.take(i as int + 1);
        proof {
            assert(t.drop_last() =~= v@.take(i as int));
            lemma_sum_bound(t);
        }
        let x = v[i] as u64;
        assert(x * x <= 65025) by (nonlinear_arith)
            requires
                x <= 255,
        ;
        proof {
            assert(t.last() == v@[i as int]);
            assert(sum_of(t) == s + x);
            assert(sq_sum_of(t) == q + x * x);
            assert(sq_sum_of(t) <= 65025 * 4096);
            assert(sum_of(t) <= 255 * 4096);
        }
        s = s + x;
        q = q + x * x;
        i = i + 1;
    }
    proof {
        assert(v@.take(v@.len() as int) =~= v@);
    }
    (s, q)
}

fn hex_char(n: u8) -> (c: char)
    requires
        n < 16,
    ensures
        c == hex_digit(n as int),
{
    if n < 10 { (n + 48) as char } else { (n + 87) as char }
}

/// The average hash of an 8×8 gray grid (see `average_hash`).
pub fn average_hash_of(v: &Vec<u8>) -> (r: String)
    requires
        v@.len() == 64,
    ensures
        r@ == average_hash(v@),
{
    let (s, _) = sums(v);
    proof {
        lemma_sum_bound(v@);
    }
    let avg: u8 = (s / 64) as u8;
    let mut r = String::new();
    let mut k: usize = 0;
    while k < 16
        invariant
            k <= 16,
            v@.len() == 64,
            avg as int == sum_of(v@) / 64,
            r@ == average_hash(v@).take(k as int),
        decreases 16 - k,
    {
        let j = 15 - k;
        let b0: u8 = if v[4 * j] >= avg { 1 } else { 0 };
        let b1: u8 = if v[4 * j + 1] >= avg { 2 } else { 0 };
        let b2: u8 = if v[4 * j + 2] >= avg { 4 } else { 0 };
        let b3: u8 = if v[4 * j + 3] >= avg { 8 } else { 0 };
        let c = hex_char(b0 + b1 + b2 + b3);
        crate::text::push_char(&mut r, c);
        proof {
            assert(average_hash(v@).take(k as int + 1) =~= average_hash(v@).take(k as int).push(average_hash(v@)[k as int]));
        }
        k = k + 1;
    }
    proof {
        assert(average_hash(v@).take(16) =~= average_hash(v@));
    }
    r
}

/// The average hash of the image that bytes decode to, or the decoder's message.
pub fn perceptual_hash(bytes: &Vec<u8>) -> (r: Result<String, String>)
    ensures
        match luma_grid(bytes@) {
            Ok(g) => r matches Ok(h) && h@ == average_hash(g),
            Err(e) => r matches Err(m) && m@ == e,
        },
{
    match decode_luma_grid(bytes.as_slice()) {
        Ok(g) => Ok(average_hash_of(&g)),
        Err(e) => Err(e),
    }
}

/// What the review reads of an image: its size on disk, whether its bytes
/// have an image signature, its size, and its gray preview's count, sum and
/// sum of squares; placeholders when it is refused before decoding.
pub open spec fn facts_of(file_bytes: u64, mime_ok: bool, w: u32, h: u32, g: Seq<u8>, dup: Option<String>) -> ImageFacts {
    ImageFacts {
        file_bytes,
        mime_ok,
        width: w,
        height: h,
        pixels: g.len() as u64,
        luma_sum: sum_of(g) as u64,
        luma_sq_sum: sq_sum_of(g) as u64,
        near_duplicate: dup,
    }
}

/// Review an image file of `file_bytes` bytes (its content `bytes`, and the
/// id of a near duplicate in the library, if any): an empty, too large or
/// non-image file is judged without decoding; one that does not decode is
/// refused as corrupt; otherwise its preview is judged (see `reviewed`).
pub fn review_image_bytes(
    file_bytes: u64,
    bytes: &Vec<u8>,
    near_duplicate: Option<String>,
    hints: &Option<SemanticHints>,
    th: &QaThresholds,
) -> (r: Result<QaCheckResult, AppError>)
    ensures
        (file_bytes == 0 || file_bytes > th.max_file_bytes || !crate::generation::known_image(bytes@)) ==> (r matches Ok(q)
            && reviewed(q, facts_of(file_bytes, crate::generation::known_image(bytes@), 0, 0, seq![0u8], near_duplicate), *hints, *th)),
        !(file_bytes == 0 || file_bytes > th.max_file_bytes || !crate::generation::known_image(bytes@)) ==> match luma_preview(bytes@) {
            Err(e) => r matches Err(AppError::Invalid(m)) && m@ == "imagen corrupta: "@ + e,
            Ok(p) => r matches Ok(q) && reviewed(q, facts_of(file_bytes, true, p.0, p.1, p.2, near_duplicate), *hints, *th),
        },
{
    let mime_ok = crate::generation::sniff_ok(bytes.as_slice());
    if file_bytes == 0 || file_bytes > th.max_file_bytes || !mime_ok {
        let facts = ImageFacts {
            file_bytes,
            mime_ok,
            width: 0,
            height: 0,
            pixels: 1,
            luma_sum: 0,
            luma_sq_sum: 0,
            near_duplicate,
        };
        proof {
            let g = seq![0u8];
            assert(g.drop_last() =~= Seq::<u8>::empty());
            reveal_with_fuel(sum_of, 2);
            reveal_with_fuel(sq_sum_of, 2);
            assert(sum_of(g) == 0);
            let z = g.last();
            assert(z == 0);
            assert(z * z == 0) by (nonlinear_arith)
                requires
                    z == 0,
            ;
            assert(sq_sum_of(g) == sq_sum_of(g.drop_last()) + z * z);
            assert(sq_sum_of(g) == 0);
            assert(g.len() == 1);
            assert(facts == facts_of(file_bytes, mime_ok, 0, 0, g, facts.near_duplicate));
        }
        return Ok(review_image(&facts, hints, th));
    }
    match decode_luma_preview(bytes.as_slice()) {
        Err(e) => {
            let mut m = String::from_str("imagen corrupta: ");
            push_str(&mut m, e.as_str());
            Err(AppError::Invalid(m))
        },
        Ok((w, h, g)) => {
            let (s, q) = sums(&g);
            proof {
                lemma_sum_bound(g@);
            }
            let facts = ImageFacts {
                file_bytes,
                mime_ok: true,
                width: w,
                height: h,
                pixels: g.len() as u64,
                luma_sum: s,
                luma_sq_sum: q,
                near_duplicate,
            };
            Ok(review_image(&facts, hints, th))
        },
    }
}

} // verus!
