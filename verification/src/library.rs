//! Global visual library: image shape labels, near-duplicate hashes, folder
//! import bookkeeping and coverage counts.
use vstd::prelude::*;
use vstd::arithmetic::power2::{pow2, lemma_pow2_unfold, lemma2_to64};
use crate::error::AppError;
use crate::text::to_chars;

verus! {

/// `|a - b|` on integers.
pub open spec fn absdiff(a: int, b: int) -> int {
    if a >= b { a - b } else { b - a }
}

/// The ratio `w / h` lies within 0.08 of `p / q` (exact rational comparison:
/// `|w/h - p/q| < 2/25` is `25 * |q*w - p*h| < 2 * q * h`).
pub open spec fn near_ratio(w: int, h: int, p: int, q: int) -> bool {
    25 * absdiff(q * w, p * h) < 2 * (q * h)
}

/// The shape label of a `w` x `h` image.
pub open spec fn aspect_text(w: int, h: int) -> Seq<char> {
    if w == 0 || h == 0 {
        "unknown"@
    } else if near_ratio(w, h, 16, 9) {
        "16:9"@
    } else if near_ratio(w, h, 9, 16) {
        "9:16"@
    } else if near_ratio(w, h, 1, 1) {
        "1:1"@
    } else if near_ratio(w, h, 4, 3) {
        "4:3"@
    } else if w >= h {
        "landscape"@
    } else {
        "portrait"@
    }
}

fn near_exec(w: u32, h: u32, p: u64, q: u64) -> (r: bool)
    requires
        1 <= p <= 16,
        1 <= q <= 16,
    ensures
        r == near_ratio(w as int, h as int, p as int, q as int),
{
    assert(q * w <= 16 * 0xffff_ffff && p * h <= 16 * 0xffff_ffff && q * h <= 16 * 0xffff_ffff)
        by (nonlinear_arith)
        requires
            1 <= p <= 16,
            1 <= q <= 16,
            w <= 0xffff_ffff,
            h <= 0xffff_ffff,
    ;
    let a: u64 = q * (w as u64);
    let b: u64 = p * (h as u64);
    let d: u64 = if a >= b { a - b } else { b - a };
    let qh: u64 = q * (h as u64);
    25 * d < 2 * qh
}

/// Shape label of an image: a named ratio when the width/height ratio is
/// within 0.08 of 16:9, 9:16, 1:1 or 4:3 (tried in that order), otherwise
/// "landscape" or "portrait"; "unknown" when a side is zero.
pub fn aspect_label(w: u32, h: u32) -> (r: String)
    ensures
        r@ == aspect_text(w as int, h as int),
{
    if w == 0 || h == 0 {
        String::from_str("unknown")
    } else if near_exec(w, h, 16, 9) {
        String::from_str("16:9")
    } else if near_exec(w, h, 9, 16) {
        String::from_str("9:16")
    } else if near_exec(w, h, 1, 1) {
        String::from_str("1:1")
    } else if near_exec(w, h, 4, 3) {
        String::from_str("4:3")
    } else if w >= h {
        String::from_str("landscape")
    } else {
        String::from_str("portrait")
    }
}

/// Value of a hexadecimal digit (either case), or -1 for any other character.
pub open spec fn hex_val(c: char) -> int {
    if '0' <= c && c <= '9' {
        c as int - '0' as int
    } else if 'a' <= c && c <= 'f' {
        c as int - 'a' as int + 10
    } else if 'A' <= c && c <= 'F' {
        c as int - 'A' as int + 10
    } else {
        -1
    }
}

/// Number written by a string of hexadecimal digits.
pub open spec fn hex_value(s: Seq<char>) -> int
    decreases s.len(),
{
    if s.len() == 0 {
        0
    } else {
        hex_value(s.drop_last()) * 16 + hex_val(s.last())
    }
}

/// The digits of a hexadecimal number with an optional leading `+`.
pub open spec fn hex_body(s: Seq<char>) -> Seq<char> {
    if s.len() > 0 && s[0] == '+' { s.drop_first() } else { s }
}

pub open spec fn all_hex(s: Seq<char>) -> bool {
    forall|i: int| 0 <= i < s.len() ==> hex_val(#[trigger] s[i]) >= 0
}

/// `s` reads as a 64-bit unsigned hexadecimal number (an optional `+`, then one
/// or more hexadecimal digits, with a value below 2^64).
pub open spec fn is_hex_u64(s: Seq<char>) -> bool {
    let d = hex_body(s);
    &&& d.len() > 0
    &&& all_hex(d)
    &&& hex_value(d) <= u64::MAX
}

/// Number of one bits of `x`.
pub open spec fn popcount(x: nat) -> nat
    decreases x,
{
    if x == 0 { 0 } else { (x % 2) + popcount(x / 2) }
}

proof fn lemma_hex_value_nonneg(s: Seq<char>)
    requires
        all_hex(s),
    ensures
        hex_value(s) >= 0,
    decreases s.len(),
{
    if s.len() > 0 {
        assert(all_hex(s.drop_last())) by {
            assert forall|i: int| 0 <= i < s.drop_last().len() implies hex_val(
                #[trigger] s.drop_last()[i],
            ) >= 0 by {
                assert(s.drop_last()[i] == s[i]);
            }
        }
        lemma_hex_value_nonneg(s.drop_last());
        assert(hex_val(s[s.len() - 1]) >= 0);
    }
}

/// Over hexadecimal digits, a longer prefix never reads as a smaller number.
proof fn lemma_hex_prefix_le(s: Seq<char>, k: int)
    requires
        all_hex(s),
        0 <= k <= s.len(),
    ensures
        hex_value(s.take(k)) <= hex_value(s),
    decreases s.len(),
{
    if k < s.len() {
        let t = s.drop_last();
        assert(all_hex(t)) by {
            assert forall|i: int| 0 <= i < t.len() implies hex_val(#[trigger] t[i]) >= 0 by {
                assert(t[i] == s[i]);
            }
        }
        lemma_hex_prefix_le(t, k);
        assert(t.take(k) =~= s.take(k));
        lemma_hex_value_nonneg(t);
        assert(hex_val(s[s.len() - 1]) >= 0);
    } else {
        assert(s.take(k) =~= s);
    }
}

proof fn lemma_popcount_bits(x: nat, n: nat)
    requires
        x < pow2(n),
    ensures
        popcount(x) <= n,
    decreases n,
{
    if x > 0 {
        if n == 0 {
            lemma2_to64();
        } else {
            lemma_pow2_unfold(n);
            lemma_popcount_bits(x / 2, (n - 1) as nat);
        }
    }
}

fn hex_digit(c: char) -> (r: i64)
    ensures
        r == hex_val(c),
{
    if '0' <= c && c <= '9' {
        (c as i64) - ('0' as i64)
    } else if 'a' <= c && c <= 'f' {
        (c as i64) - ('a' as i64) + 10
    } else if 'A' <= c && c <= 'F' {
        (c as i64) - ('A' as i64) + 10
    } else {
        -1
    }
}

/// Read a 64-bit unsigned hexadecimal number.
fn parse_hex_u64(s: &str) -> (r: Option<u64>)
    ensures
        r is Some <==> is_hex_u64(s@),
        r is Some ==> r->0 == hex_value(hex_body(s@)),
{
    let cs = to_chars(s);
    let n = cs.len();
    let start: usize = if n > 0 && cs[0] == '+' { 1 } else { 0 };
    let ghost body = hex_body(s@);
    proof {
        assert(body =~= cs@.subrange(start as int, n as int));
    }
    if start == n {
        return None;
    }
    let mut acc: u64 = 0;
    let mut i: usize = start;
    proof {
        assert(body.take(0) =~= Seq::<char>::empty());
    }
    while i < n
        invariant
            start <= i <= n == cs@.len(),
            start < n,
            body == hex_body(s@),
            body =~= cs@.subrange(start as int, n as int),
            all_hex(body.take(i - start)),
            acc == hex_value(body.take(i - start)),
        decreases n - i,
    {
        let ghost k = i - start;
        let d = hex_digit(cs[i]);
        proof {
            assert(body[k] == cs@[i as int]);
            assert(body.take(k + 1).drop_last() =~= body.take(k));
            assert(body.take(k + 1).last() == body[k]);
        }
        if d < 0 {
            proof {
                assert(hex_val(body[k]) < 0);
                assert(!all_hex(body));
            }
            return None;
        }
        proof {
            assert(all_hex(body.take(k + 1))) by {
                assert forall|j: int| 0 <= j < k + 1 implies hex_val(#[trigger] body.take(k + 1)[j])
                    >= 0 by {
                    if j < k {
                        assert(body.take(k + 1)[j] == body.take(k)[j]);
                    }
                }
            }
        }
        assert(hex_value(body.take(k + 1)) == acc * 16 + d);
        match acc.checked_mul(16) {
            None => {
                proof {
                    if all_hex(body) {
                        lemma_hex_prefix_le(body, k + 1);
                    }
                }
                return None;
            },
            Some(m) => match m.checked_add(d as u64) {
                None => {
                    proof {
                        if all_hex(body) {
                            lemma_hex_prefix_le(body, k + 1);
                        }
                    }
                    return None;
                },
                Some(v) => {
                    acc = v;
                },
            },
        }
        i = i + 1;
    }
    proof {
        assert(body.take(n - start) =~= body);
    }
    Some(acc)
}

/// The bit distance between two 64-bit hexadecimal hashes (their texts).
pub open spec fn hash_distance(a: Seq<char>, b: Seq<char>) -> nat {
    popcount((hex_value(hex_body(a)) as u64 ^ hex_value(hex_body(b)) as u64) as nat)
}

proof fn lemma_popcount_step(n: nat)
    ensures
        popcount(n) == n % 2 + popcount(n / 2),
{
}

proof fn lemma_xor_triangle(x: u64, y: u64, z: u64)
    ensures
        popcount((x ^ z) as nat) <= popcount((x ^ y) as nat) + popcount((y ^ z) as nat),
    decreases x as int + y as int + z as int,
{
    if x == 0 && y == 0 && z == 0 {
        assert(x ^ z == 0) by (bit_vector)
            requires
                x == 0 && z == 0,
        ;
    } else {
        lemma_xor_triangle(x / 2, y / 2, z / 2);
        assert((x ^ z) / 2 == (x / 2) ^ (z / 2)) by (bit_vector);
        assert((x ^ y) / 2 == (x / 2) ^ (y / 2)) by (bit_vector);
        assert((y ^ z) / 2 == (y / 2) ^ (z / 2)) by (bit_vector);
        assert((x ^ z) % 2 <= (x ^ y) % 2 + (y ^ z) % 2) by (bit_vector);
        lemma_popcount_step((x ^ z) as nat);
        lemma_popcount_step((x ^ y) as nat);
        lemma_popcount_step((y ^ z) as nat);
    }
}

/// The bit distance between hashes is a metric on 64-bit hashes: zero from
/// a hash to itself, the same both ways, at most 64, and never more than
/// the distances through a third hash.
pub proof fn lemma_hash_distance_metric(a: Seq<char>, b: Seq<char>, c: Seq<char>)
    requires
        is_hex_u64(a),
        is_hex_u64(b),
        is_hex_u64(c),
    ensures
        hash_distance(a, a) == 0,
        hash_distance(a, b) == hash_distance(b, a),
        hash_distance(a, b) <= 64,
        hash_distance(a, c) <= hash_distance(a, b) + hash_distance(b, c),
{
    let x = hex_value(hex_body(a)) as u64;
    let y = hex_value(hex_body(b)) as u64;
    let z = hex_value(hex_body(c)) as u64;
    assert(x ^ x == 0) by (bit_vector);
    assert(x ^ y == y ^ x) by (bit_vector);
    lemma2_to64();
    lemma_popcount_bits((x ^ y) as nat, 64);
    lemma_xor_triangle(x, y, z);
}

/// Bit distance between two 64-bit hexadecimal hashes: the number of bits in
/// which they differ, or `None` when either does not read as a 64-bit
/// hexadecimal number (an optional `+`, then hexadecimal digits).
pub fn hamming_hex(a: &str, b: &str) -> (r: Option<u32>)
    ensures
        r is Some <==> is_hex_u64(a@) && is_hex_u64(b@),
        r is Some ==> r->0 == popcount(
            (hex_value(hex_body(a@)) as u64 ^ hex_value(hex_body(b@)) as u64) as nat,
        ),
        r is Some ==> r->0 == hash_distance(a@, b@),
{
    let x = match parse_hex_u64(a) {
        Some(v) => v,
        None => return None,
    };
    let y = match parse_hex_u64(b) {
        Some(v) => v,
        None => return None,
    };
    let x0: u64 = x ^ y;
    let mut z: u64 = x0;
    let mut c: u32 = 0;
    proof {
        lemma2_to64();
        lemma_popcount_bits(x0 as nat, 64);
    }
    while z > 0
        invariant
            c + popcount(z as nat) == popcount(x0 as nat),
            popcount(x0 as nat) <= 64,
        decreases z,
    {
        c = c + (z % 2) as u32;
        z = z / 2;
    }
    Some(c)
}

/// What importing one image file gave: the asset it now is in the library,
/// newly added or already there (same content hash).
pub enum ImportOutcome {
    /// The image was copied in as a new asset with this id.
    New(String),
    /// An asset with the same content already existed; its id.
    Duplicate(String),
}

/// Tally of a folder import.
pub struct ImportFolderResult {
    pub scanned: u32,
    pub imported: u32,
    pub duplicates: u32,
    pub failed: u32,
    pub asset_ids: Vec<String>,
    pub errors: Vec<String>,
}

/// One image file of a folder import: its displayed path and what importing it gave
/// (the error's message when it failed).
pub type ImportStep = (String, Result<ImportOutcome, String>);

pub open spec fn step_ids(o: Result<ImportOutcome, String>) -> Seq<Seq<char>> {
    match o {
        Ok(ImportOutcome::New(id)) => seq![id@],
        Ok(ImportOutcome::Duplicate(id)) => seq![id@],
        Err(_) => Seq::empty(),
    }
}

pub open spec fn step_errors(path: Seq<char>, o: Result<ImportOutcome, String>) -> Seq<Seq<char>> {
    match o {
        Err(e) => seq![path + ": "@ + e@],
        Ok(_) => Seq::empty(),
    }
}

/// Ids of the assets that the steps imported or found, in order.
pub open spec fn import_ids(steps: Seq<ImportStep>) -> Seq<Seq<char>>
    decreases steps.len(),
{
    if steps.len() == 0 {
        Seq::empty()
    } else {
        import_ids(steps.drop_last()) + step_ids(steps.last().1)
    }
}

/// One line "path: message" per failed step, in order.
pub open spec fn import_errors(steps: Seq<ImportStep>) -> Seq<Seq<char>>
    decreases steps.len(),
{
    if steps.len() == 0 {
        Seq::empty()
    } else {
        import_errors(steps.drop_last()) + step_errors(steps.last().0@, steps.last().1)
    }
}

/// Number of steps whose outcome satisfies `f`.
pub open spec fn count_steps(steps: Seq<ImportStep>, f: spec_fn(Result<ImportOutcome, String>) -> bool) -> nat
    decreases steps.len(),
{
    if steps.len() == 0 {
        0
    } else {
        count_steps(steps.drop_last(), f) + (if f(steps.last().1) { 1nat } else { 0nat })
    }
}

pub open spec fn is_new(o: Result<ImportOutcome, String>) -> bool {
    o matches Ok(ImportOutcome::New(_))
}

pub open spec fn is_dup(o: Result<ImportOutcome, String>) -> bool {
    o matches Ok(ImportOutcome::Duplicate(_))
}

pub open spec fn is_failed(o: Result<ImportOutcome, String>) -> bool {
    o is Err
}

proof fn lemma_count_le(steps: Seq<ImportStep>, f: spec_fn(Result<ImportOutcome, String>) -> bool)
    ensures
        count_steps(steps, f) <= steps.len(),
    decreases steps.len(),
{
    if steps.len() > 0 {
        lemma_count_le(steps.drop_last(), f);
    }
}

/// `res` tallies `steps`: every step scanned, counted by outcome, with the asset
/// ids and the error lines in order.
pub open spec fn is_tally(res: ImportFolderResult, steps: Seq<ImportStep>) -> bool {
    &&& res.scanned == steps.len()
    &&& res.imported == count_steps(steps, |o: Result<ImportOutcome, String>| is_new(o))
    &&& res.duplicates == count_steps(steps, |o: Result<ImportOutcome, String>| is_dup(o))
    &&& res.failed == count_steps(steps, |o: Result<ImportOutcome, String>| is_failed(o))
    &&& crate::export::views(res.asset_ids@) == import_ids(steps)
    &&& crate::export::views(res.errors@) == import_errors(steps)
}

/// The file extensions (lower case) that the library imports.
pub open spec fn image_ext(ext: Seq<char>) -> bool {
    ext == "jpg"@ || ext == "jpeg"@ || ext == "png"@ || ext == "webp"@
}

/// Whether a lower-case file extension names an importable image (jpg, jpeg, png, webp).
pub fn is_image_extension(ext: &str) -> (r: bool)
    ensures
        r == image_ext(ext@),
{
    let e = to_chars(ext);
    let j = to_chars("jpg");
    let je = to_chars("jpeg");
    let p = to_chars("png");
    let w = to_chars("webp");
    crate::text::chars_eq(&e, &j) || crate::text::chars_eq(&e, &je) || crate::text::chars_eq(&e, &p) || crate::text::chars_eq(&e, &w)
}

/// Refuse an image whose (lower-case) extension the library does not import.
pub fn check_image_extension(ext: &str) -> (r: Result<(), AppError>)
    ensures
        r is Ok <==> image_ext(ext@),
        r matches Err(AppError::Invalid(m)) ==> m@ == "Formato no soportado: "@ + ext@
            + ". Usa jpg/png/webp."@,
        r is Err ==> r matches Err(AppError::Invalid(_)),
{
    if is_image_extension(ext) {
        Ok(())
    } else {
        let mut m = String::from_str("Formato no soportado: ");
        crate::text::push_str(&mut m, ext);
        crate::text::push_str(&mut m, ". Usa jpg/png/webp.");
        Err(AppError::Invalid(m))
    }
}

/// Tally the per-file results of importing the images of a folder; `NotFound`
/// with the folder's displayed path when it is not a directory.
pub fn import_folder_tracked(dir_is_dir: bool, dir: &str, steps: &Vec<ImportStep>) -> (r: Result<
    ImportFolderResult,
    AppError,
>)
    requires
        steps@.len() <= u32::MAX,
    ensures
        !dir_is_dir ==> (r matches Err(AppError::NotFound(m)) && m@ == dir@),
        dir_is_dir ==> (r matches Ok(res) && is_tally(res, steps@)),
{
    if !dir_is_dir {
        return Err(AppError::NotFound(String::from_str(dir)));
    }
    let ghost fnew = |o: Result<ImportOutcome, String>| is_new(o);
    let ghost fdup = |o: Result<ImportOutcome, String>| is_dup(o);
    let ghost ferr = |o: Result<ImportOutcome, String>| is_failed(o);
    let mut res = ImportFolderResult {
        scanned: 0,
        imported: 0,
        duplicates: 0,
        failed: 0,
        asset_ids: Vec::new(),
        errors: Vec::new(),
    };
    let mut i: usize = 0;
    proof {
        assert(steps@.take(0) =~= Seq::<ImportStep>::empty());
        assert(crate::export::views(res.asset_ids@) =~= Seq::<Seq<char>>::empty());
        assert(crate::export::views(res.errors@) =~= Seq::<Seq<char>>::empty());
    }
    while i < steps.len()
        invariant
            0 <= i <= steps@.len() <= u32::MAX,
            res.scanned == i,
            res.imported == count_steps(steps@.take(i as int), fnew),
            res.duplicates == count_steps(steps@.take(i as int), fdup),
            res.failed == count_steps(steps@.take(i as int), ferr),
            crate::export::views(res.asset_ids@) == import_ids(steps@.take(i as int)),
            crate::export::views(res.errors@) == import_errors(steps@.take(i as int)),
            fnew == (|o: Result<ImportOutcome, String>| is_new(o)),
            fdup == (|o: Result<ImportOutcome, String>| is_dup(o)),
            ferr == (|o: Result<ImportOutcome, String>| is_failed(o)),
        decreases steps@.len() - i,
    {
        let ghost t = steps@.take(i as int + 1);
        proof {
            assert(t.drop_last() =~= steps@.take(i as int));
            assert(t.last() == steps@[i as int]);
            lemma_count_le(steps@.take(i as int), fnew);
            lemma_count_le(steps@.take(i as int), fdup);
            lemma_count_le(steps@.take(i as int), ferr);
        }
        let ghost ids0 = crate::export::views(res.asset_ids@);
        let ghost errs0 = crate::export::views(res.errors@);
        res.scanned = res.scanned + 1;
        match &steps[i].1 {
            Ok(ImportOutcome::New(id)) => {
                res.imported = res.imported + 1;
                res.asset_ids.push(id.clone());
                proof {
                    assert(crate::export::views(res.asset_ids@) =~= ids0 + seq![id@]);
                }
            },
            Ok(ImportOutcome::Duplicate(id)) => {
                res.duplicates = res.duplicates + 1;
                res.asset_ids.push(id.clone());
                proof {
                    assert(crate::export::views(res.asset_ids@) =~= ids0 + seq![id@]);
                }
            },
            Err(e) => {
                res.failed = res.failed + 1;
                let mut line = steps[i].0.clone();
                crate::text::push_str(&mut line, ": ");
                crate::text::push_str(&mut line, e.as_str());
                res.errors.push(line);
                proof {
                    assert(crate::export::views(res.errors@) =~= errs0 + seq![
                        steps@[i as int].0@ + ": "@ + e@,
                    ]);
                }
            },
        }
        proof {
            assert(crate::export::views(res.asset_ids@) =~= import_ids(t));
            assert(crate::export::views(res.errors@) =~= import_errors(t));
        }
        i = i + 1;
    }
    proof {
        assert(steps@.take(steps@.len() as int) =~= steps@);
    }
    Ok(res)
}

/// Import the images of a folder: the same tally as `import_folder_tracked`.
pub fn import_folder(dir_is_dir: bool, dir: &str, steps: &Vec<ImportStep>) -> (r: Result<
    ImportFolderResult,
    AppError,
>)
    requires
        steps@.len() <= u32::MAX,
    ensures
        !dir_is_dir ==> (r matches Err(AppError::NotFound(m)) && m@ == dir@),
        dir_is_dir ==> (r matches Ok(res) && is_tally(res, steps@)),
{
    import_folder_tracked(dir_is_dir, dir, steps)
}

/// Counts of the library's assets.
pub struct LibraryInventory {
    pub total_assets: u32,
    pub active_assets: u32,
    pub missing_assets: u32,
    pub pending_candidates: u32,
    pub managed_bytes: u64,
}

/// How many of the active concepts the library covers.
pub struct LibraryCoverage {
    pub total_concepts: u32,
    pub covered_concepts: u32,
    pub partial_concepts: u32,
    pub uncovered_concepts: u32,
}

/// A database count as a `u32`: negative counts read as zero, larger ones keep
/// their low 32 bits.
pub fn count_of(v: i64) -> (r: u32)
    ensures
        r == (if v < 0 { 0 } else { v as u32 }),
{
    if v < 0 { 0 } else { v as u32 }
}

/// A byte total as a `u64`: negative totals read as zero.
pub fn bytes_of(v: i64) -> (r: u64)
    ensures
        r == (if v < 0 { 0 } else { v as int }),
{
    if v < 0 { 0 } else { v as u64 }
}

/// Inventory from the database counts.
pub fn library_inventory(total: i64, active: i64, missing: i64, pending: i64, bytes: i64) -> (r:
    LibraryInventory)
    ensures
        r.total_assets == (if total < 0 { 0 } else { total as u32 }),
        r.active_assets == (if active < 0 { 0 } else { active as u32 }),
        r.missing_assets == (if missing < 0 { 0 } else { missing as u32 }),
        r.pending_candidates == (if pending < 0 { 0 } else { pending as u32 }),
        r.managed_bytes == (if bytes < 0 { 0 } else { bytes as int }),
{
    LibraryInventory {
        total_assets: count_of(total),
        active_assets: count_of(active),
        missing_assets: count_of(missing),
        pending_candidates: count_of(pending),
        managed_bytes: bytes_of(bytes),
    }
}

/// Coverage from the number of active concepts and of those with a usable asset:
/// the rest are uncovered (none when more are covered than exist).
pub fn library_coverage(total: u32, covered: u32) -> (r: LibraryCoverage)
    ensures
        r.total_concepts == total,
        r.covered_concepts == covered,
        r.partial_concepts == 0,
        r.uncovered_concepts == (if covered <= total { total - covered } else { 0 }),
{
    LibraryCoverage {
        total_concepts: total,
        covered_concepts: covered,
        partial_concepts: 0,
        uncovered_concepts: total.saturating_sub(covered),
    }
}

/// Coverage of one concept of the library.
pub struct ConceptCoverageRow {
    pub concept_id: String,
    pub title: String,
    pub priority: i32,
    pub useful_assets: u32,
    pub pending_candidates: u32,
    pub active_requests: u32,
    pub requested_target: u32,
    pub state: String,
}

/// State of a concept: covered once its useful assets reach the requested
/// target (at least one), else in review while candidates wait, else partial
/// with some useful asset, else uncovered.
pub open spec fn coverage_state_text(useful: u32, pending: u32, target: u32) -> Seq<char> {
    if useful >= (if target >= 1 { target } else { 1 }) {
        "covered"@
    } else if pending > 0 {
        "in_review"@
    } else if useful > 0 {
        "partial"@
    } else {
        "uncovered"@
    }
}

/// The state word of a concept's coverage.
pub fn coverage_state(useful: u32, pending: u32, target: u32) -> (r: String)
    ensures
        r@ == coverage_state_text(useful, pending, target),
{
    if useful >= target.max(1) {
        String::from_str("covered")
    } else if pending > 0 {
        String::from_str("in_review")
    } else if useful > 0 {
        String::from_str("partial")
    } else {
        String::from_str("uncovered")
    }
}

/// A coverage row from the database values of one concept.
pub fn concept_coverage_row(
    concept_id: String,
    title: String,
    priority: i32,
    useful: i64,
    pending: i64,
    active: i64,
    target: i64,
) -> (r: ConceptCoverageRow)
    ensures
        r.concept_id == concept_id && r.title == title && r.priority == priority,
        r.useful_assets == (if useful < 0 { 0 } else { useful as u32 }),
        r.pending_candidates == (if pending < 0 { 0 } else { pending as u32 }),
        r.active_requests == (if active < 0 { 0 } else { active as u32 }),
        r.requested_target == (if target < 0 { 0 } else { target as u32 }),
        r.state@ == coverage_state_text(r.useful_assets, r.pending_candidates, r.requested_target),
{
    let u = count_of(useful);
    let p = count_of(pending);
    let t = count_of(target);
    let state = coverage_state(u, p, t);
    ConceptCoverageRow {
        concept_id,
        title,
        priority,
        useful_assets: u,
        pending_candidates: p,
        active_requests: count_of(active),
        requested_target: t,
        state,
    }
}

/// Number of rows a coverage listing asks for: `limit` kept within 1..=500.
pub fn coverage_limit(limit: usize) -> (r: i64)
    ensures
        r == (if limit < 1 { 1 } else if limit > 500 { 500 } else { limit as int }),
{
    if limit < 1 { 1 } else if limit > 500 { 500 } else { limit as i64 }
}

/// Generation work under way.
pub struct LibraryActivity {
    pub queued: u32,
    pub running: u32,
    pub cancelling: u32,
    pub failed_today: u32,
    pub last_cycle_at: Option<String>,
}

/// The selected image provider as last probed.
pub struct LibraryProviderStatus {
    pub name: String,
    pub model: Option<String>,
    pub configured: bool,
    pub reachable: bool,
    pub supports_image: bool,
    pub free_verified: bool,
    pub cost_kind: String,
    pub last_checked_at: Option<String>,
    pub latency_ms: Option<u64>,
    pub error: Option<String>,
}

/// Daily generation limits and what is left of them.
pub struct LibraryLimits {
    pub local_daily_limit: u32,
    pub local_used_today: u32,
    pub local_remaining_today: u32,
    pub max_attempts_per_concept: u32,
    pub paid_providers_enabled: bool,
    pub provider_limit: Option<u32>,
    pub provider_used: Option<u32>,
    pub provider_remaining: Option<u32>,
    pub provider_reset_at: Option<String>,
}

/// Operational snapshot of the global library.
pub struct LibraryDashboard {
    pub inventory: LibraryInventory,
    pub coverage: LibraryCoverage,
    pub activity: LibraryActivity,
    pub provider: LibraryProviderStatus,
    pub limits: LibraryLimits,
    pub can_work: bool,
    pub blocked_reason: Option<String>,
}

/// The latest probe of a provider: model, reachable, image support, free
/// tier, when, latency (negative read as zero) and error.
pub struct ProbeRow {
    pub model: String,
    pub reachable: bool,
    pub supports_image: bool,
    pub free_tier: bool,
    pub checked_at: Option<String>,
    pub latency_ms: Option<i64>,
    pub error: Option<String>,
}

/// Limits from the cost policy and today's generations.
pub fn library_limits(policy: &crate::generation::CostPolicy, used: u32) -> (r: LibraryLimits)
    ensures
        r.local_daily_limit == policy.max_daily_generations,
        r.local_used_today == used,
        r.local_remaining_today == (if used <= policy.max_daily_generations {
            policy.max_daily_generations - used
        } else {
            0
        }),
        r.max_attempts_per_concept == policy.max_attempts_per_need,
        r.paid_providers_enabled == policy.paid_providers_enabled,
        r.provider_limit is None && r.provider_used is None && r.provider_remaining is None,
        r.provider_reset_at is None,
{
    LibraryLimits {
        local_daily_limit: policy.max_daily_generations,
        local_used_today: used,
        local_remaining_today: policy.max_daily_generations.saturating_sub(used),
        max_attempts_per_concept: policy.max_attempts_per_need,
        paid_providers_enabled: policy.paid_providers_enabled,
        provider_limit: None,
        provider_used: None,
        provider_remaining: None,
        provider_reset_at: None,
    }
}

pub open spec fn latency_of(l: Option<i64>) -> Option<u64> {
    match l {
        Some(n) => Some(if n < 0 { 0u64 } else { n as u64 }),
        None => None,
    }
}

fn latency_exec(l: Option<i64>) -> (r: Option<u64>)
    ensures
        r == latency_of(l),
{
    match l {
        Some(n) => Some(if n < 0 { 0 } else { n as u64 }),
        None => None,
    }
}

/// The provider's status: the local mock is always configured, reachable,
/// free and local; another provider reports its latest probe, or that it
/// was never checked.
pub fn provider_status(name: String, configured: bool, latest: Option<ProbeRow>) -> (r: LibraryProviderStatus)
    ensures
        r.name == name,
        name@ == "mock"@ ==> {
            &&& r.model matches Some(m) && m@ == "fixture"@
            &&& r.configured && r.reachable && r.supports_image && r.free_verified
            &&& r.cost_kind@ == "local"@ && r.error is None
            &&& r.last_checked_at == (match latest { Some(p) => p.checked_at, None => None })
            &&& r.latency_ms == (match latest { Some(p) => latency_of(p.latency_ms), None => None })
        },
        name@ != "mock"@ ==> {
            &&& r.configured == configured && !r.free_verified
            &&& match latest {
                Some(p) => {
                    &&& r.model == (if p.model@.len() == 0 { None } else { Some(p.model) })
                    &&& r.reachable == p.reachable && r.supports_image == p.supports_image
                    &&& r.cost_kind@ == (if p.free_tier { "free_configured"@ } else { "unknown"@ })
                    &&& r.last_checked_at == p.checked_at && r.latency_ms == latency_of(p.latency_ms)
                    &&& r.error == p.error
                },
                None => {
                    &&& r.model is None && !r.reachable && !r.supports_image
                    &&& r.cost_kind@ == "unknown"@
                    &&& r.last_checked_at is None && r.latency_ms is None
                    &&& r.error matches Some(e) && e@ == "Proveedor todavía no comprobado"@
                },
            }
        },
{
    if crate::text::str_eq(name.as_str(), "mock") {
        let (checked, lat) = match latest {
            Some(p) => (p.checked_at, latency_exec(p.latency_ms)),
            None => (None, None),
        };
        LibraryProviderStatus {
            name,
            model: Some(String::from_str("fixture")),
            configured: true,
            reachable: true,
            supports_image: true,
            free_verified: true,
            cost_kind: String::from_str("local"),
            last_checked_at: checked,
            latency_ms: lat,
            error: None,
        }
    } else {
        match latest {
            Some(p) => {
                let model = if p.model.as_str().is_empty() { None } else { Some(p.model) };
                let lat = latency_exec(p.latency_ms);
                LibraryProviderStatus {
                    name,
                    model,
                    configured,
                    reachable: p.reachable,
                    supports_image: p.supports_image,
                    free_verified: false,
                    cost_kind: if p.free_tier {
                        String::from_str("free_configured")
                    } else {
                        String::from_str("unknown")
                    },
                    last_checked_at: p.checked_at,
                    latency_ms: lat,
                    error: p.error,
                }
            },
            None => LibraryProviderStatus {
                name,
                model: None,
                configured,
                reachable: false,
                supports_image: false,
                free_verified: false,
                cost_kind: String::from_str("unknown"),
                last_checked_at: None,
                latency_ms: None,
                error: Some(String::from_str("Proveedor todavía no comprobado")),
            },
        }
    }
}

/// Whether the library can generate now, or the first reason it cannot:
/// today's local limit, then (for a provider other than the mock) its
/// configuration, reachability, image support and free tier.
pub open spec fn work_gate(remaining: u32, p: LibraryProviderStatus, paid_enabled: bool) -> Option<Seq<char>> {
    if remaining == 0 {
        Some("Límite local diario alcanzado"@)
    } else if p.name@ == "mock"@ {
        None
    } else if !p.configured {
        Some("OmniRoute no está configurado"@)
    } else if !p.reachable {
        Some("Proveedor no disponible"@)
    } else if !p.supports_image {
        Some("La capacidad de generación de imágenes no está verificada"@)
    } else if !p.free_verified && !paid_enabled {
        Some("El coste gratuito de OmniRoute no está verificado"@)
    } else {
        None
    }
}

pub open spec fn opt_text(o: Option<String>) -> Option<Seq<char>> {
    match o {
        Some(s) => Some(s@),
        None => None,
    }
}

/// The dashboard of the library from its parts.
pub fn dashboard(
    inventory: LibraryInventory,
    coverage: LibraryCoverage,
    activity: LibraryActivity,
    provider: LibraryProviderStatus,
    limits: LibraryLimits,
) -> (r: LibraryDashboard)
    ensures
        r.inventory == inventory && r.coverage == coverage && r.activity == activity,
        r.provider == provider && r.limits == limits,
        opt_text(r.blocked_reason) == work_gate(limits.local_remaining_today, provider, limits.paid_providers_enabled),
        r.can_work == r.blocked_reason is None,
{
    let reason: Option<&str> = if limits.local_remaining_today == 0 {
        Some("Límite local diario alcanzado")
    } else if crate::text::str_eq(provider.name.as_str(), "mock") {
        None
    } else if !provider.configured {
        Some("OmniRoute no está configurado")
    } else if !provider.reachable {
        Some("Proveedor no disponible")
    } else if !provider.supports_image {
        Some("La capacidad de generación de imágenes no está verificada")
    } else if !provider.free_verified && !limits.paid_providers_enabled {
        Some("El coste gratuito de OmniRoute no está verificado")
    } else {
        None
    };
    let blocked_reason = match reason {
        Some(m) => Some(String::from_str(m)),
        None => None,
    };
    LibraryDashboard {
        inventory,
        coverage,
        activity,
        provider,
        limits,
        can_work: blocked_reason.is_none(),
        blocked_reason,
    }
}

} // verus!
