//! Export safety rules: never write over the input, never overwrite an
//! existing output, refuse implausibly small results.
use vstd::prelude::*;
use crate::error::AppError;
use crate::text::{lowercase, to_chars, to_lowercase, from_chars, push_str, push_dec};

verus! {

/// Smallest plausible finished MP4 (headers and a little content), in bytes.
pub const MIN_VALID_EXPORT_BYTES: u64 = 1024;

/// Backslashes made forward slashes.
pub open spec fn forward_slashes(s: Seq<char>) -> Seq<char> {
    s.map_values(|c: char| if c == '\\' { '/' } else { c })
}

/// `s` without its trailing slashes.
pub open spec fn trim_end_slashes(s: Seq<char>) -> Seq<char>
    decreases s.len(),
{
    if s.len() > 0 && s.last() == '/' {
        trim_end_slashes(s.drop_last())
    } else {
        s
    }
}

/// A path written for comparison: forward slashes, no trailing slash, lower case.
pub open spec fn normalized_path(s: Seq<char>) -> Seq<char> {
    lowercase(trim_end_slashes(forward_slashes(s)))
}

fn trim_end_exec(v: &Vec<char>) -> (r: Vec<char>)
    ensures
        r@ == trim_end_slashes(v@),
{
    let mut n = v.len();
    proof {
        assert(v@.take(n as int) =~= v@);
    }
    while n > 0 && v[n - 1] == '/'
        invariant
            n <= v@.len(),
            trim_end_slashes(v@.take(n as int)) == trim_end_slashes(v@),
        decreases n,
    {
        proof {
            assert(v@.take(n as int).drop_last() =~= v@.take(n - 1));
        }
        n = n - 1;
    }
    let mut r: Vec<char> = Vec::new();
    let mut i: usize = 0;
    while i < n
        invariant
            n <= v@.len(),
            i <= n,
            r@ =~= v@.take(i as int),
        decreases n - i,
    {
        r.push(v[i]);
        i = i + 1;
    }
    proof {
        assert(r@ =~= v@.take(n as int));
    }
    r
}

/// The text of a path written for comparison.
pub fn normalize_path_str(s: &str) -> (r: String)
    ensures
        r@ == normalized_path(s@),
{
    let cs = to_chars(s);
    let mut f: Vec<char> = Vec::new();
    let mut i: usize = 0;
    while i < cs.len()
        invariant
            i <= cs@.len(),
            f@ =~= forward_slashes(cs@.take(i as int)),
        decreases cs@.len() - i,
    {
        let c = cs[i];
        f.push(if c == '\\' { '/' } else { c });
        i = i + 1;
    }
    proof {
        assert(cs@.take(cs@.len() as int) =~= cs@);
    }
    let t = trim_end_exec(&f);
    let ts = from_chars(&t);
    to_lowercase(ts.as_str())
}

/// Whether two paths name the same file: by their canonical forms when both
/// could be resolved (`canon_a`, `canon_b`), else by their normalized texts.
pub open spec fn same_file(
    canon_a: Option<Seq<char>>,
    canon_b: Option<Seq<char>>,
    a: Seq<char>,
    b: Seq<char>,
) -> bool {
    match (canon_a, canon_b) {
        (Some(x), Some(y)) => x == y,
        _ => normalized_path(a) == normalized_path(b),
    }
}

pub open spec fn opt_view(o: Option<String>) -> Option<Seq<char>> {
    match o {
        Some(s) => Some(s@),
        None => None,
    }
}

/// Whether `a` and `b` name the same file. `canon_a` and `canon_b` are their
/// canonical forms where the file system could resolve them.
pub fn paths_same_file(canon_a: &Option<String>, canon_b: &Option<String>, a: &str, b: &str) -> (r:
    bool)
    ensures
        r == same_file(opt_view(*canon_a), opt_view(*canon_b), a@, b@),
{
    match (canon_a, canon_b) {
        (Some(x), Some(y)) => crate::text::str_eq(x.as_str(), y.as_str()),
        _ => {
            let na = normalize_path_str(a);
            let nb = normalize_path_str(b);
            crate::text::str_eq(na.as_str(), nb.as_str())
        },
    }
}

/// Whether two paths name the same file does not depend on their order.
pub proof fn lemma_same_file_symmetric(
    canon_a: Option<Seq<char>>,
    canon_b: Option<Seq<char>>,
    a: Seq<char>,
    b: Seq<char>,
)
    ensures
        same_file(canon_a, canon_b, a, b) == same_file(canon_b, canon_a, b, a),
{
}

/// What the file system says of an export's input and output.
pub struct ExportPaths {
    pub input_exists: bool,
    pub input_is_file: bool,
    /// Size of the input in bytes, where it could be read.
    pub input_len: Option<u64>,
    /// The input and output name the same file.
    pub same_file: bool,
}

/// Check an export request before any encoding: the input exists, is a file,
/// can be read, is not empty, and is not also the output. `input` is the
/// input's displayed path; `read_error` the message when it could not be read.
pub fn validate_export_request(paths: &ExportPaths, input: &str, read_error: &str) -> (r: Result<
    (),
    AppError,
>)
    ensures
        r is Ok <==> (paths.input_exists && paths.input_is_file && (paths.input_len matches Some(n)
            && n > 0) && !paths.same_file),
        !paths.input_exists ==> (r matches Err(AppError::NotFound(m)) && m@
            == "Archivo de entrada no existe: "@ + input@),
        paths.input_exists && !paths.input_is_file ==> (r matches Err(AppError::Invalid(m)) && m@
            == "La entrada no es un archivo: "@ + input@),
        paths.input_exists && paths.input_is_file && paths.input_len is None ==> (r matches Err(
            AppError::Invalid(m),
        ) && m@ == "No se puede leer la entrada "@ + input@ + ": "@ + read_error@),
        paths.input_exists && paths.input_is_file && paths.input_len == Some(0u64) ==> (r matches Err(
            AppError::Invalid(m),
        ) && m@ == "El archivo de entrada está vacío"@),
        paths.input_exists && paths.input_is_file && (paths.input_len matches Some(n) && n > 0)
            && paths.same_file ==> (r matches Err(AppError::Invalid(m)) && m@
            == "La salida no puede ser el mismo archivo que la entrada (el original no se modifica)"@),
{
    if !paths.input_exists {
        let mut m = String::from_str("Archivo de entrada no existe: ");
        push_str(&mut m, input);
        return Err(AppError::NotFound(m));
    }
    if !paths.input_is_file {
        let mut m = String::from_str("La entrada no es un archivo: ");
        push_str(&mut m, input);
        return Err(AppError::Invalid(m));
    }
    match paths.input_len {
        None => {
            let mut m = String::from_str("No se puede leer la entrada ");
            push_str(&mut m, input);
            push_str(&mut m, ": ");
            push_str(&mut m, read_error);
            Err(AppError::Invalid(m))
        },
        Some(n) => {
            if n == 0 {
                Err(AppError::Invalid(String::from_str("El archivo de entrada está vacío")))
            } else if paths.same_file {
                Err(
                    AppError::Invalid(
                        String::from_str(
                            "La salida no puede ser el mismo archivo que la entrada (el original no se modifica)",
                        ),
                    ),
                )
            } else {
                Ok(())
            }
        },
    }
}

/// Check a finished export: it exists and is at least `MIN_VALID_EXPORT_BYTES`
/// long, and a source longer than thirty seconds gave at least 8000 bytes.
/// `path` is the output's displayed path.
pub fn validate_export_output(exists: bool, len: u64, estimated_ms: u64, path: &str) -> (r: Result<
    (),
    AppError,
>)
    ensures
        r is Ok <==> exists && len >= MIN_VALID_EXPORT_BYTES && !(estimated_ms > 30000 && len
            < 8000),
        !exists ==> (r matches Err(AppError::Ffmpeg(m)) && m@ == "Export terminó sin archivo: "@
            + path@),
        exists && len < MIN_VALID_EXPORT_BYTES ==> (r matches Err(AppError::Ffmpeg(m)) && m@
            == "Export inválido (archivo demasiado pequeño: "@ + crate::text::dec(len as nat)
            + " bytes). No se guardó el resultado."@),
        exists && len >= MIN_VALID_EXPORT_BYTES && estimated_ms > 30000 && len < 8000 ==> (r matches Err(
            AppError::Ffmpeg(m),
        ) && m@
            == "Export inválido (tamaño inconsistente con la duración). No se guardó el resultado."@),
{
    if !exists {
        let mut m = String::from_str("Export terminó sin archivo: ");
        push_str(&mut m, path);
        return Err(AppError::Ffmpeg(m));
    }
    if len < MIN_VALID_EXPORT_BYTES {
        let mut m = String::from_str("Export inválido (archivo demasiado pequeño: ");
        push_dec(&mut m, len);
        push_str(&mut m, " bytes). No se guardó el resultado.");
        return Err(AppError::Ffmpeg(m));
    }
    if estimated_ms > 30000 && len < 8000 {
        return Err(
            AppError::Ffmpeg(
                String::from_str(
                    "Export inválido (tamaño inconsistente con la duración). No se guardó el resultado.",
                ),
            ),
        );
    }
    Ok(())
}

/// The name tried for the `n`-th alternative output: `stem-n.ext`.
pub fn numbered_output_name(stem: &str, n: u64, ext: &str) -> (r: String)
    ensures
        r@ == stem@ + "-"@ + crate::text::dec(n as nat) + "."@ + ext@,
{
    let mut m = String::from_str(stem);
    push_str(&mut m, "-");
    push_dec(&mut m, n);
    push_str(&mut m, ".");
    push_str(&mut m, ext);
    m
}

/// The name of the temporary file written beside an output: `.stem.vigilcut-tmp-id.ext`.
pub fn temp_export_name(stem: &str, id: &str, ext: &str) -> (r: String)
    ensures
        r@ == "."@ + stem@ + ".vigilcut-tmp-"@ + id@ + "."@ + ext@,
{
    let mut m = String::from_str(".");
    push_str(&mut m, stem);
    push_str(&mut m, ".vigilcut-tmp-");
    push_str(&mut m, id);
    push_str(&mut m, ".");
    push_str(&mut m, ext);
    m
}

/// The first free output number: the smallest `n` in `2..10000` whose
/// numbered name is not taken (`taken[n - 2]` says whether `stem-n.ext`
/// exists), or `None` when all are.
pub fn first_free_number(taken: &Vec<bool>) -> (r: Option<u64>)
    requires
        taken@.len() <= 9998,
    ensures
        r matches Some(n) ==> (2 <= n < taken@.len() + 2 && !taken@[n - 2] && forall|k: int|
            0 <= k < n - 2 ==> taken@[k]),
        r is None ==> forall|k: int| 0 <= k < taken@.len() ==> taken@[k],
{
    let mut i: usize = 0;
    while i < taken.len()
        invariant
            i <= taken@.len() <= 9998,
            forall|k: int| 0 <= k < i ==> taken@[k],
        decreases taken@.len() - i,
    {
        if !taken[i] {
            return Some(i as u64 + 2);
        }
        i = i + 1;
    }
    None
}

} // verus!
