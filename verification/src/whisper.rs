//! Optional captions through an installed Whisper: which engine answers, how it
//! is invoked, and what is reported when it fails.
use vstd::prelude::*;
use crate::captions::{trim, trim_exec};
use crate::text::{lowercase, to_chars, from_chars, to_lowercase, push_str, has_sub, contains_sub};
use crate::transcript::{utf8_len, utf8_width};

verus! {

/// An installed Whisper engine.
pub enum WhisperEngine {
    /// A program of its own (whisper-cli or whisper): its path and name.
    Binary { path: String, name: String },
    /// The Python module, run by this interpreter as `via` says.
    PythonModule { python: String, via: String },
}

/// Whether captions can be made, and how.
pub struct WhisperStatus {
    pub available: bool,
    pub kind: String,
    pub detail: String,
    pub install_hint: String,
}

/// Captions made for a medium: the SRT file and the engine that wrote it.
pub struct CaptionResult {
    pub srt_path: String,
    pub method: String,
}

pub open spec fn status_is(s: WhisperStatus, available: bool, kind: Seq<char>, detail: Seq<char>, hint: Seq<char>) -> bool {
    s.available == available && s.kind@ == kind && s.detail@ == detail && s.install_hint@ == hint
}

/// The status reported for the engine that was found (`None` when none was).
pub fn whisper_status(engine: &Option<WhisperEngine>) -> (r: WhisperStatus)
    ensures
        engine matches Some(WhisperEngine::Binary { path, name }) ==> status_is(r, true, name@, path@, Seq::empty()),
        engine matches Some(WhisperEngine::PythonModule { python, via }) ==> status_is(r, true, via@,
            python@ + " -m whisper"@, Seq::empty()),
        engine is None ==> status_is(r, false, "none"@,
            "No se encontró Whisper en PATH ni como módulo de Python."@,
            "npm run setup:whisper   o   python -m pip install -U openai-whisper"@),
{
    match engine {
        Some(WhisperEngine::Binary { path, name }) => WhisperStatus {
            available: true,
            kind: name.clone(),
            detail: path.clone(),
            install_hint: String::new(),
        },
        Some(WhisperEngine::PythonModule { python, via }) => {
            let mut d = python.clone();
            push_str(&mut d, " -m whisper");
            WhisperStatus { available: true, kind: via.clone(), detail: d, install_hint: String::new() }
        },
        None => WhisperStatus {
            available: false,
            kind: String::from_str("none"),
            detail: String::from_str("No se encontró Whisper en PATH ni como módulo de Python."),
            install_hint: String::from_str(
                "npm run setup:whisper   o   python -m pip install -U openai-whisper",
            ),
        },
    }
}

/// Arguments of the openai-whisper command line (CPU, Spanish, SRT output).
pub open spec fn openai_args_text(wav: Seq<char>, out_dir: Seq<char>) -> Seq<Seq<char>> {
    seq![wav, "--model"@, "base"@, "--output_dir"@, out_dir, "--output_format"@, "srt"@,
        "--verbose"@, "False"@, "--language"@, "es"@, "--device"@, "cpu"@, "--fp16"@, "False"@]
}

fn push_lit(v: &mut Vec<String>, s: &str)
    ensures
        crate::export::views(final(v)@) == crate::export::views(old(v)@).push(s@),
{
    let ghost before = crate::export::views(v@);
    v.push(String::from_str(s));
    proof {
        assert(crate::export::views(v@) =~= before.push(s@));
    }
}

/// The openai-whisper arguments for an audio file and an output folder.
pub fn openai_whisper_args(wav: &str, out_dir: &str) -> (r: Vec<String>)
    ensures
        crate::export::views(r@) == openai_args_text(wav@, out_dir@),
{
    let mut v: Vec<String> = Vec::new();
    proof {
        assert(crate::export::views(v@) =~= Seq::<Seq<char>>::empty());
    }
    push_lit(&mut v, wav);
    push_lit(&mut v, "--model");
    push_lit(&mut v, "base");
    push_lit(&mut v, "--output_dir");
    push_lit(&mut v, out_dir);
    push_lit(&mut v, "--output_format");
    push_lit(&mut v, "srt");
    push_lit(&mut v, "--verbose");
    push_lit(&mut v, "False");
    push_lit(&mut v, "--language");
    push_lit(&mut v, "es");
    push_lit(&mut v, "--device");
    push_lit(&mut v, "cpu");
    push_lit(&mut v, "--fp16");
    push_lit(&mut v, "False");
    proof {
        assert(crate::export::views(v@) =~= openai_args_text(wav@, out_dir@));
    }
    v
}

/// A whisper.cpp binary (named `whisper-cli`, or `main`) takes its own flags.
pub open spec fn is_cpp_binary(name: Seq<char>) -> bool {
    has_sub(name, "whisper-cli"@) || name == "main"@
}

/// How an engine is run: the program and its arguments, and the method name
/// that the captions will report.
pub open spec fn invocation_text(e: WhisperEngine, wav: Seq<char>, out_base: Seq<char>, out_dir: Seq<char>) -> (Seq<char>, Seq<Seq<char>>, Seq<char>) {
    match e {
        WhisperEngine::Binary { path, name } => (path@, if is_cpp_binary(name@) {
            seq!["-f"@, wav, "-of"@, out_base, "-osrt"@, "-l"@, "es"@]
        } else {
            openai_args_text(wav, out_dir)
        }, name@),
        WhisperEngine::PythonModule { python, via } => (python@, (if via@.len() >= 3 && via@.take(3) == "py "@ {
            seq!["-3"@]
        } else {
            Seq::empty()
        }) + seq!["-m"@, "whisper"@] + openai_args_text(wav, out_dir), via@),
    }
}

fn starts_with_py(v: &str) -> (r: bool)
    ensures
        r == (v@.len() >= 3 && v@.take(3) == "py "@),
{
    let c = to_chars(v);
    let p = to_chars("py ");
    proof {
        reveal_strlit("py ");
    }
    let r = crate::text::starts_with(&c, &p);
    proof {
        if r {
            assert(c@.take(3) =~= p@.take(3));
        } else if c@.len() >= 3 {
            assert(!(c@.subrange(0, 3) =~= p@));
        }
    }
    r
}

/// The program, arguments and method name for running `engine` on `wav`.
pub fn whisper_invocation(engine: &WhisperEngine, wav: &str, out_base: &str, out_dir: &str) -> (r: (
    String,
    Vec<String>,
    String,
))
    ensures
        ({
            let t = invocation_text(*engine, wav@, out_base@, out_dir@);
            r.0@ == t.0 && crate::export::views(r.1@) == t.1 && r.2@ == t.2
        }),
{
    match engine {
        WhisperEngine::Binary { path, name } => {
            let n = to_chars(name.as_str());
            let cli = to_chars("whisper-cli");
            let cpp = contains_sub(&n, &cli) || crate::text::str_eq(name.as_str(), "main");
            if cpp {
                let mut v: Vec<String> = Vec::new();
                proof {
                    assert(crate::export::views(v@) =~= Seq::<Seq<char>>::empty());
                }
                push_lit(&mut v, "-f");
                push_lit(&mut v, wav);
                push_lit(&mut v, "-of");
                push_lit(&mut v, out_base);
                push_lit(&mut v, "-osrt");
                push_lit(&mut v, "-l");
                push_lit(&mut v, "es");
                proof {
                    assert(crate::export::views(v@) =~= seq!["-f"@, wav@, "-of"@, out_base@, "-osrt"@, "-l"@, "es"@]);
                }
                (path.clone(), v, name.clone())
            } else {
                (path.clone(), openai_whisper_args(wav, out_dir), name.clone())
            }
        },
        WhisperEngine::PythonModule { python, via } => {
            let mut v: Vec<String> = Vec::new();
            proof {
                assert(crate::export::views(v@) =~= Seq::<Seq<char>>::empty());
            }
            if starts_with_py(via.as_str()) {
                push_lit(&mut v, "-3");
            }
            push_lit(&mut v, "-m");
            push_lit(&mut v, "whisper");
            let rest = openai_whisper_args(wav, out_dir);
            let ghost head = crate::export::views(v@);
            let mut i: usize = 0;
            while i < rest.len()
                invariant
                    i <= rest@.len(),
                    crate::export::views(v@) == head + crate::export::views(rest@).take(i as int),
                decreases rest@.len() - i,
            {
                let ghost b = crate::export::views(v@);
                v.push(rest[i].clone());
                proof {
                    assert(crate::export::views(v@) =~= b.push(rest@[i as int]@));
                    assert(crate::export::views(rest@).take(i as int + 1) =~= crate::export::views(
                        rest@,
                    ).take(i as int).push(rest@[i as int]@));
                }
                i = i + 1;
            }
            proof {
                assert(crate::export::views(rest@).take(rest@.len() as int) =~= crate::export::views(rest@));
                assert(crate::export::views(v@) =~= (if via@.len() >= 3 && via@.take(3) == "py "@ {
                    seq!["-3"@]
                } else {
                    Seq::<Seq<char>>::empty()
                }) + seq!["-m"@, "whisper"@] + openai_args_text(wav@, out_dir@));
            }
            (python.clone(), v, via.clone())
        },
    }
}

/// The end of a process's output for an error message: the trimmed text when
/// it is at most `max` bytes long, else its last `max` characters (all of them
/// when it has no more than `max`).
pub open spec fn tail_text(s: Seq<char>, max: nat) -> Seq<char> {
    let t = trim(s);
    if utf8_len(t) <= max || t.len() <= max {
        t
    } else {
        t.subrange(t.len() - max, t.len() as int)
    }
}

/// The tail of a process's output (see `tail_text`).
pub fn tail_err(s: &str, max: usize) -> (r: String)
    ensures
        r@ == tail_text(s@, max as nat),
{
    let cs = to_chars(s);
    let t = trim_exec(&cs);
    let mut bytes: usize = 0;
    let mut i: usize = 0;
    let mut fits = true;
    while i < t.len()
        invariant
            i <= t@.len(),
            fits ==> bytes == utf8_len(t@.take(i as int)) && bytes <= max,
            !fits ==> utf8_len(t@) > max,
        decreases t@.len() - i,
    {
        proof {
            assert(t@.take(i as int + 1).drop_last() =~= t@.take(i as int));
        }
        if fits {
            let c = t[i];
            let w: usize = if (c as u32) < 0x80 { 1 } else if (c as u32) < 0x800 { 2 } else if (c as u32)
                < 0x10000 { 3 } else { 4 };
            assert(w == utf8_width(c));
            if w > max - bytes {
                fits = false;
                proof {
                    lemma_utf8_prefix_le(t@, i as int + 1);
                }
            } else {
                bytes = bytes + w;
            }
        }
        i = i + 1;
    }
    proof {
        assert(t@.take(t@.len() as int) =~= t@);
    }
    if fits || t.len() <= max {
        from_chars(&t)
    } else {
        let start = t.len() - max;
        let mut out: Vec<char> = Vec::new();
        let mut k: usize = start;
        while k < t.len()
            invariant
                start <= k <= t@.len(),
                out@ =~= t@.subrange(start as int, k as int),
            decreases t@.len() - k,
        {
            out.push(t[k]);
            k = k + 1;
        }
        from_chars(&out)
    }
}

proof fn lemma_utf8_prefix_le(s: Seq<char>, k: int)
    requires
        0 <= k <= s.len(),
    ensures
        utf8_len(s.take(k)) <= utf8_len(s),
    decreases s.len(),
{
    if k < s.len() {
        lemma_utf8_prefix_le(s.drop_last(), k);
        assert(s.drop_last().take(k) =~= s.take(k));
    } else {
        assert(s.take(k) =~= s);
    }
}

/// The hint added when a failed run seems to lack FFmpeg.
pub open spec fn ffmpeg_hint(err: Seq<char>) -> Seq<char> {
    if has_sub(err, "WinError 2"@) || has_sub(err, "cannot find the file"@) || has_sub(
        lowercase(err),
        "ffmpeg"@,
    ) {
        " (Whisper necesita FFmpeg en PATH; VigilCut debería inyectarlo automáticamente — reinicia la app)"@
    } else {
        Seq::empty()
    }
}

/// Message of a failed Whisper run, from the tails of its error and normal output.
pub fn whisper_failure_message(method: &str, err: &str, out: &str) -> (r: String)
    ensures
        r@ == "Whisper falló ("@ + method@ + ")"@ + ffmpeg_hint(err@) + ".\n"@ + err@ + "\n"@ + out@,
{
    let e = to_chars(err);
    let low_s = to_lowercase(err);
    let low = to_chars(low_s.as_str());
    let w2 = to_chars("WinError 2");
    let nf = to_chars("cannot find the file");
    let ff = to_chars("ffmpeg");
    let needs = contains_sub(&e, &w2) || contains_sub(&e, &nf) || contains_sub(&low, &ff);
    let mut m = String::from_str("Whisper falló (");
    push_str(&mut m, method);
    push_str(&mut m, ")");
    if needs {
        push_str(
            &mut m,
            " (Whisper necesita FFmpeg en PATH; VigilCut debería inyectarlo automáticamente — reinicia la app)",
        );
    } else {
        proof {
            assert(m@ + Seq::<char>::empty() =~= m@);
        }
    }
    push_str(&mut m, ".\n");
    push_str(&mut m, err);
    push_str(&mut m, "\n");
    push_str(&mut m, out);
    m
}

} // verus!
