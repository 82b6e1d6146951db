//! Where the application keeps its data: one folder under the user's data
//! directory, with a subfolder per kind of data.
use vstd::prelude::*;
use crate::error::AppError;
use crate::text::push_str;

verus! {

/// `base` joined with `seg` by a slash (none added when `base` already ends with one).
pub open spec fn joined(base: Seq<char>, seg: Seq<char>) -> Seq<char> {
    if base.len() > 0 && (base.last() == '/' || base.last() == '\\') {
        base + seg
    } else {
        base + "/"@ + seg
    }
}

/// Join a path and one more component.
pub fn join_path(base: &str, seg: &str) -> (r: String)
    ensures
        r@ == joined(base@, seg@),
{
    let b = crate::text::to_chars(base);
    let mut r = String::from_str(base);
    if b.len() > 0 && (b[b.len() - 1] == '/' || b[b.len() - 1] == '\\') {
        push_str(&mut r, seg);
    } else {
        push_str(&mut r, "/");
        push_str(&mut r, seg);
    }
    r
}

/// The application's folder under the user's data directory (`None` when
/// the platform has none).
pub open spec fn data_root(data_dir: Option<Seq<char>>) -> Option<Seq<char>> {
    match data_dir {
        Some(d) => Some(joined(d, "VigilCut"@)),
        None => None,
    }
}

pub open spec fn dir_result(r: Result<String, AppError>, data_dir: Option<Seq<char>>, sub: Seq<char>) -> bool {
    match data_root(data_dir) {
        Some(root) => r matches Ok(p) && p@ == (if sub.len() == 0 { root } else { joined(root, sub) }),
        None => r matches Err(AppError::Message(m)) && m@ == "Cannot resolve data directory"@,
    }
}

/// The application's data folder.
pub fn app_data_dir(data_dir: Option<&str>) -> (r: Result<String, AppError>)
    ensures
        dir_result(r, match data_dir { Some(d) => Some(d@), None => None }, Seq::empty()),
{
    match data_dir {
        Some(d) => Ok(join_path(d, "VigilCut")),
        None => Err(AppError::Message(String::from_str("Cannot resolve data directory"))),
    }
}

fn sub_dir(data_dir: Option<&str>, sub: &str) -> (r: Result<String, AppError>)
    requires
        sub@.len() > 0,
    ensures
        dir_result(r, match data_dir { Some(d) => Some(d@), None => None }, sub@),
{
    match app_data_dir(data_dir) {
        Ok(root) => Ok(join_path(root.as_str(), sub)),
        Err(e) => Err(e),
    }
}

/// The folder of saved projects.
pub fn projects_dir(data_dir: Option<&str>) -> (r: Result<String, AppError>)
    ensures
        dir_result(r, match data_dir { Some(d) => Some(d@), None => None }, "projects"@),
{
    proof {
        reveal_strlit("projects");
    }
    sub_dir(data_dir, "projects")
}

/// The folder of export presets.
pub fn presets_dir(data_dir: Option<&str>) -> (r: Result<String, AppError>)
    ensures
        dir_result(r, match data_dir { Some(d) => Some(d@), None => None }, "presets"@),
{
    proof {
        reveal_strlit("presets");
    }
    sub_dir(data_dir, "presets")
}

/// The folder of cached analyses.
pub fn cache_dir(data_dir: Option<&str>) -> (r: Result<String, AppError>)
    ensures
        dir_result(r, match data_dir { Some(d) => Some(d@), None => None }, "cache"@),
{
    proof {
        reveal_strlit("cache");
    }
    sub_dir(data_dir, "cache")
}

/// The folder of temporary files.
pub fn temp_dir(data_dir: Option<&str>) -> (r: Result<String, AppError>)
    ensures
        dir_result(r, match data_dir { Some(d) => Some(d@), None => None }, "temp"@),
{
    proof {
        reveal_strlit("temp");
    }
    sub_dir(data_dir, "temp")
}

/// The folder of downloaded models.
pub fn models_dir(data_dir: Option<&str>) -> (r: Result<String, AppError>)
    ensures
        dir_result(r, match data_dir { Some(d) => Some(d@), None => None }, "models"@),
{
    proof {
        reveal_strlit("models");
    }
    sub_dir(data_dir, "models")
}

/// The subfolders created at start-up.
pub fn data_subdirs() -> (r: Vec<&'static str>)
    ensures
        r@.len() == 6,
        r@[0]@ == "projects"@ && r@[1]@ == "presets"@ && r@[2]@ == "cache"@,
        r@[3]@ == "exports"@ && r@[4]@ == "temp"@ && r@[5]@ == "models"@,
{
    vec!["projects", "presets", "cache", "exports", "temp", "models"]
}

} // verus!
