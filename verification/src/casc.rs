//! Names under which a game file is looked up in the CASC archives of the
//! game, and the errors of archive access.
use vstd::prelude::*;
use crate::text::{concat, copy_str, replace_char, replace_char_spec};

verus! {

/// CASC errors.
#[derive(Debug)]
pub enum CascError {
    OpenFailed(String),
    FileNotFound(String),
    ExtractionFailed(String),
    InvalidPath(String),
}

impl CascError {
    /// The error message.
    pub fn message(&self) -> (m: String)
        ensures
            m@ == match self {
                CascError::OpenFailed(d) => "Failed to open CASC storage: "@ + d@,
                CascError::FileNotFound(d) => "File not found in CASC: "@ + d@,
                CascError::ExtractionFailed(d) => "Failed to extract file: "@ + d@,
                CascError::InvalidPath(d) => "Invalid game path: "@ + d@,
            },
    {
        match self {
            CascError::OpenFailed(d) => concat("Failed to open CASC storage: ", d.as_str()),
            CascError::FileNotFound(d) => concat("File not found in CASC: ", d.as_str()),
            CascError::ExtractionFailed(d) => concat("Failed to extract file: ", d.as_str()),
            CascError::InvalidPath(d) => concat("Invalid game path: ", d.as_str()),
        }
    }
}

/// The names tried, in order, for a file in the archives: with the game's
/// "data:data\" prefix, with "data:data/", as given, with every '/' made '\',
/// and with every '\' made '/'.
pub open spec fn casc_variants_spec(p: Seq<char>) -> Seq<Seq<char>> {
    seq![
        "data:data\\"@ + p,
        "data:data/"@ + p,
        p,
        replace_char_spec(p, '/', '\\'),
        replace_char_spec(p, '\\', '/'),
    ]
}

/// The names under which a file is looked up in the archives.
pub fn casc_path_variants(path: &str) -> (r: Vec<String>)
    ensures
        crate::text::views(r@) == casc_variants_spec(path@),
{
    let mut r: Vec<String> = Vec::new();
    r.push(concat("data:data\\", path));
    r.push(concat("data:data/", path));
    r.push(copy_str(path));
    r.push(replace_char(path, '/', '\\'));
    r.push(replace_char(path, '\\', '/'));
    assert(crate::text::views(r@) =~= casc_variants_spec(path@));
    r
}

/// The detail of a file-not-found error: the path, then " (last error: ",
/// the last error ("unknown" when there is none), then ")".
pub fn not_found_detail(path: &str, last_error: Option<&str>) -> (r: String)
    ensures
        r@ == path@ + " (last error: "@ + match last_error {
            Some(e) => e@,
            None => "unknown"@,
        } + ")"@,
{
    let a = concat(path, " (last error: ");
    let b = match last_error {
        Some(e) => concat(a.as_str(), e),
        None => concat(a.as_str(), "unknown"),
    };
    concat(b.as_str(), ")")
}

} // verus!
