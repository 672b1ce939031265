use vstd::prelude::*;

verus! {

/// What `Path::extension` gives for a path, as text.
pub uninterp spec fn path_extension(path: Seq<char>) -> Option<Seq<char>>;

/// What `Path::parent` gives for a path, as text.
pub uninterp spec fn path_parent(path: Seq<char>) -> Option<Seq<char>>;

/// What `Path::file_name` gives for a path, as text.
pub uninterp spec fn path_file_name(path: Seq<char>) -> Option<Seq<char>>;

/// The extension of a path: `Path::extension`, converted to a `String`.
/// Trusted: the result is `path_extension` of the path, a function of the path
/// alone; std's rules for what counts as an extension are not stated here.
#[verifier::external_body]
pub(crate) fn file_extension(path: &str) -> (r: Option<String>)
    ensures
        match r {
            Some(e) => path_extension(path@) == Some(e@),
            None => path_extension(path@) == None::<Seq<char>>,
        },
{
    match std::path::Path::new(path).extension() {
        Some(e) => Some(e.to_string_lossy().to_string()),
        None => None,
    }
}

/// The parent directory of a path: `Path::parent`, converted to a `String`.
/// Trusted: the result is `path_parent` of the path, a function of the path alone.
#[verifier::external_body]
pub(crate) fn parent_of(path: &str) -> (r: Option<String>)
    ensures
        match r {
            Some(q) => path_parent(path@) == Some(q@),
            None => path_parent(path@) == None::<Seq<char>>,
        },
{
    match std::path::Path::new(path).parent() {
        Some(q) => Some(q.to_string_lossy().to_string()),
        None => None,
    }
}

/// The last component of a path: `Path::file_name`, converted to a `String`.
/// Trusted: the result is `path_file_name` of the path, a function of the path alone.
#[verifier::external_body]
pub(crate) fn file_name_of(path: &str) -> (r: Option<String>)
    ensures
        match r {
            Some(q) => path_file_name(path@) == Some(q@),
            None => path_file_name(path@) == None::<Seq<char>>,
        },
{
    match std::path::Path::new(path).file_name() {
        Some(q) => Some(q.to_string_lossy().to_string()),
        None => None,
    }
}

} // verus!
