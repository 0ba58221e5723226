//! Path operations of `std::path` on UTF-8 path strings. Each result is
//! named: it is a function of the argument alone under the path syntax of
//! the platform the library is built for.
use vstd::prelude::*;

verus! {

/// `Path::extension` of a path, as text.
pub uninterp spec fn path_extension(p: Seq<char>) -> Option<Seq<char>>;

/// `Path::file_name` of a path, as text.
pub uninterp spec fn path_file_name(p: Seq<char>) -> Option<Seq<char>>;

/// `Path::file_stem` of a path, as text.
pub uninterp spec fn path_file_stem(p: Seq<char>) -> Option<Seq<char>>;

/// `Path::parent` of a path, displayed.
pub uninterp spec fn path_parent(p: Seq<char>) -> Option<Seq<char>>;

/// `Path::join` of two paths, displayed.
pub uninterp spec fn path_join(base: Seq<char>, rest: Seq<char>) -> Seq<char>;

/// `Path::is_absolute` of a path.
pub uninterp spec fn path_is_absolute(p: Seq<char>) -> bool;

/// `Path::with_file_name` of a path, displayed.
pub uninterp spec fn path_with_file_name(p: Seq<char>, name: Seq<char>) -> Seq<char>;

/// A text option as characters.
pub open spec fn opt_text(o: Option<String>) -> Option<Seq<char>> {
    match o {
        Some(s) => Some(s@),
        None => None,
    }
}

/// The extension of `p` (`Path::extension`): the text after the last `.`
/// of the file name, when that dot does not begin the name.
#[verifier::external_body]
pub(crate) fn extension_of(p: &str) -> (r: Option<String>)
    ensures
        opt_text(r) == path_extension(p@),
{
    match std::path::Path::new(p).extension() {
        Some(ext) => ext.to_str().map(String::from),
        None => None,
    }
}

/// The last component of `p` (`Path::file_name`), unless it is `..`.
#[verifier::external_body]
pub(crate) fn file_name_of(p: &str) -> (r: Option<String>)
    ensures
        opt_text(r) == path_file_name(p@),
{
    match std::path::Path::new(p).file_name() {
        Some(name) => name.to_str().map(String::from),
        None => None,
    }
}

/// The file name of `p` without its extension (`Path::file_stem`).
#[verifier::external_body]
pub(crate) fn file_stem_of(p: &str) -> (r: Option<String>)
    ensures
        opt_text(r) == path_file_stem(p@),
{
    match std::path::Path::new(p).file_stem() {
        Some(stem) => stem.to_str().map(String::from),
        None => None,
    }
}

/// `p` without its last component (`Path::parent`), displayed.
#[verifier::external_body]
pub(crate) fn parent_of(p: &str) -> (r: Option<String>)
    ensures
        opt_text(r) == path_parent(p@),
{
    match std::path::Path::new(p).parent() {
        Some(parent) => Some(parent.display().to_string()),
        None => None,
    }
}

/// `rest` appended to `base` (`Path::join`): `rest` itself when it is absolute.
#[verifier::external_body]
pub(crate) fn join_paths(base: &str, rest: &str) -> (r: String)
    ensures
        r@ == path_join(base@, rest@),
{
    std::path::Path::new(base).join(rest).display().to_string()
}

/// Whether `p` is absolute (`Path::is_absolute`).
#[verifier::external_body]
pub(crate) fn is_absolute(p: &str) -> (r: bool)
    ensures
        r == path_is_absolute(p@),
{
    std::path::Path::new(p).is_absolute()
}

/// `p` with its file name replaced by `name` (`Path::with_file_name`), displayed.
#[verifier::external_body]
pub(crate) fn with_file_name(p: &str, name: &str) -> (r: String)
    ensures
        r@ == path_with_file_name(p@, name@),
{
    std::path::Path::new(p).with_file_name(name).display().to_string()
}

} // verus!
