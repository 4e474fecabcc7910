//! Path comparison, file names and relative display, as the standard
//! library defines them.
use vstd::prelude::*;

verus! {

/// Whether the paths spelled `a` and `b` are equal as `std::path::Path`s
/// (compared component by component). Which spellings that equates is the
/// platform's: Windows and Unix parse paths differently, so this is a
/// different relation on each, fixed for any one build.
pub uninterp spec fn path_eq(a: Seq<char>, b: Seq<char>) -> bool;

/// `path_eq` is an equivalence relation: reflexive, symmetric and
/// transitive.
pub open spec fn path_eq_is_equivalence() -> bool {
    &&& forall|a: Seq<char>| #[trigger] path_eq(a, a)
    &&& forall|a: Seq<char>, b: Seq<char>| #[trigger] path_eq(a, b) ==> path_eq(b, a)
    &&& forall|a: Seq<char>, b: Seq<char>, c: Seq<char>|
        #[trigger] path_eq(a, b) && #[trigger] path_eq(b, c) ==> path_eq(a, c)
}

/// `Path::new(a) == Path::new(b)` from `std::path`. Its contract only
/// names the result: what component-wise equality means for given
/// spellings is left to `path_eq`. That `Path`'s `Eq` impl makes `path_eq`
/// an equivalence (`path_eq_is_equivalence`) is a fact about every pair of
/// paths, not about this call's result, so it is not a clause here; the
/// laws that rest on it take it as a hypothesis.
#[verifier::external_body]
pub fn paths_equal(a: &str, b: &str) -> (r: bool)
    ensures
        r == path_eq(a@, b@),
{
    std::path::Path::new(a) == std::path::Path::new(b)
}

/// The text that `Path::new(path).strip_prefix(root)` displays, or that
/// of `path` itself where `root` is not one of its leading components.
pub uninterp spec fn relative_display(path: Seq<char>, root: Seq<char>) -> Seq<char>;

/// `path` shown relative to `root` with `Path::strip_prefix` and
/// `Path::display` from `std::path`, falling back to `path` whole. Its
/// contract only names the result: which leading components are dropped
/// is left to `relative_display`.
#[verifier::external_body]
pub fn relative_to(path: &str, root: &str) -> (s: String)
    ensures
        s@ == relative_display(path@, root@),
{
    let p = std::path::Path::new(path);
    p.strip_prefix(root).unwrap_or(p).display().to_string()
}

/// The text of the last component of `Path::new(path)` (its
/// `file_name`), empty where the path has none.
pub uninterp spec fn file_name_text(path: Seq<char>) -> Seq<char>;

/// `Path::file_name` from `std::path`, as text: empty for a path that ends
/// in `..` or is a root. Its contract only names the result: which
/// component that is, is left to `file_name_text`.
#[verifier::external_body]
pub fn file_name(path: &str) -> (s: String)
    ensures
        s@ == file_name_text(path@),
{
    match std::path::Path::new(path).file_name() {
        Some(n) => n.to_string_lossy().into_owned(),
        None => String::new(),
    }
}

} // verus!
