use vstd::prelude::*;

verus! {

/// The path that `std::path::Path::join` makes of `base` and `name`.
pub uninterp spec fn path_join(base: Seq<char>, name: Seq<char>) -> Seq<char>;

/// The components that `std::path::Path::iter` yields for a path.
pub uninterp spec fn path_segments(path: Seq<char>) -> Seq<Seq<char>>;

/// Relies on `std::path::Path::join`: the result depends on the two paths alone.
#[verifier::external_body]
pub(crate) fn join_path(base: &str, name: &str) -> (r: String)
    ensures
        r@ == path_join(base@, name@),
{
    std::path::Path::new(base).join(name).to_string_lossy().into_owned()
}

/// Relies on `std::path::Path::iter`: the components depend on the path alone.
#[verifier::external_body]
pub(crate) fn split_path(path: &str) -> (r: Vec<String>)
    ensures
        r@.map_values(|s: String| s@) == path_segments(path@),
{
    std::path::Path::new(path).iter().map(|c| c.to_string_lossy().into_owned()).collect()
}

} // verus!
