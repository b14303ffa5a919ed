//! The calls this library makes into code it does not verify.
//!
//! Each function here is believed as stated; nothing in it is proved.

use vstd::prelude::*;

verus! {

/// The directory that holds the file or directory named by `path`, by the path
/// rules of the platform the library is built for; `None` where `path` has none.
pub uninterp spec fn parent_path(path: Seq<char>) -> Option<Seq<char>>;

/// What is left of `path` behind the leading `base`, by the path rules of the
/// platform the library is built for; `None` where `path` does not begin with
/// `base`.
pub uninterp spec fn path_behind(path: Seq<char>, base: Seq<char>) -> Option<Seq<char>>;

/// Calls `std::path::Path::parent`. The result is the parent that the
/// standard library computes for this path text; it reads no file system.
#[verifier::external_body]
pub(crate) fn parent_of(path: &str) -> (parent: Option<String>)
    ensures
        parent.is_some() == parent_path(path@).is_some(),
        parent.is_some() ==> parent.unwrap()@ == parent_path(path@).unwrap(),
{
    match std::path::Path::new(path).parent() {
        Some(dir) => Some(dir.to_string_lossy().into_owned()),
        None => None,
    }
}

/// Calls `std::path::Path::strip_prefix`. The result is the remainder that the
/// standard library computes for these two path texts; it reads no file system.
#[verifier::external_body]
pub(crate) fn strip_base(path: &str, base: &str) -> (rest: Option<String>)
    ensures
        rest.is_some() == path_behind(path@, base@).is_some(),
        rest.is_some() ==> rest.unwrap()@ == path_behind(path@, base@).unwrap(),
{
    match std::path::Path::new(path).strip_prefix(base) {
        Ok(rest) => Some(rest.to_string_lossy().into_owned()),
        Err(_) => None,
    }
}

/// Calls `num_cpus::get`. The count differs from host to host and from run to
/// run; the crate documents only that it is at least one.
#[verifier::external_body]
pub(crate) fn logical_cores() -> (cores: usize)
    ensures
        cores >= 1,
{
    num_cpus::get()
}

/// Calls `fastrand::u64` over the whole range. Nothing is known of the number.
#[verifier::external_body]
pub(crate) fn random_id() -> u64 {
    fastrand::u64(..)
}

/// One component of a path.
pub enum PathPart {
    /// A drive or share prefix.
    Prefix,
    /// The root.
    RootDir,
    /// The directory itself, written `.`.
    CurDir,
    /// The directory above, written `..`.
    ParentDir,
    /// An ordinary name.
    Normal(String),
}

/// What a component of a path says.
pub enum PartView {
    Prefix,
    RootDir,
    CurDir,
    ParentDir,
    Normal(Seq<char>),
}

impl View for PathPart {
    type V = PartView;

    open spec fn view(&self) -> PartView {
        match *self {
            PathPart::Prefix => PartView::Prefix,
            PathPart::RootDir => PartView::RootDir,
            PathPart::CurDir => PartView::CurDir,
            PathPart::ParentDir => PartView::ParentDir,
            PathPart::Normal(name) => PartView::Normal(name@),
        }
    }
}

/// The components of `path`, in order, by the path rules of the platform the
/// library is built for.
pub uninterp spec fn path_parts(path: Seq<char>) -> Seq<PartView>;

/// The path `base` extended by the component `name`, by the path rules of the
/// platform the library is built for.
pub uninterp spec fn path_with(base: Seq<char>, name: Seq<char>) -> Seq<char>;

/// Whether the components of `path` begin with those of `base`, by the path
/// rules of the platform the library is built for.
pub uninterp spec fn path_begins_with(path: Seq<char>, base: Seq<char>) -> bool;

/// What a vector of components says.
pub open spec fn parts_of(parts: Vec<PathPart>) -> Seq<PartView> {
    parts@.map_values(|part: PathPart| part@)
}

/// Calls `std::path::Path::components` and hands on each component as the
/// standard library classes it; it reads no file system.
#[verifier::external_body]
pub(crate) fn path_components(path: &str) -> (parts: Vec<PathPart>)
    ensures
        parts_of(parts) == path_parts(path@),
{
    let mut parts = Vec::new();
    for component in std::path::Path::new(path).components() {
        parts.push(match component {
            std::path::Component::Prefix(_) => PathPart::Prefix,
            std::path::Component::RootDir => PathPart::RootDir,
            std::path::Component::CurDir => PathPart::CurDir,
            std::path::Component::ParentDir => PathPart::ParentDir,
            std::path::Component::Normal(name) => PathPart::Normal(name.to_string_lossy().into_owned()),
        });
    }
    parts
}

/// Calls `std::path::PathBuf::push` on a copy of `base`; it reads no file
/// system.
#[verifier::external_body]
pub(crate) fn push_component(base: &str, name: &str) -> (longer: String)
    ensures
        longer@ == path_with(base@, name@),
{
    let mut path = std::path::PathBuf::from(base);
    path.push(name);
    path.to_string_lossy().into_owned()
}

/// Calls `std::path::Path::starts_with`; it reads no file system.
#[verifier::external_body]
pub(crate) fn lies_under(path: &str, base: &str) -> (under: bool)
    ensures
        under == path_begins_with(path@, base@),
{
    std::path::Path::new(path).starts_with(base)
}

} // verus!
