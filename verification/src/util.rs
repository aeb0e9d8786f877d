//! Names of files and the spelling of paths.

use vstd::prelude::*;

verus! {

/// What the last component of a path is.
pub enum Component {
    /// The path has no last component that names a file or a directory.
    Missing,
    /// The last component is not valid UTF-8.
    NotUtf8,
    /// The last component.
    Name(String),
}

/// What the last component of a path is, as a value of the contracts.
pub enum ComponentModel {
    /// The path has no last component that names a file or a directory.
    Missing,
    /// The last component is not valid UTF-8.
    NotUtf8,
    /// The characters of the last component.
    Name(Seq<char>),
}

impl Component {
    /// The component as a value of the contracts.
    pub open spec fn view(&self) -> ComponentModel {
        match *self {
            Component::Missing => ComponentModel::Missing,
            Component::NotUtf8 => ComponentModel::NotUtf8,
            Component::Name(name) => ComponentModel::Name(name@),
        }
    }
}

/// The last component of the path with the characters `path`, as
/// `std::path::Path::file_name` finds it in the path syntax that the library
/// is built for, read as text.
pub uninterp spec fn last_component_of(path: Seq<char>) -> ComponentModel;

/// `std::path::Path::file_name` on `path`, and `OsStr::to_str` on what it
/// finds.  The result depends on the characters of the path alone; what it is
/// takes the whole of the platform's path syntax to say, so it goes by the
/// name `last_component_of`.
#[verifier::external_body]
fn last_component(path: &str) -> (r: Component)
    ensures
        r@ == last_component_of(path@),
{
    match std::path::Path::new(path).file_name() {
        None => Component::Missing,
        Some(name) => match name.to_str() {
            None => Component::NotUtf8,
            Some(name) => Component::Name(name.to_owned()),
        },
    }
}

/// `str::replace` with the pattern `"\\"` and the replacement `"/"`: every
/// backslash becomes a slash and every other character stays.
#[verifier::external_body]
fn replace_backslashes(path: &str) -> (r: String)
    ensures
        r@ == with_slashes(path@),
{
    path.replace("\\", "/")
}

/// `path` with a slash in the place of every backslash.
pub open spec fn with_slashes(path: Seq<char>) -> Seq<char> {
    Seq::new(
        path.len(),
        |i: int|
            if path[i] == '\\' {
                '/'
            } else {
                path[i]
            },
    )
}

/// The file name that a path's last component gives, or why there is none.
pub fn component_name(component: Component) -> (r: Result<String, &'static str>)
    ensures
        match component {
            Component::Missing => r.is_err() && r.unwrap_err()@ == "Path has no file name"@,
            Component::NotUtf8 => r.is_err() && r.unwrap_err()@ == "File name is not valid UTF-8"@,
            Component::Name(name) => r == Ok::<String, &'static str>(name),
        },
{
    match component {
        Component::Missing => Err("Path has no file name"),
        Component::NotUtf8 => Err("File name is not valid UTF-8"),
        Component::Name(name) => Ok(name),
    }
}

/// `r` is what asking for the file name gives where the last component of
/// the path is `component`: the component itself where there is one, else
/// the reason why there is none.
pub open spec fn is_file_name(component: ComponentModel, r: Result<String, &'static str>) -> bool {
    match component {
        ComponentModel::Missing => r.is_err() && r.unwrap_err()@ == "Path has no file name"@,
        ComponentModel::NotUtf8 => r.is_err() && r.unwrap_err()@
            == "File name is not valid UTF-8"@,
        ComponentModel::Name(name) => r.is_ok() && r.unwrap()@ == name,
    }
}

/// The name of the file that `path` leads to: its last component.  A path
/// without a last component, such as one that ends in `..`, has no file name.
pub fn file_name(path: &str) -> (r: Result<String, &'static str>)
    ensures
        is_file_name(last_component_of(path@), r),
{
    component_name(last_component(path))
}

/// `path` spelled with slashes only.
pub fn normalise_path(path: &str) -> (r: String)
    ensures
        r@ == with_slashes(path@),
{
    replace_backslashes(path)
}

} // verus!
