//! Where an application bundle is: the `.app` directory an executable sits
//! in, and the paths inside it.

use vstd::prelude::*;

use crate::resolver::{parent_of, path_parent};
use crate::text::{owned, with_suffix};

verus! {

/// The extension of a path's last component, as `std::path::Path::extension`
/// computes it.
pub uninterp spec fn path_extension(p: Seq<char>) -> Option<Seq<char>>;

/// `std::path::Path::extension`, as text.
#[verifier::external_body]
fn extension_of(p: &str) -> (r: Option<String>)
    ensures
        match path_extension(p@) {
            Some(e) => r matches Some(s) && s@ == e,
            None => r is None,
        },
{
    std::path::Path::new(p).extension().map(|e| e.to_string_lossy().into_owned())
}

pub open spec fn app_extension() -> Seq<char> {
    "app"@
}

/// The first of `dir` and its next `tries - 1` ancestors whose extension
/// is `app`.
pub open spec fn bundle_search(dir: Seq<char>, tries: nat) -> Option<Seq<char>>
    decreases tries,
{
    if tries == 0 {
        None
    } else if path_extension(dir) == Some(app_extension()) {
        Some(dir)
    } else {
        match path_parent(dir) {
            Some(p) => bundle_search(p, (tries - 1) as nat),
            None => None,
        }
    }
}

/// The bundle an executable lives in: the nearest of the five directories
/// above it whose name ends in `.app`.
pub open spec fn spec_app_bundle(exe_path: Seq<char>) -> Option<Seq<char>> {
    match path_parent(exe_path) {
        Some(d) => bundle_search(d, 5),
        None => None,
    }
}

/// The `.app` directory that holds the executable at `exe_path`, looking at
/// most five levels up (`Foo.app/Contents/MacOS/Foo` gives `Foo.app`).
pub fn find_app_bundle(exe_path: &str) -> (r: Option<String>)
    ensures
        match spec_app_bundle(exe_path@) {
            Some(b) => r matches Some(s) && s@ == b,
            None => r is None,
        },
{
    let mut current = match parent_of(exe_path) {
        Some(p) => p,
        None => return None,
    };
    let app = owned("app");
    let mut tries: usize = 5;
    while tries > 0
        invariant
            tries <= 5,
            app@ == app_extension(),
            spec_app_bundle(exe_path@) == bundle_search(current@, tries as nat),
        decreases tries,
    {
        match extension_of(current.as_str()) {
            Some(e) => {
                if e == app {
                    return Some(current);
                }
            },
            None => {},
        }
        current = match parent_of(current.as_str()) {
            Some(p) => p,
            None => return None,
        };
        tries = tries - 1;
    }
    None
}

/// The bundle's directory for an executable: its `.app` directory, or `.`
/// when it is not inside one.
pub fn main_bundle_path(exe_path: &str) -> (r: String)
    ensures
        r@ == match spec_app_bundle(exe_path@) {
            Some(b) => b,
            None => "."@,
        },
{
    match find_app_bundle(exe_path) {
        Some(b) => b,
        None => owned("."),
    }
}

/// Where a bundle keeps its resources.
pub fn resource_path(bundle_path: &str) -> (r: String)
    ensures
        r@ == bundle_path@ + "/Contents/Resources"@,
{
    with_suffix(owned(bundle_path), "/Contents/Resources")
}

} // verus!
