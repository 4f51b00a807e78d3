//! A project: a directory that was found by a marker inside it.

use vstd::prelude::*;
use crate::sorter::Candidate;

pub mod files;

verus! {

/// Calls `PathBuf::pop` on the path written as `path`, and hands back how the
/// path is written then. The call truncates the path to its parent, where it
/// has one, and leaves it as it is where it has none: so what comes back is
/// the beginning of `path`. Which beginning depends on how the platform
/// writes paths, and is not claimed.
#[verifier::external_body]
fn without_last_component(path: &str) -> (parent: String)
    ensures
        parent@.is_prefix_of(path@),
{
    let mut buf = std::path::PathBuf::from(path);
    buf.pop();
    buf.to_string_lossy().into_owned()
}

/// Calls `Path::components` on the path written as `path`, and hands back
/// how each component is written, in order. How a path falls into components
/// depends on the platform: nothing is claimed of them.
#[verifier::external_body]
fn components_of(path: &str) -> (components: Vec<String>) {
    std::path::Path::new(path).components().map(
        |c| c.as_os_str().to_string_lossy().into_owned(),
    ).collect()
}

/// A project directory.
#[derive(Debug)]
pub struct Project {
    path: String,
    components: Vec<String>,
}

/// A project directory, as texts.
pub struct Place {
    /// How the path of the project is written.
    pub path: Seq<char>,
    /// The components of the path, as they are written, the first one first.
    pub components: Seq<Seq<char>>,
}

impl Place {
    /// Whether this place and `other` are the same: their paths have the
    /// same components.
    pub open spec fn same_as(self, other: Place) -> bool {
        self.components == other.components
    }

    /// Whether this place is somewhere inside `other`: its path begins with
    /// all the components of the path of `other`, and has more.
    pub open spec fn nested_in(self, other: Place) -> bool {
        other.components.is_prefix_of(self.components) && self.components != other.components
    }
}

impl View for Project {
    type V = Place;

    closed spec fn view(&self) -> Place {
        Place { path: self.path@, components: self.components.deep_view() }
    }
}

/// Whether two lists of components are the same.
fn same_components(a: &Vec<String>, b: &Vec<String>) -> (same: bool)
    ensures
        same == (a.deep_view() == b.deep_view()),
{
    if a.len() != b.len() {
        assert(a.deep_view().len() != b.deep_view().len());
        return false;
    }
    starts_with(a, b)
}

/// Whether the list `a` begins with the list `b`.
fn starts_with(a: &Vec<String>, b: &Vec<String>) -> (begins: bool)
    ensures
        begins == b.deep_view().is_prefix_of(a.deep_view()),
        a@.len() == b@.len() ==> begins == (a.deep_view() == b.deep_view()),
{
    if b.len() > a.len() {
        return false;
    }
    let mut i: usize = 0;
    while i < b.len()
        invariant
            i <= b.len() <= a.len(),
            forall|j: int| 0 <= j < i ==> a@[j]@ == b@[j]@,
        decreases b.len() - i,
    {
        if a[i] != b[i] {
            proof {
                assert(a.deep_view()[i as int] != b.deep_view()[i as int]);
            }
            return false;
        }
        i += 1;
    }
    proof {
        if a@.len() == b@.len() {
            assert(a.deep_view() =~= b.deep_view());
        }
    }
    true
}

impl Project {
    /// The project whose directory holds what `path` names: a project is
    /// found by a marker inside it, and is the directory above the marker.
    /// Which directory that is, and into which components its path falls, the
    /// platform decides: see [`Project::from_parts`] for what is made of
    /// them.
    pub fn new(path: &str) -> (project: Project)
        ensures
            project@.path.is_prefix_of(path@),
    {
        let parent = without_last_component(path);
        let components = components_of(parent.as_str());
        Project::from_parts(parent, components)
    }

    /// The project whose path is written as `path` and falls into
    /// `components`. How a path is written and into which components it
    /// falls is the platform's to say; the project holds the two as they are
    /// given.
    pub fn from_parts(path: String, components: Vec<String>) -> (project: Project)
        ensures
            project@ == (Place { path: path@, components: components.deep_view() }),
    {
        Project { path, components }
    }

    /// How the path of the project is written.
    pub fn path(&self) -> (path: &str)
        ensures
            path@ == self@.path,
    {
        self.path.as_str()
    }

    /// The components of the path of the project.
    pub fn components(&self) -> (components: &Vec<String>)
        ensures
            components.deep_view() == self@.components,
    {
        &self.components
    }

    /// Whether this project and `other` are at the same place.
    pub fn is_same_as(&self, other: &Project) -> (same: bool)
        ensures
            same == self@.same_as(other@),
    {
        same_components(&self.components, &other.components)
    }

    /// Whether this project is somewhere inside `other`.
    pub fn is_nested_in(&self, other: &Project) -> (nested: bool)
        ensures
            nested == self@.nested_in(other@),
    {
        starts_with(&self.components, &other.components) && !same_components(
            &self.components,
            &other.components,
        )
    }
}

impl Clone for Project {
    fn clone(&self) -> (copy: Project)
        ensures
            copy@ == self@,
    {
        let components = self.components.clone();
        Project { path: self.path.clone(), components }
    }
}

impl Candidate for Project {
    open spec fn line(v: Place) -> Seq<char> {
        v.path
    }

    fn to_text(&self) -> (text: String) {
        self.path.clone()
    }

    fn duplicate(&self) -> (copy: Project) {
        self.clone()
    }
}

} // verus!
