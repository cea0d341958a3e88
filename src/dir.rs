//! The project directory: the user's input path, its resolved form with its
//! leaf name, and the checks made before the directory is moved.

use vstd::prelude::*;
use vstd::string::StringSliceAdditionalSpecFns;
use crate::path::{is_absolute, join, leaf, parent, spec_is_absolute, spec_join, spec_leaf, spec_parent};

verus! {

/// A path given by the user, told apart by whether it starts at the root.
#[derive(Debug, Clone)]
pub enum InputDir {
    Absolute(Vec<u8>),
    Relative(Vec<u8>),
}

/// Why a project directory cannot be resolved or moved.
#[derive(Debug, Clone, Copy, PartialEq, Eq, Structural)]
pub enum PathError {
    /// The resolved path has no last component.
    EmptyPath,
    /// The resolved path exists and is something other than a directory.
    NotADirectory,
    /// The path is the root, which has no parent to rename it in.
    NoParent,
    /// Something already stands at the destination.
    DestinationExists,
}

/// What the move of the directory amounts to, once it is allowed.
#[derive(Debug, Clone, Copy, PartialEq, Eq, Structural)]
pub enum MovePlan {
    /// The destination is the directory's own path.
    SamePath,
    /// The directory goes to a new path.
    Rename,
}

impl InputDir {
    /// The path as the user wrote it.
    pub open spec fn spec_path(&self) -> Seq<u8> {
        match self {
            InputDir::Absolute(p) => p@,
            InputDir::Relative(p) => p@,
        }
    }

    /// The input path, marked absolute or relative.
    pub fn from_bytes(p: Vec<u8>) -> (r: InputDir)
        ensures
            r.spec_path() == p@,
            r is Absolute <==> spec_is_absolute(p@),
    {
        if is_absolute(p.as_slice()) {
            InputDir::Absolute(p)
        } else {
            InputDir::Relative(p)
        }
    }

    /// The path to resolve: a relative input is taken from `cwd`.
    pub fn full_path(&self, cwd: &[u8]) -> (r: Vec<u8>)
        ensures
            self is Absolute ==> r@ == self.spec_path(),
            self is Relative ==> r@ == spec_join(cwd@, self.spec_path()),
    {
        match self {
            InputDir::Absolute(p) => p.clone(),
            InputDir::Relative(p) => join(cwd, p.as_slice()),
        }
    }
}

impl core::str::FromStr for InputDir {
    type Err = core::convert::Infallible;

    /// Every string is a path, absolute or relative.
    fn from_str(s: &str) -> (r: Result<InputDir, core::convert::Infallible>)
        ensures
            r matches Ok(d) && d.spec_path() == s.spec_bytes() && (d is Absolute
                <==> spec_is_absolute(s.spec_bytes())),
    {
        Ok(InputDir::from_bytes(vstd::slice::slice_to_vec(s.as_bytes())))
    }
}

/// Where a directory at `path` goes when it is renamed to `new_name`: into
/// its parent, beside itself. A path without a parent has nowhere to go.
pub open spec fn spec_destination(path: Seq<u8>, new_name: Seq<u8>) -> Option<Seq<u8>> {
    match spec_parent(path) {
        Some(q) => Some(spec_join(q, new_name)),
        None => None,
    }
}

/// A resolved project directory and its leaf name.
pub struct Directory {
    pub path: Vec<u8>,
    pub name: Vec<u8>,
}

impl Directory {
    /// The name is the path's last component.
    pub open spec fn wf(&self) -> bool {
        spec_leaf(self.path@) == Some(self.name@)
    }

    /// The directory at the canonical path `path`, where `exists` and `is_dir`
    /// say what stands there on disk.
    pub fn from_canonical(path: Vec<u8>, exists: bool, is_dir: bool) -> (r: Result<
        Directory,
        PathError,
    >)
        ensures
            spec_leaf(path@) is None ==> r == Err::<Directory, PathError>(PathError::EmptyPath),
            spec_leaf(path@) is Some && exists && !is_dir ==> r == Err::<Directory, PathError>(
                PathError::NotADirectory,
            ),
            spec_leaf(path@) is Some && !(exists && !is_dir) ==> r is Ok,
            r matches Ok(d) ==> d.path@ == path@ && d.wf(),
    {
        match leaf(path.as_slice()) {
            None => Err(PathError::EmptyPath),
            Some(name) => {
                if exists && !is_dir {
                    Err(PathError::NotADirectory)
                } else {
                    Ok(Directory { path, name })
                }
            },
        }
    }

    /// The path the directory takes when renamed to `new_name`; the root
    /// cannot be renamed.
    pub fn destination(&self, new_name: &[u8]) -> (r: Result<Vec<u8>, PathError>)
        ensures
            spec_parent(self.path@) is None <==> r == Err::<Vec<u8>, PathError>(
                PathError::NoParent,
            ),
            r matches Ok(d) ==> spec_destination(self.path@, new_name@) == Some(d@),
    {
        match parent(self.path.as_slice()) {
            Some(q) => Ok(join(q.as_slice(), new_name)),
            None => Err(PathError::NoParent),
        }
    }

    /// Whether the directory may move to `dest`, where `dest_exists` says
    /// whether anything stands there: never onto an existing entry.
    pub fn check_destination(&self, dest: &[u8], dest_exists: bool) -> (r: Result<
        MovePlan,
        PathError,
    >)
        ensures
            dest_exists <==> r == Err::<MovePlan, PathError>(PathError::DestinationExists),
            !dest_exists && dest@ == self.path@ ==> r == Ok::<MovePlan, PathError>(
                MovePlan::SamePath,
            ),
            !dest_exists && dest@ != self.path@ ==> r == Ok::<MovePlan, PathError>(
                MovePlan::Rename,
            ),
    {
        if dest_exists {
            Err(PathError::DestinationExists)
        } else if bytes_equal(self.path.as_slice(), dest) {
            Ok(MovePlan::SamePath)
        } else {
            Ok(MovePlan::Rename)
        }
    }
}

/// Whether two byte strings are equal.
fn bytes_equal(a: &[u8], b: &[u8]) -> (r: bool)
    ensures
        r == (a@ == b@),
{
    if a.len() != b.len() {
        return false;
    }
    let mut i: usize = 0;
    while i < a.len()
        invariant
            a@.len() == b@.len(),
            i <= a@.len(),
            forall|k: int| 0 <= k < i ==> a@[k] == b@[k],
        decreases a@.len() - i,
    {
        if a[i] != b[i] {
            return false;
        }
        i += 1;
    }
    assert(a@ =~= b@);
    true
}

} // verus!
