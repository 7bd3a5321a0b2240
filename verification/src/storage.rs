//! What the store holds and what each storage operation does to it, with
//! a backend that keeps everything in memory.
//!
//! The state of a store is a set of collection directories and a map from
//! object references to contents. Every operation is stated as a function
//! on that state; [`MemoryStorage`] implements each of them.

use crate::layout::is_collection;
use crate::path::{ArchivePathKind, ArchivePathView, ObjectType};
use crate::text::is_prefix_of;
use vstd::prelude::*;

verus! {

/// Why a storage operation failed.
#[derive(Clone, Copy, Debug, PartialEq, Eq, Structural)]
pub enum StorageError {
    /// There is no such object.
    NotFound,
    /// The object exists already and must not be replaced.
    AlreadyExists,
    /// The byte range does not lie within the object.
    InvalidRange,
    /// The reference does not address a single object.
    InvalidPath,
    /// A directory of the repository could not be made.
    CreatingDirectoryFailed,
    /// The repository does not exist or could not be removed entirely.
    RemovingRepositoryFailed,
    /// Any other failure of the underlying storage.
    StorageIoFailure,
}

/// The state of a store.
pub struct StorageView {
    /// The collection directories that exist, each as a repository path
    /// and a type.
    pub dirs: Set<(Seq<Seq<char>>, ObjectType)>,
    /// The objects that exist, with their contents.
    pub objects: Map<ArchivePathView, Seq<u8>>,
}

/// The reference to the object `id` of type `tpe` in the repository at
/// `repo_path`.
pub open spec fn object_ref(repo_path: Seq<Seq<char>>, tpe: ObjectType, id: Seq<char>)
    -> ArchivePathView {
    ArchivePathView { repo_path, tpe, id: Some(id), kind: ArchivePathKind::File }
}

/// Whether `range` lies within an object of `len` bytes: it starts at its
/// first offset and ends before its second.
pub open spec fn range_fits(range: (u64, u64), len: nat) -> bool {
    range.0 <= range.1 <= len
}

/// The range to read from an object of `len` bytes: the whole object
/// where none is asked for, the range asked for where it fits.
pub open spec fn range_of(range: Option<(u64, u64)>, len: nat) -> Result<(int, int), StorageError> {
    match range {
        None => Ok((0, len as int)),
        Some(r) => if range_fits(r, len) {
            Ok((r.0 as int, r.1 as int))
        } else {
            Err(StorageError::InvalidRange)
        },
    }
}

/// The range to read from an object of `len` bytes, or `InvalidRange`
/// where the range asked for does not lie within the object.
pub fn checked_range(range: Option<(u64, u64)>, len: usize) -> (r: Result<
    (usize, usize),
    StorageError,
>)
    ensures
        match r {
            Ok((start, end)) => range_of(range, len as nat) == Ok::<(int, int), StorageError>(
                (start as int, end as int),
            ) && start <= end <= len,
            Err(e) => range_of(range, len as nat) == Err::<(int, int), StorageError>(e),
        },
{
    match range {
        None => Ok((0, len)),
        Some((start, end)) => {
            if start > end || end > len as u64 {
                Err(StorageError::InvalidRange)
            } else {
                Ok((start as usize, end as usize))
            }
        },
    }
}

impl StorageView {
    /// The empty store.
    pub open spec fn empty() -> StorageView {
        StorageView { dirs: Set::empty(), objects: Map::empty() }
    }

    /// The state with the directories of all collections of a repository
    /// made.
    pub open spec fn with_layout(self, repo_path: Seq<Seq<char>>) -> StorageView {
        StorageView {
            dirs: self.dirs.union(
                Set::new(|d: (Seq<Seq<char>>, ObjectType)| d.0 == repo_path && is_collection(d.1)),
            ),
            objects: self.objects,
        }
    }

    /// Whether anything exists at or below `repo_path`.
    pub open spec fn has_root(self, repo_path: Seq<Seq<char>>) -> bool {
        ||| exists|d: (Seq<Seq<char>>, ObjectType)|
            self.dirs.contains(d) && is_prefix_of(repo_path, d.0)
        ||| exists|k: ArchivePathView|
            self.objects.contains_key(k) && is_prefix_of(repo_path, k.repo_path)
    }

    /// The state without anything at or below `repo_path`.
    pub open spec fn without_root(self, repo_path: Seq<Seq<char>>) -> StorageView {
        StorageView {
            dirs: Set::new(
                |d: (Seq<Seq<char>>, ObjectType)|
                    self.dirs.contains(d) && !is_prefix_of(repo_path, d.0),
            ),
            objects: Map::new(
                |k: ArchivePathView|
                    self.objects.contains_key(k) && !is_prefix_of(repo_path, k.repo_path),
                |k: ArchivePathView| self.objects[k],
            ),
        }
    }

    /// What removing a repository returns and leaves: where nothing exists
    /// at or below the path it fails and changes nothing.
    pub open spec fn remove_repository(self, repo_path: Seq<Seq<char>>) -> (
        Result<(), StorageError>,
        StorageView,
    ) {
        if self.has_root(repo_path) {
            (Ok(()), self.without_root(repo_path))
        } else {
            (Err(StorageError::RemovingRepositoryFailed), self)
        }
    }

    /// Whether the collection holds an object of that id.
    pub open spec fn has_name(self, repo_path: Seq<Seq<char>>, tpe: ObjectType, id: Seq<char>)
        -> bool {
        self.objects.contains_key(object_ref(repo_path, tpe, id))
    }

    /// What reading returns: the whole content, or the bytes of the range.
    pub open spec fn read(self, p: ArchivePathView, range: Option<(u64, u64)>) -> Result<
        Seq<u8>,
        StorageError,
    > {
        if !self.objects.contains_key(p) {
            Err(StorageError::NotFound)
        } else {
            match range_of(range, self.objects[p].len()) {
                Ok((start, end)) => Ok(self.objects[p].subrange(start, end)),
                Err(e) => Err(e),
            }
        }
    }

    /// What an exclusive create returns and leaves: it stores the content
    /// only where the reference addresses an object that does not exist
    /// yet, and otherwise changes nothing.
    pub open spec fn write_new(self, p: ArchivePathView, bytes: Seq<u8>) -> (
        Result<(), StorageError>,
        StorageView,
    ) {
        if !p.is_object() {
            (Err(StorageError::InvalidPath), self)
        } else if self.objects.contains_key(p) {
            (Err(StorageError::AlreadyExists), self)
        } else {
            (Ok(()), StorageView { dirs: self.dirs, objects: self.objects.insert(p, bytes) })
        }
    }

    /// What an overwriting store returns and leaves: the content is
    /// stored whether or not the object existed.
    pub open spec fn write_overwrite(self, p: ArchivePathView, bytes: Seq<u8>) -> (
        Result<(), StorageError>,
        StorageView,
    ) {
        if !p.is_object() {
            (Err(StorageError::InvalidPath), self)
        } else {
            (Ok(()), StorageView { dirs: self.dirs, objects: self.objects.insert(p, bytes) })
        }
    }

    /// What deleting returns and leaves: an object that exists is gone
    /// afterwards, and nothing else changes.
    pub open spec fn delete(self, p: ArchivePathView) -> (Result<(), StorageError>, StorageView) {
        if self.objects.contains_key(p) {
            (Ok(()), StorageView { dirs: self.dirs, objects: self.objects.remove(p) })
        } else {
            (Err(StorageError::NotFound), self)
        }
    }
}

/// Of two exclusive creates of the same object, whatever each wants to
/// store, the first succeeds and the second fails with `AlreadyExists`;
/// the object then holds what the first one stored, whole.
pub proof fn law_exclusive_create(
    s: StorageView,
    p: ArchivePathView,
    first: Seq<u8>,
    second: Seq<u8>,
)
    requires
        p.is_object(),
        !s.objects.contains_key(p),
    ensures
        s.write_new(p, first).0 is Ok,
        s.write_new(p, first).1.write_new(p, second).0 == Err::<(), StorageError>(
            StorageError::AlreadyExists,
        ),
        s.write_new(p, first).1.write_new(p, second).1 == s.write_new(p, first).1,
        s.write_new(p, first).1.objects[p] == first,
{
}

/// An exclusive create never changes an object that exists.
pub proof fn law_exclusive_create_keeps(s: StorageView, p: ArchivePathView, bytes: Seq<u8>)
    requires
        s.objects.contains_key(p),
    ensures
        s.write_new(p, bytes).0 is Err,
        s.write_new(p, bytes).1 == s,
{
}

/// Making the layout of a repository a second time changes nothing.
pub proof fn law_layout_idempotent(s: StorageView, repo_path: Seq<Seq<char>>)
    ensures
        s.with_layout(repo_path).with_layout(repo_path) == s.with_layout(repo_path),
        forall|t: ObjectType|
            is_collection(t) ==> s.with_layout(repo_path).dirs.contains((repo_path, t)),
{
    assert(s.with_layout(repo_path).with_layout(repo_path).dirs =~= s.with_layout(repo_path).dirs);
}

/// After a repository is removed nothing exists at or below its path.
pub proof fn law_removed_repository_is_gone(s: StorageView, repo_path: Seq<Seq<char>>)
    ensures
        !s.without_root(repo_path).has_root(repo_path),
{
}

} // verus!
