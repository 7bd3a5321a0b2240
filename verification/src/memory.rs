//! A store that keeps its directories and objects in memory.

use crate::layout::{collection_types, collections, is_collection};
use crate::path::{ArchivePath, ArchivePathKind, ArchivePathView, ObjectType};
use crate::storage::{checked_range, object_ref, StorageError, StorageView};
use crate::text::{copy_texts, is_prefix_of, same_texts, starts_with_texts, texts};
use vstd::prelude::*;

verus! {

/// The directory of one collection.
#[derive(Debug)]
struct Collection {
    repo: Vec<String>,
    tpe: ObjectType,
}

/// One object with its content.
#[derive(Debug)]
struct StoredObject {
    path: ArchivePath,
    bytes: Vec<u8>,
}

/// The `i`th directory as a repository path and a type.
spec fn dir_at(dirs: Seq<Collection>, i: int) -> (Seq<Seq<char>>, ObjectType) {
    (texts(dirs[i].repo@), dirs[i].tpe)
}

/// The directories as a set.
spec fn dir_set(dirs: Seq<Collection>) -> Set<(Seq<Seq<char>>, ObjectType)> {
    Set::new(
        |d: (Seq<Seq<char>>, ObjectType)|
            exists|i: int| 0 <= i < dirs.len() && #[trigger] dir_at(dirs, i) == d,
    )
}

/// The reference of the `i`th entry.
spec fn key_at(objs: Seq<StoredObject>, i: int) -> ArchivePathView {
    objs[i].path@
}

/// Whether some entry has the reference `k`.
spec fn holds(objs: Seq<StoredObject>, k: ArchivePathView) -> bool {
    exists|i: int| 0 <= i < objs.len() && #[trigger] key_at(objs, i) == k
}

/// No two entries address the same object.
spec fn distinct(objs: Seq<StoredObject>) -> bool {
    forall|i: int, j: int|
        0 <= i < j < objs.len() ==> #[trigger] key_at(objs, i) != #[trigger] key_at(objs, j)
}

/// Every entry is addressed by a well-formed object reference.
spec fn all_objects(objs: Seq<StoredObject>) -> bool {
    forall|i: int|
        0 <= i < objs.len() ==> (#[trigger] key_at(objs, i)).wf() && key_at(objs, i).is_object()
}

/// The entries as a map from references to contents.
spec fn object_map(objs: Seq<StoredObject>) -> Map<ArchivePathView, Seq<u8>>
    decreases objs.len(),
{
    if objs.len() == 0 {
        Map::empty()
    } else {
        object_map(objs.drop_last()).insert(objs.last().path@, objs.last().bytes@)
    }
}

/// The map holds exactly the keys of the entries.
proof fn lemma_key(objs: Seq<StoredObject>, k: ArchivePathView)
    ensures
        object_map(objs).contains_key(k) <==> holds(objs, k),
    decreases objs.len(),
{
    if objs.len() > 0 {
        let front = objs.drop_last();
        lemma_key(front, k);
        if holds(objs, k) {
            let i = choose|i: int| 0 <= i < objs.len() && #[trigger] key_at(objs, i) == k;
            if i < objs.len() - 1 {
                assert(key_at(front, i) == k);
            }
        }
        if object_map(objs).contains_key(k) {
            if k == objs.last().path@ {
                assert(key_at(objs, objs.len() - 1) == k);
            } else {
                assert(object_map(front).contains_key(k));
                let i = choose|i: int| 0 <= i < front.len() && #[trigger] key_at(front, i) == k;
                assert(key_at(objs, i) == k);
            }
        }
    }
}

/// The map holds exactly the keys of the entries.
proof fn lemma_keys(objs: Seq<StoredObject>)
    ensures
        forall|k: ArchivePathView| #[trigger] object_map(objs).contains_key(k) <==> holds(objs, k),
{
    assert forall|k: ArchivePathView| #[trigger]
        object_map(objs).contains_key(k) <==> holds(objs, k) by {
        lemma_key(objs, k);
    }
}

/// Among distinct entries, the map gives each key the content of its
/// entry.
proof fn lemma_value(objs: Seq<StoredObject>, i: int)
    requires
        distinct(objs),
        0 <= i < objs.len(),
    ensures
        object_map(objs).contains_key(key_at(objs, i)),
        object_map(objs)[key_at(objs, i)] == objs[i].bytes@,
    decreases objs.len(),
{
    let front = objs.drop_last();
    if i < objs.len() - 1 {
        assert forall|a: int, b: int| 0 <= a < b < front.len() implies #[trigger] key_at(front, a)
            != #[trigger] key_at(front, b) by {
            assert(key_at(objs, a) != key_at(objs, b));
        }
        lemma_value(front, i);
        assert(key_at(front, i) == key_at(objs, i));
        assert(key_at(objs, i) != key_at(objs, objs.len() - 1));
    }
}

/// The index of the entry that addresses what `path` addresses.
fn find(objs: &Vec<StoredObject>, path: &ArchivePath) -> (r: Option<usize>)
    ensures
        match r {
            Some(i) => i < objs.len() && key_at(objs@, i as int) == path@,
            None => !holds(objs@, path@),
        },
{
    let mut i: usize = 0;
    while i < objs.len()
        invariant
            i <= objs.len(),
            forall|j: int| 0 <= j < i ==> #[trigger] key_at(objs@, j) != path@,
        decreases objs.len() - i,
    {
        if objs[i].path.same_as(path) {
            return Some(i);
        }
        i += 1;
    }
    None
}

/// Whether the directory of the collection is among `dirs`.
fn has_dir(dirs: &Vec<Collection>, repo: &Vec<String>, tpe: ObjectType) -> (r: bool)
    ensures
        r == dir_set(dirs@).contains((texts(repo@), tpe)),
{
    let mut i: usize = 0;
    while i < dirs.len()
        invariant
            i <= dirs.len(),
            forall|j: int| 0 <= j < i ==> #[trigger] dir_at(dirs@, j) != (texts(repo@), tpe),
        decreases dirs.len() - i,
    {
        if dirs[i].tpe == tpe && same_texts(&dirs[i].repo, repo) {
            assert(dir_at(dirs@, i as int) == (texts(repo@), tpe));
            return true;
        }
        i += 1;
    }
    false
}

/// Whether a directory at or below `repo` is among `dirs`.
fn any_dir_below(dirs: &Vec<Collection>, repo: &Vec<String>) -> (r: bool)
    ensures
        r == exists|d: (Seq<Seq<char>>, ObjectType)|
            dir_set(dirs@).contains(d) && is_prefix_of(texts(repo@), d.0),
{
    let mut i: usize = 0;
    while i < dirs.len()
        invariant
            i <= dirs.len(),
            forall|j: int| 0 <= j < i ==> !is_prefix_of(texts(repo@), (#[trigger] dir_at(dirs@, j)).0),
        decreases dirs.len() - i,
    {
        if starts_with_texts(&dirs[i].repo, repo) {
            let ghost d = dir_at(dirs@, i as int);
            assert(dir_set(dirs@).contains(d) && is_prefix_of(texts(repo@), d.0));
            return true;
        }
        i += 1;
    }
    false
}

/// Whether an object at or below `repo` is among `objs`.
fn any_object_below(objs: &Vec<StoredObject>, repo: &Vec<String>) -> (r: bool)
    ensures
        r == exists|k: ArchivePathView|
            object_map(objs@).contains_key(k) && is_prefix_of(texts(repo@), k.repo_path),
{
    let mut i: usize = 0;
    while i < objs.len()
        invariant
            i <= objs.len(),
            forall|j: int|
                0 <= j < i ==> !is_prefix_of(texts(repo@), (#[trigger] key_at(objs@, j)).repo_path),
        decreases objs.len() - i,
    {
        if starts_with_texts(objs[i].path.repo_path(), repo) {
            let ghost k = key_at(objs@, i as int);
            proof {
                lemma_key(objs@, k);
            }
            assert(object_map(objs@).contains_key(k) && is_prefix_of(texts(repo@), k.repo_path));
            return true;
        }
        i += 1;
    }
    proof {
        lemma_keys(objs@);
    }
    false
}

/// The directories of `dirs` that are not at or below `repo`.
fn dirs_outside(dirs: Vec<Collection>, repo: &Vec<String>) -> (out: Vec<Collection>)
    ensures
        dir_set(out@) == Set::new(
            |d: (Seq<Seq<char>>, ObjectType)|
                dir_set(dirs@).contains(d) && !is_prefix_of(texts(repo@), d.0),
        ),
{
    let ghost all = dirs@;
    let mut rest = dirs;
    let mut out: Vec<Collection> = Vec::new();
    while rest.len() > 0
        invariant
            rest@ == all.take(rest.len() as int),
            rest.len() <= all.len(),
            forall|j: int|
                0 <= j < out.len() ==> dir_set(all).contains(#[trigger] dir_at(out@, j))
                    && !is_prefix_of(texts(repo@), dir_at(out@, j).0),
            forall|i: int|
                rest.len() <= i < all.len() && !is_prefix_of(
                    texts(repo@),
                    (#[trigger] dir_at(all, i)).0,
                ) ==> dir_set(out@).contains(dir_at(all, i)),
        decreases rest.len(),
    {
        let ghost m = rest.len() - 1;
        let ghost before = out@;
        let dir = rest.pop().unwrap();
        assert(rest@ =~= all.take(m));
        assert(dir == all[m]);
        if !starts_with_texts(&dir.repo, repo) {
            out.push(dir);
            assert(dir_at(out@, out.len() - 1) == dir_at(all, m));
            assert forall|j: int| 0 <= j < out.len() implies dir_set(all).contains(
                #[trigger] dir_at(out@, j),
            ) && !is_prefix_of(texts(repo@), dir_at(out@, j).0) by {
                if j < before.len() {
                    assert(dir_at(out@, j) == dir_at(before, j));
                }
            }
            assert forall|i: int|
                rest.len() <= i < all.len() && !is_prefix_of(
                    texts(repo@),
                    (#[trigger] dir_at(all, i)).0,
                ) implies dir_set(out@).contains(dir_at(all, i)) by {
                if i > m {
                    let j = choose|j: int|
                        0 <= j < before.len() && #[trigger] dir_at(before, j) == dir_at(all, i);
                    assert(dir_at(out@, j) == dir_at(all, i));
                }
            }
        }
    }
    assert(dir_set(out@) =~= Set::new(
        |d: (Seq<Seq<char>>, ObjectType)|
            dir_set(all).contains(d) && !is_prefix_of(texts(repo@), d.0),
    ));
    out
}

/// Among distinct entries, a map is the map of the entries if it holds
/// their keys and gives each the content of its entry.
proof fn lemma_map_is(objs: Seq<StoredObject>, m: Map<ArchivePathView, Seq<u8>>)
    requires
        distinct(objs),
        forall|k: ArchivePathView| #[trigger] m.contains_key(k) <==> holds(objs, k),
        forall|i: int| 0 <= i < objs.len() ==> m[#[trigger] key_at(objs, i)] == objs[i].bytes@,
    ensures
        object_map(objs) == m,
{
    assert forall|k: ArchivePathView| #[trigger]
        object_map(objs).contains_key(k) == m.contains_key(k) by {
        lemma_key(objs, k);
    }
    assert forall|k: ArchivePathView| #[trigger]
        object_map(objs).contains_key(k) implies object_map(objs)[k] == m[k] by {
        lemma_key(objs, k);
        let i = choose|i: int| 0 <= i < objs.len() && #[trigger] key_at(objs, i) == k;
        lemma_value(objs, i);
    }
    assert(object_map(objs) =~= m);
}

/// The objects of `objs` that are not at or below `repo`.
fn objects_outside(objs: Vec<StoredObject>, repo: &Vec<String>) -> (out: Vec<StoredObject>)
    requires
        distinct(objs@),
        all_objects(objs@),
    ensures
        distinct(out@),
        all_objects(out@),
        object_map(out@) == Map::new(
            |k: ArchivePathView|
                object_map(objs@).contains_key(k) && !is_prefix_of(texts(repo@), k.repo_path),
            |k: ArchivePathView| object_map(objs@)[k],
        ),
{
    let ghost all = objs@;
    let ghost mut src: Seq<int> = Seq::empty();
    let mut rest = objs;
    let mut out: Vec<StoredObject> = Vec::new();
    while rest.len() > 0
        invariant
            rest@ == all.take(rest.len() as int),
            rest.len() <= all.len(),
            src.len() == out.len(),
            forall|j: int|
                0 <= j < out.len() ==> rest.len() <= #[trigger] src[j] < all.len() && out@[j]
                    == all[src[j]] && !is_prefix_of(texts(repo@), key_at(all, src[j]).repo_path),
            forall|a: int, b: int| 0 <= a < b < out.len() ==> #[trigger] src[a] > #[trigger] src[b],
            forall|i: int|
                rest.len() <= i < all.len() && !is_prefix_of(
                    texts(repo@),
                    (#[trigger] key_at(all, i)).repo_path,
                ) ==> exists|j: int| 0 <= j < out.len() && #[trigger] src[j] == i,
        decreases rest.len(),
    {
        let ghost m = rest.len() - 1;
        let ghost before = src;
        let object = rest.pop().unwrap();
        assert(rest@ =~= all.take(m));
        assert(object == all[m]);
        if !starts_with_texts(object.path.repo_path(), repo) {
            out.push(object);
            proof {
                src = src.push(m);
            }
            assert forall|i: int|
                rest.len() <= i < all.len() && !is_prefix_of(
                    texts(repo@),
                    (#[trigger] key_at(all, i)).repo_path,
                ) implies exists|j: int| 0 <= j < out.len() && #[trigger] src[j] == i by {
                if i > m {
                    let j = choose|j: int| 0 <= j < before.len() && #[trigger] before[j] == i;
                    assert(src[j] == i);
                } else {
                    assert(src[out.len() - 1] == i);
                }
            }
        }
    }
    proof {
        assert forall|a: int, b: int| 0 <= a < b < out.len() implies #[trigger] key_at(out@, a)
            != #[trigger] key_at(out@, b) by {
            assert(src[a] > src[b]);
            assert(key_at(all, src[b]) != key_at(all, src[a]));
        }
        assert forall|i: int| 0 <= i < out.len() implies (#[trigger] key_at(out@, i)).wf()
            && key_at(out@, i).is_object() by {
            assert(src[i] < all.len());
            assert(key_at(all, src[i]).wf());
        }
        let target = Map::new(
            |k: ArchivePathView|
                object_map(all).contains_key(k) && !is_prefix_of(texts(repo@), k.repo_path),
            |k: ArchivePathView| object_map(all)[k],
        );
        assert forall|k: ArchivePathView| #[trigger] target.contains_key(k) <==> holds(
            out@,
            k,
        ) by {
            lemma_key(all, k);
            if holds(out@, k) {
                let j = choose|j: int| 0 <= j < out.len() && #[trigger] key_at(out@, j) == k;
                assert(src[j] < all.len());
                assert(key_at(all, src[j]) == k);
            }
            if target.contains_key(k) {
                let i = choose|i: int| 0 <= i < all.len() && #[trigger] key_at(all, i) == k;
                let j = choose|j: int| 0 <= j < out.len() && #[trigger] src[j] == i;
                assert(key_at(out@, j) == k);
            }
        }
        assert forall|j: int| 0 <= j < out.len() implies target[#[trigger] key_at(out@, j)]
            == out@[j].bytes@ by {
            assert(src[j] < all.len());
            lemma_value(all, src[j]);
        }
        lemma_map_is(out@, target);
    }
    out
}

/// The directories of the collections of `repo` up to the `n`th.
spec fn layout_upto(repo: Seq<Seq<char>>, n: int) -> Set<(Seq<Seq<char>>, ObjectType)> {
    Set::new(
        |d: (Seq<Seq<char>>, ObjectType)|
            d.0 == repo && exists|j: int| 0 <= j < n && #[trigger] collections()[j] == d.1,
    )
}

/// Adds the directory of one collection, unless it is there.
fn add_dir(dirs: &mut Vec<Collection>, repo: &Vec<String>, tpe: ObjectType)
    ensures
        dir_set(final(dirs)@) == dir_set(old(dirs)@).insert((texts(repo@), tpe)),
{
    let ghost earlier = dirs@;
    if !has_dir(dirs, repo, tpe) {
        dirs.push(Collection { repo: copy_texts(repo), tpe });
        assert(dir_at(dirs@, dirs.len() - 1) == (texts(repo@), tpe));
        assert forall|d: (Seq<Seq<char>>, ObjectType)|
            dir_set(dirs@).contains(d) <==> dir_set(earlier).insert((texts(repo@), tpe)).contains(
                d,
            ) by {
            if dir_set(earlier).contains(d) {
                let j = choose|j: int| 0 <= j < earlier.len() && #[trigger] dir_at(earlier, j) == d;
                assert(dir_at(dirs@, j) == d);
            }
            if dir_set(dirs@).contains(d) {
                let j = choose|j: int| 0 <= j < dirs.len() && #[trigger] dir_at(dirs@, j) == d;
                if j < earlier.len() {
                    assert(dir_at(earlier, j) == d);
                }
            }
        }
    }
    assert(dir_set(dirs@) =~= dir_set(earlier).insert((texts(repo@), tpe)));
}

/// A store in memory. It starts empty and changes only through the
/// operations below.
#[derive(Debug)]
pub struct MemoryStorage {
    dirs: Vec<Collection>,
    objects: Vec<StoredObject>,
}

impl View for MemoryStorage {
    type V = StorageView;

    closed spec fn view(&self) -> StorageView {
        StorageView { dirs: dir_set(self.dirs@), objects: object_map(self.objects@) }
    }
}

impl MemoryStorage {
    #[verifier::type_invariant]
    spec fn sound(self) -> bool {
        distinct(self.objects@) && all_objects(self.objects@)
    }

    /// The empty store.
    pub fn new() -> (r: MemoryStorage)
        ensures
            r@ == StorageView::empty(),
    {
        let r = MemoryStorage { dirs: Vec::new(), objects: Vec::new() };
        assert(r@.dirs =~= Set::empty());
        r
    }

    /// Makes the directory of every collection of the repository that
    /// `path` lies in. Directories that exist already are left as they
    /// are. In memory this never fails.
    pub fn create_repository_layout(&mut self, path: &ArchivePath) -> (r: Result<(), StorageError>)
        ensures
            r is Ok,
            final(self)@ == old(self)@.with_layout(path@.repo_path),
    {
        proof {
            use_type_invariant(&*self);
        }
        let repo = path.repo_path();
        let types = collection_types();
        let mut dirs: Vec<Collection> = Vec::new();
        std::mem::swap(&mut dirs, &mut self.dirs);
        let ghost before = dir_set(dirs@);
        let mut i: usize = 0;
        assert(layout_upto(texts(repo@), 0) =~= Set::empty());
        assert(before.union(Set::empty()) =~= before);
        while i < types.len()
            invariant
                types@ == collections(),
                i <= types.len(),
                dir_set(dirs@) == before.union(layout_upto(texts(repo@), i as int)),
            decreases types.len() - i,
        {
            add_dir(&mut dirs, repo, types[i]);
            proof {
                let next = layout_upto(texts(repo@), i + 1);
                let so_far = layout_upto(texts(repo@), i as int);
                let made = (texts(repo@), collections()[i as int]);
                assert forall|d: (Seq<Seq<char>>, ObjectType)| next.contains(d) <==> so_far.insert(
                    made,
                ).contains(d) by {
                    if so_far.contains(d) {
                        let j = choose|j: int| 0 <= j < i && #[trigger] collections()[j] == d.1;
                        assert(collections()[j] == d.1);
                    }
                    if next.contains(d) {
                        let j = choose|j: int| 0 <= j < i + 1 && #[trigger] collections()[j] == d.1;
                        if j < i {
                            assert(so_far.contains(d));
                        }
                    }
                }
                assert(next =~= so_far.insert(made));
                assert(before.union(so_far).insert(made) =~= before.union(next));
            }
            i += 1;
        }
        self.dirs = dirs;
        proof {
            let all = layout_upto(texts(repo@), 5);
            let want = Set::new(
                |d: (Seq<Seq<char>>, ObjectType)| d.0 == texts(repo@) && is_collection(d.1),
            );
            assert forall|d: (Seq<Seq<char>>, ObjectType)| all.contains(d) <==> want.contains(
                d,
            ) by {
                if want.contains(d) {
                    let j: int = match d.1 {
                        ObjectType::Data => 0,
                        ObjectType::Keys => 1,
                        ObjectType::Locks => 2,
                        ObjectType::Snapshots => 3,
                        _ => 4,
                    };
                    assert(collections()[j] == d.1);
                }
                if all.contains(d) {
                    let j = choose|j: int| 0 <= j < 5 && #[trigger] collections()[j] == d.1;
                    assert(is_collection(collections()[j]));
                }
            }
            assert(all =~= want);
            assert(dir_set(self.dirs@) =~= old(self)@.with_layout(path@.repo_path).dirs);
        }
        Ok(())
    }

    /// Removes everything at or below the repository path of `path`. Fails
    /// and changes nothing where nothing exists there.
    pub fn remove_repository(&mut self, path: &ArchivePath) -> (r: Result<(), StorageError>)
        ensures
            r == old(self)@.remove_repository(path@.repo_path).0,
            final(self)@ == old(self)@.remove_repository(path@.repo_path).1,
    {
        proof {
            use_type_invariant(&*self);
        }
        let repo = path.repo_path();
        if !self.has_repository(path) {
            return Err(StorageError::RemovingRepositoryFailed);
        }
        let mut dirs: Vec<Collection> = Vec::new();
        std::mem::swap(&mut dirs, &mut self.dirs);
        let mut objects: Vec<StoredObject> = Vec::new();
        std::mem::swap(&mut objects, &mut self.objects);
        self.dirs = dirs_outside(dirs, repo);
        self.objects = objects_outside(objects, repo);
        Ok(())
    }

    /// Whether anything exists at or below the repository path of `path`.
    pub fn has_repository(&self, path: &ArchivePath) -> (r: bool)
        ensures
            r == self@.has_root(path@.repo_path),
    {
        let repo = path.repo_path();
        let below_dirs = any_dir_below(&self.dirs, repo);
        let below_objects = any_object_below(&self.objects, repo);
        let ghost v = self@;
        assert(v.dirs == dir_set(self.dirs@));
        assert(v.objects == object_map(self.objects@));
        assert(below_dirs == exists|d: (Seq<Seq<char>>, ObjectType)|
            v.dirs.contains(d) && is_prefix_of(texts(repo@), d.0));
        assert(below_objects == exists|k: ArchivePathView|
            v.objects.contains_key(k) && is_prefix_of(texts(repo@), k.repo_path));
        below_dirs || below_objects
    }

    /// Whether the directory of the collection that `path` addresses or
    /// lies in exists.
    pub fn has_directory(&self, path: &ArchivePath) -> (r: bool)
        ensures
            r == self@.dirs.contains((path@.repo_path, path@.tpe)),
    {
        has_dir(&self.dirs, path.repo_path(), path.tpe())
    }

    /// The ids of the objects in the collection that `path` addresses or
    /// lies in, each once, in no particular order. Empty where there are
    /// none.
    pub fn list(&self, path: &ArchivePath) -> (r: Vec<String>)
        ensures
            texts(r@).no_duplicates(),
            forall|id: Seq<char>|
                texts(r@).contains(id) <==> self@.has_name(path@.repo_path, path@.tpe, id),
    {
        proof {
            use_type_invariant(self);
        }
        let repo = path.repo_path();
        let tpe = path.tpe();
        let ghost want = |id: Seq<char>| object_ref(texts(repo@), tpe, id);
        let mut out: Vec<String> = Vec::new();
        let ghost mut src: Seq<int> = Seq::empty();
        let mut i: usize = 0;
        while i < self.objects.len()
            invariant
                i <= self.objects.len(),
                src.len() == out.len(),
                forall|j: int|
                    0 <= j < out.len() ==> 0 <= #[trigger] src[j] < i && key_at(
                        self.objects@,
                        src[j],
                    ) == object_ref(texts(repo@), tpe, out@[j]@),
                forall|a: int, b: int| 0 <= a < b < out.len() ==> #[trigger] src[a] < #[trigger] src[b],
                forall|n: int, id: Seq<char>|
                    0 <= n < i && #[trigger] key_at(self.objects@, n) == #[trigger] object_ref(
                        texts(repo@),
                        tpe,
                        id,
                    ) ==> exists|j: int| 0 <= j < out.len() && #[trigger] src[j] == n,
            decreases self.objects.len() - i,
        {
            let object = &self.objects[i];
            let ghost before = src;
            let selected = match object.path.kind() {
                ArchivePathKind::File => object.path.tpe() == tpe && same_texts(
                    object.path.repo_path(),
                    repo,
                ),
                _ => false,
            };
            if selected {
                match object.path.id() {
                    Some(id) => {
                        out.push(id.clone());
                        proof {
                            src = src.push(i as int);
                        }
                        assert(key_at(self.objects@, i as int) == object_ref(
                            texts(repo@),
                            tpe,
                            id@,
                        ));
                    },
                    None => {},
                }
            }
            assert forall|n: int, id: Seq<char>|
                0 <= n < i + 1 && #[trigger] key_at(self.objects@, n) == #[trigger] object_ref(
                    texts(repo@),
                    tpe,
                    id,
                ) implies exists|j: int| 0 <= j < out.len() && #[trigger] src[j] == n by {
                if n < i {
                    let j = choose|j: int| 0 <= j < before.len() && #[trigger] before[j] == n;
                    assert(src[j] == n);
                } else {
                    assert(src[out.len() - 1] == n);
                }
            }
            i += 1;
        }
        proof {
            let names = texts(out@);
            assert forall|a: int, b: int| 0 <= a < names.len() && 0 <= b < names.len() && a
                != b implies names[a] != names[b] by {
                if a < b {
                    assert(src[a] < src[b]);
                } else {
                    assert(src[b] < src[a]);
                }
                assert(key_at(self.objects@, src[a]) != key_at(self.objects@, src[b]));
            }
            assert forall|id: Seq<char>| names.contains(id) <==> self@.has_name(
                path@.repo_path,
                path@.tpe,
                id,
            ) by {
                let k = object_ref(texts(repo@), tpe, id);
                lemma_key(self.objects@, k);
                if names.contains(id) {
                    let j = choose|j: int| 0 <= j < names.len() && names[j] == id;
                    assert(key_at(self.objects@, src[j]) == k);
                }
                if holds(self.objects@, k) {
                    let n = choose|n: int|
                        0 <= n < self.objects.len() && #[trigger] key_at(self.objects@, n) == k;
                    let j = choose|j: int| 0 <= j < out.len() && #[trigger] src[j] == n;
                    assert(names[j] == id);
                }
            }
        }
        out
    }

    /// Whether the object exists.
    pub fn contains(&self, path: &ArchivePath) -> (r: bool)
        ensures
            r == self@.objects.contains_key(path@),
    {
        proof {
            lemma_key(self.objects@, path@);
        }
        find(&self.objects, path).is_some()
    }

    /// The size of the object in bytes, if it exists.
    pub fn size(&self, path: &ArchivePath) -> (r: Option<u64>)
        ensures
            match r {
                Some(n) => self@.objects.contains_key(path@) && n == self@.objects[path@].len(),
                None => !self@.objects.contains_key(path@),
            },
    {
        proof {
            use_type_invariant(self);
            lemma_key(self.objects@, path@);
        }
        match find(&self.objects, path) {
            Some(i) => {
                proof {
                    lemma_value(self.objects@, i as int);
                }
                Some(self.objects[i].bytes.len() as u64)
            },
            None => None,
        }
    }

    /// The content of the object, or the bytes of it from offset
    /// `range.0` up to, not including, offset `range.1`.
    pub fn read(&self, path: &ArchivePath, range: Option<(u64, u64)>) -> (r: Result<
        Vec<u8>,
        StorageError,
    >)
        ensures
            match r {
                Ok(bytes) => self@.read(path@, range) == Ok::<Seq<u8>, StorageError>(bytes@),
                Err(e) => self@.read(path@, range) == Err::<Seq<u8>, StorageError>(e),
            },
    {
        proof {
            use_type_invariant(self);
            lemma_key(self.objects@, path@);
        }
        let i = match find(&self.objects, path) {
            Some(i) => i,
            None => {
                return Err(StorageError::NotFound);
            },
        };
        proof {
            lemma_value(self.objects@, i as int);
        }
        let content = &self.objects[i].bytes;
        let (start, end) = match checked_range(range, content.len()) {
            Ok(bounds) => bounds,
            Err(e) => {
                return Err(e);
            },
        };
        let mut out: Vec<u8> = Vec::new();
        let mut n: usize = start;
        while n < end
            invariant
                start <= n <= end <= content.len(),
                out@ == content@.subrange(start as int, n as int),
            decreases end - n,
        {
            out.push(content[n]);
            assert(content@.subrange(start as int, n + 1) =~= content@.subrange(
                start as int,
                n as int,
            ).push(content@[n as int]));
            n += 1;
        }
        Ok(out)
    }

    /// Stores a new object. Fails with `AlreadyExists`, and stores
    /// nothing, where the object exists.
    pub fn write_new(&mut self, path: &ArchivePath, bytes: Vec<u8>) -> (r: Result<(), StorageError>)
        ensures
            r == old(self)@.write_new(path@, bytes@).0,
            final(self)@ == old(self)@.write_new(path@, bytes@).1,
    {
        proof {
            use_type_invariant(&*self);
            lemma_key(self.objects@, path@);
        }
        if !path.is_object() {
            return Err(StorageError::InvalidPath);
        }
        if find(&self.objects, path).is_some() {
            return Err(StorageError::AlreadyExists);
        }
        let mut objects: Vec<StoredObject> = Vec::new();
        std::mem::swap(&mut objects, &mut self.objects);
        let ghost before = objects@;
        objects.push(StoredObject { path: path.duplicate(), bytes });
        proof {
            assert(objects@.drop_last() =~= before);
            assert forall|i: int, j: int| 0 <= i < j < objects.len() implies #[trigger] key_at(
                objects@,
                i,
            ) != #[trigger] key_at(objects@, j) by {
                assert(key_at(before, i) == key_at(objects@, i));
                if j < before.len() {
                    assert(key_at(before, j) == key_at(objects@, j));
                }
            }
            assert forall|i: int| 0 <= i < objects.len() implies (#[trigger] key_at(
                objects@,
                i,
            )).wf() && key_at(objects@, i).is_object() by {
                if i < before.len() {
                    assert(key_at(before, i) == key_at(objects@, i));
                }
            }
        }
        self.objects = objects;
        Ok(())
    }

    /// Stores an object, replacing what it held if it exists.
    pub fn write_overwrite(&mut self, path: &ArchivePath, bytes: Vec<u8>) -> (r: Result<
        (),
        StorageError,
    >)
        ensures
            r == old(self)@.write_overwrite(path@, bytes@).0,
            final(self)@ == old(self)@.write_overwrite(path@, bytes@).1,
    {
        proof {
            use_type_invariant(&*self);
            lemma_key(self.objects@, path@);
        }
        if !path.is_object() {
            return Err(StorageError::InvalidPath);
        }
        let found = find(&self.objects, path);
        let mut objects: Vec<StoredObject> = Vec::new();
        std::mem::swap(&mut objects, &mut self.objects);
        let ghost before = objects@;
        if let Some(i) = found {
            let _ = objects.remove(i);
            proof {
                lemma_without(before, i as int);
            }
        }
        let ghost middle = objects@;
        objects.push(StoredObject { path: path.duplicate(), bytes });
        proof {
            lemma_key(middle, path@);
            assert(objects@.drop_last() =~= middle);
            assert forall|i: int, j: int| 0 <= i < j < objects.len() implies #[trigger] key_at(
                objects@,
                i,
            ) != #[trigger] key_at(objects@, j) by {
                assert(key_at(middle, i) == key_at(objects@, i));
                if j < middle.len() {
                    assert(key_at(middle, j) == key_at(objects@, j));
                }
            }
            assert forall|i: int| 0 <= i < objects.len() implies (#[trigger] key_at(
                objects@,
                i,
            )).wf() && key_at(objects@, i).is_object() by {
                if i < middle.len() {
                    assert(key_at(middle, i) == key_at(objects@, i));
                }
            }
            assert(object_map(objects@) =~= object_map(before).insert(path@, bytes@));
        }
        self.objects = objects;
        Ok(())
    }

    /// Removes an object. Fails with `NotFound` where there is none.
    pub fn delete(&mut self, path: &ArchivePath) -> (r: Result<(), StorageError>)
        ensures
            r == old(self)@.delete(path@).0,
            final(self)@ == old(self)@.delete(path@).1,
    {
        proof {
            use_type_invariant(&*self);
            lemma_key(self.objects@, path@);
        }
        let i = match find(&self.objects, path) {
            Some(i) => i,
            None => {
                return Err(StorageError::NotFound);
            },
        };
        let mut objects: Vec<StoredObject> = Vec::new();
        std::mem::swap(&mut objects, &mut self.objects);
        let ghost before = objects@;
        let _ = objects.remove(i);
        proof {
            lemma_without(before, i as int);
        }
        self.objects = objects;
        Ok(())
    }
}

/// Taking one of distinct entries away takes its key out of the map and
/// leaves the rest distinct.
proof fn lemma_without(objs: Seq<StoredObject>, i: int)
    requires
        distinct(objs),
        all_objects(objs),
        0 <= i < objs.len(),
    ensures
        distinct(objs.remove(i)),
        all_objects(objs.remove(i)),
        object_map(objs.remove(i)) == object_map(objs).remove(key_at(objs, i)),
{
    let rest = objs.remove(i);
    let at = |j: int| if j < i { j } else { j + 1 };
    assert forall|j: int| 0 <= j < rest.len() implies #[trigger] key_at(rest, j) == key_at(
        objs,
        at(j),
    ) by {}
    assert forall|a: int, b: int| 0 <= a < b < rest.len() implies #[trigger] key_at(rest, a)
        != #[trigger] key_at(rest, b) by {
        assert(key_at(objs, at(a)) != key_at(objs, at(b)));
    }
    assert forall|j: int| 0 <= j < rest.len() implies (#[trigger] key_at(rest, j)).wf() && key_at(
        rest,
        j,
    ).is_object() by {
        assert(key_at(objs, at(j)).wf());
    }
    let target = object_map(objs).remove(key_at(objs, i));
    assert forall|k: ArchivePathView| #[trigger] target.contains_key(k) <==> holds(rest, k) by {
        lemma_key(objs, k);
        if holds(rest, k) {
            let j = choose|j: int| 0 <= j < rest.len() && #[trigger] key_at(rest, j) == k;
            assert(key_at(objs, at(j)) == k);
            if at(j) < i {
                assert(key_at(objs, at(j)) != key_at(objs, i));
            } else {
                assert(key_at(objs, i) != key_at(objs, at(j)));
            }
        }
        if target.contains_key(k) {
            let n = choose|n: int| 0 <= n < objs.len() && #[trigger] key_at(objs, n) == k;
            let j = if n < i { n } else { n - 1 };
            assert(key_at(rest, j) == k);
        }
    }
    assert forall|j: int| 0 <= j < rest.len() implies target[#[trigger] key_at(rest, j)]
        == rest[j].bytes@ by {
        lemma_value(objs, at(j));
        if at(j) < i {
            assert(key_at(objs, at(j)) != key_at(objs, i));
        } else {
            assert(key_at(objs, i) != key_at(objs, at(j)));
        }
    }
    lemma_map_is(rest, target);
}

} // verus!
