//! Where a reference lies below the storage root.
//!
//! A repository is a directory at its repository path. Below it lie the
//! file `config` and one directory for each collection: `data`, `keys`,
//! `locks`, `snapshots` and `index`. An object is a file named by its id
//! in the directory of its type; in `data` and `index`, whose objects are
//! content-addressed and many, it lies one level deeper, in a directory
//! named by the first two characters of the id.

use crate::path::{
    is_hex, lemma_keywords, lemma_repo_len, repo_len, type_named, valid_id, valid_name,
    ArchivePath, ArchivePathKind, ArchivePathView, ObjectType,
};
use crate::text::{copy_texts, is_prefix_of, texts};
use vstd::prelude::*;
use vstd::string::*;

verus! {

/// The types that are collections of named objects, in the order in which
/// their directories are made.
pub open spec fn collections() -> Seq<ObjectType> {
    seq![
        ObjectType::Data,
        ObjectType::Keys,
        ObjectType::Locks,
        ObjectType::Snapshots,
        ObjectType::Index,
    ]
}

/// Whether the type is a collection of named objects: every type but
/// `Config`, which is a single file, and `NoType`.
pub open spec fn is_collection(t: ObjectType) -> bool {
    t != ObjectType::Config && t != ObjectType::NoType
}

/// Whether the objects of the type lie in directories by the start of
/// their id.
pub open spec fn is_sharded(t: ObjectType) -> bool {
    t == ObjectType::Data || t == ObjectType::Index
}

/// The directory, within the directory of a sharded type, for the id: its
/// first two characters, filled up with `0` where the id is shorter.
pub open spec fn shard_of(id: Seq<char>) -> Seq<char> {
    if id.len() >= 2 {
        id.take(2)
    } else if id.len() == 1 {
        seq![id[0], '0']
    } else {
        seq!['0', '0']
    }
}

/// The segments, below the storage root, of what the reference addresses.
pub open spec fn location(p: ArchivePathView) -> Seq<Seq<char>> {
    match p.kind {
        ArchivePathKind::Repo => p.repo_path,
        ArchivePathKind::Type => p.repo_path.push(p.tpe.keyword()),
        ArchivePathKind::File => if is_sharded(p.tpe) {
            p.repo_path.push(p.tpe.keyword()).push(shard_of(p.id.unwrap())).push(p.id.unwrap())
        } else {
            p.repo_path.push(p.tpe.keyword()).push(p.id.unwrap())
        },
    }
}

/// The directories that make up a repository at `repo_path`: one for each
/// collection.
pub open spec fn skeleton(repo_path: Seq<Seq<char>>) -> Seq<Seq<Seq<char>>> {
    Seq::new(collections().len(), |i: int| repo_path.push(collections()[i].keyword()))
}

/// The types that are collections of named objects.
pub fn collection_types() -> (r: Vec<ObjectType>)
    ensures
        r@ == collections(),
{
    let mut r: Vec<ObjectType> = Vec::new();
    r.push(ObjectType::Data);
    r.push(ObjectType::Keys);
    r.push(ObjectType::Locks);
    r.push(ObjectType::Snapshots);
    r.push(ObjectType::Index);
    assert(r@ =~= collections());
    r
}

/// The directory, within the directory of a sharded type, for the id.
pub fn shard(id: &str) -> (r: String)
    ensures
        r@ == shard_of(id@),
{
    let n = id.unicode_len();
    if n >= 2 {
        let r = id.substring_char(0, 2).to_owned();
        assert(id@.subrange(0, 2) =~= id@.take(2));
        r
    } else if n == 1 {
        proof {
            reveal_strlit("0");
        }
        let mut r = id.to_owned();
        r.append("0");
        assert(r@ =~= seq![id@[0], '0']);
        r
    } else {
        proof {
            reveal_strlit("00");
        }
        let r = "00".to_owned();
        assert(r@ =~= seq!['0', '0']);
        r
    }
}

/// The segments, below the storage root, of what the reference addresses.
pub fn entry_location(path: &ArchivePath) -> (r: Vec<String>)
    ensures
        texts(r@) == location(path@),
{
    let mut r = copy_texts(path.repo_path());
    let ghost repo = texts(r@);
    match path.kind() {
        ArchivePathKind::Repo => {},
        ArchivePathKind::Type => {
            r.push(path.tpe().name().to_owned());
            assert(texts(r@) =~= repo.push(path@.tpe.keyword()));
        },
        ArchivePathKind::File => {
            let tpe = path.tpe();
            r.push(tpe.name().to_owned());
            let ghost with_type = texts(r@);
            assert(with_type =~= repo.push(tpe.keyword()));
            match path.id() {
                Some(id) => {
                    let sharded = match tpe {
                        ObjectType::Data => true,
                        ObjectType::Index => true,
                        _ => false,
                    };
                    if sharded {
                        r.push(shard(id.as_str()));
                        assert(texts(r@) =~= with_type.push(shard_of(id@)));
                    }
                    let ghost before = texts(r@);
                    r.push(id.clone());
                    assert(texts(r@) =~= before.push(id@));
                },
                None => {},
            }
        },
    }
    r
}

/// The directories that make up the repository of the reference.
pub fn repository_layout(path: &ArchivePath) -> (r: Vec<Vec<String>>)
    ensures
        r.len() == skeleton(path@.repo_path).len(),
        forall|i: int| 0 <= i < r.len() ==> texts(#[trigger] r[i]@) == skeleton(path@.repo_path)[i],
{
    let types = collection_types();
    let mut r: Vec<Vec<String>> = Vec::new();
    let mut i: usize = 0;
    while i < types.len()
        invariant
            types@ == collections(),
            i <= types.len(),
            r.len() == i,
            forall|j: int| 0 <= j < i ==> texts(#[trigger] r[j]@) == skeleton(path@.repo_path)[j],
        decreases types.len() - i,
    {
        let mut dir = copy_texts(path.repo_path());
        let ghost repo = texts(dir@);
        dir.push(types[i].name().to_owned());
        assert(texts(dir@) =~= repo.push(types[i as int].keyword()));
        r.push(dir);
        i += 1;
    }
    r
}

/// The location of a well-formed reference consists of plain names: none
/// is empty, `.` or `..`, and none holds a separator or a control
/// character. So it never leaves the storage root.
pub proof fn law_location_is_contained(p: ArchivePathView)
    requires
        p.wf(),
    ensures
        forall|i: int| 0 <= i < location(p).len() ==> valid_name(#[trigger] location(p)[i]),
        is_prefix_of(p.repo_path, location(p)),
{
    let n = p.repo_path.len() as int;
    assert(location(p).take(n) =~= p.repo_path);
    if p.kind != ArchivePathKind::Repo {
        lemma_keywords(p.tpe);
        lemma_letters_are_a_name(p.tpe.keyword());
    }
    if p.kind == ArchivePathKind::File {
        let id = p.id.unwrap();
        lemma_id_is_a_name(id);
        let s = shard_of(id);
        assert(s =~= seq![id[0], id[1]]);
        assert(is_hex(id[0]) && is_hex(id[1]));
        assert forall|j: int| 0 <= j < s.len() implies is_hex(#[trigger] s[j]) by {}
        lemma_hex_is_a_name(s);
    }
    assert forall|i: int| 0 <= i < location(p).len() implies valid_name(
        #[trigger] location(p)[i],
    ) by {
        if i < n {
            assert(location(p)[i] == p.repo_path[i]);
        }
    }
}

/// No two well-formed references share a location: what lies at a place
/// below the storage root tells which reference put it there.
pub proof fn law_locations_are_distinct(p: ArchivePathView, q: ArchivePathView)
    requires
        p.wf(),
        q.wf(),
        location(p) == location(q),
    ensures
        p == q,
{
    lemma_repository_part(p);
    lemma_repository_part(q);
    let n = p.repo_path.len() as int;
    assert(p.repo_path =~= location(p).take(n));
    assert(q.repo_path =~= location(q).take(n));
    if p.kind != ArchivePathKind::Repo {
        lemma_keywords(p.tpe);
        lemma_keywords(q.tpe);
        assert(location(p)[n] == p.tpe.keyword());
        assert(location(q)[n] == q.tpe.keyword());
        if p.kind == ArchivePathKind::File {
            let last = location(p).len() - 1;
            assert(location(p)[last] == p.id.unwrap());
            assert(location(q)[last] == q.id.unwrap());
        }
    }
}

/// The repository path of a reference is the part of its location before
/// the first type keyword, and the kind of the reference shows in how
/// much follows it.
proof fn lemma_repository_part(p: ArchivePathView)
    requires
        p.wf(),
    ensures
        repo_len(location(p)) == p.repo_path.len(),
        location(p).len() - p.repo_path.len() == match p.kind {
            ArchivePathKind::Repo => 0int,
            ArchivePathKind::Type => 1int,
            ArchivePathKind::File => if is_sharded(p.tpe) {
                3int
            } else {
                2int
            },
        },
{
    let n = p.repo_path.len() as int;
    let at = location(p);
    if p.kind != ArchivePathKind::Repo {
        lemma_keywords(p.tpe);
        assert(at[n] == p.tpe.keyword());
    }
    assert forall|j: int| 0 <= j < n implies type_named(#[trigger] at[j]) is None by {
        assert(at[j] == p.repo_path[j]);
    }
    lemma_repo_len(at, n);
}

/// A string of at least four lower-case letters is a valid name.
proof fn lemma_letters_are_a_name(s: Seq<char>)
    requires
        s.len() >= 4,
        forall|i: int| 0 <= i < s.len() ==> 'a' <= #[trigger] s[i] <= 'z',
    ensures
        valid_name(s),
{
    assert(seq!['.'].len() == 1);
    assert(seq!['.', '.'].len() == 2);
}

/// A well-shaped id is a valid name.
proof fn lemma_id_is_a_name(s: Seq<char>)
    requires
        valid_id(s),
    ensures
        valid_name(s),
{
    lemma_hex_is_a_name(s);
}

/// A non-empty string of hexadecimal digits is a valid name.
proof fn lemma_hex_is_a_name(s: Seq<char>)
    requires
        s.len() > 0,
        forall|i: int| 0 <= i < s.len() ==> is_hex(#[trigger] s[i]),
    ensures
        valid_name(s),
{
    assert(is_hex(s[0]));
    if s == seq!['.'] || s == seq!['.', '.'] {
        assert(s[0] == '.');
    }
}

} // verus!
