//! Request paths and the typed references they decompose into.
//!
//! A request path names a repository, optionally an object type within it,
//! and optionally one object of that type:
//!
//! ```text
//! /{repo}                 the repository root
//! /{repo}/{type}          a collection (or the single `config` object)
//! /{repo}/{type}/         the same
//! /{repo}/{type}/{id}     one object
//! ```
//!
//! `{repo}` may span several segments. Since no segment of a repository
//! path may be a type keyword, the first keyword in a path ends the
//! repository part.

use crate::text::{
    chars_of, copy_texts, joined, lemma_segments_leading_separator, lemma_segments_of_joined,
    same_text, same_texts, segments, split_segments, texts,
};
use vstd::prelude::*;
use vstd::string::*;

verus! {

/// The kind of object a reference addresses.
#[derive(Clone, Copy, Debug, PartialEq, Eq, Structural, Hash)]
pub enum ObjectType {
    Config,
    Data,
    Keys,
    Locks,
    Snapshots,
    Index,
    /// No object type: the reference stops at the repository root.
    NoType,
}

/// How deep a reference reaches.
#[derive(Clone, Copy, Debug, PartialEq, Eq, Structural, Hash)]
pub enum ArchivePathKind {
    /// A repository root.
    Repo,
    /// The collection of one object type within a repository.
    Type,
    /// One named object.
    File,
}

/// The request path is malformed or tries to leave the storage root.
#[derive(Clone, Copy, Debug, PartialEq, Eq, Structural)]
pub struct InvalidPath;

impl ObjectType {
    /// The path segment that selects this type; empty for `NoType`.
    pub open spec fn keyword(self) -> Seq<char> {
        match self {
            ObjectType::Config => "config"@,
            ObjectType::Data => "data"@,
            ObjectType::Keys => "keys"@,
            ObjectType::Locks => "locks"@,
            ObjectType::Snapshots => "snapshots"@,
            ObjectType::Index => "index"@,
            ObjectType::NoType => Seq::empty(),
        }
    }

    /// The path segment that selects this type; empty for `NoType`.
    pub fn name(self) -> (r: &'static str)
        ensures
            r@ == self.keyword(),
    {
        match self {
            ObjectType::Config => "config",
            ObjectType::Data => "data",
            ObjectType::Keys => "keys",
            ObjectType::Locks => "locks",
            ObjectType::Snapshots => "snapshots",
            ObjectType::Index => "index",
            ObjectType::NoType => {
                proof {
                    reveal_strlit("");
                }
                assert(""@ =~= Seq::<char>::empty());
                ""
            },
        }
    }
}

/// The object type that a path segment selects, matched exactly and
/// case-sensitively.
pub open spec fn type_named(seg: Seq<char>) -> Option<ObjectType> {
    if seg == "config"@ {
        Some(ObjectType::Config)
    } else if seg == "data"@ {
        Some(ObjectType::Data)
    } else if seg == "keys"@ {
        Some(ObjectType::Keys)
    } else if seg == "locks"@ {
        Some(ObjectType::Locks)
    } else if seg == "snapshots"@ {
        Some(ObjectType::Snapshots)
    } else if seg == "index"@ {
        Some(ObjectType::Index)
    } else {
        None
    }
}

/// The object type that a path segment selects, if it is a type keyword.
pub fn type_of_segment(seg: &str) -> (r: Option<ObjectType>)
    ensures
        r == type_named(seg@),
{
    if same_text(seg, "config") {
        Some(ObjectType::Config)
    } else if same_text(seg, "data") {
        Some(ObjectType::Data)
    } else if same_text(seg, "keys") {
        Some(ObjectType::Keys)
    } else if same_text(seg, "locks") {
        Some(ObjectType::Locks)
    } else if same_text(seg, "snapshots") {
        Some(ObjectType::Snapshots)
    } else if same_text(seg, "index") {
        Some(ObjectType::Index)
    } else {
        None
    }
}

/// Every type's keyword selects that type, and nothing else does.
pub proof fn lemma_keywords(t: ObjectType)
    requires
        t != ObjectType::NoType,
    ensures
        type_named(t.keyword()) == Some(t),
        t.keyword().len() >= 4,
        forall|i: int| 0 <= i < t.keyword().len() ==> 'a' <= #[trigger] t.keyword()[i] <= 'z',
{
    reveal_strlit("config");
    reveal_strlit("data");
    reveal_strlit("keys");
    reveal_strlit("locks");
    reveal_strlit("snapshots");
    reveal_strlit("index");
    assert("config"@.len() == 6 && "snapshots"@.len() == 9);
    assert("data"@.len() == 4 && "data"@[0] == 'd');
    assert("keys"@.len() == 4 && "keys"@[0] == 'k');
    assert("locks"@.len() == 5 && "locks"@[0] == 'l');
    assert("index"@.len() == 5 && "index"@[0] == 'i');
}

/// Only strings of at least four lower-case letters are keywords.
pub proof fn lemma_keyword_shape(seg: Seq<char>)
    requires
        type_named(seg) is Some,
    ensures
        seg == type_named(seg).unwrap().keyword(),
        seg.len() >= 4,
        forall|i: int| 0 <= i < seg.len() ==> 'a' <= #[trigger] seg[i] <= 'z',
{
    lemma_keywords(type_named(seg).unwrap());
}

/// Null and the other control characters (U+0000 to U+001F, U+007F to
/// U+009F).
pub open spec fn is_control(c: char) -> bool {
    c <= '\u{1f}' || ('\u{7f}' <= c && c <= '\u{9f}')
}

/// A segment that may name a directory below the storage root: not empty,
/// neither `.` nor `..`, and free of separators and control characters.
pub open spec fn valid_name(seg: Seq<char>) -> bool {
    &&& seg.len() > 0
    &&& seg != seq!['.']
    &&& seg != seq!['.', '.']
    &&& forall|i: int| 0 <= i < seg.len() ==> !is_control(#[trigger] seg[i]) && seg[i] != '/'
}

/// A lower-case hexadecimal digit.
pub open spec fn is_hex(c: char) -> bool {
    ('0' <= c && c <= '9') || ('a' <= c && c <= 'f')
}

/// An object id: between 2 and 64 lower-case hexadecimal digits.
pub open spec fn valid_id(seg: Seq<char>) -> bool {
    &&& 2 <= seg.len() <= 64
    &&& forall|i: int| 0 <= i < seg.len() ==> is_hex(#[trigger] seg[i])
}

/// Whether a segment may name a directory below the storage root.
pub fn is_valid_name(seg: &str) -> (r: bool)
    ensures
        r == valid_name(seg@),
{
    let chars = chars_of(seg);
    let n = chars.len();
    if n == 0 {
        return false;
    }
    if n == 1 && chars[0] == '.' {
        assert(seg@ =~= seq!['.']);
        return false;
    }
    if n == 2 && chars[0] == '.' && chars[1] == '.' {
        assert(seg@ =~= seq!['.', '.']);
        return false;
    }
    assert(seg@ != seq!['.']) by {
        if seg@ == seq!['.'] {
            assert(seg@.len() == 1 && seg@[0] == '.');
        }
    }
    assert(seg@ != seq!['.', '.']) by {
        if seg@ == seq!['.', '.'] {
            assert(seg@.len() == 2 && seg@[0] == '.' && seg@[1] == '.');
        }
    }
    let mut i: usize = 0;
    while i < n
        invariant
            chars@ == seg@,
            n == chars.len(),
            i <= n,
            forall|j: int| 0 <= j < i ==> !is_control(#[trigger] seg@[j]) && seg@[j] != '/',
        decreases n - i,
    {
        let c = chars[i];
        if c <= '\u{1f}' || ('\u{7f}' <= c && c <= '\u{9f}') || c == '/' {
            return false;
        }
        i += 1;
    }
    true
}

/// Whether a segment has the shape of an object id.
pub fn is_valid_id(seg: &str) -> (r: bool)
    ensures
        r == valid_id(seg@),
{
    let chars = chars_of(seg);
    let n = chars.len();
    if n < 2 || n > 64 {
        return false;
    }
    let mut i: usize = 0;
    while i < n
        invariant
            chars@ == seg@,
            n == chars.len(),
            i <= n,
            forall|j: int| 0 <= j < i ==> is_hex(#[trigger] seg@[j]),
        decreases n - i,
    {
        let c = chars[i];
        if !(('0' <= c && c <= '9') || ('a' <= c && c <= 'f')) {
            return false;
        }
        i += 1;
    }
    true
}

/// What an [`ArchivePath`] holds, as plain mathematical values.
pub struct ArchivePathView {
    /// The repository's location below the storage root, segment by segment.
    pub repo_path: Seq<Seq<char>>,
    pub tpe: ObjectType,
    pub id: Option<Seq<char>>,
    pub kind: ArchivePathKind,
}

impl ArchivePathView {
    /// The shape every reference has: a non-empty repository path of valid
    /// names that are not type keywords; no type and no id at a repository
    /// root; a type and no id for a collection; a type other than `Config`
    /// and a well-shaped id for an object.
    pub open spec fn wf(self) -> bool {
        &&& self.repo_path.len() >= 1
        &&& forall|i: int|
            0 <= i < self.repo_path.len() ==> valid_name(#[trigger] self.repo_path[i])
                && type_named(self.repo_path[i]) is None
        &&& match self.kind {
            ArchivePathKind::Repo => self.tpe == ObjectType::NoType && self.id is None,
            ArchivePathKind::Type => self.tpe != ObjectType::NoType && self.id is None,
            ArchivePathKind::File => self.tpe != ObjectType::NoType && self.tpe
                != ObjectType::Config && self.id is Some && valid_id(self.id.unwrap()),
        }
    }

    /// Whether the reference addresses a single stored object: a `File`
    /// reference, or the `config` of a repository, which has no id.
    pub open spec fn is_object(self) -> bool {
        self.kind == ArchivePathKind::File || (self.kind == ArchivePathKind::Type && self.tpe
            == ObjectType::Config)
    }
}

/// The number of leading segments before the first type keyword.
pub open spec fn repo_len(segs: Seq<Seq<char>>) -> nat
    decreases segs.len(),
{
    if segs.len() == 0 || type_named(segs[0]) is Some {
        0
    } else {
        1 + repo_len(segs.skip(1))
    }
}

/// Whether every segment is a valid name.
pub open spec fn all_valid_names(segs: Seq<Seq<char>>) -> bool {
    forall|i: int| 0 <= i < segs.len() ==> valid_name(#[trigger] segs[i])
}

/// The reference that a list of path segments denotes, if any.
///
/// The segments before the first type keyword are the repository path; it
/// must not be empty and must consist of valid names. Nothing more makes a
/// repository root. After the keyword, nothing or one empty segment (a
/// trailing separator) makes a collection; one well-shaped id makes an
/// object, except after `config`, which never takes an id.
pub open spec fn resolved(segs: Seq<Seq<char>>) -> Option<ArchivePathView> {
    let n = repo_len(segs) as int;
    let repo = segs.take(n);
    if n == 0 || !all_valid_names(repo) {
        None
    } else if n == segs.len() {
        Some(
            ArchivePathView {
                repo_path: repo,
                tpe: ObjectType::NoType,
                id: None,
                kind: ArchivePathKind::Repo,
            },
        )
    } else {
        let tpe = type_named(segs[n]).unwrap();
        let rest = segs.skip(n + 1);
        if rest.len() == 0 || (rest.len() == 1 && rest[0].len() == 0) {
            Some(ArchivePathView { repo_path: repo, tpe, id: None, kind: ArchivePathKind::Type })
        } else if rest.len() == 1 && tpe != ObjectType::Config && valid_id(rest[0]) {
            Some(
                ArchivePathView {
                    repo_path: repo,
                    tpe,
                    id: Some(rest[0]),
                    kind: ArchivePathKind::File,
                },
            )
        } else {
            None
        }
    }
}

/// The path without the leading `/` under which every route is mounted.
pub open spec fn without_prefix(raw: Seq<char>) -> Seq<char> {
    if raw.len() > 0 && raw[0] == '/' {
        raw.skip(1)
    } else {
        raw
    }
}

/// The reference that a request path denotes, or `None` where the path is
/// invalid.
pub open spec fn decomposed(raw: Seq<char>) -> Option<ArchivePathView> {
    resolved(segments(without_prefix(raw)))
}

/// `repo_len` is the index of the first keyword, or the length where there
/// is none.
pub proof fn lemma_repo_len(segs: Seq<Seq<char>>, n: int)
    requires
        0 <= n <= segs.len(),
        forall|j: int| 0 <= j < n ==> type_named(#[trigger] segs[j]) is None,
        n == segs.len() || type_named(segs[n]) is Some,
    ensures
        repo_len(segs) == n,
    decreases n,
{
    if n > 0 {
        let tail = segs.skip(1);
        assert forall|j: int| 0 <= j < n - 1 implies type_named(#[trigger] tail[j]) is None by {
            assert(tail[j] == segs[j + 1]);
        }
        assert(n - 1 < tail.len() ==> tail[n - 1] == segs[n]);
        lemma_repo_len(tail, n - 1);
    }
}

/// Every reference that a list of segments denotes is well-formed.
pub proof fn lemma_resolved_wf(segs: Seq<Seq<char>>)
    ensures
        resolved(segs) matches Some(v) ==> v.wf(),
{
    let n = repo_len(segs) as int;
    lemma_repo_len_bounds(segs);
    if resolved(segs) is Some {
        let repo = segs.take(n);
        assert forall|i: int| 0 <= i < repo.len() implies valid_name(#[trigger] repo[i])
            && type_named(repo[i]) is None by {
            assert(repo[i] == segs[i]);
        }
        if n < segs.len() {
            let tpe = type_named(segs[n]).unwrap();
            assert(tpe != ObjectType::NoType);
        }
    }
}

/// `repo_len` stays within the list, stops at a keyword, and passes none.
pub proof fn lemma_repo_len_bounds(segs: Seq<Seq<char>>)
    ensures
        repo_len(segs) <= segs.len(),
        forall|j: int| 0 <= j < repo_len(segs) ==> type_named(#[trigger] segs[j]) is None,
        repo_len(segs) < segs.len() ==> type_named(segs[repo_len(segs) as int]) is Some,
    decreases segs.len(),
{
    if !(segs.len() == 0 || type_named(segs[0]) is Some) {
        let tail = segs.skip(1);
        lemma_repo_len_bounds(tail);
        assert forall|j: int| 0 <= j < repo_len(segs) implies type_named(#[trigger] segs[j])
            is None by {
            if j > 0 {
                assert(segs[j] == tail[j - 1]);
            }
        }
        if repo_len(segs) < segs.len() {
            assert(segs[repo_len(segs) as int] == tail[repo_len(tail) as int]);
        }
    }
}

/// A validated reference to a repository, to one of its collections or to
/// one of its objects. It is built from a request path by [`decompose`]
/// and never changes afterwards.
#[derive(Debug)]
pub struct ArchivePath {
    repo_path: Vec<String>,
    tpe: ObjectType,
    id: Option<String>,
    kind: ArchivePathKind,
}

impl View for ArchivePath {
    type V = ArchivePathView;

    closed spec fn view(&self) -> ArchivePathView {
        ArchivePathView {
            repo_path: texts(self.repo_path@),
            tpe: self.tpe,
            id: match self.id {
                Some(s) => Some(s@),
                None => None,
            },
            kind: self.kind,
        }
    }
}

impl ArchivePath {
    #[verifier::type_invariant]
    closed spec fn shaped(self) -> bool {
        self@.wf()
    }

    /// The repository's location below the storage root.
    pub fn repo_path(&self) -> (r: &Vec<String>)
        ensures
            texts(r@) == self@.repo_path,
            self@.wf(),
    {
        proof {
            use_type_invariant(self);
        }
        &self.repo_path
    }

    /// The object type, `NoType` at a repository root.
    pub fn tpe(&self) -> (r: ObjectType)
        ensures
            r == self@.tpe,
            self@.wf(),
    {
        proof {
            use_type_invariant(self);
        }
        self.tpe
    }

    /// The object id, present exactly for a `File` reference.
    pub fn id(&self) -> (r: Option<&String>)
        ensures
            match r {
                Some(s) => self@.id == Some(s@),
                None => self@.id is None,
            },
            self@.wf(),
    {
        proof {
            use_type_invariant(self);
        }
        self.id.as_ref()
    }

    /// How deep the reference reaches.
    pub fn kind(&self) -> (r: ArchivePathKind)
        ensures
            r == self@.kind,
            self@.wf(),
    {
        proof {
            use_type_invariant(self);
        }
        self.kind
    }

    /// Whether the reference addresses a single stored object.
    pub fn is_object(&self) -> (r: bool)
        ensures
            r == self@.is_object(),
            self@.wf(),
    {
        proof {
            use_type_invariant(self);
        }
        match self.kind {
            ArchivePathKind::File => true,
            ArchivePathKind::Type => match self.tpe {
                ObjectType::Config => true,
                _ => false,
            },
            ArchivePathKind::Repo => false,
        }
    }

    /// Whether two references address the same thing.
    pub fn same_as(&self, other: &ArchivePath) -> (r: bool)
        ensures
            r == (self@ == other@),
    {
        let same_id = match (&self.id, &other.id) {
            (Some(a), Some(b)) => same_text(a.as_str(), b.as_str()),
            (None, None) => true,
            _ => false,
        };
        same_id && self.kind == other.kind && self.tpe == other.tpe && same_texts(
            &self.repo_path,
            &other.repo_path,
        )
    }

    /// A copy of the reference.
    pub fn duplicate(&self) -> (r: ArchivePath)
        ensures
            r@ == self@,
    {
        proof {
            use_type_invariant(self);
        }
        let repo_path = copy_texts(&self.repo_path);
        let id = match &self.id {
            Some(s) => Some(s.clone()),
            None => None,
        };
        ArchivePath { repo_path, tpe: self.tpe, id, kind: self.kind }
    }
}

/// The number of leading segments before the first type keyword.
fn repo_length(segs: &Vec<String>) -> (n: usize)
    ensures
        n == repo_len(texts(segs@)),
        n <= segs.len(),
{
    let mut n: usize = 0;
    while n < segs.len()
        invariant
            n <= segs.len(),
            forall|j: int| 0 <= j < n ==> type_named(#[trigger] texts(segs@)[j]) is None,
        decreases segs.len() - n,
    {
        if type_of_segment(segs[n].as_str()).is_some() {
            proof {
                lemma_repo_len(texts(segs@), n as int);
            }
            return n;
        }
        n += 1;
    }
    proof {
        lemma_repo_len(texts(segs@), n as int);
    }
    n
}

/// The first `n` segments, if each of them is a valid name.
fn valid_names(segs: &Vec<String>, n: usize) -> (r: Option<Vec<String>>)
    requires
        n <= segs.len(),
    ensures
        match r {
            Some(names) => texts(names@) == texts(segs@).take(n as int) && all_valid_names(
                texts(names@),
            ),
            None => !all_valid_names(texts(segs@).take(n as int)),
        },
{
    let mut names: Vec<String> = Vec::new();
    let mut i: usize = 0;
    while i < n
        invariant
            i <= n <= segs.len(),
            names.len() == i,
            forall|j: int| 0 <= j < i ==> names[j]@ == segs[j]@ && valid_name(segs[j]@),
        decreases n - i,
    {
        if !is_valid_name(segs[i].as_str()) {
            assert(texts(segs@).take(n as int)[i as int] == segs[i as int]@);
            return None;
        }
        names.push(segs[i].clone());
        i += 1;
    }
    assert(texts(names@) =~= texts(segs@).take(n as int));
    Some(names)
}

/// Turns a request path into a validated reference.
///
/// This is the one place where request paths are validated: the result is
/// a reference exactly when [`decomposed`] gives one for the path, and then
/// it is that reference.
pub fn decompose(raw: &str) -> (r: Result<ArchivePath, InvalidPath>)
    ensures
        match r {
            Ok(p) => decomposed(raw@) == Some(p@) && p@.wf(),
            Err(_) => decomposed(raw@) is None,
        },
{
    let total = raw.unicode_len();
    let body: &str = if total > 0 && raw.get_char(0) == '/' {
        raw.substring_char(1, total)
    } else {
        raw
    };
    assert(body@ =~= without_prefix(raw@));
    let segs = split_segments(body);
    let ghost all = texts(segs@);
    proof {
        lemma_resolved_wf(all);
    }
    let n = repo_length(&segs);
    if n == 0 {
        return Err(InvalidPath);
    }
    let repo_path = match valid_names(&segs, n) {
        Some(names) => names,
        None => {
            return Err(InvalidPath);
        },
    };
    if n == segs.len() {
        return Ok(
            ArchivePath {
                repo_path,
                tpe: ObjectType::NoType,
                id: None,
                kind: ArchivePathKind::Repo,
            },
        );
    }
    let tpe = match type_of_segment(segs[n].as_str()) {
        Some(t) => t,
        None => {
            proof {
                lemma_repo_len_bounds(all);
            }
            return Err(InvalidPath);
        },
    };
    let rest = segs.len() - n - 1;
    assert(all.skip(n + 1).len() == rest);
    if rest == 0 {
        return Ok(ArchivePath { repo_path, tpe, id: None, kind: ArchivePathKind::Type });
    }
    if rest > 1 {
        return Err(InvalidPath);
    }
    let last = segs[n + 1].as_str();
    assert(all.skip(n + 1)[0] == last@);
    if last.unicode_len() == 0 {
        return Ok(ArchivePath { repo_path, tpe, id: None, kind: ArchivePathKind::Type });
    }
    let with_id = match tpe {
        ObjectType::Config => false,
        _ => is_valid_id(last),
    };
    if with_id {
        Ok(ArchivePath { repo_path, tpe, id: Some(last.to_owned()), kind: ArchivePathKind::File })
    } else {
        Err(InvalidPath)
    }
}

/// A repository path as [`decompose`] accepts it: at least one segment,
/// each a valid name and none a type keyword.
pub open spec fn valid_repo(repo: Seq<Seq<char>>) -> bool {
    &&& repo.len() >= 1
    &&& forall|i: int|
        0 <= i < repo.len() ==> valid_name(#[trigger] repo[i]) && type_named(repo[i]) is None
}

/// The request path made of the given segments: a leading `/`, then the
/// segments separated by `/`.
pub open spec fn rendered(segs: Seq<Seq<char>>) -> Seq<char> {
    seq!['/'] + joined(segs)
}

/// Whatever decomposes, decomposes into a well-formed reference: every
/// segment of its repository path is a plain name (not empty, not `.` or
/// `..`, without separator or control character), and its id, if any, is a
/// string of hexadecimal digits. No such reference points outside the
/// storage root.
pub proof fn law_decomposed_is_contained(raw: Seq<char>)
    ensures
        decomposed(raw) matches Some(v) ==> v.wf(),
{
    lemma_resolved_wf(segments(without_prefix(raw)));
}

/// A path with a `..` segment, wherever it stands, is invalid.
pub proof fn law_parent_segment_rejected(raw: Seq<char>, i: int)
    requires
        0 <= i < segments(without_prefix(raw)).len(),
        segments(without_prefix(raw))[i] == seq!['.', '.'],
    ensures
        decomposed(raw) is None,
{
    let segs = segments(without_prefix(raw));
    if type_named(segs[i]) is Some {
        lemma_keyword_shape(segs[i]);
    }
    assert(!is_hex(segs[i][0]));
    lemma_unfit_segment_rejected(segs, i);
}

/// A path with a `.` segment, wherever it stands, is invalid.
pub proof fn law_current_segment_rejected(raw: Seq<char>, i: int)
    requires
        0 <= i < segments(without_prefix(raw)).len(),
        segments(without_prefix(raw))[i] == seq!['.'],
    ensures
        decomposed(raw) is None,
{
    let segs = segments(without_prefix(raw));
    if type_named(segs[i]) is Some {
        lemma_keyword_shape(segs[i]);
    }
    lemma_unfit_segment_rejected(segs, i);
}

/// A path that is still absolute once the routing prefix is gone, such as
/// `//etc`, is invalid.
pub proof fn law_absolute_path_rejected(raw: Seq<char>)
    requires
        without_prefix(raw).len() > 0,
        without_prefix(raw)[0] == '/',
    ensures
        decomposed(raw) is None,
{
    let segs = segments(without_prefix(raw));
    lemma_segments_leading_separator(without_prefix(raw));
    if type_named(segs[0]) is Some {
        lemma_keyword_shape(segs[0]);
    }
    lemma_unfit_segment_rejected(segs, 0);
}

/// A segment that is neither a valid name nor a keyword nor an id, and is
/// not a lone trailing empty segment behind a keyword, makes the whole list
/// invalid.
proof fn lemma_unfit_segment_rejected(segs: Seq<Seq<char>>, i: int)
    requires
        0 <= i < segs.len(),
        !valid_name(segs[i]),
        !valid_id(segs[i]),
        type_named(segs[i]) is None,
        segs[i].len() > 0 || i == 0,
    ensures
        resolved(segs) is None,
{
    let n = repo_len(segs) as int;
    lemma_repo_len_bounds(segs);
    if i < n {
        assert(segs.take(n)[i] == segs[i]);
    } else if n > 0 && n < segs.len() {
        let rest = segs.skip(n + 1);
        assert(i > n);
        assert(rest[i - n - 1] == segs[i]);
    }
}

/// `/{repo}/{type}` and `/{repo}/{type}/` address the collection of that
/// type in that repository, for every repository path and every type.
pub proof fn law_collection_path(repo: Seq<Seq<char>>, t: ObjectType)
    requires
        valid_repo(repo),
        t != ObjectType::NoType,
    ensures
        decomposed(rendered(repo.push(t.keyword()))) == Some(
            ArchivePathView { repo_path: repo, tpe: t, id: None, kind: ArchivePathKind::Type },
        ),
        decomposed(rendered(repo.push(t.keyword()).push(Seq::empty()))) == Some(
            ArchivePathView { repo_path: repo, tpe: t, id: None, kind: ArchivePathKind::Type },
        ),
{
    lemma_keywords(t);
    let n = repo.len() as int;
    let short = repo.push(t.keyword());
    assert(short.take(n) =~= repo);
    lemma_rendered_splits(repo, short);
    lemma_repo_len(short, n);
    assert(short.skip(n + 1).len() == 0);
    let long = short.push(Seq::empty());
    assert(long.take(n) =~= repo);
    lemma_rendered_splits(repo, long);
    lemma_repo_len(long, n);
    assert(long.skip(n + 1).len() == 1);
    assert(long.skip(n + 1)[0].len() == 0);
}

/// `/{repo}/{type}/{id}` addresses the object of that id, for every
/// repository path, every type that holds named objects and every
/// well-shaped id.
pub proof fn law_object_path(repo: Seq<Seq<char>>, t: ObjectType, id: Seq<char>)
    requires
        valid_repo(repo),
        t != ObjectType::NoType,
        t != ObjectType::Config,
        valid_id(id),
    ensures
        decomposed(rendered(repo.push(t.keyword()).push(id))) == Some(
            ArchivePathView { repo_path: repo, tpe: t, id: Some(id), kind: ArchivePathKind::File },
        ),
{
    lemma_keywords(t);
    let n = repo.len() as int;
    let all = repo.push(t.keyword()).push(id);
    assert(all.take(n) =~= repo);
    lemma_rendered_splits(repo, all);
    lemma_repo_len(all, n);
    assert(all.skip(n + 1).len() == 1);
    assert(all.skip(n + 1)[0] == id);
}

/// `/{repo}` addresses the repository root, for every repository path.
pub proof fn law_repository_path(repo: Seq<Seq<char>>)
    requires
        valid_repo(repo),
    ensures
        decomposed(rendered(repo)) == Some(
            ArchivePathView {
                repo_path: repo,
                tpe: ObjectType::NoType,
                id: None,
                kind: ArchivePathKind::Repo,
            },
        ),
{
    let n = repo.len() as int;
    assert(repo.take(n) =~= repo);
    lemma_rendered_splits(repo, repo);
    lemma_repo_len(repo, n);
}

/// A rendered path splits back into its segments, where those are a
/// repository path followed by keywords, ids or empty segments.
proof fn lemma_rendered_splits(repo: Seq<Seq<char>>, segs: Seq<Seq<char>>)
    requires
        valid_repo(repo),
        repo.len() <= segs.len(),
        segs.take(repo.len() as int) == repo,
        forall|i: int|
            repo.len() <= i < segs.len() ==> valid_id(#[trigger] segs[i]) || segs[i].len() == 0
                || exists|t: ObjectType| t != ObjectType::NoType && segs[i] == t.keyword(),
    ensures
        segments(without_prefix(rendered(segs))) == segs,
{
    assert(without_prefix(rendered(segs)) =~= joined(segs));
    assert forall|i: int, j: int| 0 <= i < segs.len() && 0 <= j < segs[i].len() implies segs[i][j]
        != '/' by {
        if i < repo.len() {
            assert(segs[i] == repo[i]);
            assert(valid_name(repo[i]));
        } else if valid_id(segs[i]) {
            assert(is_hex(segs[i][j]));
        } else {
            let t = choose|t: ObjectType| t != ObjectType::NoType && segs[i] == t.keyword();
            lemma_keywords(t);
            assert('a' <= t.keyword()[j] <= 'z');
        }
    }
    lemma_segments_of_joined(segs);
}

} // verus!
