//! Small helpers on strings and lists of strings, stated over their
//! character sequences.

use vstd::prelude::*;
use vstd::string::*;

verus! {

/// The character sequences of a list of strings, in order.
pub open spec fn texts(v: Seq<String>) -> Seq<Seq<char>> {
    Seq::new(v.len(), |i: int| v[i]@)
}

/// Whether `a` is a leading part of `b`.
pub open spec fn is_prefix_of<T>(a: Seq<T>, b: Seq<T>) -> bool {
    a.len() <= b.len() && b.take(a.len() as int) == a
}

/// The segments joined by `/`.
pub open spec fn joined(segs: Seq<Seq<char>>) -> Seq<char>
    decreases segs.len(),
{
    if segs.len() == 0 {
        Seq::empty()
    } else if segs.len() == 1 {
        segs[0]
    } else {
        joined(segs.drop_last()).push('/') + segs.last()
    }
}

/// The pieces of `s` between its `/` characters. A string without `/` is
/// one piece; `n` separators always give `n + 1` pieces, some of which may
/// be empty.
pub open spec fn segments(s: Seq<char>) -> Seq<Seq<char>>
    decreases s.len(),
{
    if s.len() == 0 {
        seq![Seq::empty()]
    } else {
        let before = segments(s.drop_last());
        if s.last() == '/' {
            before.push(Seq::empty())
        } else {
            before.drop_last().push(before.last().push(s.last()))
        }
    }
}

/// Appending a separator and a piece without `/` appends that piece to the
/// split.
pub proof fn lemma_segments_append(s: Seq<char>, piece: Seq<char>)
    requires
        forall|j: int| 0 <= j < piece.len() ==> piece[j] != '/',
    ensures
        segments(s.push('/') + piece) == segments(s).push(piece),
    decreases piece.len(),
{
    let whole = s.push('/') + piece;
    if piece.len() == 0 {
        assert(whole =~= s.push('/'));
        assert(whole.drop_last() =~= s);
        assert(piece =~= Seq::<char>::empty());
    } else {
        let shorter = piece.drop_last();
        lemma_segments_append(s, shorter);
        assert(whole.drop_last() =~= s.push('/') + shorter);
        assert(whole.last() == piece.last());
        let before = segments(whole.drop_last());
        assert(before == segments(s).push(shorter));
        assert(before.drop_last() =~= segments(s));
        assert(shorter.push(piece.last()) =~= piece);
    }
}

/// Splitting undoes joining: a non-empty list of pieces, none of which
/// holds a `/`, is what its joined form splits into.
pub proof fn lemma_segments_of_joined(segs: Seq<Seq<char>>)
    requires
        segs.len() >= 1,
        forall|i: int, j: int| 0 <= i < segs.len() && 0 <= j < segs[i].len() ==> segs[i][j] != '/',
    ensures
        segments(joined(segs)) == segs,
    decreases segs.len(),
{
    if segs.len() == 1 {
        lemma_segments_of_piece(segs[0]);
        assert(segs =~= seq![segs[0]]);
    } else {
        let first = segs.drop_last();
        lemma_segments_of_joined(first);
        lemma_segments_append(joined(first), segs.last());
        assert(first.push(segs.last()) =~= segs);
    }
}

/// A string without `/` is its own single piece.
pub proof fn lemma_segments_of_piece(piece: Seq<char>)
    requires
        forall|j: int| 0 <= j < piece.len() ==> piece[j] != '/',
    ensures
        segments(piece) == seq![piece],
    decreases piece.len(),
{
    if piece.len() == 0 {
        assert(piece =~= Seq::empty());
    } else {
        lemma_segments_of_piece(piece.drop_last());
        assert(seq![piece.drop_last()].drop_last().push(piece.drop_last().push(piece.last()))
            =~= seq![piece]) by {
            assert(piece.drop_last().push(piece.last()) =~= piece);
        }
    }
}

/// A string that starts with a separator splits into an empty first piece
/// and at least one more.
pub proof fn lemma_segments_leading_separator(s: Seq<char>)
    requires
        s.len() > 0,
        s[0] == '/',
    ensures
        segments(s).len() >= 2,
        segments(s)[0].len() == 0,
    decreases s.len(),
{
    if s.len() == 1 {
        assert(s.drop_last() =~= Seq::<char>::empty());
    } else {
        lemma_segments_leading_separator(s.drop_last());
    }
}

/// The characters of a string, in order.
pub fn chars_of(s: &str) -> (v: Vec<char>)
    ensures
        v@ == s@,
{
    let mut v: Vec<char> = Vec::new();
    for c in it: s.chars()
        invariant
            it.seq() == s@,
            v@ == s@.take(it.index() as int),
    {
        v.push(c);
        assert(s@.take(it.index() + 1) =~= s@.take(it.index() as int).push(c));
    }
    assert(s@.take(s@.len() as int) =~= s@);
    v
}

/// Whether two strings hold the same characters.
pub fn same_text(a: &str, b: &str) -> (r: bool)
    ensures
        r == (a@ == b@),
{
    let x = a.to_owned();
    let y = b.to_owned();
    x == y
}

/// Whether two lists hold the same strings in the same order.
pub fn same_texts(a: &Vec<String>, b: &Vec<String>) -> (r: bool)
    ensures
        r == (texts(a@) == texts(b@)),
{
    if a.len() != b.len() {
        assert(texts(a@).len() != texts(b@).len());
        return false;
    }
    let mut i: usize = 0;
    while i < a.len()
        invariant
            a.len() == b.len(),
            i <= a.len(),
            forall|j: int| 0 <= j < i ==> a[j]@ == b[j]@,
        decreases a.len() - i,
    {
        if !same_text(a[i].as_str(), b[i].as_str()) {
            assert(texts(a@)[i as int] != texts(b@)[i as int]);
            return false;
        }
        i += 1;
    }
    assert(texts(a@) =~= texts(b@));
    true
}

/// Whether `list` starts with the strings of `prefix`.
pub fn starts_with_texts(list: &Vec<String>, prefix: &Vec<String>) -> (r: bool)
    ensures
        r == is_prefix_of(texts(prefix@), texts(list@)),
{
    if prefix.len() > list.len() {
        return false;
    }
    let mut i: usize = 0;
    while i < prefix.len()
        invariant
            prefix.len() <= list.len(),
            i <= prefix.len(),
            forall|j: int| 0 <= j < i ==> prefix[j]@ == list[j]@,
        decreases prefix.len() - i,
    {
        if !same_text(prefix[i].as_str(), list[i].as_str()) {
            assert(texts(list@).take(prefix.len() as int)[i as int] != texts(prefix@)[i as int]);
            return false;
        }
        i += 1;
    }
    assert(texts(list@).take(prefix.len() as int) =~= texts(prefix@));
    true
}

/// A copy of a list of strings.
pub fn copy_texts(v: &Vec<String>) -> (out: Vec<String>)
    ensures
        texts(out@) == texts(v@),
{
    let mut out: Vec<String> = Vec::new();
    let mut i: usize = 0;
    while i < v.len()
        invariant
            i <= v.len(),
            out.len() == i,
            forall|j: int| 0 <= j < i ==> out[j]@ == v[j]@,
        decreases v.len() - i,
    {
        out.push(v[i].clone());
        i += 1;
    }
    assert(texts(out@) =~= texts(v@));
    out
}

/// The strings joined by `/`.
pub fn join_segments(segs: &Vec<String>) -> (out: String)
    ensures
        out@ == joined(texts(segs@)),
{
    let mut out = String::new();
    let ghost all = texts(segs@);
    let mut i: usize = 0;
    assert(all.take(0) =~= Seq::<Seq<char>>::empty());
    while i < segs.len()
        invariant
            i <= segs.len(),
            all == texts(segs@),
            out@ == joined(all.take(i as int)),
        decreases segs.len() - i,
    {
        let ghost grown = all.take(i + 1);
        assert(grown.drop_last() =~= all.take(i as int));
        assert(grown.last() == segs[i as int]@);
        if i > 0 {
            proof {
                reveal_strlit("/");
            }
            out.append("/");
            assert(out@ =~= joined(all.take(i as int)).push('/'));
        } else {
            assert(out@ + segs[i as int]@ =~= segs[i as int]@);
        }
        out.append(segs[i].as_str());
        i += 1;
    }
    assert(all.take(segs.len() as int) =~= all);
    out
}

/// Splits a string at every `/`.
pub fn split_segments(s: &str) -> (out: Vec<String>)
    ensures
        texts(out@) == segments(s@),
{
    let chars = chars_of(s);
    let n = chars.len();
    let mut out: Vec<String> = Vec::new();
    let mut start: usize = 0;
    let mut i: usize = 0;
    assert(s@.take(0) =~= Seq::<char>::empty());
    assert(texts(out@).push(s@.subrange(0, 0)) =~= seq![Seq::<char>::empty()]);
    while i < n
        invariant
            chars@ == s@,
            n == chars.len(),
            start <= i <= n,
            segments(s@.take(i as int)) == texts(out@).push(s@.subrange(start as int, i as int)),
        decreases n - i,
    {
        let ghost before = segments(s@.take(i as int));
        let ghost grown = s@.take(i + 1);
        assert(grown.drop_last() =~= s@.take(i as int));
        assert(grown.last() == s@[i as int]);
        if chars[i] == '/' {
            let piece = s.substring_char(start, i).to_owned();
            let ghost old_out = out@;
            out.push(piece);
            assert(texts(out@) =~= texts(old_out).push(s@.subrange(start as int, i as int)));
            start = i + 1;
            assert(s@.subrange(start as int, i + 1) =~= Seq::<char>::empty());
        } else {
            assert(before.drop_last() =~= texts(out@));
            assert(before.last().push(s@[i as int]) =~= s@.subrange(start as int, i + 1));
        }
        i += 1;
    }
    assert(s@.take(n as int) =~= s@);
    let piece = s.substring_char(start, n).to_owned();
    let ghost old_out = out@;
    out.push(piece);
    assert(texts(out@) =~= texts(old_out).push(s@.subrange(start as int, n as int)));
    out
}

} // verus!
