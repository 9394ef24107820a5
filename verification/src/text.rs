//! Character-level helpers on strings: conversion between `&str`,
//! `String` and `Vec<char>`, and the small searches the other modules use.

use vstd::prelude::*;

verus! {

broadcast use vstd::string::group_string_axioms;

/// The characters of `s`, in order.
pub fn chars_of(s: &str) -> (res: Vec<char>)
    ensures
        res@ == s@,
{
    let mut res: Vec<char> = Vec::new();
    for c in it: s.chars()
        invariant
            it.seq() == s@,
            res@ == it.seq().take(it.index() as int),
    {
        res.push(c);
    }
    res
}

/// Appends one character to a string.
///
/// Calls `String::push`, whose documentation says it appends the given
/// `char` to the end of the string.
#[verifier::external_body]
pub fn push_char(s: &mut String, c: char)
    ensures
        final(s)@ == old(s)@.push(c),
{
    s.push(c)
}

/// A string holding exactly the characters of `v`.
pub fn string_of(v: &[char]) -> (res: String)
    ensures
        res@ == v@,
{
    let mut res = String::new();
    for i in 0..v.len()
        invariant
            res@ == v@.take(i as int),
    {
        push_char(&mut res, v[i]);
        assert(v@.take(i + 1) == v@.take(i as int).push(v@[i as int]));
    }
    assert(v@.take(v@.len() as int) == v@);
    res
}

} // verus!

verus! {

/// `q` occurs somewhere inside `s` (the empty sequence occurs everywhere).
pub open spec fn has_infix(s: Seq<char>, q: Seq<char>) -> bool {
    exists|i: int| 0 <= i && i + q.len() <= s.len() && #[trigger] s.subrange(i, i + q.len()) == q
}

/// The pieces of `s` between the characters marked as separators, as
/// `str::split` yields them: always at least one piece, an empty piece on
/// each side of a separator at either end, and one between two adjacent
/// separators.
pub open spec fn split_marked(s: Seq<char>, marks: Seq<bool>) -> Seq<Seq<char>>
    decreases s.len(),
{
    if s.len() == 0 {
        seq![Seq::<char>::empty()]
    } else {
        let prev = split_marked(s.drop_last(), marks.drop_last());
        if marks.last() {
            prev.push(Seq::<char>::empty())
        } else {
            prev.update(prev.len() - 1, prev.last().push(s.last()))
        }
    }
}

/// Marks each occurrence of `sep` in `s`.
pub open spec fn marks_of(s: Seq<char>, sep: char) -> Seq<bool> {
    s.map_values(|c: char| c == sep)
}

/// `str::split` on one character.
pub open spec fn split_on(s: Seq<char>, sep: char) -> Seq<Seq<char>> {
    split_marked(s, marks_of(s, sep))
}

/// Splitting always yields at least one piece.
pub proof fn lemma_split_marked_nonempty(s: Seq<char>, marks: Seq<bool>)
    ensures
        split_marked(s, marks).len() >= 1,
    decreases s.len(),
{
    if s.len() > 0 {
        lemma_split_marked_nonempty(s.drop_last(), marks.drop_last());
    }
}

/// The sequences of `parts` joined with `sep` between each two of them.
pub open spec fn join(parts: Seq<Seq<char>>, sep: Seq<char>) -> Seq<char>
    decreases parts.len(),
{
    if parts.len() == 0 {
        Seq::empty()
    } else if parts.len() == 1 {
        parts[0]
    } else {
        join(parts.drop_last(), sep) + sep + parts.last()
    }
}

/// Whether `a` and `b` hold the same characters.
pub fn same_chars(a: &[char], b: &[char]) -> (res: bool)
    ensures
        res == (a@ == b@),
{
    if a.len() != b.len() {
        return false;
    }
    for i in 0..a.len()
        invariant
            a@.len() == b@.len(),
            forall|j: int| 0 <= j < i ==> a@[j] == b@[j],
    {
        if a[i] != b[i] {
            return false;
        }
    }
    assert(a@ =~= b@);
    true
}

/// Whether `s` begins with `q`.
pub fn starts_with(s: &[char], q: &[char]) -> (res: bool)
    ensures
        res == q@.is_prefix_of(s@),
{
    if q.len() > s.len() {
        return false;
    }
    for i in 0..q.len()
        invariant
            q@.len() <= s@.len(),
            forall|j: int| 0 <= j < i ==> q@[j] == s@[j],
    {
        if q[i] != s[i] {
            return false;
        }
    }
    assert(q@ =~= s@.subrange(0, q@.len() as int));
    true
}

/// Whether `q` matches `s` at position `at`.
pub fn matches_at(s: &[char], q: &[char], at: usize) -> (res: bool)
    requires
        at <= s@.len(),
    ensures
        res == (at + q@.len() <= s@.len() && s@.subrange(at as int, at + q@.len()) == q@),
{
    if q.len() > s.len() - at {
        return false;
    }
    for i in 0..q.len()
        invariant
            at + q.len() <= s.len(),
            at + q@.len() <= s@.len(),
            forall|j: int| 0 <= j < i ==> q@[j] == s@[at + j],
    {
        if q[i] != s[at + i] {
            assert(s@.subrange(at as int, at + q@.len())[i as int] != q@[i as int]);
            return false;
        }
    }
    assert(s@.subrange(at as int, at + q@.len()) =~= q@);
    true
}

/// Whether `q` occurs inside `s`.
pub fn contains_infix(s: &[char], q: &[char]) -> (res: bool)
    ensures
        res == has_infix(s@, q@),
{
    if q.len() > s.len() {
        return false;
    }
    let last = s.len() - q.len();
    let mut i: usize = 0;
    loop
        invariant
            last + q@.len() == s@.len(),
            i <= last,
            forall|j: int| 0 <= j < i ==> #[trigger] s@.subrange(j, j + q@.len()) != q@,
        decreases last - i,
    {
        if matches_at(s, q, i) {
            return true;
        }
        if i == last {
            return false;
        }
        i = i + 1;
    }
}

/// The contents of each vector of `v`.
pub open spec fn pieces(v: Seq<Vec<char>>) -> Seq<Seq<char>> {
    v.map_values(|p: Vec<char>| p@)
}

/// The pieces of `s` between the positions marked in `marks`.
pub fn split_at_marks(s: &[char], marks: &[bool]) -> (res: Vec<Vec<char>>)
    requires
        marks@.len() == s@.len(),
    ensures
        pieces(res@) == split_marked(s@, marks@),
{
    let mut done: Vec<Vec<char>> = Vec::new();
    let mut cur: Vec<char> = Vec::new();
    for i in 0..s.len()
        invariant
            marks@.len() == s@.len(),
            pieces(done@).push(cur@) == split_marked(s@.take(i as int), marks@.take(i as int)),
    {
        let ghost before = pieces(done@).push(cur@);
        proof {
            assert(s@.take(i + 1).drop_last() == s@.take(i as int));
            assert(marks@.take(i + 1).drop_last() == marks@.take(i as int));
            assert(s@.take(i + 1).last() == s@[i as int]);
            assert(marks@.take(i + 1).last() == marks@[i as int]);
        }
        if marks[i] {
            let ghost old_done = done@;
            let piece = cur;
            done.push(piece);
            cur = Vec::new();
            assert(pieces(done@) =~= pieces(old_done).push(piece@));
            assert(pieces(done@) =~= before);
            assert(pieces(done@).push(cur@) =~= split_marked(s@.take(i + 1), marks@.take(i + 1)));
        } else {
            let ghost old_cur = cur@;
            cur.push(s[i]);
            assert(pieces(done@).push(cur@) =~= before.update(before.len() - 1, old_cur.push(s@[i as int])));
            assert(pieces(done@).push(cur@) =~= split_marked(s@.take(i + 1), marks@.take(i + 1)));
        }
    }
    proof {
        assert(s@.take(s@.len() as int) == s@);
        assert(marks@.take(s@.len() as int) == marks@);
    }
    let ghost old_done = done@;
    done.push(cur);
    assert(pieces(done@) =~= pieces(old_done).push(cur@));
    done
}

/// `str::split` on one character.
pub fn split_char(s: &[char], sep: char) -> (res: Vec<Vec<char>>)
    ensures
        pieces(res@) == split_on(s@, sep),
{
    let mut marks: Vec<bool> = Vec::new();
    for i in 0..s.len()
        invariant
            marks@ == s@.take(i as int).map_values(|c: char| c == sep),
    {
        marks.push(s[i] == sep);
        assert(marks@ =~= s@.take(i + 1).map_values(|c: char| c == sep));
    }
    assert(s@.take(s@.len() as int) == s@);
    assert(marks@ =~= marks_of(s@, sep));
    split_at_marks(s, &marks)
}

/// The characters of `s` from position `from` up to `to`.
pub fn slice_chars(s: &[char], from: usize, to: usize) -> (res: Vec<char>)
    requires
        from <= to <= s@.len(),
    ensures
        res@ == s@.subrange(from as int, to as int),
{
    let mut res: Vec<char> = Vec::new();
    for i in from..to
        invariant
            to <= s@.len(),
            res@ == s@.subrange(from as int, i as int),
    {
        res.push(s[i]);
        assert(res@ =~= s@.subrange(from as int, i + 1));
    }
    res
}

/// `p` occurs in `s` at position `i`, and nowhere before.
pub open spec fn is_first_match(s: Seq<char>, p: Seq<char>, i: int) -> bool {
    &&& 0 <= i && i + p.len() <= s.len()
    &&& s.subrange(i, i + p.len()) == p
    &&& forall|j: int| 0 <= j < i ==> #[trigger] s.subrange(j, j + p.len()) != p
}

/// `str::split_once`: the text before and after the first occurrence of
/// `p` in `s`, if there is one.
pub open spec fn split_once(s: Seq<char>, p: Seq<char>) -> Option<(Seq<char>, Seq<char>)> {
    if exists|i: int| is_first_match(s, p, i) {
        let i = choose|i: int| is_first_match(s, p, i);
        Some((s.take(i), s.skip(i + p.len())))
    } else {
        None
    }
}

/// `s` with every `c` removed.
pub open spec fn without(s: Seq<char>, c: char) -> Seq<char>
    decreases s.len(),
{
    if s.len() == 0 {
        Seq::empty()
    } else if s.last() == c {
        without(s.drop_last(), c)
    } else {
        without(s.drop_last(), c).push(s.last())
    }
}

/// The position of the first occurrence of `p` in `s`.
pub fn find_first(s: &[char], p: &[char]) -> (res: Option<usize>)
    ensures
        match res {
            Some(i) => is_first_match(s@, p@, i as int),
            None => forall|i: int| 0 <= i && i + p@.len() <= s@.len() ==> #[trigger] s@.subrange(i, i + p@.len()) != p@,
        },
{
    if p.len() > s.len() {
        return None;
    }
    let last = s.len() - p.len();
    let mut i: usize = 0;
    loop
        invariant
            last + p@.len() == s@.len(),
            i <= last,
            forall|j: int| 0 <= j < i ==> #[trigger] s@.subrange(j, j + p@.len()) != p@,
        decreases last - i,
    {
        if matches_at(s, p, i) {
            return Some(i);
        }
        if i == last {
            return None;
        }
        i = i + 1;
    }
}

/// `split_once` on characters.
pub fn split_once_chars(s: &[char], p: &[char]) -> (res: Option<(Vec<char>, Vec<char>)>)
    ensures
        match res {
            Some((a, b)) => split_once(s@, p@) == Some((a@, b@)),
            None => split_once(s@, p@) is None,
        },
{
    match find_first(s, p) {
        Some(i) => {
            proof {
                let k = choose|k: int| is_first_match(s@, p@, k);
                if k < i {
                    assert(s@.subrange(k, k + p@.len()) != p@);
                } else if k > i {
                    assert(s@.subrange(i as int, i + p@.len()) != p@);
                }
            }
            let before = slice_chars(s, 0, i);
            let n = s.len();
            assert(i + p@.len() <= n);
            let after = slice_chars(s, i + p.len(), n);
            assert(before@ =~= s@.take(i as int));
            assert(after@ =~= s@.skip(i + p@.len()));
            Some((before, after))
        },
        None => None,
    }
}

/// `s` with every `c` removed.
pub fn remove_char(s: &[char], c: char) -> (res: Vec<char>)
    ensures
        res@ == without(s@, c),
{
    let mut out: Vec<char> = Vec::new();
    for i in 0..s.len()
        invariant
            out@ == without(s@.take(i as int), c),
    {
        assert(s@.take(i + 1).drop_last() == s@.take(i as int));
        if s[i] != c {
            out.push(s[i]);
        }
    }
    assert(s@.take(s@.len() as int) == s@);
    out
}

/// The contents of each string of `v`.
pub open spec fn strings(v: Seq<String>) -> Seq<Seq<char>> {
    v.map_values(|s: String| s@)
}

/// Strings holding the characters of each vector of `v`.
pub fn strings_of(v: &[Vec<char>]) -> (res: Vec<String>)
    ensures
        strings(res@) == pieces(v@),
{
    let mut res: Vec<String> = Vec::new();
    for i in 0..v.len()
        invariant
            strings(res@) == pieces(v@.take(i as int)),
    {
        let s = string_of(v[i].as_slice());
        assert(s@ == v@[i as int]@);
        let ghost prev = res@;
        res.push(s);
        assert(strings(res@) =~= strings(prev).push(s@));
        assert(pieces(v@.take(i + 1)) =~= pieces(v@.take(i as int)).push(v@[i as int]@));
        assert(strings(res@) =~= pieces(v@.take(i + 1)));
    }
    assert(v@.take(v@.len() as int) == v@);
    res
}

/// One of the pieces from position `from` on equals `q`.
pub fn any_equal(list: &[Vec<char>], from: usize, q: &[char]) -> (res: bool)
    ensures
        res == exists|i: int| from <= i < list@.len() && #[trigger] pieces(list@)[i] == q@,
{
    let mut i = from;
    while i < list.len()
        invariant
            from <= i,
            forall|j: int| from <= j < i && j < list@.len() ==> #[trigger] pieces(list@)[j] != q@,
        decreases list@.len() - i,
    {
        if same_chars(list[i].as_slice(), q) {
            assert(pieces(list@)[i as int] == q@);
            return true;
        }
        i = i + 1;
    }
    false
}

/// One of the pieces from position `from` on begins with `q`.
pub fn any_prefixed(list: &[Vec<char>], from: usize, q: &[char]) -> (res: bool)
    ensures
        res == exists|i: int| from <= i < list@.len() && q@.is_prefix_of(#[trigger] pieces(list@)[i]),
{
    let mut i = from;
    while i < list.len()
        invariant
            from <= i,
            forall|j: int| from <= j < i && j < list@.len() ==> !q@.is_prefix_of(#[trigger] pieces(list@)[j]),
        decreases list@.len() - i,
    {
        if starts_with(list[i].as_slice(), q) {
            assert(q@.is_prefix_of(pieces(list@)[i as int]));
            return true;
        }
        i = i + 1;
    }
    false
}

/// One of the pieces from position `from` on holds `q`.
pub fn any_infix(list: &[Vec<char>], from: usize, q: &[char]) -> (res: bool)
    ensures
        res == exists|i: int| from <= i < list@.len() && has_infix(#[trigger] pieces(list@)[i], q@),
{
    let mut i = from;
    while i < list.len()
        invariant
            from <= i,
            forall|j: int| from <= j < i && j < list@.len() ==> !has_infix(#[trigger] pieces(list@)[j], q@),
        decreases list@.len() - i,
    {
        if contains_infix(list[i].as_slice(), q) {
            assert(has_infix(pieces(list@)[i as int], q@));
            return true;
        }
        i = i + 1;
    }
    false
}

/// Whether two string slices hold the same characters.
pub fn str_eq(a: &str, b: &str) -> (res: bool)
    ensures
        res == (a@ == b@),
{
    let x = chars_of(a);
    let y = chars_of(b);
    same_chars(&x, &y)
}

/// Removing a character twice removes nothing more.
pub proof fn lemma_without_twice(s: Seq<char>, c: char)
    ensures
        without(without(s, c), c) == without(s, c),
    decreases s.len(),
{
    if s.len() > 0 {
        lemma_without_twice(s.drop_last(), c);
        let w = without(s.drop_last(), c);
        if s.last() != c {
            assert(w.push(s.last()).drop_last() == w);
        }
    }
}

/// Appending characters that hold no separator extends the last piece.
pub proof fn lemma_split_append(x: Seq<char>, y: Seq<char>, sep: char)
    requires
        !y.contains(sep),
    ensures
        split_on(x + y, sep) == split_on(x, sep).update(
            split_on(x, sep).len() - 1,
            split_on(x, sep).last() + y,
        ),
    decreases y.len(),
{
    lemma_split_marked_nonempty(x, marks_of(x, sep));
    if y.len() == 0 {
        assert(x + y =~= x);
        assert(split_on(x, sep).last() + y =~= split_on(x, sep).last());
        assert(split_on(x, sep).update(split_on(x, sep).len() - 1, split_on(x, sep).last() + y) =~= split_on(x, sep));
    } else {
        let y1 = y.drop_last();
        assert(!y1.contains(sep)) by {
            if y1.contains(sep) {
                let i = choose|i: int| 0 <= i < y1.len() && y1[i] == sep;
                assert(y[i] == sep);
            }
        }
        lemma_split_append(x, y1, sep);
        assert((x + y).drop_last() =~= x + y1);
        assert(marks_of(x + y, sep).drop_last() =~= marks_of(x + y1, sep));
        assert(y.last() != sep) by {
            assert(y[y.len() - 1] == y.last());
        }
        lemma_split_marked_nonempty(x + y1, marks_of(x + y1, sep));
        assert((split_on(x, sep).last() + y1).push(y.last()) =~= split_on(x, sep).last() + y);
        assert(split_on(x + y, sep) =~= split_on(x, sep).update(
            split_on(x, sep).len() - 1,
            split_on(x, sep).last() + y,
        ));
    }
}

/// A separator at the end starts a new, empty piece.
pub proof fn lemma_split_push_separator(x: Seq<char>, sep: char)
    ensures
        split_on(x.push(sep), sep) == split_on(x, sep).push(Seq::empty()),
{
    assert(x.push(sep).drop_last() =~= x);
    assert(marks_of(x.push(sep), sep).drop_last() =~= marks_of(x, sep));
}

/// No piece of a split holds the separator.
pub proof fn lemma_split_pieces_lack_separator(s: Seq<char>, sep: char, i: int)
    requires
        0 <= i < split_on(s, sep).len(),
    ensures
        !split_on(s, sep)[i].contains(sep),
    decreases s.len(),
{
    if s.len() > 0 {
        let t = s.drop_last();
        assert(marks_of(s, sep).drop_last() =~= marks_of(t, sep));
        lemma_split_marked_nonempty(t, marks_of(t, sep));
        let prev = split_on(t, sep);
        if s.last() == sep {
            if i < prev.len() {
                lemma_split_pieces_lack_separator(t, sep, i);
            }
        } else {
            lemma_split_pieces_lack_separator(t, sep, i);
            if i == prev.len() - 1 {
                let p = prev.last().push(s.last());
                if p.contains(sep) {
                    let j = choose|j: int| 0 <= j < p.len() && p[j] == sep;
                    if j < prev.last().len() {
                        assert(prev.last()[j] == sep);
                    }
                }
            }
        }
    }
}

/// The first piece of a split is the text up to the first separator: a
/// prefix of it without the separator, followed by the separator unless it
/// is the whole text. There is one piece exactly when the text holds no
/// separator.
pub proof fn lemma_first_piece(s: Seq<char>, sep: char)
    ensures
        split_on(s, sep).len() >= 1,
        split_on(s, sep)[0].is_prefix_of(s),
        !split_on(s, sep)[0].contains(sep),
        split_on(s, sep)[0].len() < s.len() ==> s[split_on(s, sep)[0].len() as int] == sep,
        (split_on(s, sep).len() == 1) == !s.contains(sep),
    decreases s.len(),
{
    lemma_split_marked_nonempty(s, marks_of(s, sep));
    lemma_split_pieces_lack_separator(s, sep, 0);
    if s.len() == 0 {
        assert(split_on(s, sep)[0] =~= Seq::<char>::empty());
    } else {
        let t = s.drop_last();
        let c = s.last();
        lemma_first_piece(t, sep);
        assert(marks_of(s, sep).drop_last() =~= marks_of(t, sep));
        let prev = split_on(t, sep);
        let p = prev[0];
        if prev.len() == 1 {
            assert(p.len() == t.len()) by {
                if p.len() < t.len() {
                    assert(t[p.len() as int] == sep);
                }
            }
            assert(p =~= t);
        } else {
            assert(t.contains(sep));
            assert(p.len() < t.len()) by {
                if p.len() >= t.len() {
                    let j = choose|j: int| 0 <= j < t.len() && t[j] == sep;
                    assert(p[j] == sep);
                }
            }
        }
        if c == sep {
            assert(s[s.len() - 1] == sep);
            assert(split_on(s, sep)[0] == p);
        } else {
            if s.contains(sep) {
                let j = choose|j: int| 0 <= j < s.len() && s[j] == sep;
                assert(t[j] == sep);
            }
            if prev.len() == 1 {
                assert(split_on(s, sep)[0] =~= s);
            } else {
                assert(split_on(s, sep)[0] == p);
            }
        }
    }
}

} // verus!
