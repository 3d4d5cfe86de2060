//! Searching sequences of lines.
use vstd::prelude::*;
use crate::text::{lines, has_prefix, views, to_vec, same, starts_with, skip};

verus! {

/// Index of the first line equal to `m`, or `ls.len()`.
pub open spec fn index_of_line(ls: Seq<Seq<char>>, m: Seq<char>) -> int
    decreases ls.len(),
{
    if ls.len() == 0 {
        0
    } else if ls[0] == m {
        0
    } else {
        1 + index_of_line(ls.drop_first(), m)
    }
}

/// Index of the first line starting with `p`, or `ls.len()`.
pub open spec fn index_of_prefixed(ls: Seq<Seq<char>>, p: Seq<char>) -> int
    decreases ls.len(),
{
    if ls.len() == 0 {
        0
    } else if has_prefix(ls[0], p) {
        0
    } else {
        1 + index_of_prefixed(ls.drop_first(), p)
    }
}

/// Bounds and meaning of `index_of_line`.
pub proof fn lemma_index_of_line(ls: Seq<Seq<char>>, m: Seq<char>)
    ensures
        0 <= index_of_line(ls, m) <= ls.len(),
        index_of_line(ls, m) < ls.len() ==> ls[index_of_line(ls, m)] == m,
        forall|j: int| 0 <= j < index_of_line(ls, m) ==> ls[j] != m,
    decreases ls.len(),
{
    if ls.len() > 0 && ls[0] != m {
        lemma_index_of_line(ls.drop_first(), m);
        assert forall|j: int| 0 <= j < index_of_line(ls, m) implies ls[j] != m by {
            if j > 0 {
                assert(ls[j] == ls.drop_first()[j - 1]);
            }
        }
    }
}

/// Bounds and meaning of `index_of_prefixed`.
pub proof fn lemma_index_of_prefixed(ls: Seq<Seq<char>>, p: Seq<char>)
    ensures
        0 <= index_of_prefixed(ls, p) <= ls.len(),
        index_of_prefixed(ls, p) < ls.len() ==> has_prefix(ls[index_of_prefixed(ls, p)], p),
        forall|j: int| 0 <= j < index_of_prefixed(ls, p) ==> !has_prefix(#[trigger] ls[j], p),
    decreases ls.len(),
{
    if ls.len() > 0 && !has_prefix(ls[0], p) {
        lemma_index_of_prefixed(ls.drop_first(), p);
        assert forall|j: int| 0 <= j < index_of_prefixed(ls, p) implies !has_prefix(
            #[trigger] ls[j],
            p,
        ) by {
            if j > 0 {
                assert(ls[j] == ls.drop_first()[j - 1]);
            }
        }
    }
}

/// Index of the first line at or after `from` equal to `m`, or `ls.len()`.
pub fn find_line(ls: &Vec<Vec<char>>, from: usize, m: &[char]) -> (i: usize)
    requires
        from <= ls.len(),
    ensures
        from <= i <= ls.len(),
        i == from + index_of_line(views(ls@).skip(from as int), m@),
{
    proof {
        lemma_index_of_line(views(ls@).skip(from as int), m@);
    }
    let mut i = from;
    while i < ls.len() && !same(ls[i].as_slice(), m)
        invariant
            from <= i <= ls.len(),
            index_of_line(views(ls@).skip(from as int), m@) == (i - from) + index_of_line(
                views(ls@).skip(i as int),
                m@,
            ),
        decreases ls.len() - i,
    {
        assert(views(ls@).skip(i as int).drop_first() =~= views(ls@).skip(i + 1));
        assert(views(ls@).skip(i as int)[0] == ls@[i as int]@);
        i = i + 1;
    }
    if i < ls.len() {
        assert(views(ls@).skip(i as int)[0] == ls@[i as int]@);
    } else {
        assert(views(ls@).skip(i as int).len() == 0);
    }
    i
}

/// Index of the first line at or after `from` starting with `p`, or `ls.len()`.
pub fn find_prefixed(ls: &Vec<Vec<char>>, from: usize, p: &[char]) -> (i: usize)
    requires
        from <= ls.len(),
    ensures
        from <= i <= ls.len(),
        i == from + index_of_prefixed(views(ls@).skip(from as int), p@),
{
    let mut i = from;
    while i < ls.len() && !starts_with(ls[i].as_slice(), p)
        invariant
            from <= i <= ls.len(),
            index_of_prefixed(views(ls@).skip(from as int), p@) == (i - from) + index_of_prefixed(
                views(ls@).skip(i as int),
                p@,
            ),
        decreases ls.len() - i,
    {
        assert(views(ls@).skip(i as int).drop_first() =~= views(ls@).skip(i + 1));
        assert(views(ls@).skip(i as int)[0] == ls@[i as int]@);
        i = i + 1;
    }
    if i < ls.len() {
        assert(views(ls@).skip(i as int)[0] == ls@[i as int]@);
    } else {
        assert(views(ls@).skip(i as int).len() == 0);
    }
    i
}

/// Lines `from..to` as a new vector.
pub fn lines_between(ls: &Vec<Vec<char>>, from: usize, to: usize) -> (out: Vec<Vec<char>>)
    requires
        from <= to <= ls.len(),
    ensures
        views(out@) == views(ls@).subrange(from as int, to as int),
{
    let mut out: Vec<Vec<char>> = Vec::new();
    let mut i: usize = from;
    while i < to
        invariant
            from <= i <= to <= ls.len(),
            views(out@) == views(ls@).subrange(from as int, i as int),
        decreases to - i,
    {
        let v = to_vec(ls[i].as_slice());
        let ghost prev = out@;
        out.push(v);
        assert(out@ == prev.push(v));
        assert(views(out@) =~= views(prev).push(v@));
        assert(views(ls@).subrange(from as int, i + 1) =~= views(ls@).subrange(
            from as int,
            i as int,
        ).push(ls@[i as int]@));
        i = i + 1;
    }
    out
}

} // verus!
