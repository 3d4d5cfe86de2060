//! Lexicographic order of texts, the component order of paths, and stable
//! sorting of documents by path.
use vstd::prelude::*;
use crate::document::{Document, DocumentModel, doc_views};

verus! {

/// `a` comes no later than `b` in lexicographic character order.
pub open spec fn text_le(a: Seq<char>, b: Seq<char>) -> bool
    decreases a.len(),
{
    if a.len() == 0 {
        true
    } else if b.len() == 0 {
        false
    } else if a[0] != b[0] {
        a[0] < b[0]
    } else {
        text_le(a.drop_first(), b.drop_first())
    }
}

/// Any two texts are ordered one way or the other.
pub proof fn lemma_text_le_total(a: Seq<char>, b: Seq<char>)
    ensures
        text_le(a, b) || text_le(b, a),
    decreases a.len(),
{
    if a.len() > 0 && b.len() > 0 && a[0] == b[0] {
        lemma_text_le_total(a.drop_first(), b.drop_first());
    }
}

/// Every text comes no later than itself.
pub proof fn lemma_text_le_refl(a: Seq<char>)
    ensures
        text_le(a, a),
    decreases a.len(),
{
    if a.len() > 0 {
        lemma_text_le_refl(a.drop_first());
    }
}

/// The order is transitive.
pub proof fn lemma_text_le_trans(a: Seq<char>, b: Seq<char>, c: Seq<char>)
    requires
        text_le(a, b),
        text_le(b, c),
    ensures
        text_le(a, c),
    decreases a.len(),
{
    if a.len() > 0 && b.len() > 0 && c.len() > 0 && a[0] == b[0] && b[0] == c[0] {
        lemma_text_le_trans(a.drop_first(), b.drop_first(), c.drop_first());
    }
}

/// The order is antisymmetric.
pub proof fn lemma_text_le_antisym(a: Seq<char>, b: Seq<char>)
    requires
        text_le(a, b),
        text_le(b, a),
    ensures
        a == b,
    decreases a.len(),
{
    if a.len() > 0 && b.len() > 0 {
        lemma_text_le_antisym(a.drop_first(), b.drop_first());
        assert(a =~= seq![a[0]] + a.drop_first());
        assert(b =~= seq![b[0]] + b.drop_first());
    } else {
        assert(a =~= b);
    }
}

/// Whether `a` comes no later than `b`.
pub fn le_text(a: &[char], b: &[char]) -> (r: bool)
    ensures
        r == text_le(a@, b@),
{
    let mut i: usize = 0;
    assert(a@.skip(0) =~= a@);
    assert(b@.skip(0) =~= b@);
    while i < a.len() && i < b.len() && a[i] == b[i]
        invariant
            i <= a.len(),
            i <= b.len(),
            text_le(a@, b@) == text_le(a@.skip(i as int), b@.skip(i as int)),
        decreases a.len() - i,
    {
        assert(a@.skip(i as int).drop_first() =~= a@.skip(i + 1));
        assert(b@.skip(i as int).drop_first() =~= b@.skip(i + 1));
        i = i + 1;
    }
    if i == a.len() {
        true
    } else if i == b.len() {
        false
    } else {
        a[i] < b[i]
    }
}

// ---------------------------------------------------------------------------
// Path order
// ---------------------------------------------------------------------------

/// A path separator: `/`, or `\` as on Windows.
pub open spec fn separator(c: char) -> bool {
    c == '/' || c == '\\'
}

/// Index of the first separator in `s`, or `s.len()`.
pub open spec fn first_separator(s: Seq<char>) -> int
    decreases s.len(),
{
    if s.len() == 0 {
        0
    } else if separator(s[0]) {
        0
    } else {
        1 + first_separator(s.drop_first())
    }
}

/// The pieces of `s` between separators.
pub open spec fn segments(s: Seq<char>) -> Seq<Seq<char>>
    decreases s.len(),
{
    let i = first_separator(s);
    if 0 <= i < s.len() {
        seq![s.take(i)] + segments(s.skip(i + 1))
    } else {
        seq![s]
    }
}

/// The segments that name a component: all but empty ones and `.`.
pub open spec fn kept_segments(segs: Seq<Seq<char>>) -> Seq<Seq<char>>
    decreases segs.len(),
{
    if segs.len() == 0 {
        seq![]
    } else if segs[0].len() == 0 || segs[0] == "."@ {
        kept_segments(segs.drop_first())
    } else {
        seq![segs[0]] + kept_segments(segs.drop_first())
    }
}

/// The components of a path, as `Path::components` gives them: a leading
/// root (written as an empty component), or a leading `.`, then every `..`
/// and name between separators; empty and other `.` components are passed
/// over.
pub open spec fn path_components(p: Seq<char>) -> Seq<Seq<char>> {
    if p.len() > 0 && separator(p[0]) {
        seq![Seq::<char>::empty()] + kept_segments(segments(p.drop_first()))
    } else if p.len() > 0 && p[0] == '.' && (p.len() == 1 || separator(p[1])) {
        seq!["."@] + kept_segments(segments(p.drop_first()))
    } else {
        kept_segments(segments(p))
    }
}

/// Where a component sorts by kind: the root, then `.`, then `..`, then names.
pub open spec fn component_rank(c: Seq<char>) -> int {
    if c.len() == 0 {
        0
    } else if c == "."@ {
        1
    } else if c == ".."@ {
        2
    } else {
        3
    }
}

/// Component `a` comes strictly before component `b`.
pub open spec fn component_lt(a: Seq<char>, b: Seq<char>) -> bool {
    component_rank(a) < component_rank(b) || (component_rank(a) == component_rank(b) && a != b
        && text_le(a, b))
}

/// Component lists in lexicographic order.
pub open spec fn components_le(a: Seq<Seq<char>>, b: Seq<Seq<char>>) -> bool
    decreases a.len(),
{
    if a.len() == 0 {
        true
    } else if b.len() == 0 {
        false
    } else if a[0] != b[0] {
        component_lt(a[0], b[0])
    } else {
        components_le(a.drop_first(), b.drop_first())
    }
}

/// Path `a` comes no later than path `b`, as `Path` orders them: component
/// by component.
pub open spec fn path_le(a: Seq<char>, b: Seq<char>) -> bool {
    components_le(path_components(a), path_components(b))
}

proof fn lemma_component_rank(c: Seq<char>)
    ensures
        component_rank(c) < 3 ==> c == (if component_rank(c) == 0 {
            Seq::<char>::empty()
        } else if component_rank(c) == 1 {
            "."@
        } else {
            ".."@
        }),
{
    if c.len() == 0 {
        assert(c =~= Seq::<char>::empty());
    }
}

proof fn lemma_component_lt_total(a: Seq<char>, b: Seq<char>)
    requires
        a != b,
    ensures
        component_lt(a, b) || component_lt(b, a),
{
    lemma_component_rank(a);
    lemma_component_rank(b);
    lemma_text_le_total(a, b);
}

proof fn lemma_component_lt_trans(a: Seq<char>, b: Seq<char>, c: Seq<char>)
    requires
        component_lt(a, b),
        component_lt(b, c),
    ensures
        component_lt(a, c),
{
    lemma_component_rank(a);
    lemma_component_rank(b);
    lemma_component_rank(c);
    if component_rank(a) == component_rank(b) && component_rank(b) == component_rank(c) {
        lemma_text_le_trans(a, b, c);
        if a == c {
            lemma_text_le_antisym(a, b);
        }
    }
}

proof fn lemma_component_lt_asym(a: Seq<char>, b: Seq<char>)
    requires
        component_lt(a, b),
    ensures
        !component_lt(b, a),
{
    if component_rank(a) == component_rank(b) && component_lt(b, a) {
        lemma_text_le_antisym(a, b);
    }
}

/// Any two component lists are ordered one way or the other.
proof fn lemma_components_le_total(a: Seq<Seq<char>>, b: Seq<Seq<char>>)
    ensures
        components_le(a, b) || components_le(b, a),
    decreases a.len(),
{
    if a.len() > 0 && b.len() > 0 {
        if a[0] != b[0] {
            lemma_component_lt_total(a[0], b[0]);
        } else {
            lemma_components_le_total(a.drop_first(), b.drop_first());
        }
    }
}

proof fn lemma_components_le_refl(a: Seq<Seq<char>>)
    ensures
        components_le(a, a),
    decreases a.len(),
{
    if a.len() > 0 {
        lemma_components_le_refl(a.drop_first());
    }
}

proof fn lemma_components_le_trans(a: Seq<Seq<char>>, b: Seq<Seq<char>>, c: Seq<Seq<char>>)
    requires
        components_le(a, b),
        components_le(b, c),
    ensures
        components_le(a, c),
    decreases a.len(),
{
    if a.len() > 0 && b.len() > 0 && c.len() > 0 {
        if a[0] != b[0] && b[0] != c[0] {
            lemma_component_lt_trans(a[0], b[0], c[0]);
            if a[0] == c[0] {
                lemma_component_lt_asym(a[0], b[0]);
            }
        } else if a[0] == b[0] && b[0] == c[0] {
            lemma_components_le_trans(a.drop_first(), b.drop_first(), c.drop_first());
        }
    }
}

/// Any two paths are ordered one way or the other.
pub proof fn lemma_path_le_total(a: Seq<char>, b: Seq<char>)
    ensures
        path_le(a, b) || path_le(b, a),
{
    lemma_components_le_total(path_components(a), path_components(b));
}

/// Every path comes no later than itself.
pub proof fn lemma_path_le_refl(a: Seq<char>)
    ensures
        path_le(a, a),
{
    lemma_components_le_refl(path_components(a));
}

/// The path order is transitive.
pub proof fn lemma_path_le_trans(a: Seq<char>, b: Seq<char>, c: Seq<char>)
    requires
        path_le(a, b),
        path_le(b, c),
    ensures
        path_le(a, c),
{
    lemma_components_le_trans(path_components(a), path_components(b), path_components(c));
}

proof fn lemma_first_separator_at(s: Seq<char>, k: int)
    requires
        0 <= k < s.len(),
        separator(s[k]),
        forall|j: int| 0 <= j < k ==> !separator(#[trigger] s[j]),
    ensures
        first_separator(s) == k,
    decreases k,
{
    if k > 0 {
        assert(!separator(s[0]));
        assert forall|j: int| 0 <= j < k - 1 implies !separator(#[trigger] s.drop_first()[j]) by {
            assert(s.drop_first()[j] == s[j + 1]);
        }
        lemma_first_separator_at(s.drop_first(), k - 1);
    }
}

proof fn lemma_first_separator_none(s: Seq<char>)
    requires
        forall|j: int| 0 <= j < s.len() ==> !separator(#[trigger] s[j]),
    ensures
        first_separator(s) == s.len(),
    decreases s.len(),
{
    if s.len() > 0 {
        assert(!separator(s[0]));
        assert forall|j: int| 0 <= j < s.len() - 1 implies !separator(#[trigger] s.drop_first()[j]) by {
            assert(s.drop_first()[j] == s[j + 1]);
        }
        lemma_first_separator_none(s.drop_first());
    }
}

/// Whether a segment names a component.
pub open spec fn kept_segment(x: Seq<char>) -> bool {
    !(x.len() == 0 || x == "."@)
}

proof fn lemma_kept_front(x: Seq<char>, rest: Seq<Seq<char>>)
    ensures
        kept_segments(seq![x] + rest) == (if kept_segment(x) {
            seq![x]
        } else {
            Seq::<Seq<char>>::empty()
        }) + kept_segments(rest),
{
    let s = seq![x] + rest;
    assert(s[0] == x);
    assert(s.drop_first() =~= rest);
    if !kept_segment(x) {
        assert(Seq::<Seq<char>>::empty() + kept_segments(rest) =~= kept_segments(rest));
    }
}

fn is_separator_char(c: char) -> (r: bool)
    ensures
        r == separator(c),
{
    c == '/' || c == '\\'
}

fn keeps_segment(x: &[char]) -> (r: bool)
    ensures
        r == kept_segment(x@),
{
    !(x.len() == 0 || crate::text::text_is(x, "."))
}

/// The components of the path `p`.
pub fn components(p: &[char]) -> (r: Vec<Vec<char>>)
    ensures
        crate::text::views(r@) == path_components(p@),
{
    proof {
        reveal_strlit(".");
    }
    let mut out: Vec<Vec<char>> = Vec::new();
    let mut start: usize = 0;
    if p.len() > 0 && is_separator_char(p[0]) {
        out.push(Vec::new());
        start = 1;
    } else if p.len() > 0 && p[0] == '.' && (p.len() == 1 || is_separator_char(p[1])) {
        let mut dot: Vec<char> = Vec::new();
        dot.push('.');
        assert(dot@ =~= "."@);
        out.push(dot);
        start = 1;
    }
    let ghost head = crate::text::views(out@);
    proof {
        if start == 1 {
            assert(p@.skip(1) =~= p@.drop_first());
            if separator(p@[0]) {
                assert(head =~= seq![Seq::<char>::empty()]);
            } else {
                assert(head =~= seq!["."@]);
            }
        } else {
            assert(p@.skip(0) =~= p@);
            assert(head =~= Seq::<Seq<char>>::empty());
            assert(head + kept_segments(segments(p@)) =~= kept_segments(segments(p@)));
        }
        assert(head + kept_segments(segments(p@.skip(start as int))) == path_components(p@));
    }
    let mut seg_start: usize = start;
    let mut j: usize = start;
    while j < p.len()
        invariant
            start <= seg_start <= j <= p.len(),
            forall|k: int| seg_start <= k < j ==> !separator(#[trigger] p@[k]),
            crate::text::views(out@) + kept_segments(segments(p@.skip(seg_start as int))) == path_components(p@),
        decreases p.len() - j,
    {
        if is_separator_char(p[j]) {
            let ghost s2 = p@.skip(seg_start as int);
            proof {
                assert forall|k: int| 0 <= k < j - seg_start implies !separator(#[trigger] s2[k]) by {
                    assert(s2[k] == p@[seg_start + k]);
                }
                assert(s2[j - seg_start] == p@[j as int]);
                lemma_first_separator_at(s2, j - seg_start);
                assert(s2.take(j - seg_start) =~= p@.subrange(seg_start as int, j as int));
                assert(s2.skip(j - seg_start + 1) =~= p@.skip(j + 1));
                lemma_kept_front(p@.subrange(seg_start as int, j as int), segments(p@.skip(j + 1)));
            }
            let seg = crate::text::slice_of(p, seg_start, j);
            let ghost before = crate::text::views(out@);
            if keeps_segment(seg.as_slice()) {
                out.push(seg);
                assert(crate::text::views(out@) =~= before + seq![p@.subrange(seg_start as int, j as int)]);
            } else {
                assert(crate::text::views(out@) =~= before + Seq::<Seq<char>>::empty());
            }
            seg_start = j + 1;
        }
        j = j + 1;
    }
    let ghost last = p@.skip(seg_start as int);
    proof {
        assert forall|k: int| 0 <= k < last.len() implies !separator(#[trigger] last[k]) by {
            assert(last[k] == p@[seg_start + k]);
        }
        lemma_first_separator_none(last);
        assert(segments(last) == seq![last]);
        lemma_kept_front(last, Seq::<Seq<char>>::empty());
        assert(seq![last] + Seq::<Seq<char>>::empty() =~= seq![last]);
    }
    let seg = crate::text::slice_of(p, seg_start, p.len());
    assert(seg@ =~= last);
    let ghost before = crate::text::views(out@);
    if keeps_segment(seg.as_slice()) {
        out.push(seg);
        assert(crate::text::views(out@) =~= before + seq![last]);
    } else {
        assert(crate::text::views(out@) =~= before + Seq::<Seq<char>>::empty());
    }
    out
}

fn component_rank_of(c: &[char]) -> (r: u8)
    ensures
        r as int == component_rank(c@),
{
    if c.len() == 0 {
        0
    } else if crate::text::text_is(c, ".") {
        1
    } else if crate::text::text_is(c, "..") {
        2
    } else {
        3
    }
}

fn components_le_exec(a: &Vec<Vec<char>>, b: &Vec<Vec<char>>) -> (r: bool)
    ensures
        r == components_le(crate::text::views(a@), crate::text::views(b@)),
{
    let ghost va = crate::text::views(a@);
    let ghost vb = crate::text::views(b@);
    let mut i: usize = 0;
    assert(va.skip(0) =~= va);
    assert(vb.skip(0) =~= vb);
    while i < a.len() && i < b.len() && crate::text::same(a[i].as_slice(), b[i].as_slice())
        invariant
            i <= a.len(),
            i <= b.len(),
            va == crate::text::views(a@),
            vb == crate::text::views(b@),
            components_le(va, vb) == components_le(va.skip(i as int), vb.skip(i as int)),
        decreases a.len() - i,
    {
        assert(va.skip(i as int)[0] == a@[i as int]@);
        assert(vb.skip(i as int)[0] == b@[i as int]@);
        assert(va.skip(i as int).drop_first() =~= va.skip(i + 1));
        assert(vb.skip(i as int).drop_first() =~= vb.skip(i + 1));
        i = i + 1;
    }
    if i == a.len() {
        true
    } else if i == b.len() {
        false
    } else {
        assert(va.skip(i as int)[0] == a@[i as int]@);
        assert(vb.skip(i as int)[0] == b@[i as int]@);
        let ra = component_rank_of(a[i].as_slice());
        let rb = component_rank_of(b[i].as_slice());
        if ra != rb {
            ra < rb
        } else {
            le_text(a[i].as_slice(), b[i].as_slice())
        }
    }
}

/// Whether path `a` comes no later than path `b`.
pub fn le_path(a: &str, b: &str) -> (r: bool)
    ensures
        r == path_le(a@, b@),
{
    let ca = components(crate::text::chars_of(a).as_slice());
    let cb = components(crate::text::chars_of(b).as_slice());
    components_le_exec(&ca, &cb)
}

/// Where an insertion that keeps equal items in arrival order puts `x` into
/// `s`: after the leading items of `s` that come no later than `x`.
pub open spec fn insertion_slot<T>(s: Seq<T>, x: T, le: spec_fn(T, T) -> bool) -> int
    decreases s.len(),
{
    if s.len() > 0 && le(s[0], x) {
        1 + insertion_slot(s.drop_first(), x, le)
    } else {
        0
    }
}

/// `s` ordered by `le` as a stable sort orders it: each item, in turn, is
/// placed after the items before it that come no later than it, so items
/// that `le` does not tell apart keep their order.
pub open spec fn stable_sorted<T>(s: Seq<T>, le: spec_fn(T, T) -> bool) -> Seq<T>
    decreases s.len(),
{
    if s.len() == 0 {
        s
    } else {
        let r = stable_sorted(s.drop_last(), le);
        r.insert(insertion_slot(r, s.last(), le), s.last())
    }
}

/// The slot is the first place whose item comes later than `x`.
pub proof fn lemma_insertion_slot<T>(s: Seq<T>, x: T, le: spec_fn(T, T) -> bool, k: int)
    requires
        0 <= k <= s.len(),
        forall|m: int| 0 <= m < k ==> #[trigger] le(s[m], x),
        k < s.len() ==> !le(s[k], x),
    ensures
        insertion_slot(s, x, le) == k,
    decreases k,
{
    if k > 0 {
        assert forall|m: int| 0 <= m < k - 1 implies #[trigger] le(s.drop_first()[m], x) by {
            assert(s.drop_first()[m] == s[m + 1]);
            assert(le(s[m + 1], x));
        }
        if k - 1 < s.len() - 1 {
            assert(s.drop_first()[k - 1] == s[k]);
        }
        assert(le(s[0], x));
        lemma_insertion_slot(s.drop_first(), x, le, k - 1);
    }
}

/// Path order of documents.
pub open spec fn by_path() -> spec_fn(DocumentModel, DocumentModel) -> bool {
    |a: DocumentModel, b: DocumentModel| path_le(a.path, b.path)
}

/// Documents in non-decreasing path order.
pub open spec fn sorted_by_path(docs: Seq<DocumentModel>) -> bool {
    forall|i: int, j: int| 0 <= i < j < docs.len() ==> path_le(docs[i].path, docs[j].path)
}

/// `docs` sorted by path, documents with equal paths in their given order.
pub fn sort_by_path(docs: Vec<Document>) -> (out: Vec<Document>)
    ensures
        doc_views(out@) == stable_sorted(doc_views(docs@), by_path()),
        sorted_by_path(doc_views(out@)),
        doc_views(out@).to_multiset() == doc_views(docs@).to_multiset(),
{
    broadcast use vstd::seq_lib::group_to_multiset_ensures, vstd::multiset::group_multiset_axioms;
    let mut out: Vec<Document> = Vec::new();
    let mut rest = docs;
    let ghost original = doc_views(rest@);
    let ghost n = original.len();
    assert(doc_views(out@).to_multiset() =~= vstd::multiset::Multiset::empty());
    assert(original.take(0) =~= Seq::<DocumentModel>::empty());
    assert(original.skip(0) =~= original);
    while rest.len() > 0
        invariant
            n == original.len(),
            rest.len() <= n,
            doc_views(rest@) == original.skip(n - rest.len()),
            doc_views(out@) == stable_sorted(original.take(n - rest.len()), by_path()),
            sorted_by_path(doc_views(out@)),
            doc_views(out@).to_multiset().add(doc_views(rest@).to_multiset()) == original.to_multiset(),
        decreases rest.len(),
    {
        let ghost before_rest = doc_views(rest@);
        let ghost done = n - rest.len();
        let d = rest.remove(0);
        assert(doc_views(rest@) =~= before_rest.drop_first());
        assert(before_rest[0] == d@);
        assert(before_rest =~= seq![d@] + doc_views(rest@));
        assert(original[done] == d@);
        let mut k: usize = 0;
        while k < out.len() && le_path(out[k].path.as_str(), d.path.as_str())
            invariant
                k <= out.len(),
                forall|m: int| 0 <= m < k ==> path_le(doc_views(out@)[m].path, d@.path),
            decreases out.len() - k,
        {
            assert(doc_views(out@)[k as int] == out@[k as int]@);
            k = k + 1;
        }
        let ghost before = doc_views(out@);
        proof {
            if k < out.len() {
                assert(doc_views(out@)[k as int] == out@[k as int]@);
                lemma_path_le_total(before[k as int].path, d@.path);
            }
            assert forall|m: int| 0 <= m < k implies #[trigger] (by_path())(before[m], d@) by {}
            lemma_insertion_slot(before, d@, by_path(), k as int);
            let t = original.take(done + 1);
            assert(t.drop_last() =~= original.take(done));
            assert(t.last() == d@);
        }
        out.insert(k, d);
        let ghost after = doc_views(out@);
        assert(after =~= before.insert(k as int, d@));
        proof {
            assert forall|i: int, j: int| 0 <= i < j < after.len() implies path_le(after[i].path, after[j].path) by {
                if j < k {
                } else if j == k {
                } else if i == k {
                    if j - 1 > k {
                        lemma_path_le_trans(d@.path, before[k as int].path, before[j - 1].path);
                    }
                } else if i < k {
                    if j - 1 == k {
                        lemma_path_le_trans(before[i].path, d@.path, before[k as int].path);
                    } else {
                    }
                } else {
                }
            }
            assert(before.insert(k as int, d@) =~= before.take(k as int) + seq![d@] + before.skip(k as int));
            assert(before =~= before.take(k as int) + before.skip(k as int));
            vstd::seq_lib::lemma_multiset_commutative(before.take(k as int) + seq![d@], before.skip(k as int));
            vstd::seq_lib::lemma_multiset_commutative(before.take(k as int), seq![d@]);
            vstd::seq_lib::lemma_multiset_commutative(before.take(k as int), before.skip(k as int));
            vstd::seq_lib::lemma_multiset_commutative(seq![d@], doc_views(rest@));
            let mt = before.take(k as int).to_multiset();
            let ms = before.skip(k as int).to_multiset();
            let md = seq![d@].to_multiset();
            assert(after.to_multiset() =~= mt.add(md).add(ms));
            assert(before.to_multiset() =~= mt.add(ms));
            assert(before_rest.to_multiset() =~= md.add(doc_views(rest@).to_multiset()));
            assert(after.to_multiset().add(doc_views(rest@).to_multiset()) =~= before.to_multiset().add(
                before_rest.to_multiset(),
            ));
            assert(doc_views(rest@) =~= original.skip(done + 1));
        }
    }
    assert(doc_views(rest@) =~= Seq::<DocumentModel>::empty());
    assert(original.take(n as int) =~= original);
    out
}

} // verus!
