//! What Tincan reads back from the Markdown it writes for a new decision or
//! learning: the record's identity, classification and lists survive, and
//! its statement becomes the heading.
use vstd::prelude::*;
use crate::text::{lines, terminated, lacks, trim, trim_start, trim_end, is_ws, has_prefix, strip_cr, strs, join,
    lemma_lines_of_terminated};
use crate::util::{escaped, escape_char, quoted};
use crate::model::{Record, Kind, DecisionStatus, kind_name, status_name, field_line, list_items, list_block, bullet_lines, rendered_record};
use crate::lines::{index_of_line, index_of_prefixed, lemma_index_of_line, lemma_index_of_prefixed};

verus! {

// ---------------------------------------------------------------------------
// The rendered text as lines
// ---------------------------------------------------------------------------

/// The frontmatter lines of a list's items.
pub open spec fn item_lines(values: Seq<Seq<char>>) -> Seq<Seq<char>> {
    values.map_values(|v: Seq<char>| "  - "@ + quoted(v))
}

/// A `key: "value"` frontmatter line without its line ending.
pub open spec fn field_text(key: Seq<char>, value: Seq<char>) -> Seq<char> {
    key + ": "@ + quoted(value)
}

/// The frontmatter lines of a list: its key line and its items.
pub open spec fn list_lines(key: Seq<char>, values: Seq<Seq<char>>) -> Seq<Seq<char>> {
    seq![key + ":"@] + item_lines(values)
}

/// The frontmatter lines a record is written with.
pub open spec fn front_lines(r: Record) -> Seq<Seq<char>> {
    seq![field_text("id"@, r.id@), field_text("type"@, kind_name(r.kind))] + (match r.status {
        Some(s) => seq![field_text("status"@, status_name(s))],
        None => Seq::<Seq<char>>::empty(),
    }) + seq![field_text("created_at"@, r.created_at@), field_text("branch"@, r.branch@)]
        + list_lines("files"@, strs(r.files@)) + list_lines("topics"@, strs(r.topics@)) + list_lines(
        "related"@,
        strs(r.related@),
    ) + list_lines("supersedes"@, strs(r.supersedes@)) + seq!["superseded_by:"@]
}

/// What follows the frontmatter of a rendered record.
pub open spec fn record_tail(r: Record) -> Seq<char> {
    "\n# "@ + r.statement@ + "\n\n"@ + (if r.evidence@.len() == 0 {
        Seq::<char>::empty()
    } else {
        "## Evidence\n\n"@ + bullet_lines(strs(r.evidence@))
    })
}

pub(crate) proof fn lemma_terminated_concat(a: Seq<Seq<char>>, b: Seq<Seq<char>>)
    ensures
        terminated(a + b) == terminated(a) + terminated(b),
    decreases a.len(),
{
    if a.len() == 0 {
        assert(a + b =~= b);
    } else {
        lemma_terminated_concat(a.drop_first(), b);
        assert((a + b).drop_first() =~= a.drop_first() + b);
    }
}

pub(crate) proof fn lemma_terminated_one(x: Seq<char>)
    ensures
        terminated(seq![x]) == x + seq!['\n'],
{
    assert(seq![x].drop_first() =~= Seq::<Seq<char>>::empty());
    assert(terminated(Seq::<Seq<char>>::empty()) == Seq::<char>::empty());
    assert(terminated(seq![x]) =~= x + seq!['\n']);
}

proof fn lemma_list_items_terminated(values: Seq<Seq<char>>)
    ensures
        list_items(values) == terminated(item_lines(values)),
    decreases values.len(),
{
    if values.len() > 0 {
        lemma_list_items_terminated(values.drop_last());
        assert(item_lines(values) =~= item_lines(values.drop_last()) + seq![
            "  - "@ + quoted(values.last()),
        ]);
        lemma_terminated_concat(item_lines(values.drop_last()), seq!["  - "@ + quoted(values.last())]);
        lemma_terminated_one("  - "@ + quoted(values.last()));
        reveal_strlit("\n");
        assert(list_items(values) =~= terminated(item_lines(values)));
    } else {
        assert(item_lines(values) =~= Seq::<Seq<char>>::empty());
    }
}

pub(crate) proof fn lemma_list_block_terminated(key: Seq<char>, values: Seq<Seq<char>>)
    ensures
        list_block(key, values) == terminated(list_lines(key, values)),
{
    lemma_list_items_terminated(values);
    lemma_terminated_concat(seq![key + ":"@], item_lines(values));
    lemma_terminated_one(key + ":"@);
    reveal_strlit(":\n");
    reveal_strlit(":");
    assert(list_block(key, values) =~= terminated(list_lines(key, values)));
}

pub(crate) proof fn lemma_field_terminated(key: Seq<char>, value: Seq<char>)
    ensures
        field_line(key, value) == terminated(seq![field_text(key, value)]),
{
    lemma_terminated_one(field_text(key, value));
    reveal_strlit("\n");
    assert(field_line(key, value) =~= field_text(key, value) + seq!['\n']);
}

/// The frontmatter block of a rendered record, up to its last list key.
pub open spec fn front_text(r: Record) -> Seq<char> {
    "---\n"@ + field_line("id"@, r.id@) + field_line("type"@, kind_name(r.kind)) + (match r.status {
        Some(s) => field_line("status"@, status_name(s)),
        None => Seq::<char>::empty(),
    }) + field_line("created_at"@, r.created_at@) + field_line("branch"@, r.branch@) + list_block(
        "files"@,
        strs(r.files@),
    ) + list_block("topics"@, strs(r.topics@)) + list_block("related"@, strs(r.related@))
        + list_block("supersedes"@, strs(r.supersedes@)) + "superseded_by:\n"@
}

proof fn lemma_front_text(r: Record)
    ensures
        terminated(seq!["---"@] + front_lines(r)) == front_text(r),
{
    let st: Seq<Seq<char>> = match r.status {
        Some(s) => seq![field_text("status"@, status_name(s))],
        None => Seq::<Seq<char>>::empty(),
    };
    let st_text: Seq<char> = match r.status {
        Some(s) => field_line("status"@, status_name(s)),
        None => Seq::<char>::empty(),
    };
    match r.status {
        Some(s) => {
            lemma_field_terminated("status"@, status_name(s));
        },
        None => {
            assert(terminated(st) == Seq::<char>::empty());
        },
    }
    assert(terminated(st) == st_text);
    let g0 = seq!["---"@];
    let t0 = "---\n"@;
    lemma_terminated_one("---"@);
    reveal_strlit("---\n");
    reveal_strlit("---");
    assert(terminated(g0) =~= t0);
    let g1 = g0 + seq![field_text("id"@, r.id@)];
    lemma_terminated_concat(g0, seq![field_text("id"@, r.id@)]);
    lemma_field_terminated("id"@, r.id@);
    let t1 = t0 + field_line("id"@, r.id@);
    assert(terminated(g1) == t1);
    let g2 = g1 + seq![field_text("type"@, kind_name(r.kind))];
    lemma_terminated_concat(g1, seq![field_text("type"@, kind_name(r.kind))]);
    lemma_field_terminated("type"@, kind_name(r.kind));
    let t2 = t1 + field_line("type"@, kind_name(r.kind));
    assert(terminated(g2) == t2);
    let g3 = g2 + st;
    lemma_terminated_concat(g2, st);
    let t3 = t2 + st_text;
    assert(terminated(g3) == t3);
    let g4 = g3 + seq![field_text("created_at"@, r.created_at@)];
    lemma_terminated_concat(g3, seq![field_text("created_at"@, r.created_at@)]);
    lemma_field_terminated("created_at"@, r.created_at@);
    let t4 = t3 + field_line("created_at"@, r.created_at@);
    assert(terminated(g4) == t4);
    let g5 = g4 + seq![field_text("branch"@, r.branch@)];
    lemma_terminated_concat(g4, seq![field_text("branch"@, r.branch@)]);
    lemma_field_terminated("branch"@, r.branch@);
    let t5 = t4 + field_line("branch"@, r.branch@);
    assert(terminated(g5) == t5);
    let g6 = g5 + list_lines("files"@, strs(r.files@));
    lemma_terminated_concat(g5, list_lines("files"@, strs(r.files@)));
    lemma_list_block_terminated("files"@, strs(r.files@));
    let t6 = t5 + list_block("files"@, strs(r.files@));
    assert(terminated(g6) == t6);
    let g7 = g6 + list_lines("topics"@, strs(r.topics@));
    lemma_terminated_concat(g6, list_lines("topics"@, strs(r.topics@)));
    lemma_list_block_terminated("topics"@, strs(r.topics@));
    let t7 = t6 + list_block("topics"@, strs(r.topics@));
    assert(terminated(g7) == t7);
    let g8 = g7 + list_lines("related"@, strs(r.related@));
    lemma_terminated_concat(g7, list_lines("related"@, strs(r.related@)));
    lemma_list_block_terminated("related"@, strs(r.related@));
    let t8 = t7 + list_block("related"@, strs(r.related@));
    assert(terminated(g8) == t8);
    let g9 = g8 + list_lines("supersedes"@, strs(r.supersedes@));
    lemma_terminated_concat(g8, list_lines("supersedes"@, strs(r.supersedes@)));
    lemma_list_block_terminated("supersedes"@, strs(r.supersedes@));
    let t9 = t8 + list_block("supersedes"@, strs(r.supersedes@));
    assert(terminated(g9) == t9);
    let g10 = g9 + seq!["superseded_by:"@];
    lemma_terminated_concat(g9, seq!["superseded_by:"@]);
    lemma_terminated_one("superseded_by:"@);
    reveal_strlit("superseded_by:\n");
    reveal_strlit("superseded_by:");
    assert(terminated(seq!["superseded_by:"@]) =~= "superseded_by:\n"@);
    let t10 = t9 + "superseded_by:\n"@;
    assert(terminated(g10) == t10);
    assert(g10 =~= seq!["---"@] + front_lines(r));
    assert(t10 == front_text(r));
}

/// The rendered record is its frontmatter block, as lines, followed by its
/// tail.
proof fn lemma_rendered_shape(r: Record)
    ensures
        rendered_record(r) == terminated(seq!["---"@] + front_lines(r) + seq!["---"@]) + record_tail(r),
{
    lemma_front_text(r);
    lemma_terminated_concat(seq!["---"@] + front_lines(r), seq!["---"@]);
    lemma_terminated_one("---"@);
    let ev: Seq<char> = if r.evidence@.len() == 0 {
        Seq::<char>::empty()
    } else {
        "## Evidence\n\n"@ + bullet_lines(strs(r.evidence@))
    };
    assert(rendered_record(r) == front_text(r) + "---\n\n"@ + "# "@ + r.statement@ + "\n\n"@ + ev);
    reveal_strlit("---\n\n");
    reveal_strlit("---");
    reveal_strlit("\n# ");
    reveal_strlit("# ");
    assert(rendered_record(r) =~= front_text(r) + ("---"@ + seq!['\n']) + record_tail(r));
}

// ---------------------------------------------------------------------------
// Line facts
// ---------------------------------------------------------------------------

pub(crate) proof fn lemma_escaped_single_line(s: Seq<char>)
    ensures
        lacks(escaped(s), '\n'),
    decreases s.len(),
{
    if s.len() > 0 {
        lemma_escaped_single_line(s.drop_first());
        let e = escaped(s);
        let h = escape_char(s[0]);
        assert(e == h + escaped(s.drop_first()));
        assert forall|i: int| 0 <= i < e.len() implies e[i] != '\n' by {
            if i < h.len() {
                assert(e[i] == h[i]);
            } else {
                assert(e[i] == escaped(s.drop_first())[i - h.len()]);
            }
        }
    }
}

pub(crate) proof fn lemma_quoted_shape(v: Seq<char>)
    ensures
        quoted(v).len() >= 2,
        quoted(v)[0] == '"',
        quoted(v).last() == '"',
        lacks(quoted(v), '\n'),
{
    lemma_escaped_single_line(v);
    let q = quoted(v);
    let e = escaped(v);
    assert forall|i: int| 0 <= i < q.len() implies q[i] != '\n' by {
        if 0 < i < q.len() - 1 {
            assert(q[i] == e[i - 1]);
        }
    }
}

/// A frontmatter line: single, not ending in `\r`, and not starting with `-`.
pub open spec fn plain_line(l: Seq<char>) -> bool {
    lacks(l, '\n') && l.len() > 0 && l.last() != '\r' && l[0] != '-'
}

pub(crate) proof fn lemma_prefixed_quoted_plain(p: Seq<char>, v: Seq<char>)
    requires
        p.len() > 0,
        lacks(p, '\n'),
        p[0] != '-',
    ensures
        plain_line(p + quoted(v)),
{
    lemma_quoted_shape(v);
    let l = p + quoted(v);
    assert forall|i: int| 0 <= i < l.len() implies l[i] != '\n' by {
        if i >= p.len() {
            assert(l[i] == quoted(v)[i - p.len()]);
        }
    }
}

proof fn lemma_front_plain(r: Record)
    ensures
        forall|j: int| 0 <= j < front_lines(r).len() ==> plain_line(#[trigger] front_lines(r)[j]),
{
    reveal_strlit("id");
    reveal_strlit("type");
    reveal_strlit("status");
    reveal_strlit("created_at");
    reveal_strlit("branch");
    reveal_strlit(": ");
    reveal_strlit(":");
    reveal_strlit("  - ");
    reveal_strlit("files");
    reveal_strlit("topics");
    reveal_strlit("related");
    reveal_strlit("supersedes");
    reveal_strlit("superseded_by:");
    let f = front_lines(r);
    assert forall|j: int| 0 <= j < f.len() implies plain_line(#[trigger] f[j]) by {
        lemma_fields_plain(r);
        lemma_lists_plain("files"@, strs(r.files@));
        lemma_lists_plain("topics"@, strs(r.topics@));
        lemma_lists_plain("related"@, strs(r.related@));
        lemma_lists_plain("supersedes"@, strs(r.supersedes@));
        assert(plain_line("superseded_by:"@));
        let st: Seq<Seq<char>> = match r.status {
            Some(s) => seq![field_text("status"@, status_name(s))],
            None => Seq::<Seq<char>>::empty(),
        };
        let a = seq![field_text("id"@, r.id@), field_text("type"@, kind_name(r.kind))];
        let b = seq![field_text("created_at"@, r.created_at@), field_text("branch"@, r.branch@)];
        let parts = a + st + b + list_lines("files"@, strs(r.files@)) + list_lines("topics"@, strs(r.topics@))
            + list_lines("related"@, strs(r.related@)) + list_lines("supersedes"@, strs(r.supersedes@))
            + seq!["superseded_by:"@];
        assert(f =~= parts);
        lemma_all_plain_concat(a, st);
        lemma_all_plain_concat(a + st, b);
        lemma_all_plain_concat(a + st + b, list_lines("files"@, strs(r.files@)));
        lemma_all_plain_concat(a + st + b + list_lines("files"@, strs(r.files@)), list_lines("topics"@, strs(r.topics@)));
        lemma_all_plain_concat(a + st + b + list_lines("files"@, strs(r.files@)) + list_lines("topics"@, strs(r.topics@)), list_lines("related"@, strs(r.related@)));
        lemma_all_plain_concat(a + st + b + list_lines("files"@, strs(r.files@)) + list_lines("topics"@, strs(r.topics@)) + list_lines("related"@, strs(r.related@)), list_lines("supersedes"@, strs(r.supersedes@)));
        lemma_all_plain_concat(a + st + b + list_lines("files"@, strs(r.files@)) + list_lines("topics"@, strs(r.topics@)) + list_lines("related"@, strs(r.related@)) + list_lines("supersedes"@, strs(r.supersedes@)), seq!["superseded_by:"@]);
    }
}

/// Every line is a plain frontmatter line.
pub open spec fn all_plain(ls: Seq<Seq<char>>) -> bool {
    forall|j: int| 0 <= j < ls.len() ==> plain_line(#[trigger] ls[j])
}

proof fn lemma_all_plain_concat(a: Seq<Seq<char>>, b: Seq<Seq<char>>)
    requires
        all_plain(a),
        all_plain(b),
    ensures
        all_plain(a + b),
{
    assert forall|j: int| 0 <= j < (a + b).len() implies plain_line(#[trigger] (a + b)[j]) by {
        if j < a.len() {
            assert((a + b)[j] == a[j]);
        } else {
            assert((a + b)[j] == b[j - a.len()]);
        }
    }
}

proof fn lemma_fields_plain(r: Record)
    ensures
        all_plain(seq![field_text("id"@, r.id@), field_text("type"@, kind_name(r.kind))]),
        all_plain(seq![field_text("created_at"@, r.created_at@), field_text("branch"@, r.branch@)]),
        all_plain(match r.status {
            Some(s) => seq![field_text("status"@, status_name(s))],
            None => Seq::<Seq<char>>::empty(),
        }),
{
    reveal_strlit("id");
    reveal_strlit("type");
    reveal_strlit("status");
    reveal_strlit("created_at");
    reveal_strlit("branch");
    reveal_strlit(": ");
    lemma_prefixed_quoted_plain("id"@ + ": "@, r.id@);
    lemma_prefixed_quoted_plain("type"@ + ": "@, kind_name(r.kind));
    lemma_prefixed_quoted_plain("created_at"@ + ": "@, r.created_at@);
    lemma_prefixed_quoted_plain("branch"@ + ": "@, r.branch@);
    match r.status {
        Some(s) => {
            lemma_prefixed_quoted_plain("status"@ + ": "@, status_name(s));
        },
        None => {},
    }
}

proof fn lemma_lists_plain(key: Seq<char>, vs: Seq<Seq<char>>)
    requires
        key.len() > 0,
        lacks(key, '\n'),
        key[0] != '-',
    ensures
        all_plain(list_lines(key, vs)),
{
    reveal_strlit(":");
    reveal_strlit("  - ");
    let k = key + ":"@;
    assert forall|i: int| 0 <= i < k.len() implies k[i] != '\n' by {
        if i < key.len() {
            assert(k[i] == key[i]);
        }
    }
    assert(plain_line(k));
    let items = item_lines(vs);
    assert forall|j: int| 0 <= j < items.len() implies plain_line(#[trigger] items[j]) by {
        lemma_prefixed_quoted_plain("  - "@, vs[j]);
    }
    lemma_all_plain_concat(seq![k], items);
}

// ---------------------------------------------------------------------------
// The frontmatter read back
// ---------------------------------------------------------------------------

pub(crate) proof fn lemma_terminated_ends(ls: Seq<Seq<char>>)
    requires
        ls.len() > 0,
    ensures
        terminated(ls).len() > 0 && terminated(ls).last() == '\n',
{
    lemma_terminated_concat(ls.drop_last(), seq![ls.last()]);
    lemma_terminated_one(ls.last());
    assert(ls =~= ls.drop_last() + seq![ls.last()]);
}

/// The lines of a rendered record: the frontmatter block, then the lines of
/// its tail.
proof fn lemma_rendered_lines(r: Record)
    ensures
        lines(rendered_record(r)) == seq!["---"@] + front_lines(r) + seq!["---"@] + lines(record_tail(r)),
{
    lemma_rendered_shape(r);
    lemma_front_plain(r);
    let f = seq!["---"@] + front_lines(r) + seq!["---"@];
    reveal_strlit("---");
    assert forall|i: int| 0 <= i < f.len() implies lacks(#[trigger] f[i], '\n') && !(f[i].len() > 0
        && f[i].last() == '\r') by {
        if 0 < i < f.len() - 1 {
            assert(f[i] == front_lines(r)[i - 1]);
        }
    }
    lemma_lines_of_terminated(f);
    lemma_terminated_ends(f);
    crate::store::lemma_lines_append(terminated(f), record_tail(r));
}

pub(crate) proof fn lemma_line_index_at(ls: Seq<Seq<char>>, m: Seq<char>, k: int)
    requires
        0 <= k < ls.len(),
        ls[k] == m,
        forall|j: int| 0 <= j < k ==> #[trigger] ls[j] != m,
    ensures
        index_of_line(ls, m) == k,
{
    lemma_index_of_line(ls, m);
}

pub(crate) proof fn lemma_prefix_index_at(ls: Seq<Seq<char>>, p: Seq<char>, k: int)
    requires
        0 <= k < ls.len(),
        has_prefix(ls[k], p),
        forall|j: int| 0 <= j < k ==> !has_prefix(#[trigger] ls[j], p),
    ensures
        index_of_prefixed(ls, p) == k,
{
    lemma_index_of_prefixed(ls, p);
}

proof fn lemma_prefix_absent(ls: Seq<Seq<char>>, p: Seq<char>)
    requires
        forall|j: int| 0 <= j < ls.len() ==> !has_prefix(#[trigger] ls[j], p),
    ensures
        index_of_prefixed(ls, p) == ls.len(),
{
    lemma_index_of_prefixed(ls, p);
}

/// The frontmatter of a rendered record is exactly its frontmatter lines.
proof fn lemma_rendered_frontmatter(r: Record)
    ensures
        crate::frontmatter::fm_lines(rendered_record(r)) == front_lines(r),
        crate::frontmatter::body_of(rendered_record(r)) == join(lines(record_tail(r)), "\n"@),
{
    lemma_rendered_lines(r);
    lemma_front_plain(r);
    reveal_strlit("---");
    let f = front_lines(r);
    let ls = lines(rendered_record(r));
    let rest = ls.drop_first();
    assert(rest =~= f + seq!["---"@] + lines(record_tail(r)));
    assert forall|j: int| 0 <= j < f.len() implies #[trigger] rest[j] != "---"@ by {
        assert(rest[j] == f[j]);
        assert(f[j][0] != '-');
    }
    lemma_line_index_at(rest, "---"@, f.len() as int);
    assert(rest.take(f.len() as int) =~= f);
    assert(rest.skip(f.len() as int + 1) =~= lines(record_tail(r)));
}

/// How many status lines a record's frontmatter has.
pub open spec fn status_lines(r: Record) -> int {
    if r.status is Some {
        1
    } else {
        0
    }
}

/// Where the `files:` line of a record's frontmatter stands.
pub open spec fn at_files(r: Record) -> int {
    4 + status_lines(r)
}

/// Where the `topics:` line stands.
pub open spec fn at_topics(r: Record) -> int {
    at_files(r) + 1 + r.files@.len()
}

/// Where the `related:` line stands.
pub open spec fn at_related(r: Record) -> int {
    at_topics(r) + 1 + r.topics@.len()
}

/// Where the `supersedes:` line stands.
pub open spec fn at_supersedes(r: Record) -> int {
    at_related(r) + 1 + r.related@.len()
}

/// Where the `superseded_by:` line stands.
pub open spec fn at_superseded_by(r: Record) -> int {
    at_supersedes(r) + 1 + r.supersedes@.len()
}

proof fn lemma_item_lines_len(vs: Seq<Seq<char>>)
    ensures
        item_lines(vs).len() == vs.len(),
        forall|i: int| 0 <= i < vs.len() ==> #[trigger] item_lines(vs)[i] == "  - "@ + quoted(vs[i]),
{
}

#[verifier::spinoff_prover]
#[verifier::rlimit(60)]
proof fn lemma_front_positions(r: Record)
    ensures
        front_lines(r).len() == at_superseded_by(r) + 1,
        front_lines(r)[0] == field_text("id"@, r.id@),
        front_lines(r)[1] == field_text("type"@, kind_name(r.kind)),
        r.status is Some ==> front_lines(r)[2] == field_text("status"@, status_name(r.status->0)),
        front_lines(r)[2 + status_lines(r)] == field_text("created_at"@, r.created_at@),
        front_lines(r)[3 + status_lines(r)] == field_text("branch"@, r.branch@),
        front_lines(r)[at_files(r)] == "files"@ + ":"@,
        front_lines(r)[at_topics(r)] == "topics"@ + ":"@,
        front_lines(r)[at_related(r)] == "related"@ + ":"@,
        front_lines(r)[at_supersedes(r)] == "supersedes"@ + ":"@,
        front_lines(r)[at_superseded_by(r)] == "superseded_by:"@,
        front_lines(r).skip(at_files(r) + 1) == item_lines(strs(r.files@)) + front_lines(r).skip(at_topics(r)),
        front_lines(r).skip(at_topics(r) + 1) == item_lines(strs(r.topics@)) + front_lines(r).skip(at_related(r)),
        front_lines(r).skip(at_related(r) + 1) == item_lines(strs(r.related@)) + front_lines(r).skip(at_supersedes(r)),
        front_lines(r).skip(at_supersedes(r) + 1) == item_lines(strs(r.supersedes@)) + front_lines(r).skip(at_superseded_by(r)),
        forall|j: int| at_files(r) < j < at_topics(r) ==> has_prefix(#[trigger] front_lines(r)[j], "  - "@),
        forall|j: int| at_topics(r) < j < at_related(r) ==> has_prefix(#[trigger] front_lines(r)[j], "  - "@),
        forall|j: int| at_related(r) < j < at_supersedes(r) ==> has_prefix(#[trigger] front_lines(r)[j], "  - "@),
        forall|j: int| at_supersedes(r) < j < at_superseded_by(r) ==> has_prefix(#[trigger] front_lines(r)[j], "  - "@),
{
    let st: Seq<Seq<char>> = match r.status {
        Some(s) => seq![field_text("status"@, status_name(s))],
        None => Seq::<Seq<char>>::empty(),
    };
    let a = seq![field_text("id"@, r.id@), field_text("type"@, kind_name(r.kind))];
    let b = seq![field_text("created_at"@, r.created_at@), field_text("branch"@, r.branch@)];
    let lf = list_lines("files"@, strs(r.files@));
    let lt = list_lines("topics"@, strs(r.topics@));
    let lr = list_lines("related"@, strs(r.related@));
    let lsup = list_lines("supersedes"@, strs(r.supersedes@));
    let c = seq!["superseded_by:"@];
    let f = front_lines(r);
    lemma_item_lines_len(strs(r.files@));
    lemma_item_lines_len(strs(r.topics@));
    lemma_item_lines_len(strs(r.related@));
    lemma_item_lines_len(strs(r.supersedes@));
    assert(f =~= a + st + b + lf + lt + lr + lsup + c);
    let p0 = a + st + b;
    assert(p0.len() == at_files(r));
    assert(f.skip(at_files(r)) =~= lf + lt + lr + lsup + c);
    assert(f.skip(at_topics(r)) =~= lt + lr + lsup + c);
    assert(f.skip(at_related(r)) =~= lr + lsup + c);
    assert(f.skip(at_supersedes(r)) =~= lsup + c);
    assert(f.skip(at_superseded_by(r)) =~= c);
    assert(f.skip(at_files(r) + 1) =~= item_lines(strs(r.files@)) + f.skip(at_topics(r)));
    assert(f.skip(at_topics(r) + 1) =~= item_lines(strs(r.topics@)) + f.skip(at_related(r)));
    assert(f.skip(at_related(r) + 1) =~= item_lines(strs(r.related@)) + f.skip(at_supersedes(r)));
    assert(f.skip(at_supersedes(r) + 1) =~= item_lines(strs(r.supersedes@)) + f.skip(at_superseded_by(r)));
    assert(f[at_files(r)] == f.skip(at_files(r))[0]);
    assert(f[at_topics(r)] == f.skip(at_topics(r))[0]);
    assert(f[at_related(r)] == f.skip(at_related(r))[0]);
    assert(f[at_supersedes(r)] == f.skip(at_supersedes(r))[0]);
    assert(f[at_superseded_by(r)] == f.skip(at_superseded_by(r))[0]);
    reveal_strlit("  - ");
    assert forall|j: int| at_files(r) < j < at_topics(r) implies has_prefix(#[trigger] f[j], "  - "@) by {
        assert(f[j] == f.skip(at_files(r) + 1)[j - at_files(r) - 1]);
        let v = strs(r.files@)[j - at_files(r) - 1];
        assert(("  - "@ + quoted(v)).take(4) =~= "  - "@);
    }
    assert forall|j: int| at_topics(r) < j < at_related(r) implies has_prefix(#[trigger] f[j], "  - "@) by {
        assert(f[j] == f.skip(at_topics(r) + 1)[j - at_topics(r) - 1]);
        let v = strs(r.topics@)[j - at_topics(r) - 1];
        assert(("  - "@ + quoted(v)).take(4) =~= "  - "@);
    }
    assert forall|j: int| at_related(r) < j < at_supersedes(r) implies has_prefix(#[trigger] f[j], "  - "@) by {
        assert(f[j] == f.skip(at_related(r) + 1)[j - at_related(r) - 1]);
        let v = strs(r.related@)[j - at_related(r) - 1];
        assert(("  - "@ + quoted(v)).take(4) =~= "  - "@);
    }
    assert forall|j: int| at_supersedes(r) < j < at_superseded_by(r) implies has_prefix(#[trigger] f[j], "  - "@) by {
        assert(f[j] == f.skip(at_supersedes(r) + 1)[j - at_supersedes(r) - 1]);
        let v = strs(r.supersedes@)[j - at_supersedes(r) - 1];
        assert(("  - "@ + quoted(v)).take(4) =~= "  - "@);
    }
}

// ---------------------------------------------------------------------------
// Values read back
// ---------------------------------------------------------------------------

pub(crate) proof fn lemma_trim_quoted(v: Seq<char>)
    ensures
        trim(quoted(v)) == quoted(v),
        trim(seq![' '] + quoted(v)) == quoted(v),
{
    lemma_quoted_shape(v);
    let q = quoted(v);
    assert(!is_ws(q[0]));
    assert(!is_ws(q.last()));
    assert(trim_start(q) == q);
    let sq = seq![' '] + q;
    assert(sq.drop_first() =~= q);
    assert(trim_start(sq) == trim_start(q));
    assert(trim_end(q) == q);
}

pub(crate) proof fn lemma_field_value(key: Seq<char>, v: Seq<char>)
    requires
        lacks(v, '\n'),
    ensures
        has_prefix(field_text(key, v), key + ":"@),
        crate::frontmatter::unquoted(trim(field_text(key, v).skip((key + ":"@).len() as int))) == v,
{
    reveal_strlit(": ");
    reveal_strlit(":");
    let l = field_text(key, v);
    let p = key + ":"@;
    assert(l.take(p.len() as int) =~= p);
    assert(l.skip(p.len() as int) =~= seq![' '] + quoted(v));
    lemma_trim_quoted(v);
    crate::frontmatter::lemma_unquote_quoted(v);
}

/// Every value of a list is a single line.
pub open spec fn single_lines(vs: Seq<Seq<char>>) -> bool {
    forall|i: int| 0 <= i < vs.len() ==> lacks(#[trigger] vs[i], '\n')
}

proof fn lemma_items_after(vs: Seq<Seq<char>>, rest: Seq<Seq<char>>, marker: Seq<char>)
    requires
        single_lines(vs),
        rest.len() == 0 || (rest[0] != marker && !has_prefix(rest[0], "  - "@)),
        marker.len() > 0,
        marker[0] != ' ',
    ensures
        crate::frontmatter::list_items_after(item_lines(vs) + rest, marker) == vs,
    decreases vs.len(),
{
    reveal_strlit("  - ");
    let ls = item_lines(vs) + rest;
    if vs.len() == 0 {
        assert(ls =~= rest);
        if rest.len() > 0 {
            assert(crate::frontmatter::list_items_after(rest, marker) =~= Seq::<Seq<char>>::empty());
        }
    } else {
        let v = vs[0];
        let l = "  - "@ + quoted(v);
        assert(ls[0] == l);
        assert(l[0] == ' ');
        assert(l != marker);
        assert(l.take(4) =~= "  - "@);
        assert(l.skip(4) =~= quoted(v));
        lemma_trim_quoted(v);
        crate::frontmatter::lemma_unquote_quoted(v);
        assert(ls.drop_first() =~= item_lines(vs.drop_first()) + rest);
        assert(single_lines(vs.drop_first())) by {
            assert forall|i: int| 0 <= i < vs.drop_first().len() implies lacks(#[trigger] vs.drop_first()[i], '\n') by {
                assert(vs.drop_first()[i] == vs[i + 1]);
            }
        }
        lemma_items_after(vs.drop_first(), rest, marker);
        assert(seq![v] + vs.drop_first() =~= vs);
    }
}

pub(crate) proof fn lemma_differs_at(l: Seq<char>, p: Seq<char>, i: int)
    requires
        0 <= i < l.len(),
        i < p.len(),
        l[i] != p[i],
    ensures
        !has_prefix(l, p),
        l != p,
{
    if has_prefix(l, p) {
        assert(l.take(p.len() as int)[i] == l[i]);
    }
}

// ---------------------------------------------------------------------------
// The heading read back
// ---------------------------------------------------------------------------

proof fn lemma_trim_start_drop_last(s: Seq<char>)
    requires
        trim_start(s).len() > 0,
    ensures
        trim_start(s.drop_last()) == trim_start(s).drop_last(),
    decreases s.len(),
{
    if s.len() > 0 && is_ws(s[0]) {
        if s.len() == 1 {
            assert(trim_start(s.drop_first()) == s.drop_first());
        } else {
            lemma_trim_start_drop_last(s.drop_first());
            assert(s.drop_last().drop_first() =~= s.drop_first().drop_last());
            assert(s.drop_last()[0] == s[0]);
        }
    } else {
        if s.len() >= 2 {
            assert(s.drop_last()[0] == s[0]);
        } else {
            assert(s.drop_last().len() == 0);
        }
    }
}

proof fn lemma_trim_start_all_ws(s: Seq<char>)
    requires
        s.len() > 0,
        trim_start(s).len() == 0,
    ensures
        trim_start(s.drop_last()).len() == 0,
    decreases s.len(),
{
    if s.len() > 1 {
        assert(is_ws(s[0]));
        lemma_trim_start_all_ws(s.drop_first());
        assert(s.drop_last().drop_first() =~= s.drop_first().drop_last());
        assert(s.drop_last()[0] == s[0]);
    } else {
        assert(s.drop_last().len() == 0);
        assert(trim_start(s.drop_last()) == s.drop_last());
    }
}

proof fn lemma_trim_drop_ws(s: Seq<char>)
    requires
        s.len() > 0,
        is_ws(s.last()),
    ensures
        trim(s.drop_last()) == trim(s),
{
    if trim_start(s).len() > 0 {
        lemma_trim_start_drop_last(s);
        crate::store::lemma_trim_start_len(s);
        assert(trim_start(s).last() == s.last());
    } else {
        lemma_trim_start_all_ws(s);
        assert(trim_end(Seq::<char>::empty()) == Seq::<char>::empty());
        assert(trim_start(s) =~= Seq::<char>::empty());
        assert(trim_start(s.drop_last()) =~= Seq::<char>::empty());
    }
}

proof fn lemma_trim_strip_cr(s: Seq<char>)
    ensures
        trim(strip_cr(s)) == trim(s),
{
    if s.len() > 0 && s.last() == '\r' {
        lemma_trim_drop_ws(s);
    }
}

pub(crate) proof fn lemma_join_concat(p: Seq<Seq<char>>, q: Seq<Seq<char>>, sep: Seq<char>)
    requires
        p.len() > 0,
        q.len() > 0,
    ensures
        join(p + q, sep) == join(p, sep) + sep + join(q, sep),
    decreases q.len(),
{
    if q.len() == 1 {
        assert((p + q).drop_last() =~= p);
        assert((p + q).last() == q[0]);
    } else {
        lemma_join_concat(p, q.drop_last(), sep);
        assert((p + q).drop_last() =~= p + q.drop_last());
        assert((p + q).last() == q.last());
        assert(join(p + q, sep) =~= join(p, sep) + sep + join(q, sep));
    }
}

proof fn lemma_prefix_strip_cr(s: Seq<char>)
    ensures
        strip_cr("# "@ + s) == "# "@ + strip_cr(s),
{
    reveal_strlit("# ");
    if s.len() > 0 && s.last() == '\r' {
        assert(("# "@ + s).drop_last() =~= "# "@ + s.drop_last());
    }
}

proof fn lemma_lines_single(x: Seq<char>, rest: Seq<char>)
    requires
        lacks(x, '\n'),
    ensures
        lines(x + "\n"@ + rest) == seq![strip_cr(x)] + lines(rest),
{
    reveal_strlit("\n");
    let s = x + "\n"@ + rest;
    assert(s[x.len() as int] == '\n');
    assert forall|k: int| 0 <= k < x.len() implies s[k] != '\n' by {
        assert(s[k] == x[k]);
    }
    crate::text::lemma_lines_step(s, 0, x.len() as int);
    assert(s.skip(0) =~= s);
    assert(s.subrange(0, x.len() as int) =~= x);
    assert(s.skip(x.len() as int + 1) =~= rest);
}

/// A rendered record's heading is its statement, trimmed.
#[verifier::spinoff_prover]
#[verifier::rlimit(40)]
proof fn lemma_tail_heading(r: Record)
    requires
        lacks(r.statement@, '\n'),
        trim(r.statement@).len() > 0,
    ensures
        crate::frontmatter::heading_of(join(lines(record_tail(r)), "\n"@)) == Some(trim(r.statement@)),
{
    reveal_strlit("\n# ");
    reveal_strlit("# ");
    reveal_strlit("\n\n");
    reveal_strlit("\n");
    let st = r.statement@;
    let ev: Seq<char> = if r.evidence@.len() == 0 {
        Seq::<char>::empty()
    } else {
        "## Evidence\n\n"@ + bullet_lines(strs(r.evidence@))
    };
    let h = "# "@ + st;
    assert(lacks(h, '\n')) by {
        assert forall|k: int| 0 <= k < h.len() implies h[k] != '\n' by {
            if k >= 2 {
                assert(h[k] == st[k - 2]);
            }
        }
    }
    let tail = record_tail(r);
    assert(tail =~= Seq::<char>::empty() + "\n"@ + (h + "\n"@ + ("\n"@ + ev)));
    lemma_lines_single(Seq::<char>::empty(), h + "\n"@ + ("\n"@ + ev));
    lemma_lines_single(h, "\n"@ + ev);
    assert(strip_cr(Seq::<char>::empty()) =~= Seq::<char>::empty());
    let x = strip_cr(h);
    let m = lines("\n"@ + ev);
    assert(lines(tail) =~= seq![Seq::<char>::empty(), x] + m);
    lemma_prefix_strip_cr(st);
    assert(lacks(x, '\n')) by {
        assert forall|k: int| 0 <= k < x.len() implies x[k] != '\n' by {
            assert(x[k] == h[k]);
        }
    }
    let pre = seq![Seq::<char>::empty(), x];
    assert(join(pre, "\n"@) =~= "\n"@ + x) by {
        assert(pre.drop_last() =~= seq![Seq::<char>::empty()]);
        assert(join(seq![Seq::<char>::empty()], "\n"@) == Seq::<char>::empty());
    }
    let body = join(pre + m, "\n"@);
    let w: Seq<char> = if m.len() > 0 {
        lemma_join_concat(pre, m, "\n"@);
        "\n"@ + join(m, "\n"@)
    } else {
        assert(pre + m =~= pre);
        Seq::<char>::empty()
    };
    assert(body =~= "\n"@ + x + w);
    assert(body =~= Seq::<char>::empty() + "\n"@ + (x + w));
    lemma_lines_single(Seq::<char>::empty(), x + w);
    let y: Seq<char> = if m.len() > 0 {
        assert(x + w =~= x + "\n"@ + join(m, "\n"@));
        lemma_lines_single(x, join(m, "\n"@));
        strip_cr(x)
    } else {
        assert(x + w =~= x);
        crate::text::lemma_lines_last(x);
        x
    };
    let ls = lines(body);
    assert(ls[0] == Seq::<char>::empty());
    assert(ls[1] == y);
    let z: Seq<char> = if m.len() > 0 { strip_cr(strip_cr(st)) } else { strip_cr(st) };
    if m.len() > 0 {
        lemma_prefix_strip_cr(strip_cr(st));
    }
    assert(y == "# "@ + z);
    assert(y.take(2) =~= "# "@);
    assert(y.skip(2) =~= z);
    lemma_trim_strip_cr(st);
    lemma_trim_strip_cr(strip_cr(st));
    assert(trim(z) == trim(st));
    assert(!has_prefix(ls[0], "# "@));
    lemma_prefix_index_at(ls, "# "@, 1);
}

// ---------------------------------------------------------------------------
// Where each key is found
// ---------------------------------------------------------------------------

/// The first characters of the frontmatter lines: each line is known by its
/// position, and list items start with a space.
proof fn lemma_line_heads(r: Record)
    ensures
        ({
            let f = front_lines(r);
            let ns = status_lines(r);
            &&& f[0].len() >= 2 && f[0][0] == 'i' && f[0][1] == 'd'
            &&& f[1].len() >= 2 && f[1][0] == 't' && f[1][1] == 'y'
            &&& (ns == 1 ==> f[2].len() >= 2 && f[2][0] == 's' && f[2][1] == 't')
            &&& f[2 + ns].len() >= 2 && f[2 + ns][0] == 'c'
            &&& f[3 + ns].len() >= 2 && f[3 + ns][0] == 'b'
            &&& f[at_files(r)] =~= "files:"@
            &&& f[at_topics(r)] =~= "topics:"@
            &&& f[at_related(r)] =~= "related:"@
            &&& f[at_supersedes(r)] =~= "supersedes:"@
            &&& f[at_superseded_by(r)] =~= "superseded_by:"@
            &&& forall|j: int| at_files(r) < j < at_topics(r) ==> (#[trigger] f[j]).len() > 0 && f[j][0] == ' '
            &&& forall|j: int| at_topics(r) < j < at_related(r) ==> (#[trigger] f[j]).len() > 0 && f[j][0] == ' '
            &&& forall|j: int| at_related(r) < j < at_supersedes(r) ==> (#[trigger] f[j]).len() > 0 && f[j][0] == ' '
            &&& forall|j: int| at_supersedes(r) < j < at_superseded_by(r) ==> (#[trigger] f[j]).len() > 0 && f[j][0] == ' '
        }),
{
    lemma_front_positions(r);
    let f = front_lines(r);
    reveal_strlit("id");
    reveal_strlit("type");
    reveal_strlit("status");
    reveal_strlit("created_at");
    reveal_strlit("branch");
    reveal_strlit(": ");
    reveal_strlit(":");
    reveal_strlit("files");
    reveal_strlit("topics");
    reveal_strlit("related");
    reveal_strlit("supersedes");
    reveal_strlit("superseded_by:");
    reveal_strlit("files:");
    reveal_strlit("topics:");
    reveal_strlit("related:");
    reveal_strlit("supersedes:");
    reveal_strlit("  - ");
    assert forall|j: int| at_files(r) < j < at_topics(r) implies (#[trigger] f[j]).len() > 0 && f[j][0] == ' ' by {
        assert(f[j].take(4)[0] == f[j][0]);
    }
    assert forall|j: int| at_topics(r) < j < at_related(r) implies (#[trigger] f[j]).len() > 0 && f[j][0] == ' ' by {
        assert(f[j].take(4)[0] == f[j][0]);
    }
    assert forall|j: int| at_related(r) < j < at_supersedes(r) implies (#[trigger] f[j]).len() > 0 && f[j][0] == ' ' by {
        assert(f[j].take(4)[0] == f[j][0]);
    }
    assert forall|j: int| at_supersedes(r) < j < at_superseded_by(r) implies (#[trigger] f[j]).len() > 0 && f[j][0] == ' ' by {
        assert(f[j].take(4)[0] == f[j][0]);
    }
}

/// Where the frontmatter of a record holds the value of `key`, and no
/// earlier line starts with `key:`.
proof fn lemma_scalar_at(r: Record, key: Seq<char>, k: int, v: Seq<char>)
    requires
        0 <= k < front_lines(r).len(),
        front_lines(r)[k] == field_text(key, v),
        lacks(v, '\n'),
        forall|j: int| 0 <= j < k ==> !has_prefix(#[trigger] front_lines(r)[j], key + ":"@),
    ensures
        crate::frontmatter::scalar_value(rendered_record(r), key) == Some(v),
{
    lemma_rendered_frontmatter(r);
    lemma_field_value(key, v);
    lemma_prefix_index_at(front_lines(r), key + ":"@, k);
}

/// A key that no frontmatter line starts with has no value.
proof fn lemma_scalar_absent(r: Record, key: Seq<char>)
    requires
        forall|j: int| 0 <= j < front_lines(r).len() ==> !has_prefix(#[trigger] front_lines(r)[j], key + ":"@),
    ensures
        crate::frontmatter::scalar_value(rendered_record(r), key) is None,
{
    lemma_rendered_frontmatter(r);
    lemma_prefix_absent(front_lines(r), key + ":"@);
}

/// A list read back from the frontmatter.
proof fn lemma_list_at(r: Record, key: Seq<char>, k: int, next: int, vs: Seq<Seq<char>>)
    requires
        0 <= k < next <= front_lines(r).len(),
        front_lines(r)[k] == key + ":"@,
        key.len() > 0,
        key[0] != ' ',
        forall|j: int| 0 <= j < k ==> #[trigger] front_lines(r)[j] != key + ":"@,
        front_lines(r).skip(k + 1) == item_lines(vs) + front_lines(r).skip(next),
        next < front_lines(r).len() ==> front_lines(r)[next] != key + ":"@ && !has_prefix(
            front_lines(r)[next],
            "  - "@,
        ),
        single_lines(vs),
    ensures
        crate::frontmatter::list_value(rendered_record(r), key) == vs,
{
    lemma_rendered_frontmatter(r);
    lemma_line_index_at(front_lines(r), key + ":"@, k);
    reveal_strlit(":");
    let rest = front_lines(r).skip(next);
    if next < front_lines(r).len() {
        assert(rest[0] == front_lines(r)[next]);
    }
    lemma_items_after(vs, rest, key + ":"@);
}

/// No frontmatter line of a record starts with `p` when `p` starts with an
/// `s` followed by neither `t` nor `u`, and, without a status, when it
/// starts with `st`.
proof fn lemma_s_key_absent(r: Record, p: Seq<char>)
    requires
        p.len() >= 2,
        p[0] == 's',
        p[1] != 'u',
        p[1] != 't' || r.status is None,
    ensures
        forall|j: int| 0 <= j < front_lines(r).len() ==> !has_prefix(#[trigger] front_lines(r)[j], p),
{
    lemma_line_heads(r);
    lemma_front_positions(r);
    let f = front_lines(r);
    reveal_strlit("files:");
    reveal_strlit("topics:");
    reveal_strlit("related:");
    reveal_strlit("supersedes:");
    reveal_strlit("superseded_by:");
    assert forall|j: int| 0 <= j < f.len() implies !has_prefix(#[trigger] f[j], p) by {
        if j == 2 && r.status is Some {
            lemma_differs_at(f[j], p, 1);
        } else if j == at_supersedes(r) || j == at_superseded_by(r) {
            lemma_differs_at(f[j], p, 1);
        } else {
            lemma_differs_at(f[j], p, 0);
        }
    }
}

/// The kind and status names are single lines.
proof fn lemma_names_single(r: Record)
    ensures
        lacks(kind_name(r.kind), '\n'),
        r.status is Some ==> lacks(status_name(r.status->0), '\n'),
{
    reveal_strlit("decision");
    reveal_strlit("learning");
    reveal_strlit("journal");
    reveal_strlit("active");
    reveal_strlit("superseded");
}

/// The frontmatter values of a rendered record, read back.
#[verifier::spinoff_prover]
proof fn lemma_record_values(r: Record)
    requires
        lacks(r.id@, '\n'),
        lacks(r.created_at@, '\n'),
        single_lines(strs(r.files@)),
        single_lines(strs(r.topics@)),
        single_lines(strs(r.related@)),
        single_lines(strs(r.supersedes@)),
    ensures
        crate::frontmatter::scalar_value(rendered_record(r), "id"@) == Some(r.id@),
        crate::frontmatter::scalar_value(rendered_record(r), "type"@) == Some(kind_name(r.kind)),
        crate::frontmatter::scalar_value(rendered_record(r), "status"@) == (match r.status {
            Some(s) => Some(status_name(s)),
            None => None,
        }),
        crate::frontmatter::scalar_value(rendered_record(r), "created_at"@) == Some(r.created_at@),
        crate::frontmatter::scalar_value(rendered_record(r), "source_record"@) is None,
        crate::frontmatter::list_value(rendered_record(r), "files"@) == strs(r.files@),
        crate::frontmatter::list_value(rendered_record(r), "topics"@) == strs(r.topics@),
        crate::frontmatter::list_value(rendered_record(r), "related"@) == strs(r.related@),
        crate::frontmatter::list_value(rendered_record(r), "supersedes"@) == strs(r.supersedes@),
        crate::frontmatter::list_value(rendered_record(r), "superseded_by"@) == Seq::<Seq<char>>::empty(),
{
    let text = rendered_record(r);
    let f = front_lines(r);
    let ns = status_lines(r);
    lemma_front_positions(r);
    lemma_line_heads(r);
    lemma_names_single(r);
    reveal_strlit("id");
    reveal_strlit("type");
    reveal_strlit("status");
    reveal_strlit("created_at");
    reveal_strlit("source_record");
    reveal_strlit("files");
    reveal_strlit("topics");
    reveal_strlit("related");
    reveal_strlit("supersedes");
    reveal_strlit("superseded_by");
    reveal_strlit(":");
    reveal_strlit("  - ");
    reveal_strlit("files:");
    reveal_strlit("topics:");
    reveal_strlit("related:");
    reveal_strlit("supersedes:");
    reveal_strlit("superseded_by:");
    // id
    lemma_scalar_at(r, "id"@, 0, r.id@);
    // type
    assert forall|j: int| 0 <= j < 1 implies !has_prefix(#[trigger] f[j], "type"@ + ":"@) by {
        lemma_differs_at(f[j], "type"@ + ":"@, 0);
    }
    lemma_scalar_at(r, "type"@, 1, kind_name(r.kind));
    // status
    match r.status {
        Some(st) => {
            assert forall|j: int| 0 <= j < 2 implies !has_prefix(#[trigger] f[j], "status"@ + ":"@) by {
                lemma_differs_at(f[j], "status"@ + ":"@, 0);
            }
            lemma_scalar_at(r, "status"@, 2, status_name(st));
        },
        None => {
            lemma_s_key_absent(r, "status"@ + ":"@);
            lemma_scalar_absent(r, "status"@);
        },
    }
    // created_at
    assert forall|j: int| 0 <= j < 2 + ns implies !has_prefix(#[trigger] f[j], "created_at"@ + ":"@) by {
        lemma_differs_at(f[j], "created_at"@ + ":"@, 0);
    }
    lemma_scalar_at(r, "created_at"@, 2 + ns, r.created_at@);
    // source_record
    lemma_s_key_absent(r, "source_record"@ + ":"@);
    lemma_scalar_absent(r, "source_record"@);
    // files
    assert forall|j: int| 0 <= j < at_files(r) implies #[trigger] f[j] != "files"@ + ":"@ by {
        lemma_differs_at(f[j], "files"@ + ":"@, 0);
    }
    lemma_differs_at(f[at_topics(r)], "files"@ + ":"@, 0);
    lemma_differs_at(f[at_topics(r)], "  - "@, 0);
    lemma_list_at(r, "files"@, at_files(r), at_topics(r), strs(r.files@));
    // topics
    assert forall|j: int| 0 <= j < at_topics(r) implies #[trigger] f[j] != "topics"@ + ":"@ by {
        if j == 1 {
            lemma_differs_at(f[j], "topics"@ + ":"@, 1);
        } else {
            lemma_differs_at(f[j], "topics"@ + ":"@, 0);
        }
    }
    lemma_differs_at(f[at_related(r)], "topics"@ + ":"@, 0);
    lemma_differs_at(f[at_related(r)], "  - "@, 0);
    lemma_list_at(r, "topics"@, at_topics(r), at_related(r), strs(r.topics@));
    // related
    assert forall|j: int| 0 <= j < at_related(r) implies #[trigger] f[j] != "related"@ + ":"@ by {
        lemma_differs_at(f[j], "related"@ + ":"@, 0);
    }
    lemma_differs_at(f[at_supersedes(r)], "related"@ + ":"@, 0);
    lemma_differs_at(f[at_supersedes(r)], "  - "@, 0);
    lemma_list_at(r, "related"@, at_related(r), at_supersedes(r), strs(r.related@));
    // supersedes
    assert forall|j: int| 0 <= j < at_supersedes(r) implies #[trigger] f[j] != "supersedes"@ + ":"@ by {
        if j == 2 && r.status is Some {
            lemma_differs_at(f[j], "supersedes"@ + ":"@, 1);
        } else {
            lemma_differs_at(f[j], "supersedes"@ + ":"@, 0);
        }
    }
    lemma_differs_at(f[at_superseded_by(r)], "supersedes"@ + ":"@, 9);
    lemma_differs_at(f[at_superseded_by(r)], "  - "@, 0);
    lemma_list_at(r, "supersedes"@, at_supersedes(r), at_superseded_by(r), strs(r.supersedes@));
    // superseded_by
    assert forall|j: int| 0 <= j < at_superseded_by(r) implies #[trigger] f[j] != "superseded_by"@ + ":"@ by {
        if j == 2 && r.status is Some {
            lemma_differs_at(f[j], "superseded_by"@ + ":"@, 1);
        } else if j == at_supersedes(r) {
            lemma_differs_at(f[j], "superseded_by"@ + ":"@, 9);
        } else {
            lemma_differs_at(f[j], "superseded_by"@ + ":"@, 0);
        }
    }
    assert(f.skip(at_superseded_by(r) + 1) =~= item_lines(Seq::<Seq<char>>::empty()) + f.skip(f.len() as int));
    assert(single_lines(Seq::<Seq<char>>::empty()));
    assert("superseded_by"@ + ":"@ =~= "superseded_by:"@);
    lemma_list_at(r, "superseded_by"@, at_superseded_by(r), f.len() as int, Seq::<Seq<char>>::empty());
}

/// Reading back a decision or learning that Tincan rendered gives the
/// record's id, type, status, creation time and lists, and its statement
/// (trimmed) as the heading. This holds when every frontmatter value that is
/// read back is a single line, the statement is a non-blank single line, a
/// status is present exactly for decisions, and, for decisions and
/// learnings, the ids are UUIDs and the file is named after the record's id.
#[verifier::spinoff_prover]
pub proof fn lemma_record_read_back(r: Record, path: Seq<char>)
    requires
        lacks(r.id@, '\n'),
        r.id@.len() > 0,
        lacks(r.created_at@, '\n'),
        single_lines(strs(r.files@)),
        single_lines(strs(r.topics@)),
        single_lines(strs(r.related@)),
        single_lines(strs(r.supersedes@)),
        lacks(r.statement@, '\n'),
        trim(r.statement@).len() > 0,
        (r.kind == Kind::Decision) == (r.status is Some),
        r.kind != Kind::Journal ==> crate::ids::uuid_text(r.id@) && crate::document::all_uuids(
            strs(r.related@),
        ) && crate::document::all_uuids(strs(r.supersedes@)) && crate::document::file_stem_of(path)
            == Some(r.id@),
    ensures
        crate::document::document_error(path, rendered_record(r)) is None,
        ({
            let m = crate::document::document_model(path, rendered_record(r));
            &&& m.id == r.id@
            &&& m.kind == kind_name(r.kind)
            &&& m.status == (match r.status {
                Some(s) => Some(status_name(s)),
                None => None,
            })
            &&& m.created_at == r.created_at@
            &&& m.heading == trim(r.statement@)
            &&& m.files == strs(r.files@)
            &&& m.topics == strs(r.topics@)
            &&& m.related == strs(r.related@)
            &&& m.supersedes == strs(r.supersedes@)
            &&& m.superseded_by.len() == 0
            &&& m.source_record is None
        }),
{
    let text = rendered_record(r);
    lemma_record_values(r);
    lemma_names_single(r);
    lemma_rendered_frontmatter(r);
    lemma_tail_heading(r);
    match r.status {
        Some(st) => {
            crate::model::lemma_status_name_roundtrip(st);
        },
        None => {},
    }
    assert(crate::document::all_uuids(Seq::<Seq<char>>::empty()));
    let kind = kind_name(r.kind);
    let status: Option<Seq<char>> = match r.status {
        Some(st) => Some(status_name(st)),
        None => None,
    };
    reveal_strlit("decision");
    reveal_strlit("learning");
    reveal_strlit("journal");
    assert(crate::document::status_problem(kind, status) is None);
    assert(crate::document::is_record_kind(kind) == (r.kind != Kind::Journal));
    assert(crate::frontmatter::heading_of(crate::frontmatter::body_of(text)) == Some(trim(r.statement@)));
}

// ---------------------------------------------------------------------------
// Records at their paths
// ---------------------------------------------------------------------------

/// A text holding no `.` and no path separator.
pub open spec fn plain_name(s: Seq<char>) -> bool {
    forall|i: int| 0 <= i < s.len() ==> s[i] != '.' && !crate::order::separator(#[trigger] s[i])
}

proof fn lemma_uuid_plain(s: Seq<char>)
    requires
        crate::ids::uuid_text(s),
    ensures
        plain_name(s),
        s.len() > 0,
{
    reveal_strlit("urn:uuid:");
    assert forall|i: int| 0 <= i < s.len() implies s[i] != '.' && !crate::order::separator(#[trigger] s[i]) by {
        if s.len() == 45 && (forall|j: int| 0 <= j < 9 ==> #[trigger] crate::ids::ascii_lower(s[j]) == "urn:uuid:"@[j])
            && crate::ids::hyphenated_uuid(s.skip(9)) {
            if i < 9 {
                assert(crate::ids::ascii_lower(s[i]) == "urn:uuid:"@[i]);
            } else {
                assert(s.skip(9)[i - 9] == s[i]);
            }
        } else if s.len() == 38 && s[0] == '{' && s[37] == '}' && crate::ids::hyphenated_uuid(s.subrange(1, 37)) {
            if 0 < i < 37 {
                assert(s.subrange(1, 37)[i - 1] == s[i]);
            }
        }
    }
}

proof fn lemma_last_separator_at(p: Seq<char>, k: int)
    requires
        0 <= k <= p.len(),
        forall|j: int| k <= j < p.len() ==> !crate::order::separator(#[trigger] p[j]),
        k == 0 || crate::order::separator(p[k - 1]),
    ensures
        crate::document::last_separator(p) == k - 1,
    decreases p.len(),
{
    if p.len() > k {
        assert(!crate::order::separator(p[p.len() - 1]));
        assert forall|j: int| k <= j < p.drop_last().len() implies !crate::order::separator(#[trigger] p.drop_last()[j]) by {
            assert(p.drop_last()[j] == p[j]);
        }
        if k > 0 {
            assert(p.drop_last()[k - 1] == p[k - 1]);
        }
        lemma_last_separator_at(p.drop_last(), k);
    } else if k > 0 {
        assert(p.last() == p[k - 1]);
    }
}

proof fn lemma_last_dot_at(p: Seq<char>, k: int)
    requires
        0 <= k < p.len(),
        p[k] == '.',
        forall|j: int| k < j < p.len() ==> #[trigger] p[j] != '.',
    ensures
        crate::document::last_dot(p) == k,
    decreases p.len(),
{
    if p.len() - 1 > k {
        assert(p.last() != '.');
        assert forall|j: int| k < j < p.drop_last().len() implies #[trigger] p.drop_last()[j] != '.' by {
            assert(p.drop_last()[j] == p[j]);
        }
        assert(p.drop_last()[k] == p[k]);
        lemma_last_dot_at(p.drop_last(), k);
    }
}

/// A record file named after a UUID, `id.md` in any directory, has that id as
/// its file stem.
#[verifier::spinoff_prover]
#[verifier::rlimit(60)]
pub proof fn lemma_record_file_stem(dir: Seq<char>, id: Seq<char>)
    requires
        crate::ids::uuid_text(id),
    ensures
        crate::document::file_stem_of(crate::store::joined_path(dir, id + ".md"@)) == Some(id),
{
    reveal_strlit(".md");
    reveal_strlit("/");
    reveal_strlit(".");
    reveal_strlit("..");
    lemma_uuid_plain(id);
    let name = id + ".md"@;
    let path = crate::store::joined_path(dir, name);
    let k = path.len() - name.len();
    assert(path.skip(k) =~= name);
    assert forall|j: int| k <= j < path.len() implies !crate::order::separator(#[trigger] path[j]) by {
        assert(path[j] == name[j - k]);
        if j - k < id.len() {
            assert(name[j - k] == id[j - k]);
        }
    }
    if k > 0 {
        assert(crate::order::separator(path[k - 1]));
    }
    assert(path.last() == 'd');
    assert(crate::document::path_end(path) == path);
    lemma_last_separator_at(path, k);
    assert(name[id.len() as int] == '.');
    assert forall|j: int| id.len() < j < name.len() implies #[trigger] name[j] != '.' by {}
    lemma_last_dot_at(name, id.len() as int);
    assert(name.len() != 1 && name.len() > 0);
    assert(name != "."@);
    assert(name != ".."@) by {
        if name.len() == 2 {
            assert(id.len() == 0);
        }
    }
    assert(name.take(id.len() as int) =~= id);
}

/// A decision or learning written as `id.md` in any directory reads back as
/// it was written: its id, type, status, creation time and lists, and its
/// statement (trimmed) as the heading. This holds when every frontmatter value
/// that is read back is a single line, the statement is a non-blank single
/// line, a status is present exactly for decisions, and the ids are UUIDs.
pub proof fn lemma_written_record_reads_back(r: Record, dir: Seq<char>)
    requires
        r.kind != Kind::Journal,
        lacks(r.id@, '\n'),
        lacks(r.created_at@, '\n'),
        single_lines(strs(r.files@)),
        single_lines(strs(r.topics@)),
        single_lines(strs(r.related@)),
        single_lines(strs(r.supersedes@)),
        lacks(r.statement@, '\n'),
        trim(r.statement@).len() > 0,
        (r.kind == Kind::Decision) == (r.status is Some),
        crate::ids::uuid_text(r.id@),
        crate::document::all_uuids(strs(r.related@)),
        crate::document::all_uuids(strs(r.supersedes@)),
    ensures
        ({
            let path = crate::store::joined_path(dir, r.id@ + ".md"@);
            let m = crate::document::document_model(path, rendered_record(r));
            &&& crate::document::document_error(path, rendered_record(r)) is None
            &&& m.id == r.id@
            &&& m.kind == kind_name(r.kind)
            &&& m.status == (match r.status {
                Some(s) => Some(status_name(s)),
                None => None,
            })
            &&& m.created_at == r.created_at@
            &&& m.heading == trim(r.statement@)
            &&& m.files == strs(r.files@)
            &&& m.topics == strs(r.topics@)
            &&& m.related == strs(r.related@)
            &&& m.supersedes == strs(r.supersedes@)
            &&& m.superseded_by.len() == 0
            &&& m.source_record is None
        }),
{
    lemma_uuid_plain(r.id@);
    lemma_record_file_stem(dir, r.id@);
    lemma_record_read_back(r, crate::store::joined_path(dir, r.id@ + ".md"@));
}

} // verus!
