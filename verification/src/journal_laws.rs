//! What Tincan reads back from a journal it wrote, and why repeating a
//! journal update adds nothing.
use vstd::prelude::*;
use crate::text::{
    lines, terminated, lacks, trim, trim_start, trim_end, is_ws, has_prefix, strip_cr, find_char, replace_all,
    lemma_lines_step, lemma_find_char,
};
use crate::util::quoted;
use crate::model::bullet_lines;
use crate::journal::{
    journal_head, journal_section, rendered_journal, section_bullets, bullets_in, cleaned, without, merged_lists,
    merged_from, merged_content, merged_added, lemma_appended_members, lemma_without_members,
    lemma_appended_unless_members, lemma_merge_idempotent,
};
use crate::lines::{index_of_line, index_of_prefixed, lemma_index_of_line, lemma_index_of_prefixed};
use crate::frontmatter::{scalar_value, unquoted, fm_lines, strip_quotes};
use crate::roundtrip::{
    lemma_terminated_concat, lemma_terminated_one, lemma_quoted_shape, lemma_line_index_at,
    lemma_differs_at, lemma_prefix_index_at, lemma_field_value, field_text,
};

verus! {

// ---------------------------------------------------------------------------
// The lines of a written journal
// ---------------------------------------------------------------------------

/// The bullet lines of a section.
pub open spec fn bullet_items(values: Seq<Seq<char>>) -> Seq<Seq<char>> {
    values.map_values(|v: Seq<char>| "- "@ + v)
}

/// The lines of one section: a blank line, its heading, a blank line, then
/// its bullets or the `none` marker.
pub open spec fn section_text_lines(heading: Seq<char>, values: Seq<Seq<char>>) -> Seq<Seq<char>> {
    seq![Seq::<char>::empty(), "## "@ + heading, Seq::<char>::empty()] + if values.len() == 0 {
        seq!["<!-- none -->"@]
    } else {
        bullet_items(values)
    }
}

/// The lines of a journal's opening.
pub open spec fn head_lines(date: Seq<char>, created_at: Seq<char>) -> Seq<Seq<char>> {
    seq![
        "---"@,
        "id: "@ + quoted("journal-"@ + date),
        "type: \"journal\""@,
        "created_at: "@ + quoted(created_at),
        "---"@,
        Seq::<char>::empty(),
        "# "@ + date,
    ]
}

/// A legacy section's lines, present only when it holds bullets.
pub open spec fn legacy_lines(heading: Seq<char>, values: Seq<Seq<char>>) -> Seq<Seq<char>> {
    if values.len() == 0 {
        Seq::empty()
    } else {
        section_text_lines(heading, values)
    }
}

/// The lines of a written journal.
pub open spec fn journal_lines(
    date: Seq<char>,
    created_at: Seq<char>,
    done: Seq<Seq<char>>,
    decisions: Seq<Seq<char>>,
    learnings: Seq<Seq<char>>,
    planned: Seq<Seq<char>>,
    questions: Seq<Seq<char>>,
    next: Seq<Seq<char>>,
) -> Seq<Seq<char>> {
    head_lines(date, created_at) + section_text_lines("Done"@, done) + legacy_lines("Decisions"@, decisions)
        + legacy_lines("Learnings"@, learnings) + section_text_lines("Planned"@, planned)
        + section_text_lines("Open questions"@, questions) + section_text_lines("Next"@, next)
}

proof fn lemma_bullets_terminated(values: Seq<Seq<char>>)
    ensures
        bullet_lines(values) == terminated(bullet_items(values)),
    decreases values.len(),
{
    if values.len() > 0 {
        lemma_bullets_terminated(values.drop_last());
        assert(bullet_items(values) =~= bullet_items(values.drop_last()) + seq!["- "@ + values.last()]);
        lemma_terminated_concat(bullet_items(values.drop_last()), seq!["- "@ + values.last()]);
        lemma_terminated_one("- "@ + values.last());
        reveal_strlit("\n");
        assert(bullet_lines(values) =~= terminated(bullet_items(values)));
    } else {
        assert(bullet_items(values) =~= Seq::<Seq<char>>::empty());
    }
}

proof fn lemma_terminated_three(a: Seq<char>, b: Seq<char>, c: Seq<char>)
    ensures
        terminated(seq![a, b, c]) == a + seq!['\n'] + b + seq!['\n'] + c + seq!['\n'],
{
    lemma_terminated_concat(seq![a], seq![b, c]);
    lemma_terminated_concat(seq![b], seq![c]);
    assert(seq![a, b, c] =~= seq![a] + seq![b, c]);
    assert(seq![b, c] =~= seq![b] + seq![c]);
    lemma_terminated_one(a);
    lemma_terminated_one(b);
    lemma_terminated_one(c);
    assert(terminated(seq![a, b, c]) =~= a + seq!['\n'] + b + seq!['\n'] + c + seq!['\n']);
}

proof fn lemma_section_terminated(heading: Seq<char>, values: Seq<Seq<char>>)
    ensures
        journal_section(heading, values) == terminated(section_text_lines(heading, values)),
{
    let first = seq![Seq::<char>::empty(), "## "@ + heading, Seq::<char>::empty()];
    let rest: Seq<Seq<char>> = if values.len() == 0 {
        seq!["<!-- none -->"@]
    } else {
        bullet_items(values)
    };
    lemma_terminated_concat(first, rest);
    lemma_terminated_three(Seq::<char>::empty(), "## "@ + heading, Seq::<char>::empty());
    reveal_strlit("\n## ");
    reveal_strlit("## ");
    reveal_strlit("\n\n");
    reveal_strlit("<!-- none -->\n");
    reveal_strlit("<!-- none -->");
    if values.len() == 0 {
        lemma_terminated_one("<!-- none -->"@);
    } else {
        lemma_bullets_terminated(values);
    }
    assert(journal_section(heading, values) =~= terminated(section_text_lines(heading, values)));
}

proof fn lemma_head_terminated(date: Seq<char>, created_at: Seq<char>)
    ensures
        journal_head(date, created_at) == terminated(head_lines(date, created_at)),
{
    let h = head_lines(date, created_at);
    let a = seq!["---"@, "id: "@ + quoted("journal-"@ + date), "type: \"journal\""@];
    let b = seq!["created_at: "@ + quoted(created_at), "---"@, Seq::<char>::empty()];
    let c = seq!["# "@ + date];
    assert(h =~= a + b + c);
    lemma_terminated_concat(a + b, c);
    lemma_terminated_concat(a, b);
    lemma_terminated_three("---"@, "id: "@ + quoted("journal-"@ + date), "type: \"journal\""@);
    lemma_terminated_three("created_at: "@ + quoted(created_at), "---"@, Seq::<char>::empty());
    lemma_terminated_one("# "@ + date);
    reveal_strlit("---\nid: ");
    reveal_strlit("---");
    reveal_strlit("id: ");
    reveal_strlit("\ntype: \"journal\"\ncreated_at: ");
    reveal_strlit("type: \"journal\"");
    reveal_strlit("created_at: ");
    reveal_strlit("\n---\n\n# ");
    reveal_strlit("# ");
    reveal_strlit("\n");
    assert(journal_head(date, created_at) =~= terminated(h));
}

/// A written journal is its lines, each followed by a newline.
proof fn lemma_journal_terminated(
    date: Seq<char>,
    created_at: Seq<char>,
    done: Seq<Seq<char>>,
    decisions: Seq<Seq<char>>,
    learnings: Seq<Seq<char>>,
    planned: Seq<Seq<char>>,
    questions: Seq<Seq<char>>,
    next: Seq<Seq<char>>,
)
    ensures
        rendered_journal(date, created_at, done, decisions, learnings, planned, questions, next) == terminated(
            journal_lines(date, created_at, done, decisions, learnings, planned, questions, next),
        ),
{
    let h = head_lines(date, created_at);
    let sd = section_text_lines("Done"@, done);
    let ld = legacy_lines("Decisions"@, decisions);
    let ll = legacy_lines("Learnings"@, learnings);
    let sp = section_text_lines("Planned"@, planned);
    let sq = section_text_lines("Open questions"@, questions);
    let sn = section_text_lines("Next"@, next);
    lemma_head_terminated(date, created_at);
    lemma_section_terminated("Done"@, done);
    lemma_section_terminated("Planned"@, planned);
    lemma_section_terminated("Open questions"@, questions);
    lemma_section_terminated("Next"@, next);
    if decisions.len() > 0 {
        lemma_section_terminated("Decisions"@, decisions);
    } else {
        assert(terminated(ld) == Seq::<char>::empty());
    }
    if learnings.len() > 0 {
        lemma_section_terminated("Learnings"@, learnings);
    } else {
        assert(terminated(ll) == Seq::<char>::empty());
    }
    lemma_terminated_concat(h + sd + ld + ll + sp + sq, sn);
    lemma_terminated_concat(h + sd + ld + ll + sp, sq);
    lemma_terminated_concat(h + sd + ld + ll, sp);
    lemma_terminated_concat(h + sd + ld, ll);
    lemma_terminated_concat(h + sd, ld);
    lemma_terminated_concat(h, sd);
    assert(terminated(ld) == (if decisions.len() == 0 {
        Seq::<char>::empty()
    } else {
        journal_section("Decisions"@, decisions)
    }));
    assert(terminated(ll) == (if learnings.len() == 0 {
        Seq::<char>::empty()
    } else {
        journal_section("Learnings"@, learnings)
    }));
}

/// A bullet value that reads back as written: one line, no surrounding
/// whitespace.
pub open spec fn plain_value(v: Seq<char>) -> bool {
    lacks(v, '\n') && trim(v) == v
}

/// Every value is a plain bullet value.
pub open spec fn plain_values(vs: Seq<Seq<char>>) -> bool {
    forall|i: int| 0 <= i < vs.len() ==> plain_value(#[trigger] vs[i])
}

proof fn lemma_trimmed_ends(v: Seq<char>)
    requires
        trim(v) == v,
        v.len() > 0,
    ensures
        !is_ws(v.last()),
        !is_ws(v[0]),
{
    crate::store::lemma_trim_start_len(v);
    crate::store::lemma_trim_end_shortens(trim_start(v));
    if is_ws(v[0]) {
        assert(trim_start(v) == trim_start(v.drop_first()));
        crate::store::lemma_trim_start_len(v.drop_first());
    }
}

/// A line that `lines` gives back unchanged.
pub open spec fn whole_line(l: Seq<char>) -> bool {
    lacks(l, '\n') && !(l.len() > 0 && l.last() == '\r')
}

proof fn lemma_prefixed_whole(p: Seq<char>, v: Seq<char>)
    requires
        whole_line(p),
        p.len() > 0,
        lacks(v, '\n'),
        v.len() == 0 || v.last() != '\r',
    ensures
        whole_line(p + v),
{
    let l = p + v;
    assert forall|i: int| 0 <= i < l.len() implies l[i] != '\n' by {
        if i < p.len() {
            assert(l[i] == p[i]);
        } else {
            assert(l[i] == v[i - p.len()]);
        }
    }
}

proof fn lemma_section_whole(heading: Seq<char>, values: Seq<Seq<char>>)
    requires
        whole_line("## "@ + heading),
        plain_values(values),
    ensures
        forall|i: int| 0 <= i < section_text_lines(heading, values).len() ==> whole_line(
            #[trigger] section_text_lines(heading, values)[i],
        ),
{
    reveal_strlit("- ");
    reveal_strlit("<!-- none -->");
    let s = section_text_lines(heading, values);
    assert forall|i: int| 0 <= i < s.len() implies whole_line(#[trigger] s[i]) by {
        if i >= 3 && values.len() > 0 {
            let v = values[i - 3];
            assert(s[i] == "- "@ + v);
            assert(plain_value(v));
            if v.len() > 0 {
                lemma_trimmed_ends(v);
            }
            lemma_prefixed_whole("- "@, v);
        }
    }
}

/// Every line is a whole line.
pub open spec fn all_whole(ls: Seq<Seq<char>>) -> bool {
    forall|i: int| 0 <= i < ls.len() ==> whole_line(#[trigger] ls[i])
}

proof fn lemma_all_whole_concat(a: Seq<Seq<char>>, b: Seq<Seq<char>>)
    requires
        all_whole(a),
        all_whole(b),
    ensures
        all_whole(a + b),
{
    assert forall|i: int| 0 <= i < (a + b).len() implies whole_line(#[trigger] (a + b)[i]) by {
        if i < a.len() {
            assert((a + b)[i] == a[i]);
        } else {
            assert((a + b)[i] == b[i - a.len()]);
        }
    }
}

/// The lines of text joined with a `\n` after each, read back: each line
/// without a final `\r`, when no line holds a `\n`.
proof fn lemma_lines_of_terminated_cr(ls: Seq<Seq<char>>)
    requires
        forall|i: int| 0 <= i < ls.len() ==> lacks(#[trigger] ls[i], '\n'),
    ensures
        lines(terminated(ls)) == ls.map_values(|l: Seq<char>| strip_cr(l)),
    decreases ls.len(),
{
    if ls.len() > 0 {
        let s = terminated(ls);
        let first = ls[0];
        let rest = ls.drop_first();
        assert(s == first + seq!['\n'] + terminated(rest));
        assert forall|k: int| 0 <= k < first.len() implies s[k] != '\n' by {
            assert(s[k] == first[k]);
        }
        assert(s[first.len() as int] == '\n');
        lemma_lines_step(s, 0, first.len() as int);
        assert(s.skip(0) =~= s);
        assert(s.subrange(0, first.len() as int) =~= first);
        assert(s.skip(first.len() as int + 1) =~= terminated(rest));
        assert forall|i: int| 0 <= i < rest.len() implies lacks(#[trigger] rest[i], '\n') by {
            assert(rest[i] == ls[i + 1]);
        }
        lemma_lines_of_terminated_cr(rest);
        assert(ls.map_values(|l: Seq<char>| strip_cr(l)) =~= seq![strip_cr(first)] + rest.map_values(
            |l: Seq<char>| strip_cr(l),
        ));
    } else {
        assert(ls.map_values(|l: Seq<char>| strip_cr(l)) =~= Seq::<Seq<char>>::empty());
    }
}

/// The opening lines of a written journal as they read back: a `\r` that
/// ends the date is not part of its line.
pub open spec fn read_head(date: Seq<char>, created_at: Seq<char>) -> Seq<Seq<char>> {
    head_lines(date, created_at).map_values(|l: Seq<char>| strip_cr(l))
}

/// The lines of a written journal as they read back.
pub open spec fn read_journal_lines(
    date: Seq<char>,
    created_at: Seq<char>,
    done: Seq<Seq<char>>,
    decisions: Seq<Seq<char>>,
    learnings: Seq<Seq<char>>,
    planned: Seq<Seq<char>>,
    questions: Seq<Seq<char>>,
    next: Seq<Seq<char>>,
) -> Seq<Seq<char>> {
    read_head(date, created_at) + section_text_lines("Done"@, done) + legacy_lines("Decisions"@, decisions)
        + legacy_lines("Learnings"@, learnings) + section_text_lines("Planned"@, planned)
        + section_text_lines("Open questions"@, questions) + section_text_lines("Next"@, next)
}

proof fn lemma_join_lacks(p: Seq<char>, v: Seq<char>)
    requires
        lacks(p, '\n'),
        lacks(v, '\n'),
    ensures
        lacks(p + v, '\n'),
{
    let l = p + v;
    assert forall|i: int| 0 <= i < l.len() implies l[i] != '\n' by {
        if i < p.len() {
            assert(l[i] == p[i]);
        } else {
            assert(l[i] == v[i - p.len()]);
        }
    }
}

/// The lines of a written journal, read back, are the lines it was written
/// with (the date's line without a final `\r`), when the date and the
/// creation time are one line each and every bullet is plain.
proof fn lemma_journal_lines(
    date: Seq<char>,
    created_at: Seq<char>,
    done: Seq<Seq<char>>,
    decisions: Seq<Seq<char>>,
    learnings: Seq<Seq<char>>,
    planned: Seq<Seq<char>>,
    questions: Seq<Seq<char>>,
    next: Seq<Seq<char>>,
)
    requires
        lacks(date, '\n'),
        lacks(created_at, '\n'),
        plain_values(done),
        plain_values(decisions),
        plain_values(learnings),
        plain_values(planned),
        plain_values(questions),
        plain_values(next),
    ensures
        lines(rendered_journal(date, created_at, done, decisions, learnings, planned, questions, next))
            == read_journal_lines(date, created_at, done, decisions, learnings, planned, questions, next),
{
    lemma_journal_terminated(date, created_at, done, decisions, learnings, planned, questions, next);
    reveal_strlit("---");
    reveal_strlit("id: ");
    reveal_strlit("journal-");
    reveal_strlit("type: \"journal\"");
    reveal_strlit("created_at: ");
    reveal_strlit("# ");
    reveal_strlit("## ");
    reveal_strlit("Done");
    reveal_strlit("Decisions");
    reveal_strlit("Learnings");
    reveal_strlit("Planned");
    reveal_strlit("Open questions");
    reveal_strlit("Next");
    let h = head_lines(date, created_at);
    lemma_quoted_shape("journal-"@ + date);
    lemma_quoted_shape(created_at);
    lemma_join_lacks("id: "@, quoted("journal-"@ + date));
    lemma_join_lacks("created_at: "@, quoted(created_at));
    lemma_join_lacks("# "@, date);
    assert forall|i: int| 0 <= i < h.len() implies lacks(#[trigger] h[i], '\n') by {}
    let sd = section_text_lines("Done"@, done);
    let ld = legacy_lines("Decisions"@, decisions);
    let ll = legacy_lines("Learnings"@, learnings);
    let sp = section_text_lines("Planned"@, planned);
    let sq = section_text_lines("Open questions"@, questions);
    let sn = section_text_lines("Next"@, next);
    lemma_section_whole("Done"@, done);
    lemma_section_whole("Decisions"@, decisions);
    lemma_section_whole("Learnings"@, learnings);
    lemma_section_whole("Planned"@, planned);
    lemma_section_whole("Open questions"@, questions);
    lemma_section_whole("Next"@, next);
    assert(all_whole(sd));
    assert(all_whole(ld));
    assert(all_whole(ll));
    assert(all_whole(sp));
    assert(all_whole(sq));
    assert(all_whole(sn));
    lemma_all_whole_concat(sd, ld);
    lemma_all_whole_concat(sd + ld, ll);
    lemma_all_whole_concat(sd + ld + ll, sp);
    lemma_all_whole_concat(sd + ld + ll + sp, sq);
    lemma_all_whole_concat(sd + ld + ll + sp + sq, sn);
    let t = sd + ld + ll + sp + sq + sn;
    assert(all_whole(t));
    let all = journal_lines(date, created_at, done, decisions, learnings, planned, questions, next);
    assert(all =~= h + t);
    assert forall|i: int| 0 <= i < all.len() implies lacks(#[trigger] all[i], '\n') by {
        if i < h.len() {
            assert(all[i] == h[i]);
        } else {
            assert(all[i] == t[i - h.len()]);
        }
    }
    lemma_lines_of_terminated_cr(all);
    let rd = read_journal_lines(date, created_at, done, decisions, learnings, planned, questions, next);
    assert(rd =~= read_head(date, created_at) + t);
    let mapped = all.map_values(|l: Seq<char>| strip_cr(l));
    assert(mapped =~= rd) by {
        assert forall|i: int| 0 <= i < all.len() implies #[trigger] mapped[i] == rd[i] by {
            if i >= h.len() {
                assert(all[i] == t[i - h.len()]);
                assert(whole_line(t[i - h.len()]));
            }
        }
    }
}

// ---------------------------------------------------------------------------
// Reading the sections back
// ---------------------------------------------------------------------------

/// No line of `ls` is `m`.
pub open spec fn without_line(ls: Seq<Seq<char>>, m: Seq<char>) -> bool {
    forall|j: int| 0 <= j < ls.len() ==> #[trigger] ls[j] != m
}

proof fn lemma_without_line_concat(a: Seq<Seq<char>>, b: Seq<Seq<char>>, m: Seq<char>)
    requires
        without_line(a, m),
        without_line(b, m),
    ensures
        without_line(a + b, m),
{
    assert forall|j: int| 0 <= j < (a + b).len() implies #[trigger] (a + b)[j] != m by {
        if j < a.len() {
            assert((a + b)[j] == a[j]);
        } else {
            assert((a + b)[j] == b[j - a.len()]);
        }
    }
}

proof fn lemma_bullets_read(vs: Seq<Seq<char>>, r: Seq<Seq<char>>, heading: Seq<char>)
    requires
        plain_values(vs),
        heading.len() > 0,
        heading[0] == '#',
        r.len() == 0 || (r.len() >= 2 && r[0] == Seq::<char>::empty() && has_prefix(r[1], "## "@)
            && r[1] != heading),
    ensures
        section_bullets(bullet_items(vs) + r, heading) == vs,
    decreases vs.len(),
{
    reveal_strlit("- ");
    reveal_strlit("## ");
    let all = bullet_items(vs) + r;
    if vs.len() == 0 {
        assert(all =~= r);
        if r.len() > 0 {
            assert(r[0] != heading);
            assert(!has_prefix(r[0], "## "@));
            assert(!has_prefix(r[0], "- "@));
            assert(section_bullets(r.drop_first(), heading) == Seq::<Seq<char>>::empty()) by {
                assert(r.drop_first()[0] == r[1]);
            }
        }
    } else {
        let v = vs[0];
        let l = "- "@ + v;
        assert(all[0] == l);
        lemma_differs_at(l, heading, 0);
        lemma_differs_at(l, "## "@, 0);
        assert(l.take(2) =~= "- "@);
        assert(l.skip(2) =~= v);
        assert(plain_value(v));
        assert(all.drop_first() =~= bullet_items(vs.drop_first()) + r);
        assert(plain_values(vs.drop_first())) by {
            assert forall|i: int| 0 <= i < vs.drop_first().len() implies plain_value(#[trigger] vs.drop_first()[i]) by {
                assert(vs.drop_first()[i] == vs[i + 1]);
            }
        }
        lemma_bullets_read(vs.drop_first(), r, heading);
        assert(seq![v] + vs.drop_first() =~= vs);
    }
}

/// A section written after lines `a` and followed by lines `r` is found at
/// its heading and reads back as its values.
proof fn lemma_section_read(a: Seq<Seq<char>>, name: Seq<char>, vs: Seq<Seq<char>>, r: Seq<Seq<char>>)
    requires
        without_line(a, "## "@ + name),
        plain_values(vs),
        r.len() == 0 || (r.len() >= 2 && r[0] == Seq::<char>::empty() && has_prefix(r[1], "## "@)
            && r[1] != "## "@ + name),
    ensures
        index_of_line(a + section_text_lines(name, vs) + r, "## "@ + name) == a.len() + 1,
        section_bullets((a + section_text_lines(name, vs) + r).skip(a.len() as int + 2), "## "@ + name) == vs,
{
    reveal_strlit("## ");
    reveal_strlit("- ");
    reveal_strlit("<!-- none -->");
    let heading = "## "@ + name;
    let all = a + section_text_lines(name, vs) + r;
    assert(all[a.len() as int] == Seq::<char>::empty());
    assert(all[a.len() as int + 1] == heading);
    assert forall|j: int| 0 <= j < a.len() + 1 implies #[trigger] all[j] != heading by {
        if j < a.len() {
            assert(all[j] == a[j]);
        }
    }
    lemma_line_index_at(all, heading, a.len() as int + 1);
    let tail = all.skip(a.len() as int + 2);
    let items: Seq<Seq<char>> = if vs.len() == 0 {
        seq!["<!-- none -->"@]
    } else {
        bullet_items(vs)
    };
    assert(tail =~= seq![Seq::<char>::empty()] + items + r);
    assert(tail[0] != heading);
    assert(!has_prefix(tail[0], "## "@));
    assert(!has_prefix(tail[0], "- "@));
    assert(tail.drop_first() =~= items + r);
    if vs.len() == 0 {
        let t2 = items + r;
        lemma_differs_at(t2[0], heading, 0);
        lemma_differs_at(t2[0], "## "@, 0);
        lemma_differs_at(t2[0], "- "@, 0);
        assert(t2.drop_first() =~= bullet_items(vs) + r);
        lemma_bullets_read(vs, r, heading);
        assert(section_bullets(t2, heading) == section_bullets(t2.drop_first(), heading));
    } else {
        lemma_bullets_read(vs, r, heading);
        assert(items + r == bullet_items(vs) + r);
    }
    assert(section_bullets(tail, heading) == section_bullets(tail.drop_first(), heading));
}

proof fn lemma_section_without(other: Seq<char>, vs: Seq<Seq<char>>, name: Seq<char>)
    requires
        other != name,
    ensures
        without_line(section_text_lines(other, vs), "## "@ + name),
        without_line(legacy_lines(other, vs), "## "@ + name),
{
    reveal_strlit("## ");
    reveal_strlit("- ");
    reveal_strlit("<!-- none -->");
    let s = section_text_lines(other, vs);
    let m = "## "@ + name;
    assert forall|j: int| 0 <= j < s.len() implies #[trigger] s[j] != m by {
        if j == 0 || j == 2 {
            assert(s[j].len() != m.len());
        } else if j == 1 {
            if s[j] == m {
                assert(s[j].skip(3) =~= other);
                assert(m.skip(3) =~= name);
            }
        } else {
            lemma_differs_at(s[j], m, 0);
        }
    }
}

/// Lines `r` are empty or open a section other than `name`'s.
pub open spec fn next_section(r: Seq<Seq<char>>, name: Seq<char>) -> bool {
    r.len() == 0 || (r.len() >= 2 && r[0] == Seq::<char>::empty() && has_prefix(r[1], "## "@) && r[1]
        != "## "@ + name)
}

proof fn lemma_section_then(other: Seq<char>, vs: Seq<Seq<char>>, y: Seq<Seq<char>>, name: Seq<char>)
    requires
        other != name,
    ensures
        next_section(section_text_lines(other, vs) + y, name),
{
    reveal_strlit("## ");
    let s = section_text_lines(other, vs) + y;
    assert(s[0] == Seq::<char>::empty());
    assert(s[1] == "## "@ + other);
    assert(s[1].take(3) =~= "## "@);
    if s[1] == "## "@ + name {
        assert(s[1].skip(3) =~= other);
        assert(("## "@ + name).skip(3) =~= name);
    }
}

proof fn lemma_legacy_then(other: Seq<char>, vs: Seq<Seq<char>>, y: Seq<Seq<char>>, name: Seq<char>)
    requires
        other != name,
        next_section(y, name),
    ensures
        next_section(legacy_lines(other, vs) + y, name),
{
    if vs.len() == 0 {
        assert(legacy_lines(other, vs) + y =~= y);
    } else {
        lemma_section_then(other, vs, y, name);
    }
}

proof fn lemma_read_head_without(date: Seq<char>, created_at: Seq<char>, name: Seq<char>)
    ensures
        without_line(read_head(date, created_at), "## "@ + name),
{
    reveal_strlit("---");
    reveal_strlit("id: ");
    reveal_strlit("type: \"journal\"");
    reveal_strlit("created_at: ");
    reveal_strlit("# ");
    reveal_strlit("## ");
    let h = head_lines(date, created_at);
    let rh = read_head(date, created_at);
    let m = "## "@ + name;
    lemma_quoted_shape("journal-"@ + date);
    lemma_quoted_shape(created_at);
    assert forall|j: int| 0 <= j < rh.len() implies #[trigger] rh[j] != m by {
        assert(rh[j] == strip_cr(h[j]));
        if j == 5 {
            assert(rh[j].len() != m.len());
        } else if j == 6 {
            let l = "# "@ + date;
            assert(h[j] == l);
            if date.len() > 0 {
                assert(l.last() == date.last());
            }
            assert(rh[j].len() >= 2);
            assert(rh[j][1] == l[1]);
            assert(m[1] == '#');
            lemma_differs_at(rh[j], m, 1);
        } else {
            if j == 1 {
                assert(h[j].last() == quoted("journal-"@ + date).last());
            } else if j == 3 {
                assert(h[j].last() == quoted(created_at).last());
            }
            assert(rh[j] == h[j]);
            lemma_differs_at(rh[j], m, 0);
        }
    }
}

/// The creation time read back from the frontmatter of text that reads as a
/// journal's opening followed by any lines.
proof fn lemma_read_created(text: Seq<char>, date: Seq<char>, created_at: Seq<char>, t: Seq<Seq<char>>)
    requires
        lacks(created_at, '\n'),
        lines(text) == read_head(date, created_at) + t,
    ensures
        scalar_value(text, "created_at"@) == Some(created_at),
{
    reveal_strlit("---");
    reveal_strlit("id: ");
    reveal_strlit("type: \"journal\"");
    reveal_strlit("created_at: ");
    reveal_strlit("created_at");
    reveal_strlit(":");
    let h = head_lines(date, created_at);
    let ls = lines(text);
    lemma_quoted_shape("journal-"@ + date);
    lemma_quoted_shape(created_at);
    assert(ls[0] == strip_cr(h[0]));
    assert(ls[0] == "---"@);
    let rest = ls.drop_first();
    assert(rest[0] == strip_cr(h[1]));
    assert(h[1].last() == quoted("journal-"@ + date).last());
    assert(rest[0] == h[1]);
    assert(rest[1] == h[2]);
    assert(rest[2] == strip_cr(h[3]));
    assert(h[3].last() == quoted(created_at).last());
    assert(rest[2] == h[3]);
    assert(rest[3] == h[4]);
    assert forall|j: int| 0 <= j < 3 implies #[trigger] rest[j] != "---"@ by {
        lemma_differs_at(rest[j], "---"@, 0);
    }
    lemma_line_index_at(rest, "---"@, 3);
    let fm = rest.take(3);
    assert(scalar_value(text, "created_at"@) == {
        let p = "created_at"@ + ":"@;
        let i = index_of_prefixed(fm, p);
        if i < fm.len() {
            Some(unquoted(trim(fm[i].skip(p.len() as int))))
        } else {
            None
        }
    });
    let p = "created_at"@ + ":"@;
    assert(fm[2] == field_text("created_at"@, created_at)) by {
        assert(("created_at"@ + ": "@) =~= "created_at: "@) by {
            reveal_strlit(": ");
        }
    }
    lemma_field_value("created_at"@, created_at);
    assert forall|j: int| 0 <= j < 2 implies !has_prefix(#[trigger] fm[j], p) by {
        assert(p[0] == 'c');
        lemma_differs_at(fm[j], p, 0);
    }
    lemma_prefix_index_at(fm, p, 2);
}

/// A section found in text whose lines are `a`, the section, then `r`.
proof fn lemma_read_section_in(
    text: Seq<char>,
    a: Seq<Seq<char>>,
    name: Seq<char>,
    vs: Seq<Seq<char>>,
    r: Seq<Seq<char>>,
)
    requires
        lines(text) == a + section_text_lines(name, vs) + r,
        without_line(a, "## "@ + name),
        plain_values(vs),
        next_section(r, name),
    ensures
        bullets_in(text, "## "@ + name) == vs,
{
    lemma_section_read(a, name, vs, r);
}

/// A section absent from text reads back as no bullets.
proof fn lemma_read_absent(text: Seq<char>, heading: Seq<char>)
    requires
        without_line(lines(text), heading),
    ensures
        bullets_in(text, heading) == Seq::<Seq<char>>::empty(),
{
    lemma_index_of_line(lines(text), heading);
}

proof fn lemma_names_differ()
    ensures
        "Done"@ != "Decisions"@,
        "Done"@ != "Learnings"@,
        "Done"@ != "Planned"@,
        "Done"@ != "Open questions"@,
        "Done"@ != "Next"@,
        "Decisions"@ != "Learnings"@,
        "Decisions"@ != "Planned"@,
        "Decisions"@ != "Open questions"@,
        "Decisions"@ != "Next"@,
        "Learnings"@ != "Planned"@,
        "Learnings"@ != "Open questions"@,
        "Learnings"@ != "Next"@,
        "Planned"@ != "Open questions"@,
        "Planned"@ != "Next"@,
        "Open questions"@ != "Next"@,
{
    reveal_strlit("Done");
    reveal_strlit("Decisions");
    reveal_strlit("Learnings");
    reveal_strlit("Planned");
    reveal_strlit("Open questions");
    reveal_strlit("Next");
    assert("Done"@.len() == 4);
    assert("Decisions"@.len() == 9);
    assert("Learnings"@.len() == 9);
    assert("Planned"@.len() == 7);
    assert("Open questions"@.len() == 14);
    assert("Next"@.len() == 4);
    assert("Done"@[0] != "Next"@[0]);
    assert("Decisions"@[0] != "Learnings"@[0]);
}

proof fn lemma_headings()
    ensures
        "## Done"@ == "## "@ + "Done"@,
        "## Decisions"@ == "## "@ + "Decisions"@,
        "## Learnings"@ == "## "@ + "Learnings"@,
        "## Planned"@ == "## "@ + "Planned"@,
        "## Open questions"@ == "## "@ + "Open questions"@,
        "## Next"@ == "## "@ + "Next"@,
{
    reveal_strlit("## ");
    reveal_strlit("Done");
    reveal_strlit("Decisions");
    reveal_strlit("Learnings");
    reveal_strlit("Planned");
    reveal_strlit("Open questions");
    reveal_strlit("Next");
    reveal_strlit("## Done");
    reveal_strlit("## Decisions");
    reveal_strlit("## Learnings");
    reveal_strlit("## Planned");
    reveal_strlit("## Open questions");
    reveal_strlit("## Next");
    assert("## Done"@ =~= "## "@ + "Done"@);
    assert("## Decisions"@ =~= "## "@ + "Decisions"@);
    assert("## Learnings"@ =~= "## "@ + "Learnings"@);
    assert("## Planned"@ =~= "## "@ + "Planned"@);
    assert("## Open questions"@ =~= "## "@ + "Open questions"@);
    assert("## Next"@ =~= "## "@ + "Next"@);
}

/// A journal that Tincan wrote reads back as it was written: each section
/// gives back its bullets, the legacy Decisions and Learnings sections give
/// back theirs (none when they were left out for holding none), and the
/// frontmatter gives back the creation time. This holds when the date and the
/// creation time are one line each and every bullet is one line without
/// surrounding whitespace, as every bullet that a journal update writes is.
#[verifier::rlimit(40)]
#[verifier::spinoff_prover]
pub proof fn lemma_journal_read_back(
    date: Seq<char>,
    created_at: Seq<char>,
    done: Seq<Seq<char>>,
    decisions: Seq<Seq<char>>,
    learnings: Seq<Seq<char>>,
    planned: Seq<Seq<char>>,
    questions: Seq<Seq<char>>,
    next: Seq<Seq<char>>,
)
    requires
        lacks(date, '\n'),
        lacks(created_at, '\n'),
        plain_values(done),
        plain_values(decisions),
        plain_values(learnings),
        plain_values(planned),
        plain_values(questions),
        plain_values(next),
    ensures
        ({
            let text = rendered_journal(date, created_at, done, decisions, learnings, planned, questions, next);
            &&& bullets_in(text, "## Done"@) == done
            &&& bullets_in(text, "## Decisions"@) == decisions
            &&& bullets_in(text, "## Learnings"@) == learnings
            &&& bullets_in(text, "## Planned"@) == planned
            &&& bullets_in(text, "## Open questions"@) == questions
            &&& bullets_in(text, "## Next"@) == next
            &&& scalar_value(text, "created_at"@) == Some(created_at)
        }),
{
    let text = rendered_journal(date, created_at, done, decisions, learnings, planned, questions, next);
    lemma_journal_lines(date, created_at, done, decisions, learnings, planned, questions, next);
    lemma_names_differ();
    lemma_headings();
    let rh = read_head(date, created_at);
    let sd = section_text_lines("Done"@, done);
    let ld = legacy_lines("Decisions"@, decisions);
    let ll = legacy_lines("Learnings"@, learnings);
    let sp = section_text_lines("Planned"@, planned);
    let sq = section_text_lines("Open questions"@, questions);
    let sn = section_text_lines("Next"@, next);
    let all = lines(text);
    assert(all == rh + sd + ld + ll + sp + sq + sn);
    assert(all =~= rh + (sd + ld + ll + sp + sq + sn));
    lemma_read_created(text, date, created_at, sd + ld + ll + sp + sq + sn);
    // Next
    lemma_read_head_without(date, created_at, "Next"@);
    lemma_section_without("Done"@, done, "Next"@);
    lemma_section_without("Decisions"@, decisions, "Next"@);
    lemma_section_without("Learnings"@, learnings, "Next"@);
    lemma_section_without("Planned"@, planned, "Next"@);
    lemma_section_without("Open questions"@, questions, "Next"@);
    lemma_without_line_concat(rh, sd, "## "@ + "Next"@);
    lemma_without_line_concat(rh + sd, ld, "## "@ + "Next"@);
    lemma_without_line_concat(rh + sd + ld, ll, "## "@ + "Next"@);
    lemma_without_line_concat(rh + sd + ld + ll, sp, "## "@ + "Next"@);
    lemma_without_line_concat(rh + sd + ld + ll + sp, sq, "## "@ + "Next"@);
    assert(all =~= rh + sd + ld + ll + sp + sq + sn + Seq::<Seq<char>>::empty());
    lemma_read_section_in(text, rh + sd + ld + ll + sp + sq, "Next"@, next, Seq::<Seq<char>>::empty());
    // Open questions
    lemma_read_head_without(date, created_at, "Open questions"@);
    lemma_section_without("Done"@, done, "Open questions"@);
    lemma_section_without("Decisions"@, decisions, "Open questions"@);
    lemma_section_without("Learnings"@, learnings, "Open questions"@);
    lemma_section_without("Planned"@, planned, "Open questions"@);
    lemma_without_line_concat(rh, sd, "## "@ + "Open questions"@);
    lemma_without_line_concat(rh + sd, ld, "## "@ + "Open questions"@);
    lemma_without_line_concat(rh + sd + ld, ll, "## "@ + "Open questions"@);
    lemma_without_line_concat(rh + sd + ld + ll, sp, "## "@ + "Open questions"@);
    lemma_section_then("Next"@, next, Seq::<Seq<char>>::empty(), "Open questions"@);
    assert(sn + Seq::<Seq<char>>::empty() =~= sn);
    lemma_read_section_in(text, rh + sd + ld + ll + sp, "Open questions"@, questions, sn);
    // Planned
    lemma_read_head_without(date, created_at, "Planned"@);
    lemma_section_without("Done"@, done, "Planned"@);
    lemma_section_without("Decisions"@, decisions, "Planned"@);
    lemma_section_without("Learnings"@, learnings, "Planned"@);
    lemma_without_line_concat(rh, sd, "## "@ + "Planned"@);
    lemma_without_line_concat(rh + sd, ld, "## "@ + "Planned"@);
    lemma_without_line_concat(rh + sd + ld, ll, "## "@ + "Planned"@);
    lemma_section_then("Open questions"@, questions, sn, "Planned"@);
    assert(all =~= rh + sd + ld + ll + sp + (sq + sn));
    lemma_read_section_in(text, rh + sd + ld + ll, "Planned"@, planned, sq + sn);
    // Done
    lemma_read_head_without(date, created_at, "Done"@);
    lemma_section_then("Planned"@, planned, sq + sn, "Done"@);
    lemma_legacy_then("Learnings"@, learnings, sp + (sq + sn), "Done"@);
    lemma_legacy_then("Decisions"@, decisions, ll + (sp + (sq + sn)), "Done"@);
    assert(all =~= rh + sd + (ld + (ll + (sp + (sq + sn)))));
    lemma_read_section_in(text, rh, "Done"@, done, ld + (ll + (sp + (sq + sn))));
    // Decisions
    lemma_read_head_without(date, created_at, "Decisions"@);
    lemma_section_without("Done"@, done, "Decisions"@);
    lemma_without_line_concat(rh, sd, "## "@ + "Decisions"@);
    lemma_section_then("Planned"@, planned, sq + sn, "Decisions"@);
    lemma_legacy_then("Learnings"@, learnings, sp + (sq + sn), "Decisions"@);
    if decisions.len() > 0 {
        assert(all =~= rh + sd + ld + (ll + (sp + (sq + sn))));
        lemma_read_section_in(text, rh + sd, "Decisions"@, decisions, ll + (sp + (sq + sn)));
    } else {
        lemma_section_without("Learnings"@, learnings, "Decisions"@);
        lemma_section_without("Planned"@, planned, "Decisions"@);
        lemma_section_without("Open questions"@, questions, "Decisions"@);
        lemma_section_without("Next"@, next, "Decisions"@);
        assert(ld =~= Seq::<Seq<char>>::empty());
        lemma_without_line_concat(rh + sd, ll, "## "@ + "Decisions"@);
        lemma_without_line_concat(rh + sd + ll, sp, "## "@ + "Decisions"@);
        lemma_without_line_concat(rh + sd + ll + sp, sq, "## "@ + "Decisions"@);
        lemma_without_line_concat(rh + sd + ll + sp + sq, sn, "## "@ + "Decisions"@);
        assert(all =~= rh + sd + ll + sp + sq + sn);
        lemma_read_absent(text, "## "@ + "Decisions"@);
    }
    // Learnings
    lemma_read_head_without(date, created_at, "Learnings"@);
    lemma_section_without("Done"@, done, "Learnings"@);
    lemma_section_without("Decisions"@, decisions, "Learnings"@);
    lemma_without_line_concat(rh, sd, "## "@ + "Learnings"@);
    lemma_without_line_concat(rh + sd, ld, "## "@ + "Learnings"@);
    lemma_section_then("Planned"@, planned, sq + sn, "Learnings"@);
    if learnings.len() > 0 {
        assert(all =~= rh + sd + ld + ll + (sp + (sq + sn)));
        lemma_read_section_in(text, rh + sd + ld, "Learnings"@, learnings, sp + (sq + sn));
    } else {
        lemma_section_without("Planned"@, planned, "Learnings"@);
        lemma_section_without("Open questions"@, questions, "Learnings"@);
        lemma_section_without("Next"@, next, "Learnings"@);
        assert(ll =~= Seq::<Seq<char>>::empty());
        lemma_without_line_concat(rh + sd + ld, sp, "## "@ + "Learnings"@);
        lemma_without_line_concat(rh + sd + ld + sp, sq, "## "@ + "Learnings"@);
        lemma_without_line_concat(rh + sd + ld + sp + sq, sn, "## "@ + "Learnings"@);
        assert(all =~= rh + sd + ld + sp + sq + sn);
        lemma_read_absent(text, "## "@ + "Learnings"@);
    }
}

// ---------------------------------------------------------------------------
// Repeating an update
// ---------------------------------------------------------------------------

pub(crate) proof fn lemma_lines_lack(s: Seq<char>)
    ensures
        forall|i: int| 0 <= i < lines(s).len() ==> lacks(#[trigger] lines(s)[i], '\n'),
    decreases s.len(),
{
    if s.len() > 0 {
        lemma_find_char(s, '\n');
        let i = find_char(s, '\n');
        if i < s.len() {
            lemma_lines_lack(s.skip(i + 1));
            let first = strip_cr(s.take(i));
            assert forall|k: int| 0 <= k < first.len() implies first[k] != '\n' by {
                assert(first[k] == s[k]);
            }
            let l = lines(s);
            assert(l == seq![first] + lines(s.skip(i + 1)));
            assert forall|k: int| 0 <= k < l.len() implies lacks(#[trigger] l[k], '\n') by {
                if k > 0 {
                    assert(l[k] == lines(s.skip(i + 1))[k - 1]);
                }
            }
        } else {
            assert(lines(s) == seq![s]);
        }
    }
}

proof fn lemma_trim_start_shape(s: Seq<char>)
    ensures
        trim_start(s).len() <= s.len(),
        trim_start(s) == s.skip(s.len() - trim_start(s).len()),
        trim_start(s).len() > 0 ==> !is_ws(trim_start(s)[0]),
    decreases s.len(),
{
    if s.len() > 0 && is_ws(s[0]) {
        lemma_trim_start_shape(s.drop_first());
        let k = s.drop_first().len() - trim_start(s.drop_first()).len();
        assert(s.drop_first().skip(k) =~= s.skip(k + 1));
    } else {
        assert(s.skip(0) =~= s);
    }
}

proof fn lemma_trim_end_shape(s: Seq<char>)
    ensures
        trim_end(s).len() <= s.len(),
        trim_end(s) == s.take(trim_end(s).len() as int),
        trim_end(s).len() > 0 ==> !is_ws(trim_end(s).last()),
    decreases s.len(),
{
    if s.len() > 0 && is_ws(s.last()) {
        lemma_trim_end_shape(s.drop_last());
        let k = trim_end(s.drop_last()).len() as int;
        assert(s.drop_last().take(k) =~= s.take(k));
    } else {
        assert(s.take(s.len() as int) =~= s);
    }
}

/// Trimming twice trims once, and trimming keeps a line one line.
proof fn lemma_trim_plain(s: Seq<char>)
    ensures
        trim(trim(s)) == trim(s),
        lacks(s, '\n') ==> lacks(trim(s), '\n'),
{
    let ts = trim_start(s);
    lemma_trim_start_shape(s);
    lemma_trim_end_shape(ts);
    let t = trim(s);
    let a = s.len() - ts.len();
    if lacks(s, '\n') {
        assert forall|k: int| 0 <= k < t.len() implies t[k] != '\n' by {
            assert(t[k] == ts[k]);
            assert(ts[k] == s[a + k]);
        }
    }
    if t.len() > 0 {
        assert(t[0] == ts[0]);
        assert(!is_ws(t[0]));
        assert(!is_ws(t.last()));
        assert(trim_start(t) == t);
        assert(trim_end(t) == t);
    } else {
        assert(trim_start(t) == t);
        assert(trim_end(t) == t);
    }
}

proof fn lemma_section_bullets_plain(ls: Seq<Seq<char>>, heading: Seq<char>)
    requires
        forall|i: int| 0 <= i < ls.len() ==> lacks(#[trigger] ls[i], '\n'),
    ensures
        plain_values(section_bullets(ls, heading)),
    decreases ls.len(),
{
    if ls.len() > 0 {
        let rest = ls.drop_first();
        assert forall|i: int| 0 <= i < rest.len() implies lacks(#[trigger] rest[i], '\n') by {
            assert(rest[i] == ls[i + 1]);
        }
        lemma_section_bullets_plain(rest, heading);
        if ls[0] != heading && !has_prefix(ls[0], "## "@) && has_prefix(ls[0], "- "@) {
            reveal_strlit("- ");
            let x = ls[0].skip(2);
            assert(lacks(ls[0], '\n'));
            assert forall|k: int| 0 <= k < x.len() implies x[k] != '\n' by {
                assert(x[k] == ls[0][k + 2]);
            }
            lemma_trim_plain(x);
            let out = section_bullets(ls, heading);
            let tail = section_bullets(rest, heading);
            assert(out == seq![trim(x)] + tail);
            assert forall|i: int| 0 <= i < out.len() implies plain_value(#[trigger] out[i]) by {
                if i > 0 {
                    assert(out[i] == tail[i - 1]);
                }
            }
        }
    }
}

/// Every bullet read from any text is plain.
proof fn lemma_bullets_in_plain(text: Seq<char>, heading: Seq<char>)
    ensures
        plain_values(bullets_in(text, heading)),
{
    let ls = lines(text);
    lemma_lines_lack(text);
    lemma_index_of_line(ls, heading);
    let i = index_of_line(ls, heading);
    if i < ls.len() {
        let t = ls.skip(i + 1);
        assert forall|k: int| 0 <= k < t.len() implies lacks(#[trigger] t[k], '\n') by {
            assert(t[k] == ls[i + 1 + k]);
        }
        lemma_section_bullets_plain(t, heading);
    }
}

/// Every given bullet is one line once trimmed.
pub open spec fn single_line_bullets(values: Seq<Seq<char>>) -> bool {
    forall|i: int| 0 <= i < values.len() ==> lacks(trim(#[trigger] values[i]), '\n')
}

proof fn lemma_cleaned_plain(values: Seq<Seq<char>>)
    requires
        single_line_bullets(values),
    ensures
        plain_values(cleaned(values)),
    decreases values.len(),
{
    if values.len() > 0 {
        let d = values.drop_last();
        assert forall|i: int| 0 <= i < d.len() implies lacks(trim(#[trigger] d[i]), '\n') by {
            assert(d[i] == values[i]);
        }
        lemma_cleaned_plain(d);
        let x = values.last();
        assert(lacks(trim(values[values.len() - 1]), '\n'));
        lemma_trim_plain(x);
        let c = cleaned(d);
        if trim(x).len() > 0 {
            assert forall|i: int| 0 <= i < c.push(trim(x)).len() implies plain_value(#[trigger] c.push(trim(x))[i]) by {
                if i < c.len() {
                    assert(c.push(trim(x))[i] == c[i]);
                }
            }
        }
    }
}

proof fn lemma_plain_members(vs: Seq<Seq<char>>, a: Seq<Seq<char>>, b: Seq<Seq<char>>)
    requires
        plain_values(a),
        plain_values(b),
        forall|x: Seq<char>| #[trigger] vs.contains(x) ==> a.contains(x) || b.contains(x),
    ensures
        plain_values(vs),
{
    assert forall|i: int| 0 <= i < vs.len() implies plain_value(#[trigger] vs[i]) by {
        let x = vs[i];
        assert(vs.contains(x));
        if a.contains(x) {
            let k = choose|k: int| 0 <= k < a.len() && a[k] == x;
            assert(plain_value(a[k]));
        } else {
            let k = choose|k: int| 0 <= k < b.len() && b[k] == x;
            assert(plain_value(b[k]));
        }
    }
}

proof fn lemma_replace_all_lacks(s: Seq<char>, pat: Seq<char>, rep: Seq<char>)
    requires
        lacks(s, '\n'),
        lacks(rep, '\n'),
    ensures
        lacks(replace_all(s, pat, rep), '\n'),
    decreases s.len(),
{
    if pat.len() == 0 || s.len() < pat.len() {
    } else if s.take(pat.len() as int) == pat {
        let rest = s.skip(pat.len() as int);
        assert forall|k: int| 0 <= k < rest.len() implies rest[k] != '\n' by {
            assert(rest[k] == s[k + pat.len()]);
        }
        lemma_replace_all_lacks(rest, pat, rep);
        lemma_join_lacks(rep, replace_all(rest, pat, rep));
    } else {
        let rest = s.drop_first();
        assert forall|k: int| 0 <= k < rest.len() implies rest[k] != '\n' by {
            assert(rest[k] == s[k + 1]);
        }
        lemma_replace_all_lacks(rest, pat, rep);
        lemma_join_lacks(seq![s[0]], replace_all(rest, pat, rep));
    }
}

/// A frontmatter value is one line.
proof fn lemma_scalar_lacks(text: Seq<char>, key: Seq<char>)
    ensures
        scalar_value(text, key) matches Some(v) ==> lacks(v, '\n'),
{
    let ls = lines(text);
    lemma_lines_lack(text);
    let fm = fm_lines(text);
    assert forall|i: int| 0 <= i < fm.len() implies lacks(#[trigger] fm[i], '\n') by {
        if ls.len() > 0 && ls[0] == "---"@ {
            let rest = ls.drop_first();
            let k = index_of_line(rest, "---"@);
            lemma_index_of_line(rest, "---"@);
            assert(fm == rest.take(k));
            assert(fm[i] == ls[i + 1]);
        }
    }
    let p = key + ":"@;
    lemma_index_of_prefixed(fm, p);
    let i = index_of_prefixed(fm, p);
    if i < fm.len() {
        let x = fm[i].skip(p.len() as int);
        assert forall|k: int| 0 <= k < x.len() implies x[k] != '\n' by {
            assert(x[k] == fm[i][k + p.len()]);
        }
        lemma_trim_plain(x);
        let t = trim(x);
        let q = strip_quotes(t);
        assert forall|k: int| 0 <= k < q.len() implies q[k] != '\n' by {
            if t.len() >= 2 && t[0] == '"' && t.last() == '"' {
                assert(q[k] == t[k + 1]);
            }
        }
        lemma_replace_all_lacks(q, seq!['\\', '"'], seq!['"']);
        lemma_replace_all_lacks(replace_all(q, seq!['\\', '"'], seq!['"']), seq!['\\', '\\'], seq!['\\']);
    }
}

/// The creation time a merge writes: the one already in the journal, or the
/// given one.
pub open spec fn kept_created(existing: Seq<char>, created_at: Seq<char>) -> Seq<char> {
    match scalar_value(existing, "created_at"@) {
        Some(c) => c,
        None => created_at,
    }
}

/// Repeating a journal update adds nothing: merging the same bullets into the
/// journal that a first merge wrote, at any later time, gives that journal
/// back (it keeps the creation time it already holds) and counts no bullet
/// as added. This holds when the date is one line, the first creation time is
/// one line where the journal had none, and every given bullet is one line
/// once trimmed (a bullet holding a line break reads back as another bullet).
#[verifier::rlimit(40)]
#[verifier::spinoff_prover]
pub proof fn lemma_journal_update_repeat(
    existing: Seq<char>,
    date: Seq<char>,
    created_at: Seq<char>,
    later_created_at: Seq<char>,
    new_done: Seq<Seq<char>>,
    new_planned: Seq<Seq<char>>,
    new_questions: Seq<Seq<char>>,
    new_next: Seq<Seq<char>>,
)
    requires
        lacks(date, '\n'),
        scalar_value(existing, "created_at"@) is None ==> lacks(created_at, '\n'),
        single_line_bullets(new_done),
        single_line_bullets(new_planned),
        single_line_bullets(new_questions),
        single_line_bullets(new_next),
    ensures
        ({
            let first = merged_content(existing, date, created_at, new_done, new_planned, new_questions, new_next);
            &&& merged_content(first, date, later_created_at, new_done, new_planned, new_questions, new_next)
                == first
            &&& merged_added(first, new_done, new_planned, new_questions, new_next) == 0
        }),
{
    let ed = bullets_in(existing, "## Done"@);
    let ep = bullets_in(existing, "## Planned"@);
    let eq = bullets_in(existing, "## Open questions"@);
    let en = bullets_in(existing, "## Next"@);
    let dec = bullets_in(existing, "## Decisions"@);
    let learn = bullets_in(existing, "## Learnings"@);
    lemma_bullets_in_plain(existing, "## Done"@);
    lemma_bullets_in_plain(existing, "## Planned"@);
    lemma_bullets_in_plain(existing, "## Open questions"@);
    lemma_bullets_in_plain(existing, "## Next"@);
    lemma_bullets_in_plain(existing, "## Decisions"@);
    lemma_bullets_in_plain(existing, "## Learnings"@);
    let cd = cleaned(new_done);
    let cp = cleaned(new_planned);
    let cq = cleaned(new_questions);
    let cn = cleaned(new_next);
    lemma_cleaned_plain(new_done);
    lemma_cleaned_plain(new_planned);
    lemma_cleaned_plain(new_questions);
    lemma_cleaned_plain(new_next);
    let m = merged_from(existing, new_done, new_planned, new_questions, new_next);
    assert(m == merged_lists(ed, ep, eq, en, new_done, new_planned, new_questions, new_next));
    lemma_appended_members(ed, cd);
    lemma_plain_members(m.0, ed, cd);
    lemma_appended_members(ep, cp);
    lemma_plain_members(m.1, ep, cp);
    lemma_appended_members(eq, cq);
    lemma_plain_members(m.2, eq, cq);
    let w = without(en, cd);
    lemma_without_members(en, cd);
    lemma_plain_members(w, en, en);
    lemma_appended_unless_members(w, cn, m.0);
    lemma_plain_members(m.3, w, cn);
    let created = kept_created(existing, created_at);
    lemma_scalar_lacks(existing, "created_at"@);
    assert(lacks(created, '\n'));
    let first = merged_content(existing, date, created_at, new_done, new_planned, new_questions, new_next);
    assert(first == rendered_journal(date, created, m.0, dec, learn, m.1, m.2, m.3));
    lemma_journal_read_back(date, created, m.0, dec, learn, m.1, m.2, m.3);
    lemma_merge_idempotent(ed, ep, eq, en, new_done, new_planned, new_questions, new_next);
    assert(merged_from(first, new_done, new_planned, new_questions, new_next) == m);
}

} // verus!
