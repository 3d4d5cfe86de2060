//! Reading the YAML frontmatter and the Markdown body of a record.
use vstd::prelude::*;
use crate::text::{lacks, trim, lines, has_prefix, replace_all, join, views, chars_of, to_vec, same, text_is, trim_chars, starts_with, skip, slice_of, lines_of, replace, join_with};
use crate::util::{escaped, escape_char, quoted};
use crate::lines::{index_of_line, index_of_prefixed, lemma_index_of_line, lemma_index_of_prefixed, find_line, find_prefixed, lines_between};

verus! {

/// `v` without the double quotes around it, when it has both.
pub open spec fn strip_quotes(v: Seq<char>) -> Seq<char> {
    if v.len() >= 2 && v[0] == '"' && v.last() == '"' {
        v.subrange(1, v.len() - 1)
    } else {
        v
    }
}

/// A frontmatter value as written by `yaml_string`, read back: surrounding
/// quotes removed, then `\"` and `\\` unescaped (in that order).
pub open spec fn unquoted(v: Seq<char>) -> Seq<char> {
    replace_all(
        replace_all(strip_quotes(v), seq!['\\', '"'], seq!['"']),
        seq!['\\', '\\'],
        seq!['\\'],
    )
}

/// Reads a frontmatter value back from its quoted form.
pub fn unquote(v: &[char]) -> (out: Vec<char>)
    ensures
        out@ == unquoted(v@),
{
    let inner = if v.len() >= 2 && v[0] == '"' && v[v.len() - 1] == '"' {
        slice_of(v, 1, v.len() - 1)
    } else {
        to_vec(v)
    };
    let once = replace(inner.as_slice(), &['\\', '"'], &['"']);
    assert(['\\', '"']@ =~= seq!['\\', '"']);
    assert(['"']@ =~= seq!['"']);
    let twice = replace(once.as_slice(), &['\\', '\\'], &['\\']);
    assert(['\\', '\\']@ =~= seq!['\\', '\\']);
    assert(['\\']@ =~= seq!['\\']);
    twice
}

/// The frontmatter lines: those after an opening `---` line and before the
/// next `---` line (all remaining lines when it never comes). Text that does
/// not open with `---` has none.
pub open spec fn fm_lines(text: Seq<char>) -> Seq<Seq<char>> {
    let ls = lines(text);
    if ls.len() > 0 && ls[0] == "---"@ {
        let rest = ls.drop_first();
        rest.take(index_of_line(rest, "---"@))
    } else {
        seq![]
    }
}

/// The frontmatter lines of `text`.
pub fn frontmatter_lines(text: &[char]) -> (out: Vec<Vec<char>>)
    ensures
        views(out@) == fm_lines(text@),
{
    let ls = lines_of(text);
    let marker = chars_of("---");
    if ls.len() > 0 && same(ls[0].as_slice(), marker.as_slice()) {
        let end = find_line(&ls, 1, marker.as_slice());
        proof {
            let rest = lines(text@).drop_first();
            assert(views(ls@).skip(1) =~= rest);
            lemma_index_of_line(rest, "---"@);
        }
        let out = lines_between(&ls, 1, end);
        let ghost rest = lines(text@).drop_first();
        assert(views(out@) =~= rest.take(index_of_line(rest, "---"@)));
        out
    } else {
        Vec::new()
    }
}

/// The value of frontmatter key `key`: the first frontmatter line starting
/// with `key:`, with that prefix removed, trimmed and unquoted.
pub open spec fn scalar_value(text: Seq<char>, key: Seq<char>) -> Option<Seq<char>> {
    let fm = fm_lines(text);
    let p = key + ":"@;
    let i = index_of_prefixed(fm, p);
    if i < fm.len() {
        Some(unquoted(trim(fm[i].skip(p.len() as int))))
    } else {
        None
    }
}

/// The value of frontmatter key `key`, if present.
pub fn scalar(text: &[char], key: &str) -> (r: Option<Vec<char>>)
    ensures
        match scalar_value(text@, key@) {
            Some(v) => r is Some && r->0@ == v,
            None => r is None,
        },
{
    let fm = frontmatter_lines(text);
    let mut p = chars_of(key);
    p.push(':');
    proof {
        reveal_strlit(":");
        assert(p@ =~= key@ + ":"@);
        assert(views(fm@).skip(0) =~= views(fm@));
        lemma_index_of_prefixed(views(fm@), p@);
    }
    let i = find_prefixed(&fm, 0, p.as_slice());
    if i < fm.len() {
        let rest = skip(fm[i].as_slice(), p.len());
        let t = trim_chars(rest.as_slice());
        assert(views(fm@)[i as int] == fm@[i as int]@);
        Some(unquote(t.as_slice()))
    } else {
        None
    }
}

/// The items of a frontmatter list, read from the lines after its key line:
/// `  - value` lines give their unquoted values, repeated key lines are passed
/// over, and any other line ends the list.
pub open spec fn list_items_after(ls: Seq<Seq<char>>, marker: Seq<char>) -> Seq<Seq<char>>
    decreases ls.len(),
{
    if ls.len() == 0 {
        seq![]
    } else if ls[0] == marker {
        list_items_after(ls.drop_first(), marker)
    } else if has_prefix(ls[0], "  - "@) {
        seq![unquoted(trim(ls[0].skip(4)))] + list_items_after(ls.drop_first(), marker)
    } else {
        seq![]
    }
}

/// The values of frontmatter list `key` (empty when the list is absent).
pub open spec fn list_value(text: Seq<char>, key: Seq<char>) -> Seq<Seq<char>> {
    let fm = fm_lines(text);
    let marker = key + ":"@;
    let i = index_of_line(fm, marker);
    if i < fm.len() {
        list_items_after(fm.skip(i + 1), marker)
    } else {
        seq![]
    }
}

/// The values of frontmatter list `key`.
pub fn yaml_list(text: &[char], key: &str) -> (out: Vec<Vec<char>>)
    ensures
        views(out@) == list_value(text@, key@),
{
    let fm = frontmatter_lines(text);
    let mut marker = chars_of(key);
    marker.push(':');
    proof {
        reveal_strlit(":");
        assert(marker@ =~= key@ + ":"@);
        assert(views(fm@).skip(0) =~= views(fm@));
        lemma_index_of_line(views(fm@), marker@);
    }
    let i = find_line(&fm, 0, marker.as_slice());
    let mut out: Vec<Vec<char>> = Vec::new();
    if i >= fm.len() {
        return out;
    }
    let item = chars_of("  - ");
    proof {
        reveal_strlit("  - ");
    }
    let mut j = i + 1;
    let ghost all = views(fm@);
    assert(all.skip(j as int) =~= all.skip(i + 1));
    while j < fm.len()
        invariant
            i < j <= fm.len(),
            all == views(fm@),
            item@ == "  - "@,
            item@.len() == 4,
            list_value(text@, key@) == list_items_after(all.skip(i + 1), marker@),
            list_items_after(all.skip(i + 1), marker@) == views(out@) + list_items_after(
                all.skip(j as int),
                marker@,
            ),
        decreases fm.len() - j,
    {
        assert(all.skip(j as int)[0] == fm@[j as int]@);
        assert(all.skip(j as int).drop_first() =~= all.skip(j + 1));
        if same(fm[j].as_slice(), marker.as_slice()) {
            j = j + 1;
        } else if starts_with(fm[j].as_slice(), item.as_slice()) {
            let rest = skip(fm[j].as_slice(), item.len());
            let t = trim_chars(rest.as_slice());
            let v = unquote(t.as_slice());
            let ghost before = views(out@);
            out.push(v);
            assert(views(out@) =~= before + seq![v@]);
            j = j + 1;
        } else {
            assert(list_items_after(all.skip(j as int), marker@) == Seq::<Seq<char>>::empty());
            assert(views(out@) + Seq::<Seq<char>>::empty() =~= views(out@));
            return out;
        }
    }
    assert(all.skip(j as int).len() == 0);
    assert(views(out@) + Seq::<Seq<char>>::empty() =~= views(out@));
    out
}

/// The Markdown body: text after the closing `---` of the frontmatter, its
/// lines joined with `\n`; the whole text when it does not open with `---`;
/// nothing when the frontmatter is never closed.
pub open spec fn body_of(text: Seq<char>) -> Seq<char> {
    let ls = lines(text);
    if ls.len() == 0 || ls[0] != "---"@ {
        text
    } else {
        let rest = ls.drop_first();
        let k = index_of_line(rest, "---"@);
        if k < rest.len() {
            join(rest.skip(k + 1), "\n"@)
        } else {
            seq![]
        }
    }
}

/// The Markdown body of `text`.
pub fn markdown_body(text: &[char]) -> (out: Vec<char>)
    ensures
        out@ == body_of(text@),
{
    let ls = lines_of(text);
    let marker = chars_of("---");
    if ls.len() == 0 || !same(ls[0].as_slice(), marker.as_slice()) {
        return to_vec(text);
    }
    let k = find_line(&ls, 1, marker.as_slice());
    proof {
        let rest = lines(text@).drop_first();
        assert(views(ls@).skip(1) =~= rest);
        lemma_index_of_line(rest, "---"@);
    }
    if k < ls.len() {
        let after = lines_between(&ls, k + 1, ls.len());
        let nl = chars_of("\n");
        let ghost rest = lines(text@).drop_first();
        assert(views(after@) =~= rest.skip(k - 1 + 1));
        join_with(&after, nl.as_slice())
    } else {
        Vec::new()
    }
}

/// The H1 heading of a body: the text after `# ` on the first line starting
/// with `# `, trimmed, when that is not empty.
pub open spec fn heading_of(body: Seq<char>) -> Option<Seq<char>> {
    let ls = lines(body);
    let i = index_of_prefixed(ls, "# "@);
    if i < ls.len() && trim(ls[i].skip(2)).len() > 0 {
        Some(trim(ls[i].skip(2)))
    } else {
        None
    }
}

/// The H1 heading of `body`, if it has a non-empty one.
pub fn heading(body: &[char]) -> (r: Option<Vec<char>>)
    ensures
        match heading_of(body@) {
            Some(h) => r is Some && r->0@ == h,
            None => r is None,
        },
{
    let ls = lines_of(body);
    let p = chars_of("# ");
    proof {
        reveal_strlit("# ");
        assert(views(ls@).skip(0) =~= views(ls@));
        lemma_index_of_prefixed(views(ls@), p@);
    }
    let i = find_prefixed(&ls, 0, p.as_slice());
    if i < ls.len() {
        assert(views(ls@)[i as int] == ls@[i as int]@);
        let rest = skip(ls[i].as_slice(), 2);
        let t = trim_chars(rest.as_slice());
        if t.len() > 0 {
            return Some(t);
        }
    }
    None
}

/// `s` with each backslash doubled and nothing else changed.
pub open spec fn doubled_backslashes(s: Seq<char>) -> Seq<char>
    decreases s.len(),
{
    if s.len() == 0 {
        seq![]
    } else {
        (if s[0] == '\\' {
            seq!['\\', '\\']
        } else {
            seq![s[0]]
        }) + doubled_backslashes(s.drop_first())
    }
}

/// Escaped text never begins with a bare double quote.
proof fn lemma_escaped_head(s: Seq<char>)
    ensures
        escaped(s).len() == 0 || escaped(s)[0] != '"',
        escaped(s).len() == 0 <==> s.len() == 0,
{
}

/// Undoing the quote escapes of escaped text leaves only the backslashes doubled.
proof fn lemma_unescape_quotes(s: Seq<char>)
    requires
        lacks(s, '\n'),
    ensures
        replace_all(escaped(s), seq!['\\', '"'], seq!['"']) == doubled_backslashes(s),
    decreases s.len(),
{
    if s.len() > 0 {
        let c = s[0];
        let rest = s.drop_first();
        let e = escaped(rest);
        let pat = seq!['\\', '"'];
        assert(lacks(rest, '\n')) by {
            assert forall|i: int| 0 <= i < rest.len() implies rest[i] != '\n' by {
                assert(rest[i] == s[i + 1]);
            }
        }
        lemma_unescape_quotes(rest);
        lemma_escaped_head(rest);
        let x = escape_char(c) + e;
        assert(escaped(s) == x);
        if c == '\\' {
            assert(x.take(2) != pat) by {
                assert(x.take(2)[1] == '\\');
            }
            assert(x.drop_first() =~= seq!['\\'] + e);
            let y = x.drop_first();
            if e.len() > 0 {
                assert(y.take(2) != pat) by {
                    assert(y.take(2)[1] == e[0]);
                }
                assert(y.drop_first() =~= e);
                assert(replace_all(y, pat, seq!['"']) == seq![y[0]] + replace_all(e, pat, seq!['"']));
            } else {
                assert(replace_all(y, pat, seq!['"']) == y);
            }
            assert(replace_all(x, pat, seq!['"']) =~= doubled_backslashes(s));
        } else if c == '"' {
            assert(x.take(2) =~= pat);
            assert(x.skip(2) =~= e);
            assert(replace_all(x, pat, seq!['"']) =~= doubled_backslashes(s));
        } else {
            assert(c != '\n');
            assert(x =~= seq![c] + e);
            if e.len() > 0 {
                assert(x.take(2) != pat) by {
                    assert(x.take(2)[0] == c);
                }
                assert(x.drop_first() =~= e);
            }
            assert(replace_all(x, pat, seq!['"']) =~= doubled_backslashes(s));
        }
    }
}

/// Halving doubled backslashes gives the text back.
proof fn lemma_undouble(s: Seq<char>)
    ensures
        replace_all(doubled_backslashes(s), seq!['\\', '\\'], seq!['\\']) == s,
    decreases s.len(),
{
    if s.len() > 0 {
        let c = s[0];
        let rest = s.drop_first();
        let d = doubled_backslashes(rest);
        let pat = seq!['\\', '\\'];
        lemma_undouble(rest);
        let x = doubled_backslashes(s);
        if c == '\\' {
            assert(x == seq!['\\', '\\'] + d);
            assert(x.take(2) =~= pat);
            assert(x.skip(2) =~= d);
        } else {
            assert(x == seq![c] + d);
            if x.len() >= 2 {
                assert(x.take(2) != pat) by {
                    assert(x.take(2)[0] == c);
                }
                assert(x.drop_first() =~= d);
            } else {
                assert(d.len() == 0) by {
                    if rest.len() > 0 {
                        assert(d.len() > 0);
                    }
                }
                assert(rest =~= Seq::<char>::empty());
            }
        }
        assert(s =~= seq![c] + rest);
    }
}

/// Reading back a value written with `yaml_string` gives the value, for any
/// value without a newline (a newline is written as `\n`, which reading
/// does not undo).
pub proof fn lemma_unquote_quoted(s: Seq<char>)
    requires
        lacks(s, '\n'),
    ensures
        unquoted(quoted(s)) == s,
{
    let q = quoted(s);
    assert(q.subrange(1, q.len() - 1) =~= escaped(s));
    assert(strip_quotes(q) == escaped(s));
    lemma_unescape_quotes(s);
    lemma_undouble(s);
}

} // verus!
