//! The decisions behind `.tincan/` storage that do not touch the disk:
//! configuration and Git-exclude contents, personal storage location,
//! prepared global learnings, and the supersession of decisions.
use vstd::prelude::*;
use crate::text::{
    lines, trim, has_prefix, lacks, join, terminated, views, strs, chars_of, string_of, push_all,
    push_str, same, text_is, trim_chars, starts_with_str, lines_of, starts_with, ends_with, skip,
    lemma_lines_step, lemma_lines_last, lemma_find_char, find_char, is_ws,
};
use crate::document::{Document, DocumentModel, Scope, doc_views, document_error, document_model,
    parse_document, copy_document, opt_view, is_markdown_path, is_markdown_file};
use crate::order::{sort_by_path, sorted_by_path, stable_sorted, by_path, path_le, le_path, lemma_path_le_trans,
    lemma_path_le_total, lemma_path_le_refl};
use crate::lines::{index_of_line, index_of_prefixed, lemma_index_of_line, lemma_index_of_prefixed,
    find_line, find_prefixed};

verus! {

/// The configuration file written by `init`.
pub const CONFIG: &'static str = "# Tincan workspace configuration\nversion = 2\nstorage = \"markdown\"\n";

/// The plan written by `init`.
pub const PLAN: &'static str = "# Plan\n\n## Planned\n\n<!-- none -->\n\n## Ideas\n\n<!-- none -->\n";

/// The Git exclude rule that keeps `.tincan/` private.
pub const EXCLUDE_PATTERN: &'static str = "/.tincan/";

/// Some line of `text`, trimmed, equals `wanted`.
pub open spec fn has_trimmed_line(text: Seq<char>, wanted: Seq<char>) -> bool {
    exists|i: int| 0 <= i < lines(text).len() && trim(#[trigger] lines(text)[i]) == wanted
}

fn any_trimmed_line(text: &[char], wanted: &[char]) -> (r: bool)
    ensures
        r == has_trimmed_line(text@, wanted@),
{
    let ls = lines_of(text);
    let mut i: usize = 0;
    while i < ls.len()
        invariant
            i <= ls.len(),
            views(ls@) == lines(text@),
            forall|k: int| 0 <= k < i ==> trim(#[trigger] lines(text@)[k]) != wanted@,
        decreases ls.len() - i,
    {
        let t = trim_chars(ls[i].as_slice());
        assert(lines(text@)[i as int] == ls@[i as int]@);
        if same(t.as_slice(), wanted) {
            return true;
        }
        i = i + 1;
    }
    false
}

/// Whether a workspace configuration declares the supported storage
/// version: some line, trimmed, reads `version = 2`.
pub fn config_supported(config: &str) -> (r: bool)
    ensures
        r == has_trimmed_line(config@, "version = 2"@),
{
    let text = chars_of(config);
    let wanted = chars_of("version = 2");
    any_trimmed_line(text.as_slice(), wanted.as_slice())
}

/// The exclude file after making sure it holds `pattern` as a line of its
/// own: `None` when some line already reads `pattern` (after trimming),
/// otherwise the old content, a newline if it lacked a final one, the
/// pattern, and a newline.
pub open spec fn excluded(existing: Seq<char>, pattern: Seq<char>) -> Option<Seq<char>> {
    if has_trimmed_line(existing, pattern) {
        None
    } else {
        Some(
            existing + (if existing.len() > 0 && existing.last() != '\n' {
                "\n"@
            } else {
                Seq::<char>::empty()
            }) + pattern + "\n"@,
        )
    }
}

/// The new content of a Git exclude file that must hold `pattern`, or `None`
/// when it already does.
pub fn exclusion_update(existing: &str, pattern: &str) -> (r: Option<String>)
    ensures
        match excluded(existing@, pattern@) {
            Some(t) => r is Some && r->0@ == t,
            None => r is None,
        },
{
    let text = chars_of(existing);
    let p = chars_of(pattern);
    if any_trimmed_line(text.as_slice(), p.as_slice()) {
        return None;
    }
    let mut updated = crate::text::to_vec(text.as_slice());
    if updated.len() > 0 && updated[updated.len() - 1] != '\n' {
        updated.push('\n');
    }
    push_all(&mut updated, p.as_slice());
    updated.push('\n');
    proof {
        reveal_strlit("\n");
    }
    Some(string_of(updated.as_slice()))
}

/// The lines of text ending in a newline, followed by more text, are the
/// lines of the first part followed by those of the rest.
pub proof fn lemma_lines_append(a: Seq<char>, b: Seq<char>)
    requires
        a.len() == 0 || a.last() == '\n',
    ensures
        lines(a + b) == lines(a) + lines(b),
    decreases a.len(),
{
    if a.len() > 0 {
        let s = a + b;
        lemma_find_char(a, '\n');
        let j = find_char(a, '\n');
        assert(j < a.len());
        assert forall|k: int| 0 <= k < j implies s[k] != '\n' by {
            assert(s[k] == a[k]);
        }
        assert(s[j] == '\n');
        lemma_lines_step(s, 0, j);
        lemma_lines_step(a, 0, j);
        assert(s.skip(0) =~= s);
        assert(a.skip(0) =~= a);
        assert(s.subrange(0, j) =~= a.subrange(0, j));
        let a2 = a.skip(j + 1);
        assert(s.skip(j + 1) =~= a2 + b);
        if a2.len() > 0 {
            assert(a2.last() == a.last());
        }
        lemma_lines_append(a2, b);
        assert(lines(a) == seq![strip_cr_of(a, j)] + lines(a2));
    }
}

/// The line of `a` before position `j`, without a final `\r`.
pub open spec fn strip_cr_of(a: Seq<char>, j: int) -> Seq<char> {
    crate::text::strip_cr(a.subrange(0, j))
}

/// Ensuring an exclude rule is idempotent: once the rule was added, asking
/// again changes nothing. This holds for any rule that is a single line with
/// no surrounding whitespace.
pub proof fn lemma_exclusion_idempotent(existing: Seq<char>, pattern: Seq<char>)
    requires
        lacks(pattern, '\n'),
        trim(pattern) == pattern,
        pattern.len() > 0,
        excluded(existing, pattern) is Some,
    ensures
        excluded(excluded(existing, pattern)->0, pattern) is None,
{
    let sep: Seq<char> = if existing.len() > 0 && existing.last() != '\n' {
        "\n"@
    } else {
        Seq::<char>::empty()
    };
    reveal_strlit("\n");
    let a = existing + sep;
    let updated = excluded(existing, pattern)->0;
    assert(updated =~= a + (pattern + seq!['\n']));
    if a.len() > 0 {
        assert(a.last() == '\n');
    }
    lemma_lines_append(a, pattern + seq!['\n']);
    let t = pattern + seq!['\n'];
    assert(t[pattern.len() as int] == '\n');
    assert forall|k: int| 0 <= k < pattern.len() implies t[k] != '\n' by {
        assert(t[k] == pattern[k]);
    }
    lemma_lines_step(t, 0, pattern.len() as int);
    assert(t.skip(0) =~= t);
    assert(t.subrange(0, pattern.len() as int) =~= pattern);
    assert(t.skip(pattern.len() as int + 1) =~= Seq::<char>::empty());
    assert(lines(Seq::<char>::empty()) =~= Seq::<Seq<char>>::empty());
    assert(!is_ws(pattern.last())) by {
        if is_ws(pattern.last()) {
            lemma_trim_end_shortens(crate::text::trim_start(pattern));
            lemma_trim_start_len(pattern);
        }
    }
    assert(crate::text::strip_cr(pattern) == pattern);
    let ls = lines(updated);
    assert(ls == lines(a) + seq![pattern]);
    assert(ls[lines(a).len() as int] == pattern);
    assert(trim(ls[lines(a).len() as int]) == pattern);
}

/// Trimming the start only shortens, keeps text that has nothing to trim,
/// and keeps the last character.
pub proof fn lemma_trim_start_len(s: Seq<char>)
    ensures
        crate::text::trim_start(s).len() <= s.len(),
        crate::text::trim_start(s).len() == s.len() ==> crate::text::trim_start(s) == s,
        s.len() > 0 && crate::text::trim_start(s).len() > 0 ==> crate::text::trim_start(s).last()
            == s.last(),
    decreases s.len(),
{
    if s.len() > 0 && is_ws(s[0]) {
        lemma_trim_start_len(s.drop_first());
        if crate::text::trim_start(s).len() > 0 {
            assert(s.drop_first().last() == s.last());
        }
    }
}

/// Trimming the end never lengthens, and shortens text that ends in
/// whitespace.
pub proof fn lemma_trim_end_shortens(s: Seq<char>)
    ensures
        s.len() > 0 && is_ws(s.last()) ==> crate::text::trim_end(s).len() < s.len(),
        crate::text::trim_end(s).len() <= s.len(),
    decreases s.len(),
{
    if s.len() > 0 && is_ws(s.last()) {
        lemma_trim_end_shortens(s.drop_last());
    }
}

/// A path with one more component (`PathBuf::join` of a relative name): written
/// with `/` unless `base` already ends in `/` (an empty base gives the
/// component alone).
pub open spec fn joined_path(base: Seq<char>, name: Seq<char>) -> Seq<char> {
    if base.len() == 0 {
        name
    } else if base.last() == '/' {
        base + name
    } else {
        base + "/"@ + name
    }
}

/// `base` joined with `name`.
pub fn join_path(base: &str, name: &str) -> (r: String)
    ensures
        r@ == joined_path(base@, name@),
{
    let mut out = chars_of(base);
    if out.len() > 0 && out[out.len() - 1] != '/' {
        push_str(&mut out, "/");
    }
    push_str(&mut out, name);
    string_of(out.as_slice())
}

/// The personal Tincan directory: `TINCAN_HOME` when set, otherwise
/// `.tincan` under the user profile, or else under the home directory.
pub open spec fn personal_root(
    explicit: Option<Seq<char>>,
    user_profile: Option<Seq<char>>,
    home: Option<Seq<char>>,
) -> Option<Seq<char>> {
    match explicit {
        Some(e) => Some(e),
        None => match user_profile {
            Some(p) => Some(joined_path(p, ".tincan"@)),
            None => match home {
                Some(h) => Some(joined_path(h, ".tincan"@)),
                None => None,
            },
        },
    }
}

/// Chooses the personal Tincan directory from the values of `TINCAN_HOME`,
/// `USERPROFILE` and `HOME` (each `None` when unset or empty).
pub fn personal_tincan_root_from(
    explicit: Option<String>,
    user_profile: Option<String>,
    home: Option<String>,
) -> (r: Option<String>)
    ensures
        crate::cli::ov(r) == personal_root(
            crate::cli::ov(explicit),
            crate::cli::ov(user_profile),
            crate::cli::ov(home),
        ),
{
    match explicit {
        Some(e) => Some(e),
        None => match user_profile {
            Some(p) => Some(join_path(p.as_str(), ".tincan")),
            None => match home {
                Some(h) => Some(join_path(h.as_str(), ".tincan")),
                None => None,
            },
        },
    }
}

/// Index of the first line whose trimmed text is not empty, or the length.
pub open spec fn first_nonblank(ls: Seq<Seq<char>>) -> int
    decreases ls.len(),
{
    if ls.len() == 0 {
        0
    } else if trim(ls[0]).len() > 0 {
        0
    } else {
        1 + first_nonblank(ls.drop_first())
    }
}

/// How many lines start with `p`.
pub open spec fn count_prefixed(ls: Seq<Seq<char>>, p: Seq<char>) -> nat
    decreases ls.len(),
{
    if ls.len() == 0 {
        0
    } else {
        count_prefixed(ls.drop_last(), p) + if has_prefix(ls.last(), p) {
            1nat
        } else {
            0nat
        }
    }
}

/// What is wrong with a prepared global learning, if anything: it must be
/// Markdown body only, begin with a non-empty H1, and have exactly one H1.
pub open spec fn global_body_problem(body: Seq<char>) -> Option<Seq<char>> {
    let b = trim(body);
    let ls = lines(b);
    let i = first_nonblank(ls);
    let first = if i < ls.len() {
        ls[i]
    } else {
        seq![]
    };
    if has_prefix(b, "---"@) {
        Some("global learning draft must contain Markdown body only; remove YAML frontmatter"@)
    } else if !has_prefix(first, "# "@) || trim(first.skip(2)).len() == 0 {
        Some("global learning draft must start with a non-empty H1 heading"@)
    } else if count_prefixed(ls, "# "@) != 1 {
        Some("global learning draft must contain exactly one H1 heading"@)
    } else {
        None
    }
}

/// Checks a prepared global learning before it is saved.
pub fn validate_global_learning_body(body: &str) -> (r: Result<(), String>)
    ensures
        match global_body_problem(body@) {
            Some(e) => r is Err && r->Err_0@ == e,
            None => r is Ok,
        },
{
    let raw = chars_of(body);
    let b = trim_chars(raw.as_slice());
    if starts_with_str(b.as_slice(), "---") {
        return Err(string_of(chars_of(
            "global learning draft must contain Markdown body only; remove YAML frontmatter",
        ).as_slice()));
    }
    let ls = lines_of(b.as_slice());
    let mut i: usize = 0;
    assert(views(ls@).skip(0) =~= views(ls@));
    while i < ls.len() && trim_chars(ls[i].as_slice()).len() == 0
        invariant
            i <= ls.len(),
            views(ls@) == lines(b@),
            first_nonblank(views(ls@)) == i + first_nonblank(views(ls@).skip(i as int)),
        decreases ls.len() - i,
    {
        assert(views(ls@).skip(i as int)[0] == ls@[i as int]@);
        assert(views(ls@).skip(i as int).drop_first() =~= views(ls@).skip(i + 1));
        i = i + 1;
    }
    if i < ls.len() {
        assert(views(ls@).skip(i as int)[0] == ls@[i as int]@);
    }
    let first: Vec<char> = if i < ls.len() {
        crate::text::to_vec(ls[i].as_slice())
    } else {
        Vec::new()
    };
    assert(first@ == (if first_nonblank(views(ls@)) < views(ls@).len() {
        views(ls@)[first_nonblank(views(ls@))]
    } else {
        Seq::<char>::empty()
    }));
    proof {
        reveal_strlit("# ");
    }
    if !starts_with_str(first.as_slice(), "# ") || trim_chars(skip(first.as_slice(), 2).as_slice()).len() == 0 {
        return Err(string_of(chars_of(
            "global learning draft must start with a non-empty H1 heading",
        ).as_slice()));
    }
    let mut count: usize = 0;
    let mut k: usize = 0;
    while k < ls.len()
        invariant
            k <= ls.len(),
            count <= k,
            count == count_prefixed(views(ls@).take(k as int), "# "@),
        decreases ls.len() - k,
    {
        assert(views(ls@).take(k + 1).drop_last() =~= views(ls@).take(k as int));
        assert(views(ls@).take(k + 1).last() == ls@[k as int]@);
        if starts_with_str(ls[k].as_slice(), "# ") {
            count = count + 1;
        }
        k = k + 1;
    }
    assert(views(ls@).take(ls.len() as int) =~= views(ls@));
    if count != 1 {
        return Err(string_of(chars_of(
            "global learning draft must contain exactly one H1 heading",
        ).as_slice()));
    }
    Ok(())
}

/// `s` without every leading repetition of `p` (`str::trim_start_matches`).
pub open spec fn strip_repeated(s: Seq<char>, p: Seq<char>) -> Seq<char>
    decreases s.len(),
{
    if p.len() > 0 && has_prefix(s, p) {
        strip_repeated(s.skip(p.len() as int), p)
    } else {
        s
    }
}

/// The supersession list entry for `id`.
pub open spec fn superseded_entry(id: Seq<char>) -> Seq<char> {
    "  - "@ + crate::util::quoted(id)
}

/// The id a supersession list line names.
pub open spec fn entry_id(line: Seq<char>) -> Seq<char> {
    crate::frontmatter::unquoted(trim(strip_repeated(line, "  - "@)))
}

/// Walking the `superseded_by` list from line `j` (the frontmatter ends at
/// `end`): where the list stops, and whether it already names `id`.
pub open spec fn list_scan(ls: Seq<Seq<char>>, j: int, end: int, id: Seq<char>) -> (int, bool)
    decreases end - j,
{
    if j < 0 || j >= end || j >= ls.len() || !has_prefix(ls[j], "  - "@) {
        (j, false)
    } else if entry_id(ls[j]) == id {
        (j, true)
    } else {
        list_scan(ls, j + 1, end, id)
    }
}

/// A decision's text after it is superseded by `id`: its status becomes
/// `superseded` and `id` joins its `superseded_by` list (which is created at
/// the end of the frontmatter when missing), unless the list already names
/// `id`. The body is kept; lines are rejoined with `\n` and a final newline.
pub open spec fn superseded_text(text: Seq<char>, id: Seq<char>) -> Result<Seq<char>, Seq<char>> {
    let ls = lines(text);
    if ls.len() == 0 || ls[0] != "---"@ {
        Err("decision has no YAML frontmatter"@)
    } else {
        let end = 1 + index_of_line(ls.drop_first(), "---"@);
        if end >= ls.len() {
            Err("decision has unterminated YAML frontmatter"@)
        } else {
            let st = index_of_prefixed(ls, "status:"@);
            if st >= end {
                Err("decision has no status field"@)
            } else {
                let ls2 = ls.update(st, "status: \"superseded\""@);
                let mk = index_of_line(ls2, "superseded_by:"@);
                if mk < end {
                    let (k, found) = list_scan(ls2, mk + 1, end, id);
                    if found {
                        Ok(join(ls2, "\n"@) + "\n"@)
                    } else {
                        Ok(join(ls2.insert(k, superseded_entry(id)), "\n"@) + "\n"@)
                    }
                } else {
                    Ok(
                        join(
                            ls2.insert(end, "superseded_by:"@).insert(end + 1, superseded_entry(id)),
                            "\n"@,
                        ) + "\n"@,
                    )
                }
            }
        }
    }
}

fn starts_with_at(s: &[char], i: usize, p: &[char]) -> (r: bool)
    requires
        i <= s.len(),
    ensures
        r == has_prefix(s@.skip(i as int), p@),
{
    let rest = vstd::slice::slice_subrange(s, i, s.len());
    assert(rest@ =~= s@.skip(i as int));
    starts_with(rest, p)
}

fn strip_repeated_exec(s: &[char], p: &[char]) -> (r: Vec<char>)
    ensures
        r@ == strip_repeated(s@, p@),
{
    if p.len() == 0 {
        return crate::text::to_vec(s);
    }
    let mut i: usize = 0;
    assert(s@.skip(0) =~= s@);
    while starts_with_at(s, i, p)
        invariant
            i <= s.len(),
            p@.len() > 0,
            strip_repeated(s@, p@) == strip_repeated(s@.skip(i as int), p@),
        decreases s.len() - i,
    {
        assert(s@.skip(i as int).skip(p@.len() as int) =~= s@.skip(i + p@.len()));
        i = i + p.len();
    }
    skip(s, i)
}

fn entry_names(line: &[char], id: &[char]) -> (r: bool)
    ensures
        r == (entry_id(line@) == id@),
{
    let p = chars_of("  - ");
    let stripped = strip_repeated_exec(line, p.as_slice());
    let t = trim_chars(stripped.as_slice());
    let u = crate::frontmatter::unquote(t.as_slice());
    same(u.as_slice(), id)
}

fn vec_lines_to_text(ls: &Vec<Vec<char>>) -> (r: String)
    ensures
        r@ == join(views(ls@), "\n"@) + "\n"@,
{
    let nl = chars_of("\n");
    let mut out = crate::text::join_with(ls, nl.as_slice());
    out.push('\n');
    proof {
        reveal_strlit("\n");
    }
    string_of(out.as_slice())
}

/// Marks a decision's Markdown as superseded by `replacement_id`, keeping
/// its body unchanged.
pub fn add_supersession(text: &str, replacement_id: &str) -> (r: Result<String, String>)
    requires
        lines(text@).len() + 2 <= usize::MAX,
    ensures
        match superseded_text(text@, replacement_id@) {
            Ok(t) => r is Ok && r->Ok_0@ == t,
            Err(e) => r is Err && r->Err_0@ == e,
        },
{
    let t = chars_of(text);
    let id = chars_of(replacement_id);
    let mut ls = lines_of(t.as_slice());
    let marker = chars_of("---");
    if ls.len() == 0 || !same(ls[0].as_slice(), marker.as_slice()) {
        return Err(string_of(chars_of("decision has no YAML frontmatter").as_slice()));
    }
    let end = find_line(&ls, 1, marker.as_slice());
    proof {
        assert(views(ls@).skip(1) =~= lines(t@).drop_first());
        lemma_index_of_line(lines(t@).drop_first(), "---"@);
    }
    if end >= ls.len() {
        return Err(string_of(chars_of("decision has unterminated YAML frontmatter").as_slice()));
    }
    let status_prefix = chars_of("status:");
    let st = find_prefixed(&ls, 0, status_prefix.as_slice());
    proof {
        assert(views(ls@).skip(0) =~= views(ls@));
        lemma_index_of_prefixed(views(ls@), "status:"@);
    }
    if st >= end {
        return Err(string_of(chars_of("decision has no status field").as_slice()));
    }
    let ghost ls1 = views(ls@);
    ls.set(st, chars_of("status: \"superseded\""));
    assert(views(ls@) =~= ls1.update(st as int, "status: \"superseded\""@));
    let ghost ls2 = views(ls@);
    let mk_line = chars_of("superseded_by:");
    let mk = find_line(&ls, 0, mk_line.as_slice());
    proof {
        assert(views(ls@).skip(0) =~= views(ls@));
        lemma_index_of_line(ls2, "superseded_by:"@);
    }
    let mut entry = chars_of("  - ");
    let q = crate::util::yaml_string(replacement_id);
    push_str(&mut entry, q.as_str());
    assert(entry@ == superseded_entry(id@));
    let item_prefix = chars_of("  - ");
    if mk < end {
        let mut j = mk + 1;
        let ghost scan = list_scan(ls2, mk + 1, end as int, id@);
        assert(superseded_text(text@, replacement_id@) == (if scan.1 {
            Ok::<Seq<char>, Seq<char>>(join(ls2, "\n"@) + "\n"@)
        } else {
            Ok::<Seq<char>, Seq<char>>(join(ls2.insert(scan.0, superseded_entry(id@)), "\n"@) + "\n"@)
        }));
        while j < end && starts_with(ls[j].as_slice(), item_prefix.as_slice())
            invariant
                scan == list_scan(ls2, mk + 1, end as int, id@),
                superseded_text(text@, replacement_id@) == (if scan.1 {
                    Ok::<Seq<char>, Seq<char>>(join(ls2, "\n"@) + "\n"@)
                } else {
                    Ok::<Seq<char>, Seq<char>>(join(ls2.insert(scan.0, superseded_entry(id@)), "\n"@) + "\n"@)
                }),
                mk < j <= end < ls.len(),
                views(ls@) == ls2,
                item_prefix@ == "  - "@,
                list_scan(ls2, mk + 1, end as int, id@) == list_scan(ls2, j as int, end as int, id@),
            decreases end - j,
        {
            if entry_names(ls[j].as_slice(), id.as_slice()) {
                assert(list_scan(ls2, j as int, end as int, id@) == (j as int, true));
                return Ok(vec_lines_to_text(&ls));
            }
            j = j + 1;
        }
        assert(list_scan(ls2, j as int, end as int, id@) == (j as int, false));
        ls.insert(j, entry);
        assert(views(ls@) =~= ls2.insert(j as int, superseded_entry(id@)));
        Ok(vec_lines_to_text(&ls))
    } else {
        ls.insert(end, mk_line);
        let ghost ls3 = views(ls@);
        assert(ls3 =~= ls2.insert(end as int, "superseded_by:"@));
        ls.insert(end + 1, entry);
        assert(views(ls@) =~= ls3.insert(end + 1, superseded_entry(id@)));
        Ok(vec_lines_to_text(&ls))
    }
}

/// The record files of a directory, as paths and contents.
pub open spec fn file_views(files: Seq<(String, String)>) -> Seq<(Seq<char>, Seq<char>)> {
    files.map_values(|f: (String, String)| (f.0@, f.1@))
}

/// Index of the first file that is not a valid record, or the length.
pub open spec fn first_invalid(files: Seq<(Seq<char>, Seq<char>)>) -> int
    decreases files.len(),
{
    if files.len() == 0 {
        0
    } else if document_error(files[0].0, files[0].1) is Some {
        0
    } else {
        1 + first_invalid(files.drop_first())
    }
}

/// The documents that valid record files hold, in file order.
pub open spec fn models_of(files: Seq<(Seq<char>, Seq<char>)>) -> Seq<DocumentModel> {
    files.map_values(|f: (Seq<char>, Seq<char>)| document_model(f.0, f.1))
}

fn parse_all(files: &Vec<(String, String)>) -> (r: Result<Vec<Document>, String>)
    ensures
        ({
            let fs = file_views(files@);
            let i = first_invalid(fs);
            if i < fs.len() {
                r is Err && r->Err_0@ == document_error(fs[i].0, fs[i].1)->0
            } else {
                r is Ok && doc_views(r->Ok_0@) == models_of(fs)
            }
        }),
{
    let ghost fs = file_views(files@);
    let mut out: Vec<Document> = Vec::new();
    let mut i: usize = 0;
    assert(fs.skip(0) =~= fs);
    while i < files.len()
        invariant
            i <= files.len(),
            fs == file_views(files@),
            first_invalid(fs) == i + first_invalid(fs.skip(i as int)),
            doc_views(out@) == models_of(fs).take(i as int),
        decreases files.len() - i,
    {
        assert(fs.skip(i as int)[0] == fs[i as int]);
        assert(fs[i as int] == (files@[i as int].0@, files@[i as int].1@));
        match parse_document(files[i].0.as_str(), files[i].1.as_str()) {
            Err(e) => {
                return Err(e);
            },
            Ok(d) => {
                let ghost prev = doc_views(out@);
                out.push(d);
                assert(doc_views(out@) =~= prev.push(d@));
                assert(models_of(fs).take(i + 1) =~= models_of(fs).take(i as int).push(
                    document_model(fs[i as int].0, fs[i as int].1),
                ));
            },
        }
        assert(fs.skip(i as int).drop_first() =~= fs.skip(i + 1));
        i = i + 1;
    }
    assert(models_of(fs).take(files.len() as int) =~= models_of(fs));
    Ok(out)
}

/// Reads a workspace's record files (the `.md` files of its `decisions`,
/// `learnings` and `journal` directories) into project documents sorted by
/// path, or reports the first file that is not a valid record.
pub fn scan(files: Vec<(String, String)>) -> (r: Result<Vec<Document>, String>)
    ensures
        ({
            let fs = file_views(files@);
            let i = first_invalid(fs);
            if i < fs.len() {
                r is Err && r->Err_0@ == document_error(fs[i].0, fs[i].1)->0
            } else {
                r is Ok && doc_views(r->Ok_0@) == stable_sorted(models_of(fs), by_path())
                    && sorted_by_path(doc_views(r->Ok_0@)) && doc_views(r->Ok_0@).to_multiset()
                    == models_of(fs).to_multiset()
            }
        }),
{
    let documents = parse_all(&files)?;
    Ok(sort_by_path(documents))
}

/// A document as a global learning.
pub open spec fn as_global(m: DocumentModel) -> DocumentModel {
    DocumentModel { scope: Scope::Global, ..m }
}

/// Index of the first document that is not a learning, or the length.
pub open spec fn first_non_learning(docs: Seq<DocumentModel>) -> int
    decreases docs.len(),
{
    if docs.len() == 0 {
        0
    } else if docs[0].kind != "learning"@ {
        0
    } else {
        1 + first_non_learning(docs.drop_first())
    }
}

/// Reads the global learnings directory's `.md` files into global documents
/// sorted by path. Every file must be a valid record and a learning.
pub fn scan_global(files: Vec<(String, String)>) -> (r: Result<Vec<Document>, String>)
    ensures
        ({
            let fs = file_views(files@);
            let i = first_invalid(fs);
            let ms = models_of(fs);
            let j = first_non_learning(ms);
            if i < fs.len() {
                r is Err && r->Err_0@ == document_error(fs[i].0, fs[i].1)->0
            } else if j < ms.len() {
                r is Err && r->Err_0@ == "invalid global record in "@ + ms[j].path
                    + ": only learnings are supported"@
            } else {
                r is Ok && doc_views(r->Ok_0@) == stable_sorted(
                    ms.map_values(|m: DocumentModel| as_global(m)),
                    by_path(),
                ) && sorted_by_path(doc_views(r->Ok_0@)) && doc_views(r->Ok_0@).to_multiset()
                    == ms.map_values(|m: DocumentModel| as_global(m)).to_multiset()
            }
        }),
{
    let documents = parse_all(&files)?;
    let ghost ms = doc_views(documents@);
    assert(ms == models_of(file_views(files@)));
    assert(first_invalid(file_views(files@)) >= file_views(files@).len());
    let mut global: Vec<Document> = Vec::new();
    let mut i: usize = 0;
    assert(ms.skip(0) =~= ms);
    while i < documents.len()
        invariant
            i <= documents.len(),
            ms == doc_views(documents@),
            ms == models_of(file_views(files@)),
            first_invalid(file_views(files@)) >= file_views(files@).len(),
            first_non_learning(ms) == i + first_non_learning(ms.skip(i as int)),
            doc_views(global@) == ms.take(i as int).map_values(|m: DocumentModel| as_global(m)),
        decreases documents.len() - i,
    {
        assert(ms.skip(i as int)[0] == documents@[i as int]@);
        let kind = chars_of(documents[i].kind.as_str());
        let learning = text_is(kind.as_slice(), "learning");
        if !learning {
            let mut e = chars_of("invalid global record in ");
            push_str(&mut e, documents[i].path.as_str());
            push_str(&mut e, ": only learnings are supported");
            assert(first_non_learning(ms) == i);
            assert(ms[i as int].path == documents@[i as int].path@);
            return Err(string_of(e.as_slice()));
        }
        let mut d = copy_document(&documents[i]);
        d.scope = Scope::Global;
        let ghost prev = doc_views(global@);
        global.push(d);
        assert(doc_views(global@) =~= prev.push(as_global(ms[i as int])));
        assert(ms.take(i + 1).map_values(|m: DocumentModel| as_global(m)) =~= ms.take(i as int).map_values(
            |m: DocumentModel| as_global(m),
        ).push(as_global(ms[i as int])));
        assert(ms.skip(i as int).drop_first() =~= ms.skip(i + 1));
        i = i + 1;
    }
    assert(ms.take(documents.len() as int) =~= ms);
    Ok(sort_by_path(global))
}

/// Index of the first document whose id is `id`, or the length.
pub open spec fn index_of_id(docs: Seq<DocumentModel>, id: Seq<char>) -> int
    decreases docs.len(),
{
    if docs.len() == 0 {
        0
    } else if docs[0].id == id {
        0
    } else {
        1 + index_of_id(docs.drop_first(), id)
    }
}

/// Why superseding the records named by `ids` is refused, for the first id
/// that is unknown, not a decision, or not an active decision.
pub open spec fn supersede_problem(docs: Seq<DocumentModel>, ids: Seq<Seq<char>>) -> Option<Seq<char>>
    decreases ids.len(),
{
    if ids.len() == 0 {
        None
    } else {
        let id = ids[0];
        let k = index_of_id(docs, id);
        if k >= docs.len() {
            Some("no Tincan record found with id "@ + id)
        } else if docs[k].kind != "decision"@ {
            Some(id + " is not a decision"@)
        } else if docs[k].status != Some("active"@) {
            Some(
                "decision "@ + id + " is "@ + (match docs[k].status {
                    Some(s) => s,
                    None => "no status"@,
                }) + "; only active decisions can be superseded"@,
            )
        } else {
            supersede_problem(docs, ids.drop_first())
        }
    }
}

fn find_by_id(docs: &Vec<Document>, id: &[char]) -> (k: usize)
    ensures
        k == index_of_id(doc_views(docs@), id@),
        k <= docs.len(),
{
    let ghost dv = doc_views(docs@);
    let mut k: usize = 0;
    assert(dv.skip(0) =~= dv);
    while k < docs.len()
        invariant
            k <= docs.len(),
            dv == doc_views(docs@),
            index_of_id(dv, id@) == k + index_of_id(dv.skip(k as int), id@),
        decreases docs.len() - k,
    {
        assert(dv.skip(k as int)[0] == docs@[k as int]@);
        let d_id = chars_of(docs[k].id.as_str());
        if same(d_id.as_slice(), id) {
            return k;
        }
        assert(dv.skip(k as int).drop_first() =~= dv.skip(k + 1));
        k = k + 1;
    }
    assert(dv.skip(k as int) =~= Seq::<DocumentModel>::empty());
    k
}

/// The decisions named by `ids`, in that order, taken from the workspace's
/// documents: each id must name an active decision, else the first id that
/// does not is reported.
pub fn active_decisions(documents: &Vec<Document>, ids: &[String]) -> (r: Result<Vec<Document>, String>)
    ensures
        ({
            let dv = doc_views(documents@);
            match supersede_problem(dv, strs(ids@)) {
                Some(e) => r is Err && r->Err_0@ == e,
                None => r is Ok && doc_views(r->Ok_0@) == strs(ids@).map_values(
                    |id: Seq<char>| dv[index_of_id(dv, id)],
                ),
            }
        }),
{
    let ghost dv = doc_views(documents@);
    let ghost all = strs(ids@);
    let mut out: Vec<Document> = Vec::new();
    let mut i: usize = 0;
    assert(all.skip(0) =~= all);
    while i < ids.len()
        invariant
            i <= ids.len(),
            dv == doc_views(documents@),
            all == strs(ids@),
            supersede_problem(dv, all) == supersede_problem(dv, all.skip(i as int)),
            doc_views(out@) == all.take(i as int).map_values(|id: Seq<char>| dv[index_of_id(dv, id)]),
        decreases ids.len() - i,
    {
        let id = chars_of(ids[i].as_str());
        assert(all.skip(i as int)[0] == id@);
        let k = find_by_id(documents, id.as_slice());
        if k >= documents.len() {
            let mut e = chars_of("no Tincan record found with id ");
            push_all(&mut e, id.as_slice());
            return Err(string_of(e.as_slice()));
        }
        let d = &documents[k];
        assert(dv[k as int] == d@);
        let kind = chars_of(d.kind.as_str());
        let is_decision = text_is(kind.as_slice(), "decision");
        if !is_decision {
            let mut e = id.clone();
            push_str(&mut e, " is not a decision");
            return Err(string_of(e.as_slice()));
        }
        let active = match &d.status {
            Some(s) => {
                let sc = chars_of(s.as_str());
                text_is(sc.as_slice(), "active")
            },
            None => false,
        };
        if !active {
            let mut e = chars_of("decision ");
            push_all(&mut e, id.as_slice());
            push_str(&mut e, " is ");
            match &d.status {
                Some(s) => push_str(&mut e, s.as_str()),
                None => push_str(&mut e, "no status"),
            }
            push_str(&mut e, "; only active decisions can be superseded");
            return Err(string_of(e.as_slice()));
        }
        let c = copy_document(d);
        let ghost prev = doc_views(out@);
        out.push(c);
        assert(doc_views(out@) =~= prev.push(dv[index_of_id(dv, id@)]));
        assert(all.take(i + 1).map_values(|id: Seq<char>| dv[index_of_id(dv, id)]) =~= all.take(
            i as int,
        ).map_values(|id: Seq<char>| dv[index_of_id(dv, id)]).push(dv[index_of_id(dv, id@)]));
        assert(all.skip(i as int).drop_first() =~= all.skip(i + 1));
        i = i + 1;
    }
    assert(all.take(ids.len() as int) =~= all);
    Ok(out)
}

/// The Markdown file of a global learning lifted from a project learning:
/// managed frontmatter naming its origin, the source's topics, and the
/// prepared body without surrounding whitespace.
pub open spec fn rendered_global_learning(
    source: DocumentModel,
    id: Seq<char>,
    created_at: Seq<char>,
    source_workspace: Seq<char>,
    body: Seq<char>,
) -> Seq<char> {
    "---\n"@ + crate::model::field_line("id"@, id) + "type: \"learning\"\n"@ + "scope: \"global\"\n"@
        + crate::model::field_line("created_at"@, created_at) + crate::model::field_line(
        "source_workspace"@,
        source_workspace,
    ) + crate::model::field_line("source_record"@, source.id) + "files:\n"@
        + crate::model::list_block("topics"@, source.topics) + "related:\n"@ + "supersedes:\n"@
        + "superseded_by:\n"@ + "---\n\n"@ + trim(body) + "\n"@
}

/// The Markdown of a global learning lifted from `source`.
pub fn render_global_learning(
    source: &Document,
    id: &str,
    created_at: &str,
    source_workspace: &str,
    body: &str,
) -> (out: String)
    ensures
        out@ == rendered_global_learning(source@, id@, created_at@, source_workspace@, body@),
{
    let mut output: Vec<char> = Vec::new();
    push_str(&mut output, "---\n");
    crate::model::field(&mut output, "id", id);
    push_str(&mut output, "type: \"learning\"\n");
    push_str(&mut output, "scope: \"global\"\n");
    crate::model::field(&mut output, "created_at", created_at);
    crate::model::field(&mut output, "source_workspace", source_workspace);
    crate::model::field(&mut output, "source_record", source.id.as_str());
    push_str(&mut output, "files:\n");
    crate::model::list(&mut output, "topics", &source.topics);
    push_str(&mut output, "related:\n");
    push_str(&mut output, "supersedes:\n");
    push_str(&mut output, "superseded_by:\n");
    push_str(&mut output, "---\n\n");
    let b = chars_of(body);
    let t = trim_chars(b.as_slice());
    push_all(&mut output, t.as_slice());
    push_str(&mut output, "\n");
    assert(output@ =~= rendered_global_learning(source@, id@, created_at@, source_workspace@, body@));
    string_of(output.as_slice())
}

/// Only a project learning can become a global learning.
pub open spec fn liftable(source: DocumentModel) -> bool {
    source.kind == "learning"@ && source.scope == Scope::Project
}

/// Checks that `source` may be lifted to a global learning, and gives the
/// lifted file's name and Markdown.
pub fn global_learning_file(
    source: &Document,
    id: &str,
    created_at: &str,
    source_workspace: &str,
    body: &str,
) -> (r: Result<(String, String), String>)
    ensures
        liftable(source@) ==> r is Ok && r->Ok_0.0@ == id@ + ".md"@ && r->Ok_0.1@
            == rendered_global_learning(source@, id@, created_at@, source_workspace@, body@),
        !liftable(source@) ==> r is Err && r->Err_0@ == "only a project learning can be lifted"@,
{
    let kind = chars_of(source.kind.as_str());
    let learning = text_is(kind.as_slice(), "learning");
    let project = match source.scope {
        Scope::Project => true,
        Scope::Global => false,
    };
    if !learning || !project {
        return Err(string_of(chars_of("only a project learning can be lifted").as_slice()));
    }
    let mut name = chars_of(id);
    push_str(&mut name, ".md");
    let content = render_global_learning(source, id, created_at, source_workspace, body);
    Ok((string_of(name.as_slice()), content))
}

/// The most recent journal among the files of the journal directory: of the
/// Markdown paths that come last in path order, the one listed last (sorting
/// the paths stably and taking the last), if there is one.
pub fn latest_journal_path(paths: &Vec<String>) -> (r: Option<String>)
    ensures
        r is None <==> (forall|i: int| 0 <= i < paths.len() ==> !is_markdown_path(#[trigger] paths@[i]@)),
        r is Some ==> exists|b: int|
            0 <= b < paths.len() && #[trigger] paths@[b]@ == r->0@ && is_markdown_path(paths@[b]@)
                && (forall|j: int| 0 <= j < paths.len() && is_markdown_path(#[trigger] paths@[j]@)
                ==> path_le(paths@[j]@, paths@[b]@)) && (forall|j: int|
                b < j < paths.len() && is_markdown_path(#[trigger] paths@[j]@) ==> !path_le(
                    paths@[b]@,
                    paths@[j]@,
                )),
{
    let mut best: Option<usize> = None;
    let mut i: usize = 0;
    while i < paths.len()
        invariant
            i <= paths.len(),
            best is None <==> (forall|k: int| 0 <= k < i ==> !is_markdown_path(#[trigger] paths@[k]@)),
            best is Some ==> best->0 < i && is_markdown_path(paths@[best->0 as int]@),
            best is Some ==> forall|k: int| 0 <= k < i && is_markdown_path(#[trigger] paths@[k]@)
                ==> path_le(paths@[k]@, paths@[best->0 as int]@),
            best is Some ==> forall|k: int| best->0 < k < i && is_markdown_path(#[trigger] paths@[k]@)
                ==> !path_le(paths@[best->0 as int]@, paths@[k]@),
        decreases paths.len() - i,
    {
        if is_markdown_file(paths[i].as_str()) {
            match best {
                None => {
                    best = Some(i);
                    proof { lemma_path_le_refl(paths@[i as int]@); }
                },
                Some(b) => {
                    if le_path(paths[b].as_str(), paths[i].as_str()) {
                        proof {
                            assert forall|k: int| 0 <= k <= i && is_markdown_path(#[trigger] paths@[k]@)
                                implies path_le(paths@[k]@, paths@[i as int]@) by {
                                if k < i {
                                    lemma_path_le_trans(paths@[k]@, paths@[b as int]@, paths@[i as int]@);
                                } else {
                                    lemma_path_le_refl(paths@[i as int]@);
                                }
                            }
                        }
                        best = Some(i);
                    } else {
                        proof { lemma_path_le_total(paths@[b as int]@, paths@[i as int]@); }
                    }
                },
            }
        }
        i = i + 1;
    }
    match best {
        None => None,
        Some(b) => Some(paths[b].clone()),
    }
}

} // verus!
