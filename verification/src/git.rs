//! What Tincan concludes from Git's answers: the repository root, where the
//! local exclude file is, whether `.tincan` is private, and which files
//! changed. Running Git is left to the caller, who hands over its output.
use vstd::prelude::*;
use crate::text::{
    chars_of, string_of, push_all, push_str, lines, lines_of, views, strs, trim, trim_chars,
    trim_end, join, has_prefix, same,
};
use crate::order::{text_le, le_text, lemma_text_le_total, lemma_text_le_trans, lemma_text_le_antisym};
use crate::store::joined_path;
use crate::util::forward_slashes;

verus! {

/// The repository root named by `git rev-parse --show-toplevel`, or the
/// message for a path outside any repository.
pub open spec fn root_from(path: Seq<char>, output: Seq<char>) -> Result<Seq<char>, Seq<char>> {
    let r = trim(output);
    if r.len() == 0 {
        Err(path + " is not inside a Git repository"@)
    } else {
        Ok(r)
    }
}

/// The repository root of `path`, from what `git rev-parse --show-toplevel`
/// printed there.
pub fn repository_root(path: &str, output: &str) -> (r: Result<String, String>)
    ensures
        match root_from(path@, output@) {
            Ok(root) => r is Ok && r->Ok_0@ == root,
            Err(e) => r is Err && r->Err_0@ == e,
        },
{
    let o = chars_of(output);
    let t = trim_chars(o.as_slice());
    if t.len() == 0 {
        let mut e = chars_of(path);
        push_str(&mut e, " is not inside a Git repository");
        return Err(string_of(e.as_slice()));
    }
    Ok(string_of(t.as_slice()))
}

/// A path that names its place from a root (`Path::is_absolute`): one that
/// starts with `/` as on Unix, or, as on Windows, a drive letter, `:` and a
/// separator, or the `\\` of a network share.
pub open spec fn absolute_path(p: Seq<char>) -> bool {
    ||| has_prefix(p, "/"@)
    ||| (p.len() >= 3 && (('a' <= p[0] && p[0] <= 'z') || ('A' <= p[0] && p[0] <= 'Z')) && p[1] == ':'
        && (p[2] == '/' || p[2] == '\\'))
    ||| has_prefix(p, "\\\\"@)
}

fn is_absolute(p: &[char]) -> (r: bool)
    ensures
        r == absolute_path(p@),
{
    proof {
        reveal_strlit("/");
        reveal_strlit("\\\\");
    }
    if p.len() >= 1 && p[0] == '/' {
        assert(p@.take(1) =~= "/"@);
        return true;
    }
    if p.len() >= 3 && ((p[0] >= 'a' && p[0] <= 'z') || (p[0] >= 'A' && p[0] <= 'Z')) && p[1] == ':' && (p[2] == '/'
        || p[2] == '\\') {
        return true;
    }
    if p.len() >= 2 && p[0] == '\\' && p[1] == '\\' {
        assert(p@.take(2) =~= "\\\\"@);
        return true;
    }
    proof {
        if p.len() >= 2 {
            assert(p@.take(2)[0] == p@[0]);
            assert(p@.take(2)[1] == p@[1]);
        }
        if p.len() >= 1 {
            assert(p@.take(1)[0] == p@[0]);
        }
    }
    false
}

/// The exclude file named by `git rev-parse --git-path info/exclude`: as
/// printed when absolute, else under the repository root.
pub open spec fn exclude_file(root: Seq<char>, output: Seq<char>) -> Seq<char> {
    let v = trim(output);
    if absolute_path(v) {
        v
    } else {
        joined_path(root, v)
    }
}

/// The repository's local exclude file, from what Git printed for
/// `--git-path info/exclude`.
pub fn exclude_path(root: &str, output: &str) -> (r: String)
    ensures
        r@ == exclude_file(root@, output@),
{
    let o = chars_of(output);
    let v = trim_chars(o.as_slice());
    if is_absolute(v.as_slice()) {
        return string_of(v.as_slice());
    }
    let s = string_of(v.as_slice());
    crate::store::join_path(root, s.as_str())
}

/// The tracked files that `git ls-files -- .tincan` listed, indented.
pub open spec fn indented(ls: Seq<Seq<char>>) -> Seq<Seq<char>> {
    ls.map_values(|f: Seq<char>| "  "@ + f)
}

/// `.tincan` is private when Git tracks nothing in it; otherwise the
/// message lists the tracked files.
pub open spec fn untracked_verdict(listed: Seq<char>) -> Result<(), Seq<char>> {
    if listed.len() == 0 {
        Ok(())
    } else {
        Err(
            ".tincan already contains tracked files, so Tincan cannot guarantee private storage:\n"@
                + join(indented(lines(listed)), "\n"@)
                + "\nremove them from the Git index before running `tincan init`"@,
        )
    }
}

/// Whether `.tincan` holds no tracked files, from what `git ls-files --
/// .tincan` printed.
pub fn require_tincan_untracked(listed: &str) -> (r: Result<(), String>)
    ensures
        match untracked_verdict(listed@) {
            Ok(_) => r is Ok,
            Err(e) => r is Err && r->Err_0@ == e,
        },
{
    let t = chars_of(listed);
    if t.len() == 0 {
        return Ok(());
    }
    let ls = lines_of(t.as_slice());
    let mut parts: Vec<Vec<char>> = Vec::new();
    let mut i: usize = 0;
    while i < ls.len()
        invariant
            i <= ls.len(),
            views(ls@) == lines(listed@),
            views(parts@) == indented(lines(listed@).take(i as int)),
        decreases ls.len() - i,
    {
        let mut line = chars_of("  ");
        push_all(&mut line, ls[i].as_slice());
        let ghost prev = views(parts@);
        parts.push(line);
        assert(views(parts@) =~= prev.push("  "@ + ls@[i as int]@));
        assert(lines(listed@).take(i + 1) =~= lines(listed@).take(i as int).push(ls@[i as int]@));
        assert(indented(lines(listed@).take(i + 1)) =~= indented(lines(listed@).take(i as int)).push(
            "  "@ + ls@[i as int]@,
        ));
        i = i + 1;
    }
    assert(lines(listed@).take(ls.len() as int) =~= lines(listed@));
    let mut e = chars_of(
        ".tincan already contains tracked files, so Tincan cannot guarantee private storage:\n",
    );
    let sep = chars_of("\n");
    let joined = crate::text::join_with(&parts, sep.as_slice());
    push_all(&mut e, joined.as_slice());
    push_str(&mut e, "\nremove them from the Git index before running `tincan init`");
    Err(string_of(e.as_slice()))
}

/// What `git check-ignore --quiet --no-index -- .tincan/config.toml` means:
/// success is ignored, exit code 1 is not ignored, anything else is Git's
/// own failure.
pub open spec fn ignore_verdict(success: bool, code: Option<i32>, stderr: Seq<char>) -> Result<(), Seq<char>> {
    if success {
        Ok(())
    } else if code == Some(1i32) {
        Err(
            "Git does not ignore .tincan/config.toml; refusing to initialize memory that may be committed. Review repository ignore rules that re-include .tincan and retry."@,
        )
    } else {
        Err("git check-ignore failed: "@ + trim(stderr))
    }
}

/// Whether Git ignores `.tincan`, from how `git check-ignore` exited and
/// what it wrote to standard error.
pub fn verify_tincan_ignored(success: bool, code: Option<i32>, stderr: &str) -> (r: Result<(), String>)
    ensures
        match ignore_verdict(success, code, stderr@) {
            Ok(_) => r is Ok,
            Err(e) => r is Err && r->Err_0@ == e,
        },
{
    if success {
        return Ok(());
    }
    if code == Some(1i32) {
        return Err(string_of(chars_of(
            "Git does not ignore .tincan/config.toml; refusing to initialize memory that may be committed. Review repository ignore rules that re-include .tincan and retry.",
        ).as_slice()));
    }
    let s = chars_of(stderr);
    let t = trim_chars(s.as_slice());
    let mut e = chars_of("git check-ignore failed: ");
    push_all(&mut e, t.as_slice());
    Err(string_of(e.as_slice()))
}

/// The result of running `git` with `args`: its output without trailing
/// whitespace on success, else a message with its trimmed error output.
pub open spec fn command_result(
    args: Seq<Seq<char>>,
    success: bool,
    stdout: Seq<char>,
    stderr: Seq<char>,
) -> Result<Seq<char>, Seq<char>> {
    if success {
        Ok(trim_end(stdout))
    } else {
        Err("git "@ + join(args, " "@) + " failed: "@ + trim(stderr))
    }
}

/// What a run of `git` with `args` gave.
pub fn git_output(args: &Vec<String>, success: bool, stdout: &str, stderr: &str) -> (r: Result<String, String>)
    ensures
        match command_result(strs(args@), success, stdout@, stderr@) {
            Ok(o) => r is Ok && r->Ok_0@ == o,
            Err(e) => r is Err && r->Err_0@ == e,
        },
{
    if success {
        let o = chars_of(stdout);
        let end = crate::text::last_non_ws(o.as_slice(), o.len());
        assert(o@.take(o.len() as int) =~= o@);
        let t = crate::text::slice_of(o.as_slice(), 0, end);
        assert(t@ =~= o@.take(end as int));
        return Ok(string_of(t.as_slice()));
    }
    let mut parts: Vec<Vec<char>> = Vec::new();
    let mut i: usize = 0;
    while i < args.len()
        invariant
            i <= args.len(),
            views(parts@) == strs(args@).take(i as int),
        decreases args.len() - i,
    {
        let ghost prev = views(parts@);
        parts.push(chars_of(args[i].as_str()));
        assert(views(parts@) =~= prev.push(args@[i as int]@));
        assert(strs(args@).take(i + 1) =~= strs(args@).take(i as int).push(args@[i as int]@));
        i = i + 1;
    }
    assert(strs(args@).take(args.len() as int) =~= strs(args@));
    let mut e = chars_of("git ");
    let sp = chars_of(" ");
    let joined = crate::text::join_with(&parts, sp.as_slice());
    push_all(&mut e, joined.as_slice());
    push_str(&mut e, " failed: ");
    let s = chars_of(stderr);
    let t = trim_chars(s.as_slice());
    push_all(&mut e, t.as_slice());
    Err(string_of(e.as_slice()))
}

/// A repository's state when a record is made.
pub struct Snapshot {
    pub root: String,
    pub branch: String,
    pub changed_files: Vec<String>,
}

/// A repository's state from its root, what `git branch --show-current`
/// printed, and its changed files.
pub fn snapshot(root: String, branch_output: &str, changed_files: Vec<String>) -> (r: Snapshot)
    ensures
        r.root@ == root@,
        r.branch@ == trim(branch_output@),
        r.changed_files@ == changed_files@,
{
    let b = chars_of(branch_output);
    let t = trim_chars(b.as_slice());
    Snapshot { root, branch: string_of(t.as_slice()), changed_files }
}

// ---------------------------------------------------------------------------
// Changed files
// ---------------------------------------------------------------------------

/// A changed file named by some line of Git's output: the line trimmed, not
/// blank, with `/` for every `\`.
pub open spec fn names_file(output: Seq<char>, f: Seq<char>) -> bool {
    exists|i: int|
        0 <= i < lines(output).len() && trim(#[trigger] lines(output)[i]).len() > 0 && forward_slashes(
            trim(lines(output)[i]),
        ) == f
}

/// Texts in strictly increasing order.
pub open spec fn strictly_sorted(s: Seq<Seq<char>>) -> bool {
    forall|i: int, j: int| 0 <= i < j < s.len() ==> text_le(s[i], s[j]) && s[i] != s[j]
}

/// Adds `f` to a strictly sorted list unless it is there already.
#[verifier::spinoff_prover]
#[verifier::rlimit(30)]
fn insert_sorted(files: &mut Vec<Vec<char>>, f: Vec<char>)
    requires
        strictly_sorted(views(old(files)@)),
    ensures
        strictly_sorted(views(final(files)@)),
        forall|g: Seq<char>| views(final(files)@).contains(g) <==> (views(old(files)@).contains(g) || g == f@),
{
    let ghost before = views(files@);
    let mut k: usize = 0;
    while k < files.len() && le_text(files[k].as_slice(), f.as_slice()) && !same(
        files[k].as_slice(),
        f.as_slice(),
    )
        invariant
            k <= files.len(),
            before == views(files@),
            forall|m: int| 0 <= m < k ==> text_le(#[trigger] before[m], f@) && before[m] != f@,
        decreases files.len() - k,
    {
        k = k + 1;
    }
    if k < files.len() && same(files[k].as_slice(), f.as_slice()) {
        assert(views(files@)[k as int] == f@);
        return;
    }
    proof {
        if k < files.len() {
            lemma_text_le_total(before[k as int], f@);
        }
    }
    let ghost fv = f@;
    files.insert(k, f);
    let ghost after = views(files@);
    assert(after =~= before.insert(k as int, fv));
    proof {
        assert forall|i: int, j: int| 0 <= i < j < after.len() implies text_le(after[i], after[j]) && after[i]
            != after[j] by {
            if j < k {
                assert(after[i] == before[i] && after[j] == before[j]);
            } else if j == k {
                assert(after[i] == before[i] && after[j] == fv);
            } else if i == k {
                assert(after[j] == before[j - 1]);
                if j - 1 > k {
                    lemma_text_le_trans(fv, before[k as int], before[j - 1]);
                    if fv == before[j - 1] {
                        lemma_text_le_antisym(fv, before[k as int]);
                    }
                }
            } else if i < k {
                assert(after[i] == before[i] && after[j] == before[j - 1]);
                if j - 1 == k {
                    lemma_text_le_trans(before[i], fv, before[k as int]);
                    if before[i] == before[k as int] {
                        lemma_text_le_antisym(before[i], fv);
                    }
                }
            } else {
                assert(after[i] == before[i - 1] && after[j] == before[j - 1]);
            }
        }
        assert forall|g: Seq<char>| after.contains(g) <==> (before.contains(g) || g == fv) by {
            if after.contains(g) {
                let m = choose|m: int| 0 <= m < after.len() && after[m] == g;
                if m < k {
                    assert(before[m] == g);
                } else if m > k {
                    assert(before[m - 1] == g);
                }
            }
            if before.contains(g) {
                let m = choose|m: int| 0 <= m < before.len() && before[m] == g;
                if m < k {
                    assert(after[m] == g);
                } else {
                    assert(after[m + 1] == g);
                }
            }
            if g == fv {
                assert(after[k as int] == g);
            }
        }
    }
}

/// Some of the first `n` lines of Git's output names `f`.
pub open spec fn named_within(output: Seq<char>, n: int, f: Seq<char>) -> bool {
    exists|i: int|
        0 <= i < n && trim(#[trigger] lines(output)[i]).len() > 0 && forward_slashes(
            trim(lines(output)[i]),
        ) == f
}

proof fn lemma_named_step(output: Seq<char>, n: int, f: Seq<char>)
    requires
        0 <= n,
    ensures
        named_within(output, n + 1, f) <==> (named_within(output, n, f) || (trim(lines(output)[n]).len()
            > 0 && forward_slashes(trim(lines(output)[n])) == f)),
{
    if named_within(output, n + 1, f) {
        let i = choose|i: int|
            0 <= i < n + 1 && trim(#[trigger] lines(output)[i]).len() > 0 && forward_slashes(
                trim(lines(output)[i]),
            ) == f;
        if i < n {
            assert(named_within(output, n, f));
        }
    }
    if named_within(output, n, f) {
        let i = choose|i: int|
            0 <= i < n && trim(#[trigger] lines(output)[i]).len() > 0 && forward_slashes(
                trim(lines(output)[i]),
            ) == f;
        assert(0 <= i < n + 1);
    }
    if trim(lines(output)[n]).len() > 0 && forward_slashes(trim(lines(output)[n])) == f {
        assert(0 <= n < n + 1 && trim(lines(output)[n]).len() > 0);
    }
}

fn add_output_files(files: &mut Vec<Vec<char>>, output: &str)
    requires
        strictly_sorted(views(old(files)@)),
    ensures
        strictly_sorted(views(final(files)@)),
        forall|g: Seq<char>|
            #![trigger views(final(files)@).contains(g)]
            views(final(files)@).contains(g) <==> (views(old(files)@).contains(g) || names_file(
                output@,
                g,
            )),
{
    let ghost start = views(files@);
    let o = chars_of(output);
    let ls = lines_of(o.as_slice());
    let mut i: usize = 0;
    while i < ls.len()
        invariant
            i <= ls.len(),
            views(ls@) == lines(output@),
            strictly_sorted(views(files@)),
            forall|g: Seq<char>|
                #![trigger views(files@).contains(g)]
                views(files@).contains(g) <==> (start.contains(g) || named_within(output@, i as int, g)),
        decreases ls.len() - i,
    {
        let t = trim_chars(ls[i].as_slice());
        assert(lines(output@)[i as int] == ls@[i as int]@);
        let ghost prev = views(files@);
        let ghost fs = forward_slashes(t@);
        if t.len() > 0 {
            let f = crate::text::replace(t.as_slice(), &['\\'], &['/']);
            assert(seq!['\\'] =~= ['\\']@);
            assert(seq!['/'] =~= ['/']@);
            insert_sorted(files, f);
        }
        assert forall|g: Seq<char>| views(files@).contains(g) <==> (start.contains(g) || named_within(
            output@,
            i + 1,
            g,
        )) by {
            lemma_named_step(output@, i as int, g);
            assert(prev.contains(g) <==> (start.contains(g) || named_within(output@, i as int, g)));
        }
        i = i + 1;
    }
    assert forall|g: Seq<char>| named_within(output@, ls.len() as int, g) <==> names_file(output@, g) by {
    }
}

/// The files Git reports as changed or untracked: each named once, with `/`
/// separators, in order.
pub fn changed_files(diff: &str, untracked: &str) -> (r: Vec<String>)
    ensures
        strictly_sorted(strs(r@)),
        forall|g: Seq<char>| strs(r@).contains(g) <==> (names_file(diff@, g) || names_file(untracked@, g)),
{
    let mut files: Vec<Vec<char>> = Vec::new();
    assert(views(files@) =~= Seq::<Seq<char>>::empty());
    add_output_files(&mut files, diff);
    add_output_files(&mut files, untracked);
    let mut out: Vec<String> = Vec::new();
    let mut i: usize = 0;
    while i < files.len()
        invariant
            i <= files.len(),
            strs(out@) == views(files@).take(i as int),
        decreases files.len() - i,
    {
        let ghost prev = strs(out@);
        out.push(string_of(files[i].as_slice()));
        assert(strs(out@) =~= prev.push(files@[i as int]@));
        assert(views(files@).take(i + 1) =~= views(files@).take(i as int).push(files@[i as int]@));
        i = i + 1;
    }
    assert(views(files@).take(files.len() as int) =~= views(files@));
    assert(strs(out@) == views(files@));
    out
}

} // verus!
