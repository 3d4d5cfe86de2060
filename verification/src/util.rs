//! Quoting of frontmatter values and display of paths.
use vstd::prelude::*;
use crate::text::{has_prefix, replace_all, chars_of, string_of, push_all, text_is, starts_with, skip, replace};

verus! {

/// How one character is written inside a double-quoted frontmatter value.
pub open spec fn escape_char(c: char) -> Seq<char> {
    if c == '\\' {
        seq!['\\', '\\']
    } else if c == '"' {
        seq!['\\', '"']
    } else if c == '\n' {
        seq!['\\', 'n']
    } else {
        seq![c]
    }
}

/// `s` with backslashes, double quotes and newlines escaped.
pub open spec fn escaped(s: Seq<char>) -> Seq<char>
    decreases s.len(),
{
    if s.len() == 0 {
        seq![]
    } else {
        escape_char(s[0]) + escaped(s.drop_first())
    }
}

/// `s` as a double-quoted frontmatter value.
pub open spec fn quoted(s: Seq<char>) -> Seq<char> {
    seq!['"'] + escaped(s) + seq!['"']
}

/// `value` as a double-quoted frontmatter value: backslashes, double quotes
/// and newlines are escaped, and the whole is wrapped in double quotes.
pub fn yaml_string(value: &str) -> (out: String)
    ensures
        out@ == quoted(value@),
{
    let v = chars_of(value);
    let mut out: Vec<char> = Vec::new();
    out.push('"');
    let mut i: usize = 0;
    assert(v@.skip(0) =~= v@);
    while i < v.len()
        invariant
            i <= v.len(),
            seq!['"'] + escaped(v@) == out@ + escaped(v@.skip(i as int)),
        decreases v.len() - i,
    {
        let c = v[i];
        assert(v@.skip(i as int).drop_first() =~= v@.skip(i + 1));
        if c == '\\' {
            out.push('\\');
            out.push('\\');
        } else if c == '"' {
            out.push('\\');
            out.push('"');
        } else if c == '\n' {
            out.push('\\');
            out.push('n');
        } else {
            out.push(c);
        }
        i = i + 1;
    }
    assert(v@.skip(i as int) =~= Seq::<char>::empty());
    out.push('"');
    string_of(out.as_slice())
}

/// `path` with every `\` turned into `/`.
pub open spec fn forward_slashes(path: Seq<char>) -> Seq<char> {
    replace_all(path, seq!['\\'], seq!['/'])
}

/// A path as shown to people: forward slashes, and Windows verbatim
/// prefixes (`\\?\` and `\\?\UNC\`) removed.
pub open spec fn displayed_path(path: Seq<char>) -> Seq<char> {
    let p = forward_slashes(path);
    if has_prefix(p, "//?/UNC/"@) {
        "//"@ + p.skip(8)
    } else if has_prefix(p, "//?/"@) {
        p.skip(4)
    } else {
        p
    }
}

/// A path (given as its text) as shown to people.
pub fn display_path(path: &str) -> (out: String)
    ensures
        out@ == displayed_path(path@),
{
    let v = chars_of(path);
    let p = replace(v.as_slice(), &['\\'], &['/']);
    assert(seq!['\\'] =~= ['\\']@);
    assert(seq!['/'] =~= ['/']@);
    let unc = chars_of("//?/UNC/");
    let verbatim = chars_of("//?/");
    proof {
        reveal_strlit("//?/UNC/");
        reveal_strlit("//?/");
        reveal_strlit("//");
    }
    if starts_with(p.as_slice(), unc.as_slice()) {
        let mut out = chars_of("//");
        let rest = skip(p.as_slice(), 8);
        push_all(&mut out, rest.as_slice());
        string_of(out.as_slice())
    } else if starts_with(p.as_slice(), verbatim.as_slice()) {
        let rest = skip(p.as_slice(), 4);
        string_of(rest.as_slice())
    } else {
        string_of(p.as_slice())
    }
}

} // verus!
