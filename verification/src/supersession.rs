//! What superseding a decision keeps, and why superseding it again by the
//! same decision changes nothing.
use vstd::prelude::*;
use crate::text::{lines, join, has_suffix, has_prefix, lacks, terminated, lemma_lines_of_terminated};
use crate::lines::{index_of_line, index_of_prefixed, lemma_index_of_line, lemma_index_of_prefixed};
use crate::store::{superseded_text, superseded_entry, list_scan, entry_id, strip_repeated};
use crate::util::quoted;
use crate::roundtrip::{
    lemma_join_concat, lemma_terminated_concat, lemma_terminated_one, lemma_line_index_at,
    lemma_prefix_index_at, lemma_quoted_shape, lemma_trim_quoted, lemma_differs_at,
};
use crate::journal_laws::lemma_lines_lack;

verus! {

proof fn lemma_list_scan_bound(ls: Seq<Seq<char>>, j: int, end: int, id: Seq<char>)
    requires
        0 <= j <= end,
    ensures
        j <= list_scan(ls, j, end, id).0 <= end,
    decreases end - j,
{
    if j < end && j < ls.len() && crate::text::has_prefix(ls[j], "  - "@)
        && crate::store::entry_id(ls[j]) != id {
        lemma_list_scan_bound(ls, j + 1, end, id);
    }
}

/// Text whose lines are `pre` then `body` ends with the body's lines, each
/// followed by a newline.
proof fn lemma_joined_suffix(pre: Seq<Seq<char>>, body: Seq<Seq<char>>)
    requires
        pre.len() > 0,
        body.len() > 0,
    ensures
        has_suffix(join(pre + body, "\n"@) + "\n"@, join(body, "\n"@) + "\n"@),
{
    lemma_join_concat(pre, body, "\n"@);
    let t = join(pre + body, "\n"@) + "\n"@;
    let b = join(body, "\n"@) + "\n"@;
    assert(t =~= (join(pre, "\n"@) + "\n"@) + b);
    assert(t.skip(t.len() - b.len()) =~= b);
}

/// Superseding a decision keeps its original reasoning: everything from the
/// line that closes its frontmatter on is written back line for line, at the
/// end of the new text.
pub proof fn lemma_supersession_keeps_body(text: Seq<char>, id: Seq<char>)
    ensures
        superseded_text(text, id) matches Ok(t) ==> {
            let ls = lines(text);
            let end = 1 + index_of_line(ls.drop_first(), "---"@);
            has_suffix(t, join(ls.skip(end), "\n"@) + "\n"@)
        },
{
    let ls = lines(text);
    if ls.len() > 0 && ls[0] == "---"@ {
        lemma_index_of_line(ls.drop_first(), "---"@);
        let end = 1 + index_of_line(ls.drop_first(), "---"@);
        let st = index_of_prefixed(ls, "status:"@);
        lemma_index_of_prefixed(ls, "status:"@);
        if end < ls.len() && st < end {
            let ls2 = ls.update(st, "status: \"superseded\""@);
            let body = ls.skip(end);
            assert(ls2.skip(end) =~= body);
            let mk = index_of_line(ls2, "superseded_by:"@);
            if mk < end {
                lemma_index_of_line(ls2, "superseded_by:"@);
                let (k, found) = list_scan(ls2, mk + 1, end, id);
                if found {
                    assert(ls2 =~= ls2.take(end) + body);
                    lemma_joined_suffix(ls2.take(end), body);
                } else {
                    lemma_list_scan_bound(ls2, mk + 1, end, id);
                    let out = ls2.insert(k, superseded_entry(id));
                    assert(out =~= ls2.take(end).insert(k, superseded_entry(id)) + body);
                    lemma_joined_suffix(ls2.take(end).insert(k, superseded_entry(id)), body);
                }
            } else {
                let pre = ls2.take(end).push("superseded_by:"@).push(superseded_entry(id));
                let out = ls2.insert(end, "superseded_by:"@).insert(end + 1, superseded_entry(id));
                assert(out =~= pre + body);
                lemma_joined_suffix(pre, body);
            }
        }
    }
}

/// Lines joined with `\n` and a final newline are each line followed by a
/// newline.
proof fn lemma_join_terminated(ls: Seq<Seq<char>>)
    requires
        ls.len() > 0,
    ensures
        join(ls, "\n"@) + "\n"@ == terminated(ls),
    decreases ls.len(),
{
    reveal_strlit("\n");
    let d = ls.drop_last();
    assert(ls =~= d + seq![ls.last()]);
    lemma_terminated_concat(d, seq![ls.last()]);
    lemma_terminated_one(ls.last());
    if d.len() > 0 {
        lemma_join_terminated(d);
    }
}

/// The supersession entry for `id` names `id`.
proof fn lemma_entry_names(id: Seq<char>)
    requires
        lacks(id, '\n'),
    ensures
        has_prefix(superseded_entry(id), "  - "@),
        entry_id(superseded_entry(id)) == id,
        superseded_entry(id).len() > 4,
        superseded_entry(id)[0] == ' ',
        superseded_entry(id).last() == '"',
        lacks(superseded_entry(id), '\n'),
{
    reveal_strlit("  - ");
    let e = superseded_entry(id);
    let q = quoted(id);
    lemma_quoted_shape(id);
    assert(e.take(4) =~= "  - "@);
    assert(e.skip(4) =~= q);
    lemma_differs_at(q, "  - "@, 0);
    assert(strip_repeated(q, "  - "@) == q);
    assert(strip_repeated(e, "  - "@) == q);
    lemma_trim_quoted(id);
    crate::frontmatter::lemma_unquote_quoted(id);
    assert forall|i: int| 0 <= i < e.len() implies e[i] != '\n' by {
        if i >= 4 {
            assert(e[i] == q[i - 4]);
        }
    }
}

/// The checks that decide a supersession, made again on lines that already
/// hold it, find it there.
proof fn lemma_resupersede(t: Seq<char>, out: Seq<Seq<char>>, id: Seq<char>, end: int, st: int, mk: int)
    requires
        lines(t) == out,
        t == join(out, "\n"@) + "\n"@,
        0 < end < out.len(),
        out[0] == "---"@,
        out[end] == "---"@,
        forall|j: int| 1 <= j < end ==> #[trigger] out[j] != "---"@,
        0 <= st < end,
        out[st] == "status: \"superseded\""@,
        forall|j: int| 0 <= j < st ==> !has_prefix(#[trigger] out[j], "status:"@),
        0 <= mk < end,
        out[mk] == "superseded_by:"@,
        forall|j: int| 0 <= j < mk ==> #[trigger] out[j] != "superseded_by:"@,
        list_scan(out, mk + 1, end, id).1,
    ensures
        superseded_text(t, id) == Ok::<Seq<char>, Seq<char>>(t),
{
    reveal_strlit("status: \"superseded\"");
    reveal_strlit("status:");
    let rest = out.drop_first();
    assert forall|j: int| 0 <= j < end - 1 implies #[trigger] rest[j] != "---"@ by {
        assert(rest[j] == out[j + 1]);
    }
    lemma_line_index_at(rest, "---"@, end - 1);
    assert(out[st].take(7) =~= "status:"@);
    lemma_prefix_index_at(out, "status:"@, st);
    assert(out.update(st, "status: \"superseded\""@) =~= out);
    lemma_line_index_at(out, "superseded_by:"@, mk);
}

/// Scanning a list into which the entry for `id` was put where the scan of
/// the list without it stopped finds that entry.
proof fn lemma_scan_finds(ls: Seq<Seq<char>>, j: int, end: int, id: Seq<char>, k: int, e: Seq<char>)
    requires
        0 <= j <= k <= end <= ls.len(),
        list_scan(ls, j, end, id) == (k, false),
        has_prefix(e, "  - "@),
        entry_id(e) == id,
    ensures
        list_scan(ls.insert(k, e), j, end + 1, id) == (k, true),
    decreases k - j,
{
    let out = ls.insert(k, e);
    if j < k {
        assert(out[j] == ls[j]);
        lemma_scan_finds(ls, j + 1, end, id, k, e);
    } else {
        assert(out[k] == e);
    }
}

/// Superseding a decision again by the same decision changes nothing. This
/// holds when the replacement's id is one line and no line of the decision
/// ends in `\r` (a line written back is read without it).
#[verifier::rlimit(40)]
#[verifier::spinoff_prover]
pub proof fn lemma_supersession_repeat(text: Seq<char>, id: Seq<char>)
    requires
        lacks(id, '\n'),
        forall|i: int|
            0 <= i < lines(text).len() ==> !(#[trigger] lines(text)[i].len() > 0 && lines(text)[i].last()
                == '\r'),
    ensures
        superseded_text(text, id) matches Ok(t) ==> superseded_text(t, id) == Ok::<Seq<char>, Seq<char>>(t),
{
    reveal_strlit("---");
    reveal_strlit("status:");
    reveal_strlit("status: \"superseded\"");
    reveal_strlit("superseded_by:");
    let ls = lines(text);
    lemma_lines_lack(text);
    lemma_entry_names(id);
    let e = superseded_entry(id);
    let sline = "status: \"superseded\""@;
    let marker = "superseded_by:"@;
    if ls.len() > 0 && ls[0] == "---"@ {
        lemma_index_of_line(ls.drop_first(), "---"@);
        let end = 1 + index_of_line(ls.drop_first(), "---"@);
        let st = index_of_prefixed(ls, "status:"@);
        lemma_index_of_prefixed(ls, "status:"@);
        if end < ls.len() && st < end {
            assert(st != 0) by {
                if st == 0 {
                    assert(!has_prefix(ls[0], "status:"@));
                }
            }
            assert forall|j: int| 1 <= j < end implies #[trigger] ls[j] != "---"@ by {
                assert(ls[j] == ls.drop_first()[j - 1]);
            }
            assert(ls[end] == ls.drop_first()[end - 1]);
            let ls2 = ls.update(st, sline);
            lemma_differs_at(sline, "---"@, 0);
            lemma_differs_at(sline, marker, 1);
            lemma_differs_at(e, "---"@, 0);
            lemma_differs_at(e, marker, 0);
            lemma_differs_at(e, "status:"@, 0);
            lemma_differs_at(marker, "---"@, 0);
            lemma_differs_at(marker, "status:"@, 2);
            let mk = index_of_line(ls2, marker);
            lemma_index_of_line(ls2, marker);
            if mk < end {
                let (k, found) = list_scan(ls2, mk + 1, end, id);
                if found {
                    let out = ls2;
                    let t = join(out, "\n"@) + "\n"@;
                    assert forall|i: int| 0 <= i < out.len() implies lacks(#[trigger] out[i], '\n') by {}
                    lemma_join_terminated(out);
                    lemma_lines_of_terminated(out);
                    lemma_resupersede(t, out, id, end, st, mk);
                } else {
                    lemma_list_scan_bound(ls2, mk + 1, end, id);
                    let out = ls2.insert(k, e);
                    let t = join(out, "\n"@) + "\n"@;
                    assert forall|i: int| 0 <= i < out.len() implies lacks(#[trigger] out[i], '\n') && !(
                    out[i].len() > 0 && out[i].last() == '\r') by {
                        if i > k {
                            assert(out[i] == ls2[i - 1]);
                        } else if i < k {
                            assert(out[i] == ls2[i]);
                        }
                    }
                    lemma_join_terminated(out);
                    lemma_lines_of_terminated(out);
                    assert forall|j: int| 1 <= j < end + 1 implies #[trigger] out[j] != "---"@ by {
                        if j > k {
                            assert(out[j] == ls2[j - 1]);
                        } else if j < k {
                            assert(out[j] == ls2[j]);
                        }
                    }
                    assert(out[end + 1] == ls2[end]);
                    lemma_scan_finds(ls2, mk + 1, end, id, k, e);
                    if st < k {
                        assert forall|j: int| 0 <= j < st implies !has_prefix(#[trigger] out[j], "status:"@) by {
                            assert(out[j] == ls2[j]);
                        }
                        lemma_resupersede(t, out, id, end + 1, st, mk);
                    } else {
                        assert forall|j: int| 0 <= j < st + 1 implies !has_prefix(#[trigger] out[j], "status:"@) by {
                            if j < k {
                                assert(out[j] == ls2[j]);
                            } else if j > k {
                                assert(out[j] == ls2[j - 1]);
                            }
                        }
                        assert(out[st + 1] == ls2[st]);
                        lemma_resupersede(t, out, id, end + 1, st + 1, mk);
                    }
                }
            } else {
                let out = ls2.insert(end, marker).insert(end + 1, e);
                let t = join(out, "\n"@) + "\n"@;
                assert forall|i: int| 0 <= i < out.len() implies lacks(#[trigger] out[i], '\n') && !(
                out[i].len() > 0 && out[i].last() == '\r') by {
                    if i < end {
                        assert(out[i] == ls2[i]);
                    } else if i > end + 1 {
                        assert(out[i] == ls2[i - 2]);
                    }
                }
                lemma_join_terminated(out);
                lemma_lines_of_terminated(out);
                assert forall|j: int| 1 <= j < end + 2 implies #[trigger] out[j] != "---"@ by {
                    if j < end {
                        assert(out[j] == ls2[j]);
                    }
                }
                assert(out[end + 2] == ls2[end]);
                assert forall|j: int| 0 <= j < st implies !has_prefix(#[trigger] out[j], "status:"@) by {
                    assert(out[j] == ls2[j]);
                }
                assert forall|j: int| 0 <= j < end implies #[trigger] out[j] != marker by {
                    assert(out[j] == ls2[j]);
                }
                assert(out[end + 1] == e);
                lemma_resupersede(t, out, id, end + 2, st, end);
            }
        }
    }
}

} // verus!
