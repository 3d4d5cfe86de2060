//! What a lifted global learning reads back: its own id and creation time,
//! and the project learning it came from, which its search metadata names.
use vstd::prelude::*;
use crate::text::{lines, terminated, lacks, has_prefix, trim, lemma_lines_of_terminated};
use crate::util::quoted;
use crate::model::{field_line, list_block};
use crate::frontmatter::{scalar_value, fm_lines};
use crate::document::{DocumentModel, document_model};
use crate::store::{rendered_global_learning, as_global};
use crate::workflow::index_of_source;
use crate::search::{metadata, lemma_metadata_names_source};
use crate::text::contains_text;
use crate::roundtrip::{
    field_text, list_lines, lemma_terminated_concat, lemma_terminated_one, lemma_field_terminated,
    lemma_list_block_terminated, lemma_quoted_shape, lemma_field_value, lemma_prefix_index_at,
    lemma_line_index_at, lemma_differs_at,
};

verus! {

/// The frontmatter lines of a lifted global learning, between its markers.
pub open spec fn lifted_front(
    source: DocumentModel,
    id: Seq<char>,
    created_at: Seq<char>,
    source_workspace: Seq<char>,
) -> Seq<Seq<char>> {
    seq![
        field_text("id"@, id),
        "type: \"learning\""@,
        "scope: \"global\""@,
        field_text("created_at"@, created_at),
        field_text("source_workspace"@, source_workspace),
        field_text("source_record"@, source.id),
        "files:"@,
    ] + list_lines("topics"@, source.topics) + seq!["related:"@, "supersedes:"@, "superseded_by:"@]
}

/// The lines of a lifted global learning before its body.
pub open spec fn lifted_head(
    source: DocumentModel,
    id: Seq<char>,
    created_at: Seq<char>,
    source_workspace: Seq<char>,
) -> Seq<Seq<char>> {
    seq!["---"@] + lifted_front(source, id, created_at, source_workspace) + seq!["---"@, Seq::<char>::empty()]
}

proof fn lemma_literal_line(l: Seq<char>)
    ensures
        terminated(seq![l]) == l + "\n"@,
{
    lemma_terminated_one(l);
    reveal_strlit("\n");
    assert(seq!['\n'] =~= "\n"@);
}

/// Adding one more line to lines whose text is known.
proof fn lemma_step(g: Seq<Seq<char>>, t: Seq<char>, more: Seq<Seq<char>>, u: Seq<char>)
    requires
        terminated(g) == t,
        terminated(more) == u,
    ensures
        terminated(g + more) == t + u,
{
    lemma_terminated_concat(g, more);
}

#[verifier::rlimit(40)]
proof fn lemma_lifted_terminated(
    source: DocumentModel,
    id: Seq<char>,
    created_at: Seq<char>,
    source_workspace: Seq<char>,
    body: Seq<char>,
)
    ensures
        rendered_global_learning(source, id, created_at, source_workspace, body) == terminated(
            lifted_head(source, id, created_at, source_workspace),
        ) + trim(body) + "\n"@,
{
    reveal_strlit("---\n");
    reveal_strlit("---");
    reveal_strlit("\n");
    reveal_strlit("type: \"learning\"\n");
    reveal_strlit("type: \"learning\"");
    reveal_strlit("scope: \"global\"\n");
    reveal_strlit("scope: \"global\"");
    reveal_strlit("files:\n");
    reveal_strlit("files:");
    reveal_strlit("related:\n");
    reveal_strlit("related:");
    reveal_strlit("supersedes:\n");
    reveal_strlit("supersedes:");
    reveal_strlit("superseded_by:\n");
    reveal_strlit("superseded_by:");
    reveal_strlit("---\n\n");
    let g0 = seq!["---"@];
    lemma_literal_line("---"@);
    let t0 = "---\n"@;
    assert(terminated(g0) == t0);
    let g1 = g0 + seq![field_text("id"@, id)];
    lemma_field_terminated("id"@, id);
    lemma_step(g0, t0, seq![field_text("id"@, id)], field_line("id"@, id));
    let t1 = t0 + field_line("id"@, id);
    let g2 = g1 + seq!["type: \"learning\""@];
    lemma_literal_line("type: \"learning\""@);
    assert("type: \"learning\""@ + "\n"@ =~= "type: \"learning\"\n"@);
    lemma_step(g1, t1, seq!["type: \"learning\""@], "type: \"learning\"\n"@);
    let t2 = t1 + "type: \"learning\"\n"@;
    let g3 = g2 + seq!["scope: \"global\""@];
    lemma_literal_line("scope: \"global\""@);
    assert("scope: \"global\""@ + "\n"@ =~= "scope: \"global\"\n"@);
    lemma_step(g2, t2, seq!["scope: \"global\""@], "scope: \"global\"\n"@);
    let t3 = t2 + "scope: \"global\"\n"@;
    let g4 = g3 + seq![field_text("created_at"@, created_at)];
    lemma_field_terminated("created_at"@, created_at);
    lemma_step(g3, t3, seq![field_text("created_at"@, created_at)], field_line("created_at"@, created_at));
    let t4 = t3 + field_line("created_at"@, created_at);
    let g5 = g4 + seq![field_text("source_workspace"@, source_workspace)];
    lemma_field_terminated("source_workspace"@, source_workspace);
    lemma_step(
        g4,
        t4,
        seq![field_text("source_workspace"@, source_workspace)],
        field_line("source_workspace"@, source_workspace),
    );
    let t5 = t4 + field_line("source_workspace"@, source_workspace);
    let g6 = g5 + seq![field_text("source_record"@, source.id)];
    lemma_field_terminated("source_record"@, source.id);
    lemma_step(g5, t5, seq![field_text("source_record"@, source.id)], field_line("source_record"@, source.id));
    let t6 = t5 + field_line("source_record"@, source.id);
    let g7 = g6 + seq!["files:"@];
    lemma_literal_line("files:"@);
    assert("files:"@ + "\n"@ =~= "files:\n"@);
    lemma_step(g6, t6, seq!["files:"@], "files:\n"@);
    let t7 = t6 + "files:\n"@;
    let g8 = g7 + list_lines("topics"@, source.topics);
    lemma_list_block_terminated("topics"@, source.topics);
    lemma_step(g7, t7, list_lines("topics"@, source.topics), list_block("topics"@, source.topics));
    let t8 = t7 + list_block("topics"@, source.topics);
    let g9 = g8 + seq!["related:"@];
    lemma_literal_line("related:"@);
    assert("related:"@ + "\n"@ =~= "related:\n"@);
    lemma_step(g8, t8, seq!["related:"@], "related:\n"@);
    let t9 = t8 + "related:\n"@;
    let g10 = g9 + seq!["supersedes:"@];
    lemma_literal_line("supersedes:"@);
    assert("supersedes:"@ + "\n"@ =~= "supersedes:\n"@);
    lemma_step(g9, t9, seq!["supersedes:"@], "supersedes:\n"@);
    let t10 = t9 + "supersedes:\n"@;
    let g11 = g10 + seq!["superseded_by:"@];
    lemma_literal_line("superseded_by:"@);
    assert("superseded_by:"@ + "\n"@ =~= "superseded_by:\n"@);
    lemma_step(g10, t10, seq!["superseded_by:"@], "superseded_by:\n"@);
    let t11 = t10 + "superseded_by:\n"@;
    let g12 = g11 + seq!["---"@];
    assert("---"@ + "\n"@ =~= "---\n"@);
    lemma_step(g11, t11, seq!["---"@], "---\n"@);
    let t12 = t11 + "---\n"@;
    let g13 = g12 + seq![Seq::<char>::empty()];
    lemma_literal_line(Seq::<char>::empty());
    assert(Seq::<char>::empty() + "\n"@ =~= "\n"@);
    lemma_step(g12, t12, seq![Seq::<char>::empty()], "\n"@);
    let t13 = t12 + "\n"@;
    assert(g13 =~= lifted_head(source, id, created_at, source_workspace));
    assert(t11 + "---\n"@ + "\n"@ =~= t11 + "---\n\n"@);
    assert(t13 + trim(body) + "\n"@ =~= rendered_global_learning(source, id, created_at, source_workspace, body));
}

proof fn lemma_head_lines(
    source: DocumentModel,
    id: Seq<char>,
    created_at: Seq<char>,
    source_workspace: Seq<char>,
)
    ensures
        forall|i: int|
            0 <= i < lifted_head(source, id, created_at, source_workspace).len() ==> lacks(
                #[trigger] lifted_head(source, id, created_at, source_workspace)[i],
                '\n',
            ) && !(lifted_head(source, id, created_at, source_workspace)[i].len() > 0 && lifted_head(
                source,
                id,
                created_at,
                source_workspace,
            )[i].last() == '\r'),
        forall|i: int|
            0 <= i < lifted_front(source, id, created_at, source_workspace).len() ==> #[trigger] lifted_front(
                source,
                id,
                created_at,
                source_workspace,
            )[i] != "---"@,
{
    reveal_strlit("---");
    reveal_strlit("type: \"learning\"");
    reveal_strlit("scope: \"global\"");
    reveal_strlit("files:");
    reveal_strlit("topics:");
    reveal_strlit("related:");
    reveal_strlit("supersedes:");
    reveal_strlit("superseded_by:");
    reveal_strlit("id");
    reveal_strlit("created_at");
    reveal_strlit("source_workspace");
    reveal_strlit("source_record");
    reveal_strlit("topics");
    reveal_strlit(": ");
    reveal_strlit(":");
    reveal_strlit("  - ");
    let h = lifted_head(source, id, created_at, source_workspace);
    let f = lifted_front(source, id, created_at, source_workspace);
    assert forall|i: int| 0 <= i < f.len() implies lacks(#[trigger] f[i], '\n') && !(f[i].len() > 0
        && f[i].last() == '\r') && f[i] != "---"@ by {
        let k = f[i];
        if i == 0 || i == 3 || i == 4 || i == 5 {
            let (key, v) = if i == 0 {
                ("id"@, id)
            } else if i == 3 {
                ("created_at"@, created_at)
            } else if i == 4 {
                ("source_workspace"@, source_workspace)
            } else {
                ("source_record"@, source.id)
            };
            assert(k == field_text(key, v));
            lemma_quoted_shape(v);
            let pre = key + ": "@;
            assert(k == pre + quoted(v));
            assert forall|j: int| 0 <= j < k.len() implies k[j] != '\n' by {
                if j >= pre.len() {
                    assert(k[j] == quoted(v)[j - pre.len()]);
                }
            }
            assert(k.last() == quoted(v).last());
            lemma_differs_at(k, "---"@, 0);
        } else if 8 <= i < 8 + source.topics.len() {
            let v = source.topics[i - 8];
            assert(k == "  - "@ + quoted(v));
            lemma_quoted_shape(v);
            assert forall|j: int| 0 <= j < k.len() implies k[j] != '\n' by {
                if j >= 4 {
                    assert(k[j] == quoted(v)[j - 4]);
                }
            }
            assert(k.last() == quoted(v).last());
            lemma_differs_at(k, "---"@, 0);
        } else if i == 7 {
            assert(k =~= "topics:"@);
            lemma_differs_at(k, "---"@, 0);
        } else {
            lemma_differs_at(k, "---"@, 0);
        }
    }
    assert forall|i: int| 0 <= i < h.len() implies lacks(#[trigger] h[i], '\n') && !(h[i].len() > 0
        && h[i].last() == '\r') by {
        if 1 <= i <= f.len() {
            assert(h[i] == f[i - 1]);
        }
    }
}

/// A frontmatter value read back from the line that holds it.
proof fn lemma_value_at(text: Seq<char>, front: Seq<Seq<char>>, k: int, key: Seq<char>, v: Seq<char>)
    requires
        fm_lines(text) == front,
        0 <= k < front.len(),
        front[k] == field_text(key, v),
        lacks(v, '\n'),
        forall|j: int| 0 <= j < k ==> !has_prefix(#[trigger] front[j], key + ":"@),
    ensures
        scalar_value(text, key) == Some(v),
{
    lemma_field_value(key, v);
    lemma_prefix_index_at(front, key + ":"@, k);
}

/// A lifted global learning, read back, has the id and creation time it was
/// given and names the project learning it came from in `source_record`, so
/// its search metadata holds that learning's id: a search for the project
/// learning's id finds the global learning.
#[verifier::rlimit(40)]
pub proof fn lemma_lifted_reads_back(
    source: DocumentModel,
    id: Seq<char>,
    created_at: Seq<char>,
    source_workspace: Seq<char>,
    body: Seq<char>,
    path: Seq<char>,
)
    requires
        lacks(id, '\n'),
        lacks(created_at, '\n'),
        lacks(source.id, '\n'),
    ensures
        ({
            let text = rendered_global_learning(source, id, created_at, source_workspace, body);
            &&& scalar_value(text, "id"@) == Some(id)
            &&& scalar_value(text, "created_at"@) == Some(created_at)
            &&& scalar_value(text, "source_record"@) == Some(source.id)
            &&& document_model(path, text).source_record == Some(source.id)
            &&& contains_text(metadata(document_model(path, text)), source.id)
        }),
{
    reveal_strlit("---");
    reveal_strlit("id");
    reveal_strlit("created_at");
    reveal_strlit("source_workspace");
    reveal_strlit("source_record");
    reveal_strlit("type: \"learning\"");
    reveal_strlit("scope: \"global\"");
    reveal_strlit(": ");
    reveal_strlit(":");
    let text = rendered_global_learning(source, id, created_at, source_workspace, body);
    let h = lifted_head(source, id, created_at, source_workspace);
    let f = lifted_front(source, id, created_at, source_workspace);
    lemma_lifted_terminated(source, id, created_at, source_workspace, body);
    lemma_head_lines(source, id, created_at, source_workspace);
    lemma_lines_of_terminated(h);
    let th = terminated(h);
    crate::roundtrip::lemma_terminated_ends(h);
    crate::store::lemma_lines_append(th, trim(body) + "\n"@);
    assert(text == th + (trim(body) + "\n"@));
    let ls = lines(text);
    assert(ls == h + lines(trim(body) + "\n"@));
    let rest = ls.drop_first();
    assert(rest =~= f + seq!["---"@, Seq::<char>::empty()] + lines(trim(body) + "\n"@));
    assert forall|j: int| 0 <= j < f.len() implies #[trigger] rest[j] != "---"@ by {
        assert(rest[j] == f[j]);
    }
    lemma_line_index_at(rest, "---"@, f.len() as int);
    assert(rest.take(f.len() as int) =~= f);
    assert(fm_lines(text) == f);
    lemma_value_at(text, f, 0, "id"@, id);
    let pc = "created_at"@ + ":"@;
    assert forall|j: int| 0 <= j < 3 implies !has_prefix(#[trigger] f[j], pc) by {
        assert(pc[0] == 'c');
        if j == 0 {
            assert(f[j][0] == 'i');
        }
        lemma_differs_at(f[j], pc, 0);
    }
    lemma_value_at(text, f, 3, "created_at"@, created_at);
    let ps = "source_record"@ + ":"@;
    assert forall|j: int| 0 <= j < 5 implies !has_prefix(#[trigger] f[j], ps) by {
        assert(ps[0] == 's' && ps[1] == 'o' && ps[7] == 'r');
        if j == 0 {
            assert(f[j][0] == 'i');
            lemma_differs_at(f[j], ps, 0);
        } else if j == 2 {
            lemma_differs_at(f[j], ps, 1);
        } else if j == 3 {
            assert(f[j][0] == 'c');
            lemma_differs_at(f[j], ps, 0);
        } else if j == 4 {
            assert(f[j][7] == 'w');
            lemma_differs_at(f[j], ps, 7);
        } else {
            lemma_differs_at(f[j], ps, 0);
        }
    }
    lemma_value_at(text, f, 5, "source_record"@, source.id);
    lemma_metadata_names_source(document_model(path, text), source.id);
}

proof fn lemma_source_found(docs: Seq<DocumentModel>, id: Seq<char>, k: int)
    requires
        0 <= k < docs.len(),
        docs[k].source_record == Some(id),
    ensures
        0 <= index_of_source(docs, id) <= k,
        index_of_source(docs, id) < docs.len(),
        docs[index_of_source(docs, id)].source_record == Some(id),
    decreases k,
{
    if k > 0 && docs[0].source_record != Some(id) {
        assert(docs.drop_first()[k - 1] == docs[k]);
        lemma_source_found(docs.drop_first(), id, k - 1);
        let j = index_of_source(docs.drop_first(), id);
        assert(0 <= j < docs.drop_first().len());
        assert(index_of_source(docs, id) == 1 + j);
        assert(docs.drop_first()[j] == docs[1 + j]);
    }
}

/// Lifting a learning a second time finds the first lift: once the global
/// learnings hold the file that lifting `source` wrote, read back, the
/// lookup for a global learning lifted from `source` finds one that names
/// it, so the second lift writes nothing. This holds when the ids and the
/// creation time are one line each.
pub proof fn lemma_lift_once(
    source: DocumentModel,
    id: Seq<char>,
    created_at: Seq<char>,
    source_workspace: Seq<char>,
    body: Seq<char>,
    path: Seq<char>,
    globals: Seq<DocumentModel>,
    k: int,
)
    requires
        lacks(id, '\n'),
        lacks(created_at, '\n'),
        lacks(source.id, '\n'),
        0 <= k < globals.len(),
        globals[k] == as_global(
            document_model(path, rendered_global_learning(source, id, created_at, source_workspace, body)),
        ),
    ensures
        index_of_source(globals, source.id) <= k,
        globals[index_of_source(globals, source.id)].source_record == Some(source.id),
{
    lemma_lifted_reads_back(source, id, created_at, source_workspace, body, path);
    lemma_source_found(globals, source.id, k);
}

} // verus!
