//! The decisions commands make between reading and writing: which record a
//! request names, what a new record holds, which learnings may be lifted,
//! and how search results are ordered and summarized.
use vstd::prelude::*;
use crate::cli::RecordArgs;
use crate::document::{Document, DocumentModel, doc_views, copy_document, file_name_of, scope_name};
use crate::model::{Kind, DecisionStatus, Record, kind_named, kind_name};
use crate::search::{search_rank, search_rank_of, matching_excerpt, excerpt_among, trimmed_lines, lowercase};
use crate::store::index_of_id;
use crate::order::{path_le, le_path, lemma_path_le_total, lemma_path_le_trans, stable_sorted, lemma_insertion_slot};
use crate::text::{chars_of, string_of, push_all, push_str, same, strs, views, join, text_is};

verus! {

// ---------------------------------------------------------------------------
// New records
// ---------------------------------------------------------------------------

/// Only a decision can supersede earlier decisions.
pub open spec fn record_args_problem(kind: Seq<char>, supersedes: Seq<Seq<char>>) -> Option<Seq<char>> {
    if kind != "decision"@ && supersedes.len() > 0 {
        Some("--supersedes can only be used with a decision"@)
    } else {
        None
    }
}

/// Checks `decide`/`learn` arguments before the workspace is touched.
pub fn check_record_args(args: &RecordArgs) -> (r: Result<(), String>)
    ensures
        match record_args_problem(args.kind@, strs(args.supersedes@)) {
            Some(e) => r is Err && r->Err_0@ == e,
            None => r is Ok,
        },
{
    let k = chars_of(args.kind.as_str());
    if !text_is(k.as_slice(), "decision") && args.supersedes.len() > 0 {
        return Err(string_of(chars_of("--supersedes can only be used with a decision").as_slice()));
    }
    Ok(())
}

/// The record a `decide` or `learn` command creates: a decision starts
/// active, a learning has no status.
pub fn new_record(args: RecordArgs, id: String, created_at: String, branch: String) -> (r: Result<Record, String>)
    requires
        kind_named(args.kind@) != Some(Kind::Journal),
    ensures
        match kind_named(args.kind@) {
            None => r is Err && r->Err_0@ == "unsupported record kind: "@ + args.kind@,
            Some(k) => r is Ok && r->Ok_0.kind == k && r->Ok_0.id@ == id@ && r->Ok_0.created_at@
                == created_at@ && r->Ok_0.statement@ == args.statement@ && r->Ok_0.status == (if k
                == Kind::Decision {
                Some(DecisionStatus::Active)
            } else {
                None
            }) && r->Ok_0.files@ == args.files@ && r->Ok_0.topics@ == args.topics@
                && r->Ok_0.evidence@ == args.evidence@ && r->Ok_0.related@ == args.related@
                && r->Ok_0.supersedes@ == args.supersedes@ && r->Ok_0.branch@ == branch@,
        },
{
    let kind = Kind::parse(args.kind.as_str())?;
    let status = match kind {
        Kind::Decision => Some(DecisionStatus::Active),
        _ => None,
    };
    Ok(Record {
        id,
        kind,
        created_at,
        statement: args.statement,
        status,
        files: args.files,
        topics: args.topics,
        evidence: args.evidence,
        related: args.related,
        supersedes: args.supersedes,
        branch,
    })
}

// ---------------------------------------------------------------------------
// Records named by id
// ---------------------------------------------------------------------------

fn position_of(documents: &Vec<Document>, id: &str) -> (k: usize)
    ensures
        k == index_of_id(doc_views(documents@), id@),
        k <= documents.len(),
{
    let ghost dv = doc_views(documents@);
    let want = chars_of(id);
    let mut k: usize = 0;
    assert(dv.skip(0) =~= dv);
    while k < documents.len()
        invariant
            k <= documents.len(),
            dv == doc_views(documents@),
            want@ == id@,
            index_of_id(dv, id@) == k + index_of_id(dv.skip(k as int), id@),
        decreases documents.len() - k,
    {
        assert(dv.skip(k as int)[0] == documents@[k as int]@);
        let d_id = chars_of(documents[k].id.as_str());
        if same(d_id.as_slice(), want.as_slice()) {
            return k;
        }
        assert(dv.skip(k as int).drop_first() =~= dv.skip(k + 1));
        k = k + 1;
    }
    assert(dv.skip(k as int) =~= Seq::<DocumentModel>::empty());
    k
}

/// The record `show` prints: the first with the id.
pub fn find_record(documents: &Vec<Document>, id: &str) -> (r: Result<Document, String>)
    ensures
        ({
            let dv = doc_views(documents@);
            let k = index_of_id(dv, id@);
            if k < dv.len() {
                r is Ok && r->Ok_0@ == dv[k]
            } else {
                r is Err && r->Err_0@ == "no Tincan record found with id "@ + id@
            }
        }),
{
    let k = position_of(documents, id);
    if k < documents.len() {
        return Ok(copy_document(&documents[k]));
    }
    let mut e = chars_of("no Tincan record found with id ");
    push_str(&mut e, id);
    Err(string_of(e.as_slice()))
}

/// The project learning `lift` starts from: the first record with the id,
/// which must be a learning.
pub open spec fn lift_source_of(docs: Seq<DocumentModel>, id: Seq<char>) -> Result<DocumentModel, Seq<char>> {
    let k = index_of_id(docs, id);
    if k >= docs.len() {
        Err("no project record found with id "@ + id)
    } else if docs[k].kind != "learning"@ {
        Err(id + " is not a project learning"@)
    } else {
        Ok(docs[k])
    }
}

/// Finds the project learning to lift among a workspace's records.
pub fn lift_source(documents: &Vec<Document>, id: &str) -> (r: Result<Document, String>)
    ensures
        match lift_source_of(doc_views(documents@), id@) {
            Ok(d) => r is Ok && r->Ok_0@ == d,
            Err(e) => r is Err && r->Err_0@ == e,
        },
{
    let k = position_of(documents, id);
    if k >= documents.len() {
        let mut e = chars_of("no project record found with id ");
        push_str(&mut e, id);
        return Err(string_of(e.as_slice()));
    }
    assert(doc_views(documents@)[k as int] == documents@[k as int]@);
    let kind = chars_of(documents[k].kind.as_str());
    if !text_is(kind.as_slice(), "learning") {
        let mut e = chars_of(id);
        push_str(&mut e, " is not a project learning");
        return Err(string_of(e.as_slice()));
    }
    Ok(copy_document(&documents[k]))
}

/// Index of the first global learning lifted from `id`, or the length.
pub open spec fn index_of_source(docs: Seq<DocumentModel>, id: Seq<char>) -> int
    decreases docs.len(),
{
    if docs.len() == 0 {
        0
    } else if docs[0].source_record == Some(id) {
        0
    } else {
        1 + index_of_source(docs.drop_first(), id)
    }
}

/// The global learning already lifted from project learning `id`, if any.
pub fn already_lifted(globals: &Vec<Document>, id: &str) -> (r: Option<Document>)
    ensures
        ({
            let gv = doc_views(globals@);
            let k = index_of_source(gv, id@);
            if k < gv.len() {
                r is Some && r->0@ == gv[k]
            } else {
                r is None
            }
        }),
{
    let ghost gv = doc_views(globals@);
    let want = chars_of(id);
    let mut k: usize = 0;
    assert(gv.skip(0) =~= gv);
    while k < globals.len()
        invariant
            k <= globals.len(),
            gv == doc_views(globals@),
            want@ == id@,
            index_of_source(gv, id@) == k + index_of_source(gv.skip(k as int), id@),
        decreases globals.len() - k,
    {
        assert(gv.skip(k as int)[0] == globals@[k as int]@);
        let hit = match &globals[k].source_record {
            Some(s) => {
                let sc = chars_of(s.as_str());
                same(sc.as_slice(), want.as_slice())
            },
            None => false,
        };
        if hit {
            return Some(copy_document(&globals[k]));
        }
        assert(gv.skip(k as int).drop_first() =~= gv.skip(k + 1));
        k = k + 1;
    }
    assert(gv.skip(k as int) =~= Seq::<DocumentModel>::empty());
    None
}

/// The workspace a lifted learning came from, as recorded: the workspace
/// directory's name, or `workspace` when it has none.
pub open spec fn workspace_label(root: Seq<char>) -> Seq<char> {
    match file_name_of(root) {
        Some(n) => n,
        None => "workspace"@,
    }
}

/// The source workspace name recorded in a lifted learning.
pub fn source_workspace_name(root: &str) -> (r: String)
    ensures
        r@ == workspace_label(root@),
{
    let p = chars_of(root);
    match crate::document::file_name(p.as_slice()) {
        Some(name) => string_of(name.as_slice()),
        None => string_of(chars_of("workspace").as_slice()),
    }
}

// ---------------------------------------------------------------------------
// Search results
// ---------------------------------------------------------------------------

/// The records that match a lowercase query, with their ranks, in the given
/// order.
pub open spec fn ranked(docs: Seq<DocumentModel>, query: Seq<char>) -> Seq<(u8, DocumentModel)>
    decreases docs.len(),
{
    if docs.len() == 0 {
        seq![]
    } else {
        ranked(docs.drop_last(), query) + match search_rank_of(docs.last(), query) {
            Some(r) => seq![(r, docs.last())],
            None => Seq::empty(),
        }
    }
}

/// Result order: better rank first, then by path.
pub open spec fn result_le(a: (u8, DocumentModel), b: (u8, DocumentModel)) -> bool {
    a.0 < b.0 || (a.0 == b.0 && path_le(a.1.path, b.1.path))
}

/// Results in result order.
pub open spec fn results_sorted(s: Seq<(u8, DocumentModel)>) -> bool {
    forall|i: int, j: int| 0 <= i < j < s.len() ==> result_le(s[i], s[j])
}

/// Result order of ranked records.
pub open spec fn result_order() -> spec_fn((u8, DocumentModel), (u8, DocumentModel)) -> bool {
    |a: (u8, DocumentModel), b: (u8, DocumentModel)| result_le(a, b)
}

/// Ranked records as values.
pub open spec fn result_views(s: Seq<(u8, Document)>) -> Seq<(u8, DocumentModel)> {
    s.map_values(|e: (u8, Document)| (e.0, e.1@))
}

fn result_before(a: &(u8, Document), b: &(u8, Document)) -> (r: bool)
    ensures
        r == result_le((a.0, a.1@), (b.0, b.1@)),
{
    if a.0 != b.0 {
        a.0 < b.0
    } else {
        le_path(a.1.path.as_str(), b.1.path.as_str())
    }
}

/// The records that match a query, matched lowercased, best first and then by
/// path.
pub fn search_results(documents: &Vec<Document>, query: &str) -> (r: Vec<(u8, Document)>)
    ensures
        result_views(r@) == stable_sorted(ranked(doc_views(documents@), lowercase(query@)), result_order()),
        results_sorted(result_views(r@)),
        result_views(r@).to_multiset() == ranked(doc_views(documents@), lowercase(query@)).to_multiset(),
{
    let lowered = search_query(query);
    ranked_results(documents, lowered.as_str())
}

/// A search query as records are matched against it: lowercased.
pub fn search_query(query: &str) -> (r: String)
    ensures
        r@ == lowercase(query@),
{
    crate::search::to_lower(query)
}

fn ranked_results(documents: &Vec<Document>, query: &str) -> (r: Vec<(u8, Document)>)
    ensures
        result_views(r@) == stable_sorted(ranked(doc_views(documents@), query@), result_order()),
        results_sorted(result_views(r@)),
        result_views(r@).to_multiset() == ranked(doc_views(documents@), query@).to_multiset(),
{
    broadcast use vstd::seq_lib::group_to_multiset_ensures, vstd::multiset::group_multiset_axioms;
    let ghost dv = doc_views(documents@);
    let mut out: Vec<(u8, Document)> = Vec::new();
    let mut i: usize = 0;
    assert(result_views(out@).to_multiset() =~= vstd::multiset::Multiset::empty());
    while i < documents.len()
        invariant
            i <= documents.len(),
            dv == doc_views(documents@),
            result_views(out@) == stable_sorted(ranked(dv.take(i as int), query@), result_order()),
            results_sorted(result_views(out@)),
            result_views(out@).to_multiset() == ranked(dv.take(i as int), query@).to_multiset(),
        decreases documents.len() - i,
    {
        assert(dv.take(i + 1).drop_last() =~= dv.take(i as int));
        assert(dv.take(i + 1).last() == documents@[i as int]@);
        match search_rank(&documents[i], query) {
            None => {
                assert(ranked(dv.take(i + 1), query@) =~= ranked(dv.take(i as int), query@));
            },
            Some(rank) => {
                let e = (rank, copy_document(&documents[i]));
                let ghost ev = (rank, documents@[i as int]@);
                let mut k: usize = 0;
                while k < out.len() && result_before(&out[k], &e)
                    invariant
                        k <= out.len(),
                        ev == (e.0, e.1@),
                        forall|m: int| 0 <= m < k ==> result_le(#[trigger] result_views(out@)[m], ev),
                    decreases out.len() - k,
                {
                    k = k + 1;
                }
                let ghost before = result_views(out@);
                proof {
                    if k < out.len() {
                        lemma_path_le_total(before[k as int].1.path, ev.1.path);
                    }
                    assert forall|m: int| 0 <= m < k implies #[trigger] (result_order())(before[m], ev) by {}
                    lemma_insertion_slot(before, ev, result_order(), k as int);
                    let rk = ranked(dv.take(i + 1), query@);
                    assert(rk =~= ranked(dv.take(i as int), query@) + seq![ev]);
                    assert(rk.drop_last() =~= ranked(dv.take(i as int), query@));
                    assert(rk.last() == ev);
                }
                out.insert(k, e);
                let ghost after = result_views(out@);
                assert(after =~= before.insert(k as int, ev));
                proof {
                    assert forall|a: int, b: int| 0 <= a < b < after.len() implies result_le(
                        after[a],
                        after[b],
                    ) by {
                        if b < k {
                        } else if b == k {
                        } else if a == k {
                            if b - 1 > k {
                                assert(result_le(before[k as int], before[b - 1]));
                                if ev.0 == before[b - 1].0 {
                                    lemma_path_le_trans(ev.1.path, before[k as int].1.path, before[b - 1].1.path);
                                }
                            }
                        } else if a < k {
                            if b - 1 == k {
                                if before[a].0 == before[k as int].0 {
                                    lemma_path_le_trans(before[a].1.path, ev.1.path, before[k as int].1.path);
                                }
                            } else {
                                assert(result_le(before[a], before[b - 1]));
                            }
                        } else {
                            assert(result_le(before[a - 1], before[b - 1]));
                        }
                    }
                    assert(before.insert(k as int, ev) =~= before.take(k as int) + seq![ev]
                        + before.skip(k as int));
                    assert(before =~= before.take(k as int) + before.skip(k as int));
                    vstd::seq_lib::lemma_multiset_commutative(
                        before.take(k as int) + seq![ev],
                        before.skip(k as int),
                    );
                    vstd::seq_lib::lemma_multiset_commutative(before.take(k as int), seq![ev]);
                    vstd::seq_lib::lemma_multiset_commutative(before.take(k as int), before.skip(k as int));
                    vstd::seq_lib::lemma_multiset_commutative(ranked(dv.take(i as int), query@), seq![ev]);
                    assert(ranked(dv.take(i + 1), query@) =~= ranked(dv.take(i as int), query@) + seq![ev]);
                    assert(after.to_multiset() =~= before.to_multiset().add(seq![ev].to_multiset()));
                }
            },
        }
        i = i + 1;
    }
    assert(dv.take(documents.len() as int) =~= dv);
    out
}

// ---------------------------------------------------------------------------
// Summaries
// ---------------------------------------------------------------------------

/// A record's type, with its status when it has one.
pub open spec fn kind_with_status(d: DocumentModel) -> Seq<char> {
    match d.status {
        Some(s) => d.kind + " / "@ + s,
        None => d.kind,
    }
}

/// A labelled list line, present only when the list is not empty.
pub open spec fn list_line(label: Seq<char>, values: Seq<Seq<char>>) -> Seq<Seq<char>> {
    if values.len() > 0 {
        seq![label + join(values, ", "@)]
    } else {
        Seq::empty()
    }
}

/// The lines that summarize a record in search results.
pub open spec fn summary_lines(d: DocumentModel, excerpt: Option<Seq<char>>) -> Seq<Seq<char>> {
    seq![d.heading + " ["@ + scope_name(d.scope) + " "@ + kind_with_status(d) + "]"@, "  id: "@ + d.id]
        + (match excerpt {
        Some(e) => seq!["  matched: "@ + e],
        None => Seq::empty(),
    }) + list_line("  files: "@, d.files) + list_line("  topics: "@, d.topics) + list_line(
        "  supersedes: "@,
        d.supersedes,
    ) + list_line("  superseded by: "@, d.superseded_by) + seq!["  "@ + crate::util::displayed_path(d.path)]
}

/// The excerpt a summary shows for a query.
pub open spec fn excerpt_for(d: DocumentModel, query: Seq<char>) -> Option<Seq<char>> {
    excerpt_among(
        trimmed_lines(d.body),
        trimmed_lines(d.body).map_values(|t: Seq<char>| lowercase(t)),
        d.heading,
        lowercase(query),
    )
}

fn push_list_line(lines: &mut Vec<String>, label: &str, values: &Vec<String>)
    ensures
        strs(final(lines)@) == strs(old(lines)@) + list_line(label@, strs(values@)),
{
    let ghost prev = strs(lines@);
    if values.len() > 0 {
        let mut parts: Vec<Vec<char>> = Vec::new();
        let mut i: usize = 0;
        while i < values.len()
            invariant
                i <= values.len(),
                views(parts@) == strs(values@).take(i as int),
            decreases values.len() - i,
        {
            let ghost p = views(parts@);
            parts.push(chars_of(values[i].as_str()));
            assert(views(parts@) =~= p.push(values@[i as int]@));
            assert(strs(values@).take(i + 1) =~= strs(values@).take(i as int).push(values@[i as int]@));
            i = i + 1;
        }
        assert(strs(values@).take(values.len() as int) =~= strs(values@));
        let mut line = chars_of(label);
        let sep = chars_of(", ");
        let joined = crate::text::join_with(&parts, sep.as_slice());
        push_all(&mut line, joined.as_slice());
        lines.push(string_of(line.as_slice()));
        assert(strs(lines@) =~= prev + list_line(label@, strs(values@)));
    } else {
        assert(strs(lines@) =~= prev + list_line(label@, strs(values@)));
    }
}

/// The lines that summarize a record in `search` output, with the matching
/// line of its body when a query is given.
pub fn document_summary(document: &Document, query: Option<&str>) -> (r: Vec<String>)
    ensures
        strs(r@) == summary_lines(
            document@,
            match query {
                Some(q) => excerpt_for(document@, q@),
                None => None,
            },
        ),
{
    let mut lines: Vec<String> = Vec::new();
    let mut first = chars_of(document.heading.as_str());
    push_str(&mut first, " [");
    push_str(&mut first, document.scope.as_str());
    push_str(&mut first, " ");
    push_str(&mut first, document.kind.as_str());
    match &document.status {
        Some(s) => {
            push_str(&mut first, " / ");
            push_str(&mut first, s.as_str());
        },
        None => {},
    }
    push_str(&mut first, "]");
    assert(first@ =~= document@.heading + " ["@ + scope_name(document@.scope) + " "@ + kind_with_status(
        document@,
    ) + "]"@);
    lines.push(string_of(first.as_slice()));
    let mut second = chars_of("  id: ");
    push_str(&mut second, document.id.as_str());
    lines.push(string_of(second.as_slice()));
    let ghost excerpt = match query {
        Some(q) => excerpt_for(document@, q@),
        None => None,
    };
    let ghost head = strs(lines@);
    assert(head =~= seq![
        document@.heading + " ["@ + scope_name(document@.scope) + " "@ + kind_with_status(document@)
            + "]"@,
        "  id: "@ + document@.id,
    ]);
    match query {
        Some(q) => match matching_excerpt(document, q) {
            Some(e) => {
                let mut m = chars_of("  matched: ");
                push_str(&mut m, e.as_str());
                lines.push(string_of(m.as_slice()));
            },
            None => {},
        },
        None => {},
    }
    assert(strs(lines@) =~= head + match excerpt {
        Some(e) => seq!["  matched: "@ + e],
        None => Seq::<Seq<char>>::empty(),
    });
    push_list_line(&mut lines, "  files: ", &document.files);
    push_list_line(&mut lines, "  topics: ", &document.topics);
    push_list_line(&mut lines, "  supersedes: ", &document.supersedes);
    push_list_line(&mut lines, "  superseded by: ", &document.superseded_by);
    let mut last = chars_of("  ");
    let shown = crate::util::display_path(document.path.as_str());
    push_str(&mut last, shown.as_str());
    let ghost before = strs(lines@);
    lines.push(string_of(last.as_slice()));
    assert(strs(lines@) =~= before.push("  "@ + crate::util::displayed_path(document@.path)));
    assert(strs(lines@) =~= summary_lines(document@, excerpt));
    lines
}

} // verus!
