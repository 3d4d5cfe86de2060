//! Finding records: how well a record matches a query, the line of its body
//! that matched, and which records a changed file concerns.
use vstd::prelude::*;
use crate::document::{Document, DocumentModel, or_empty};
use crate::text::{
    chars_of, string_of, push_all, push_str, join, strs, views, trim, trim_chars, has_prefix,
    contains_text, contains, lines, lines_of, same, starts_with, starts_with_str, skip, text_is,
};
use crate::util::forward_slashes;

verus! {

/// What `str::to_lowercase` gives for a text.
pub uninterp spec fn lowercase(s: Seq<char>) -> Seq<char>;

/// std's `str::to_lowercase`. Its result, Unicode lowercase mapping with the
/// final-sigma rule, depends on the text alone and is named `lowercase`;
/// nothing more is claimed of it.
#[verifier::external_body]
pub(crate) fn to_lower(s: &str) -> (r: String)
    ensures
        r@ == lowercase(s@),
{
    s.to_lowercase()
}

// ---------------------------------------------------------------------------
// Ranking
// ---------------------------------------------------------------------------

/// The metadata values a query is matched against, one per line: id, type,
/// status (empty when absent), then the lists, then the source record.
pub open spec fn metadata_parts(d: DocumentModel) -> Seq<Seq<char>> {
    seq![d.id, d.kind, or_empty(d.status)] + d.files + d.topics + d.related + d.supersedes
        + d.superseded_by + match d.source_record {
        Some(s) => seq![s],
        None => Seq::<Seq<char>>::empty(),
    }
}

/// A record's metadata as one text.
pub open spec fn metadata(d: DocumentModel) -> Seq<char> {
    join(metadata_parts(d), "\n"@)
}

fn push_parts(parts: &mut Vec<Vec<char>>, values: &Vec<String>)
    ensures
        views(final(parts)@) == views(old(parts)@) + strs(values@),
{
    let ghost start = views(parts@);
    let mut i: usize = 0;
    while i < values.len()
        invariant
            i <= values.len(),
            views(parts@) == start + strs(values@).take(i as int),
        decreases values.len() - i,
    {
        let ghost prev = views(parts@);
        parts.push(chars_of(values[i].as_str()));
        assert(views(parts@) =~= prev.push(values@[i as int]@));
        assert(strs(values@).take(i + 1) =~= strs(values@).take(i as int).push(values@[i as int]@));
        i = i + 1;
    }
    assert(strs(values@).take(values.len() as int) =~= strs(values@));
}

/// A record's metadata values, one per line.
pub fn metadata_text(document: &Document) -> (r: String)
    ensures
        r@ == metadata(document@),
{
    let mut parts: Vec<Vec<char>> = Vec::new();
    parts.push(chars_of(document.id.as_str()));
    parts.push(chars_of(document.kind.as_str()));
    match &document.status {
        Some(s) => parts.push(chars_of(s.as_str())),
        None => parts.push(Vec::new()),
    }
    assert(views(parts@) =~= seq![document@.id, document@.kind, or_empty(document@.status)]);
    push_parts(&mut parts, &document.files);
    push_parts(&mut parts, &document.topics);
    push_parts(&mut parts, &document.related);
    push_parts(&mut parts, &document.supersedes);
    push_parts(&mut parts, &document.superseded_by);
    let ghost before = views(parts@);
    match &document.source_record {
        Some(s) => {
            parts.push(chars_of(s.as_str()));
            assert(views(parts@) =~= before + seq![s@]);
        },
        None => {
            assert(views(parts@) =~= before + Seq::<Seq<char>>::empty());
        },
    }
    assert(views(parts@) =~= metadata_parts(document@));
    let sep = chars_of("\n");
    let joined = crate::text::join_with(&parts, sep.as_slice());
    string_of(joined.as_slice())
}

/// How well a record matches a lowercase query, from its lowercased id,
/// heading, metadata and body: 0 for its id, 1 within its heading, 2 within
/// its metadata, 3 within its body, and no match otherwise.
pub open spec fn rank_of(
    id: Seq<char>,
    heading: Seq<char>,
    meta: Seq<char>,
    body: Seq<char>,
    query: Seq<char>,
) -> Option<u8> {
    if id == query {
        Some(0)
    } else if contains_text(heading, query) {
        Some(1)
    } else if contains_text(meta, query) {
        Some(2)
    } else if contains_text(body, query) {
        Some(3)
    } else {
        None
    }
}

/// The rank of a record, given its lowercased id, heading, metadata and body.
pub fn rank_lowered(id: &str, heading: &str, meta: &str, body: &str, query: &str) -> (r: Option<u8>)
    ensures
        r == rank_of(id@, heading@, meta@, body@, query@),
{
    let q = chars_of(query);
    let i = chars_of(id);
    if same(i.as_slice(), q.as_slice()) {
        return Some(0);
    }
    let h = chars_of(heading);
    if contains(h.as_slice(), q.as_slice()) {
        return Some(1);
    }
    let m = chars_of(meta);
    if contains(m.as_slice(), q.as_slice()) {
        return Some(2);
    }
    let b = chars_of(body);
    if contains(b.as_slice(), q.as_slice()) {
        return Some(3);
    }
    None
}

/// How well a record matches an already lowercased query.
pub open spec fn search_rank_of(d: DocumentModel, query: Seq<char>) -> Option<u8> {
    rank_of(lowercase(d.id), lowercase(d.heading), lowercase(metadata(d)), lowercase(d.body), query)
}

/// A record is found first by its own id, whatever its heading, metadata or
/// body hold: editing a record's Markdown keeps it found by its id.
pub proof fn lemma_found_by_id(d: DocumentModel, edited: DocumentModel)
    requires
        edited.id == d.id,
    ensures
        search_rank_of(edited, lowercase(d.id)) == Some(0u8),
{
}

/// How well a record matches an already lowercased query: by id, heading,
/// metadata or body, in that order of preference.
pub fn search_rank(document: &Document, query: &str) -> (r: Option<u8>)
    ensures
        r == search_rank_of(document@, query@),
{
    let id = to_lower(document.id.as_str());
    let heading = to_lower(document.heading.as_str());
    let meta = metadata_text(document);
    let meta_l = to_lower(meta.as_str());
    let body = to_lower(document.body.as_str());
    rank_lowered(id.as_str(), heading.as_str(), meta_l.as_str(), body.as_str(), query)
}

/// A global learning's metadata names the project learning it was lifted
/// from, so a search for that learning's id matches the global one.
pub proof fn lemma_metadata_names_source(d: DocumentModel, id: Seq<char>)
    requires
        d.source_record == Some(id),
    ensures
        contains_text(metadata(d), id),
{
    let parts = metadata_parts(d);
    let n = parts.len();
    assert(parts[n - 1] == id);
    let m = metadata(d);
    let front = join(parts.drop_last(), "\n"@) + "\n"@;
    assert(m == front + id);
    assert(m.subrange(front.len() as int, (front.len() + id.len()) as int) =~= id);
    assert(crate::text::occurs_at(m, id, front.len() as int));
}

// ---------------------------------------------------------------------------
// The matching line
// ---------------------------------------------------------------------------

/// `s` without its leading `#` characters.
pub open spec fn without_hashes(s: Seq<char>) -> Seq<char>
    decreases s.len(),
{
    if s.len() > 0 && s[0] == '#' {
        without_hashes(s.drop_first())
    } else {
        s
    }
}

/// `s` without its leading `-` and `*` characters.
pub open spec fn without_bullets(s: Seq<char>) -> Seq<char>
    decreases s.len(),
{
    if s.len() > 0 && (s[0] == '-' || s[0] == '*') {
        without_bullets(s.drop_first())
    } else {
        s
    }
}

/// The excerpt shown for a matching line: without heading marks, bullet
/// marks and surrounding whitespace, cut to 120 characters with an ellipsis.
pub open spec fn excerpt_of(line: Seq<char>) -> Seq<char> {
    let c = trim(without_bullets(without_hashes(line)));
    if c.len() > 120 {
        c.take(120).push('\u{2026}')
    } else {
        c
    }
}

/// A trimmed body line (with its lowercase form) matches the lowercase query
/// and is not blank or the record's own H1 heading.
pub open spec fn candidate(t: Seq<char>, lowered: Seq<char>, heading: Seq<char>, query: Seq<char>) -> bool {
    t.len() > 0 && !(has_prefix(t, "# "@) && t.skip(2) == heading) && contains_text(lowered, query)
}

/// Index of the first candidate line, or the number of lines.
pub open spec fn first_candidate(
    ts: Seq<Seq<char>>,
    lts: Seq<Seq<char>>,
    heading: Seq<char>,
    query: Seq<char>,
) -> int
    decreases ts.len(),
{
    if ts.len() == 0 || lts.len() == 0 {
        0
    } else if candidate(ts[0], lts[0], heading, query) {
        0
    } else {
        1 + first_candidate(ts.drop_first(), lts.drop_first(), heading, query)
    }
}

/// The excerpt of the first candidate line, if any.
pub open spec fn excerpt_among(
    ts: Seq<Seq<char>>,
    lts: Seq<Seq<char>>,
    heading: Seq<char>,
    query: Seq<char>,
) -> Option<Seq<char>> {
    let i = first_candidate(ts, lts, heading, query);
    if i < ts.len() && i < lts.len() {
        Some(excerpt_of(ts[i]))
    } else {
        None
    }
}

fn excerpt(line: &[char]) -> (r: Vec<char>)
    ensures
        r@ == excerpt_of(line@),
{
    let mut i: usize = 0;
    assert(line@.skip(0) =~= line@);
    while i < line.len() && line[i] == '#'
        invariant
            i <= line.len(),
            without_hashes(line@) == without_hashes(line@.skip(i as int)),
        decreases line.len() - i,
    {
        assert(line@.skip(i as int).drop_first() =~= line@.skip(i + 1));
        i = i + 1;
    }
    let ghost h = line@.skip(i as int);
    let mut j: usize = i;
    assert(h.skip(0) =~= h);
    while j < line.len() && (line[j] == '-' || line[j] == '*')
        invariant
            i <= j <= line.len(),
            h == line@.skip(i as int),
            without_bullets(without_hashes(line@)) == without_bullets(line@.skip(j as int)),
        decreases line.len() - j,
    {
        assert(line@.skip(j as int).drop_first() =~= line@.skip(j + 1));
        j = j + 1;
    }
    let rest = skip(line, j);
    let c = trim_chars(rest.as_slice());
    if c.len() > 120 {
        let mut out = crate::text::slice_of(c.as_slice(), 0, 120);
        out.push('\u{2026}');
        assert(out@ =~= c@.take(120).push('\u{2026}'));
        out
    } else {
        c
    }
}

/// The excerpt of the first candidate among trimmed body lines, given their
/// lowercase forms and the lowercase query.
pub fn excerpt_from(
    trimmed: &Vec<String>,
    lowered: &Vec<String>,
    heading: &str,
    query: &str,
) -> (r: Option<String>)
    ensures
        match excerpt_among(strs(trimmed@), strs(lowered@), heading@, query@) {
            Some(e) => r is Some && r->0@ == e,
            None => r is None,
        },
{
    let ghost ts = strs(trimmed@);
    let ghost lts = strs(lowered@);
    let h = chars_of(heading);
    let q = chars_of(query);
    let mut i: usize = 0;
    assert(ts.skip(0) =~= ts);
    assert(lts.skip(0) =~= lts);
    while i < trimmed.len() && i < lowered.len()
        invariant
            ts == strs(trimmed@),
            lts == strs(lowered@),
            h@ == heading@,
            q@ == query@,
            i <= trimmed.len(),
            i <= lowered.len(),
            first_candidate(ts, lts, heading@, query@) == i + first_candidate(
                ts.skip(i as int),
                lts.skip(i as int),
                heading@,
                query@,
            ),
        decreases trimmed.len() - i,
    {
        let t = chars_of(trimmed[i].as_str());
        let lt = chars_of(lowered[i].as_str());
        assert(ts.skip(i as int)[0] == t@);
        assert(lts.skip(i as int)[0] == lt@);
        proof {
            reveal_strlit("# ");
        }
        let own_heading = if starts_with_str(t.as_slice(), "# ") {
            let rest = skip(t.as_slice(), 2);
            same(rest.as_slice(), h.as_slice())
        } else {
            false
        };
        if t.len() > 0 && !own_heading && contains(lt.as_slice(), q.as_slice()) {
            let e = excerpt(t.as_slice());
            return Some(string_of(e.as_slice()));
        }
        assert(ts.skip(i as int).drop_first() =~= ts.skip(i + 1));
        assert(lts.skip(i as int).drop_first() =~= lts.skip(i + 1));
        i = i + 1;
    }
    None
}

/// The trimmed lines of a record body.
pub open spec fn trimmed_lines(body: Seq<char>) -> Seq<Seq<char>> {
    lines(body).map_values(|l: Seq<char>| trim(l))
}

/// The first line of a record's body that matches the query, as a short
/// excerpt; the record's own H1 heading and blank lines never match.
pub fn matching_excerpt(document: &Document, query: &str) -> (r: Option<String>)
    ensures
        match excerpt_among(
            trimmed_lines(document@.body),
            trimmed_lines(document@.body).map_values(|t: Seq<char>| lowercase(t)),
            document@.heading,
            lowercase(query@),
        ) {
            Some(e) => r is Some && r->0@ == e,
            None => r is None,
        },
{
    let q = to_lower(query);
    let b = chars_of(document.body.as_str());
    let ls = lines_of(b.as_slice());
    let mut trimmed: Vec<String> = Vec::new();
    let mut lowered: Vec<String> = Vec::new();
    let ghost tl = trimmed_lines(document@.body);
    let mut i: usize = 0;
    while i < ls.len()
        invariant
            i <= ls.len(),
            views(ls@) == lines(document@.body),
            tl == trimmed_lines(document@.body),
            strs(trimmed@) == tl.take(i as int),
            strs(lowered@) == tl.take(i as int).map_values(|t: Seq<char>| lowercase(t)),
        decreases ls.len() - i,
    {
        let t = trim_chars(ls[i].as_slice());
        let ts = string_of(t.as_slice());
        let lt = to_lower(ts.as_str());
        assert(tl[i as int] == trim(ls@[i as int]@));
        let ghost p1 = strs(trimmed@);
        let ghost p2 = strs(lowered@);
        trimmed.push(ts);
        lowered.push(lt);
        assert(strs(trimmed@) =~= p1.push(t@));
        assert(tl.take(i + 1) =~= tl.take(i as int).push(t@));
        assert(strs(lowered@) =~= p2.push(lowercase(t@)));
        assert(tl.take(i + 1).map_values(|t: Seq<char>| lowercase(t)) =~= tl.take(i as int).map_values(
            |t: Seq<char>| lowercase(t),
        ).push(lowercase(t@)));
        i = i + 1;
    }
    assert(tl.take(ls.len() as int) =~= tl);
    excerpt_from(&trimmed, &lowered, document.heading.as_str(), q.as_str())
}

// ---------------------------------------------------------------------------
// Changed files
// ---------------------------------------------------------------------------

/// `s` without leading and trailing `/` characters (`trim_matches('/')`).
pub open spec fn trim_slashes(s: Seq<char>) -> Seq<char>
    decreases s.len(),
{
    if s.len() > 0 && s[0] == '/' {
        trim_slashes(s.drop_first())
    } else if s.len() > 0 && s.last() == '/' {
        trim_slashes(s.drop_last())
    } else {
        s
    }
}

/// A path compared as Tincan compares workspace paths: no surrounding `/`,
/// and `/` for every `\`.
pub open spec fn normal_path(s: Seq<char>) -> Seq<char> {
    forward_slashes(trim_slashes(s))
}

/// Two workspace paths overlap when they are equal or one lies inside the
/// other as a directory.
pub open spec fn overlap(changed: Seq<char>, affected: Seq<char>) -> bool {
    let c = normal_path(changed);
    let a = normal_path(affected);
    c == a || has_prefix(c, a + "/"@) || has_prefix(a, c + "/"@)
}

fn trimmed_slashes(s: &[char]) -> (r: Vec<char>)
    ensures
        r@ == trim_slashes(s@),
{
    let mut i: usize = 0;
    let mut j: usize = s.len();
    assert(s@.subrange(0, s.len() as int) =~= s@);
    while i < j && (s[i] == '/' || s[j - 1] == '/')
        invariant
            i <= j <= s.len(),
            trim_slashes(s@) == trim_slashes(s@.subrange(i as int, j as int)),
        decreases j - i,
    {
        if s[i] == '/' {
            assert(s@.subrange(i as int, j as int).drop_first() =~= s@.subrange(i + 1, j as int));
            i = i + 1;
        } else {
            assert(s@.subrange(i as int, j as int).drop_last() =~= s@.subrange(i as int, j - 1));
            j = j - 1;
        }
    }
    crate::text::slice_of(s, i, j)
}

fn normalized(s: &str) -> (r: Vec<char>)
    ensures
        r@ == normal_path(s@),
{
    let c = chars_of(s);
    let t = trimmed_slashes(c.as_slice());
    let r = crate::text::replace(t.as_slice(), &['\\'], &['/']);
    assert(seq!['\\'] =~= ['\\']@);
    assert(seq!['/'] =~= ['/']@);
    r
}

/// Whether a changed file and a record's affected path overlap.
pub fn paths_overlap(changed: &str, affected: &str) -> (r: bool)
    ensures
        r == overlap(changed@, affected@),
{
    let c = normalized(changed);
    let a = normalized(affected);
    if same(c.as_slice(), a.as_slice()) {
        return true;
    }
    let mut a2 = a.clone();
    a2.push('/');
    let mut c2 = c.clone();
    c2.push('/');
    proof {
        reveal_strlit("/");
        assert(a2@ =~= a@ + "/"@);
        assert(c2@ =~= c@ + "/"@);
    }
    starts_with(c.as_slice(), a2.as_slice()) || starts_with(a.as_slice(), c2.as_slice())
}

/// Overlap does not depend on which path is the changed one.
pub proof fn lemma_overlap_symmetric(a: Seq<char>, b: Seq<char>)
    ensures
        overlap(a, b) == overlap(b, a),
{
}

/// The records that concern a changed file: those with an affected path
/// that overlaps it, in the given order.
pub open spec fn concerning(file: Seq<char>, docs: Seq<DocumentModel>) -> Seq<DocumentModel>
    decreases docs.len(),
{
    if docs.len() == 0 {
        seq![]
    } else {
        concerning(file, docs.drop_last()) + if exists|k: int|
            0 <= k < docs.last().files.len() && overlap(file, #[trigger] docs.last().files[k]) {
            seq![docs.last()]
        } else {
            Seq::<DocumentModel>::empty()
        }
    }
}

/// The records linked to a changed file through their `--file` paths.
pub fn related_documents(file: &str, documents: &Vec<Document>) -> (r: Vec<Document>)
    ensures
        crate::document::doc_views(r@) == concerning(file@, crate::document::doc_views(documents@)),
{
    let ghost dv = crate::document::doc_views(documents@);
    let mut out: Vec<Document> = Vec::new();
    let mut i: usize = 0;
    while i < documents.len()
        invariant
            i <= documents.len(),
            dv == crate::document::doc_views(documents@),
            crate::document::doc_views(out@) == concerning(file@, dv.take(i as int)),
        decreases documents.len() - i,
    {
        let d = &documents[i];
        assert(dv.take(i + 1).drop_last() =~= dv.take(i as int));
        assert(dv.take(i + 1).last() == d@);
        let mut found = false;
        let mut k: usize = 0;
        while k < d.files.len()
            invariant
                k <= d.files.len(),
                found == exists|m: int| 0 <= m < k && overlap(file@, #[trigger] d@.files[m]),
            decreases d.files.len() - k,
        {
            assert(d@.files[k as int] == d.files@[k as int]@);
            if paths_overlap(file, d.files[k].as_str()) {
                found = true;
            }
            k = k + 1;
        }
        let ghost prev = crate::document::doc_views(out@);
        if found {
            out.push(crate::document::copy_document(d));
            assert(crate::document::doc_views(out@) =~= prev + seq![d@]);
        } else {
            assert(crate::document::doc_views(out@) =~= prev + Seq::<DocumentModel>::empty());
        }
        i = i + 1;
    }
    assert(dv.take(documents.len() as int) =~= dv);
    out
}

/// A record concerns a changed file exactly when one of its affected paths,
/// any of them, overlaps the file; the concerned records keep their order.
pub proof fn lemma_concerning_any_file(file: Seq<char>, docs: Seq<DocumentModel>)
    ensures
        concerning(file, docs) == docs.filter(
            |d: DocumentModel| exists|k: int| 0 <= k < d.files.len() && overlap(file, #[trigger] d.files[k]),
        ),
    decreases docs.len(),
{
    reveal(Seq::filter);
    if docs.len() > 0 {
        lemma_concerning_any_file(file, docs.drop_last());
        let prev = concerning(file, docs.drop_last());
        if exists|k: int| 0 <= k < docs.last().files.len() && overlap(file, #[trigger] docs.last().files[k]) {
            assert(concerning(file, docs) =~= prev.push(docs.last()));
        } else {
            assert(concerning(file, docs) =~= prev);
        }
    } else {
        assert(concerning(file, docs) =~= docs.filter(
            |d: DocumentModel| exists|k: int| 0 <= k < d.files.len() && overlap(file, #[trigger] d.files[k]),
        ));
    }
}

} // verus!
