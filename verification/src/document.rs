//! Reading one record file into a `Document`, with the checks that keep the
//! managed frontmatter valid.
use vstd::prelude::*;
use crate::text::{strs, views, lacks, chars_of, string_of, push_all, push_str, text_is, same};
use crate::frontmatter::{
    scalar_value, list_value, body_of, heading_of, scalar, yaml_list, markdown_body, heading,
};
use crate::model::{status_named, invalid_status_message, DecisionStatus};
use crate::ids::{uuid_text, uuid_parses};
use crate::order::separator;

verus! {

/// Where a record lives: in the project, or among the global learnings.
#[derive(Clone, Copy, Debug, PartialEq, Eq, Structural)]
pub enum Scope {
    Project,
    Global,
}

/// The name of a scope.
pub open spec fn scope_name(s: Scope) -> Seq<char> {
    match s {
        Scope::Project => "project"@,
        Scope::Global => "global"@,
    }
}

impl Scope {
    /// The name of this scope.
    pub fn as_str(self) -> (r: &'static str)
        ensures
            r@ == scope_name(self),
    {
        match self {
            Scope::Project => "project",
            Scope::Global => "global",
        }
    }
}

/// A record as read from disk: its location, its frontmatter fields and its
/// Markdown body.
#[derive(Clone, Debug)]
pub struct Document {
    pub path: String,
    pub id: String,
    pub created_at: String,
    pub heading: String,
    pub body: String,
    pub kind: String,
    pub status: Option<String>,
    pub files: Vec<String>,
    pub topics: Vec<String>,
    pub related: Vec<String>,
    pub supersedes: Vec<String>,
    pub superseded_by: Vec<String>,
    pub source_record: Option<String>,
    pub scope: Scope,
}

/// The view of an optional string.
pub open spec fn opt_view(o: Option<String>) -> Option<Seq<char>> {
    match o {
        Some(s) => Some(s@),
        None => None,
    }
}

/// Index of the last path separator in `path`, or -1.
pub open spec fn last_separator(path: Seq<char>) -> int
    decreases path.len(),
{
    if path.len() == 0 {
        -1
    } else if separator(path.last()) {
        path.len() - 1
    } else {
        last_separator(path.drop_last())
    }
}

/// Index of the last `.` in `name`, or -1.
pub open spec fn last_dot(name: Seq<char>) -> int
    decreases name.len(),
{
    if name.len() == 0 {
        -1
    } else if name.last() == '.' {
        name.len() - 1
    } else {
        last_dot(name.drop_last())
    }
}

/// `path` without its trailing separators and trailing `.` components,
/// which `Path::components` passes over at the end of a path.
pub open spec fn path_end(path: Seq<char>) -> Seq<char>
    decreases path.len(),
{
    if path.len() > 0 && separator(path.last()) {
        path_end(path.drop_last())
    } else if path.len() >= 2 && path.last() == '.' && separator(path[path.len() - 2]) {
        path_end(path.drop_last())
    } else {
        path
    }
}

/// The file name of a path (`Path::file_name`): its last component, unless
/// that is empty (a root), `.` or `..`.
pub open spec fn file_name_of(path: Seq<char>) -> Option<Seq<char>> {
    let end = path_end(path);
    let name = end.skip(last_separator(end) + 1);
    if name.len() == 0 || name == "."@ || name == ".."@ {
        None
    } else {
        Some(name)
    }
}

/// The file stem of a path: its file name up to the last `.`, or the whole
/// name when the only `.` leads it or it has none.
pub open spec fn file_stem_of(path: Seq<char>) -> Option<Seq<char>> {
    match file_name_of(path) {
        Some(name) => {
            let d = last_dot(name);
            if d <= 0 {
                Some(name)
            } else {
                Some(name.take(d))
            }
        },
        None => None,
    }
}

proof fn lemma_last_separator(path: Seq<char>)
    ensures
        -1 <= last_separator(path) < path.len(),
        forall|k: int| last_separator(path) < k < path.len() ==> !separator(path[k]),
        last_separator(path) >= 0 ==> separator(path[last_separator(path)]),
    decreases path.len(),
{
    if path.len() > 0 && !separator(path.last()) {
        lemma_last_separator(path.drop_last());
        assert forall|k: int| last_separator(path) < k < path.len() implies !separator(path[k]) by {
            if k < path.len() - 1 {
                assert(path[k] == path.drop_last()[k]);
            }
        }
    }
}

proof fn lemma_last_dot(name: Seq<char>)
    ensures
        -1 <= last_dot(name) < name.len(),
        forall|k: int| last_dot(name) < k < name.len() ==> name[k] != '.',
        last_dot(name) >= 0 ==> name[last_dot(name)] == '.',
    decreases name.len(),
{
    if name.len() > 0 && name.last() != '.' {
        lemma_last_dot(name.drop_last());
        assert forall|k: int| last_dot(name) < k < name.len() implies name[k] != '.' by {
            if k < name.len() - 1 {
                assert(name[k] == name.drop_last()[k]);
            }
        }
    }
}

/// The file name of `path`, if it has one.
pub fn file_name(path: &[char]) -> (r: Option<Vec<char>>)
    ensures
        match file_name_of(path@) {
            Some(n) => r is Some && r->0@ == n,
            None => r is None,
        },
{
    let mut e: usize = path.len();
    assert(path@.take(path@.len() as int) =~= path@);
    while e > 0 && (path[e - 1] == '/' || path[e - 1] == '\\' || (e >= 2 && path[e - 1] == '.' && (path[e
        - 2] == '/' || path[e - 2] == '\\')))
        invariant
            e <= path.len(),
            path_end(path@) == path_end(path@.take(e as int)),
        decreases e,
    {
        let ghost t = path@.take(e as int);
        assert(t.last() == path@[e - 1]);
        if e >= 2 {
            assert(t[t.len() - 2] == path@[e - 2]);
        }
        assert(t.drop_last() =~= path@.take(e - 1));
        e = e - 1;
    }
    let ghost end = path@.take(e as int);
    proof {
        if e > 0 {
            assert(end.last() == path@[e - 1]);
        }
        if e >= 2 {
            assert(end[end.len() - 2] == path@[e - 2]);
        }
        assert(path_end(end) == end);
    }
    let mut k: usize = e;
    assert(end.take(e as int) =~= end);
    while k > 0 && path[k - 1] != '/' && path[k - 1] != '\\'
        invariant
            k <= e <= path.len(),
            end == path@.take(e as int),
            last_separator(end) == last_separator(end.take(k as int)),
        decreases k,
    {
        assert(end.take(k as int).drop_last() =~= end.take(k - 1));
        assert(end.take(k as int).last() == path@[k - 1]);
        k = k - 1;
    }
    if k > 0 {
        assert(end.take(k as int).last() == path@[k - 1]);
    }
    assert(last_separator(end) + 1 == k);
    let name = crate::text::slice_of(path, k, e);
    assert(name@ =~= end.skip(k as int));
    if name.len() == 0 || text_is(name.as_slice(), ".") || text_is(name.as_slice(), "..") {
        return None;
    }
    Some(name)
}

/// Index of the last `.` in `name`, or -1, computed.
fn find_last_dot(name: &[char]) -> (d: usize)
    ensures
        d <= name.len(),
        d as int == last_dot(name@) + 1,
{
    let mut d: usize = name.len();
    assert(name@.take(name@.len() as int) =~= name@);
    while d > 0 && name[d - 1] != '.'
        invariant
            d <= name.len(),
            last_dot(name@) == last_dot(name@.take(d as int)),
        decreases d,
    {
        assert(name@.take(d as int).drop_last() =~= name@.take(d - 1));
        d = d - 1;
    }
    if d > 0 {
        assert(name@.take(d as int).last() == name@[d - 1]);
    }
    d
}

/// The file stem of `path`, if it has a file name.
pub fn file_stem(path: &[char]) -> (r: Option<Vec<char>>)
    ensures
        match file_stem_of(path@) {
            Some(s) => r is Some && r->0@ == s,
            None => r is None,
        },
{
    match file_name(path) {
        None => None,
        Some(name) => {
            let d = find_last_dot(name.as_slice());
            if d <= 1 {
                Some(name)
            } else {
                Some(crate::text::slice_of(name.as_slice(), 0, d - 1))
            }
        },
    }
}

/// What is wrong with a record's `type` and `status`, if anything.
pub open spec fn status_problem(kind: Seq<char>, status: Option<Seq<char>>) -> Option<Seq<char>> {
    if kind == "decision"@ {
        match status {
            Some(v) => if status_named(v) is Some {
                None
            } else {
                Some(invalid_status_message(v))
            },
            None => Some("decision status is required"@),
        }
    } else if kind == "learning"@ {
        if status is None {
            None
        } else {
            Some("learnings must not have a status"@)
        }
    } else if kind == "journal"@ {
        if status is None {
            None
        } else {
            Some("journal entries must not have a status"@)
        }
    } else {
        Some("unsupported record type: "@ + kind)
    }
}

/// The message for a frontmatter problem in the file at `path`.
pub open spec fn frontmatter_error(path: Seq<char>, problem: Seq<char>) -> Seq<char> {
    "invalid frontmatter in "@ + path + ": "@ + problem
}

/// Checks a record's `type` against its `status`: decisions need a managed
/// status, learnings and journal entries must have none.
pub fn validate_record_status(path: &str, kind: &str, status: Option<&str>) -> (r: Result<(), String>)
    ensures
        match status_problem(
            kind@,
            match status {
                Some(s) => Some(s@),
                None => None,
            },
        ) {
            Some(p) => r is Err && r->Err_0@ == frontmatter_error(path@, p),
            None => r is Ok,
        },
{
    let k = chars_of(kind);
    let problem: Option<Vec<char>> = if text_is(k.as_slice(), "decision") {
        match status {
            Some(value) => match DecisionStatus::parse(value) {
                Ok(_) => None,
                Err(e) => Some(chars_of(e.as_str())),
            },
            None => Some(chars_of("decision status is required")),
        }
    } else if text_is(k.as_slice(), "learning") {
        match status {
            None => None,
            Some(_) => Some(chars_of("learnings must not have a status")),
        }
    } else if text_is(k.as_slice(), "journal") {
        match status {
            None => None,
            Some(_) => Some(chars_of("journal entries must not have a status")),
        }
    } else {
        let mut e = chars_of("unsupported record type: ");
        push_all(&mut e, k.as_slice());
        Some(e)
    };
    match problem {
        None => Ok(()),
        Some(p) => {
            let mut e = chars_of("invalid frontmatter in ");
            push_str(&mut e, path);
            push_str(&mut e, ": ");
            push_all(&mut e, p.as_slice());
            Err(string_of(e.as_slice()))
        },
    }
}

/// Every value is a UUID.
pub open spec fn all_uuids(values: Seq<Seq<char>>) -> bool {
    forall|i: int| 0 <= i < values.len() ==> uuid_text(#[trigger] values[i])
}

/// Decisions and learnings, the record kinds with UUID identities.
pub open spec fn is_record_kind(kind: Seq<char>) -> bool {
    kind == "decision"@ || kind == "learning"@
}

/// A scalar's value, or nothing when it is absent.
pub open spec fn or_empty(o: Option<Seq<char>>) -> Seq<char> {
    match o {
        Some(v) => v,
        None => seq![],
    }
}

/// The first problem that keeps `text` (read from `path`) from being a valid
/// record, in the order the checks are made; `None` when it is valid.
pub open spec fn document_error(path: Seq<char>, text: Seq<char>) -> Option<Seq<char>> {
    let kind = or_empty(scalar_value(text, "type"@));
    let status = scalar_value(text, "status"@);
    let id = or_empty(scalar_value(text, "id"@));
    let source = scalar_value(text, "source_record"@);
    if status_problem(kind, status) is Some {
        Some(frontmatter_error(path, status_problem(kind, status)->0))
    } else if id.len() == 0 {
        Some(frontmatter_error(path, "id is required"@))
    } else if is_record_kind(kind) && !uuid_text(id) {
        Some(frontmatter_error(path, "decision and learning ids must be UUIDs"@))
    } else if is_record_kind(kind) && scalar_value(text, "created_at"@) is None {
        Some(frontmatter_error(path, "created_at is required"@))
    } else if is_record_kind(kind) && !all_uuids(list_value(text, "related"@)) {
        Some(frontmatter_error(path, "related values must be UUIDs"@))
    } else if is_record_kind(kind) && !all_uuids(list_value(text, "supersedes"@)) {
        Some(frontmatter_error(path, "supersedes values must be UUIDs"@))
    } else if is_record_kind(kind) && !all_uuids(list_value(text, "superseded_by"@)) {
        Some(frontmatter_error(path, "superseded_by values must be UUIDs"@))
    } else if is_record_kind(kind) && source is Some && !uuid_text(source->0) {
        Some(frontmatter_error(path, "source_record must be a UUID"@))
    } else if is_record_kind(kind) && heading_of(body_of(text)) is None {
        Some(
            "invalid Markdown in "@ + path
                + ": decision and learning records require an H1 heading"@,
        )
    } else if is_record_kind(kind) && file_stem_of(path) != Some(id) {
        Some(frontmatter_error(path, "UUID filename and id do not match"@))
    } else {
        None
    }
}

/// The heading of a valid document: its H1, or else its file stem.
pub open spec fn document_heading(path: Seq<char>, text: Seq<char>) -> Seq<char> {
    match heading_of(body_of(text)) {
        Some(h) => h,
        None => or_empty(file_stem_of(path)),
    }
}

/// What a project record file at `path` with contents `text` holds.
pub open spec fn document_model(path: Seq<char>, text: Seq<char>) -> DocumentModel {
    DocumentModel {
        path,
        id: or_empty(scalar_value(text, "id"@)),
        created_at: or_empty(scalar_value(text, "created_at"@)),
        heading: document_heading(path, text),
        body: body_of(text),
        kind: or_empty(scalar_value(text, "type"@)),
        status: scalar_value(text, "status"@),
        files: list_value(text, "files"@),
        topics: list_value(text, "topics"@),
        related: list_value(text, "related"@),
        supersedes: list_value(text, "supersedes"@),
        superseded_by: list_value(text, "superseded_by"@),
        source_record: scalar_value(text, "source_record"@),
        scope: Scope::Project,
    }
}

fn text_of(v: Option<Vec<char>>) -> (s: String)
    ensures
        s@ == match v {
            Some(x) => x@,
            None => Seq::<char>::empty(),
        },
{
    match v {
        Some(x) => string_of(x.as_slice()),
        None => String::new(),
    }
}

fn opt_text(v: Option<Vec<char>>) -> (s: Option<String>)
    ensures
        opt_view(s) == match v {
            Some(x) => Some(x@),
            None => None::<Seq<char>>,
        },
{
    match v {
        Some(x) => Some(string_of(x.as_slice())),
        None => None,
    }
}

fn texts(v: &Vec<Vec<char>>) -> (out: Vec<String>)
    ensures
        strs(out@) == views(v@),
{
    let mut out: Vec<String> = Vec::new();
    let mut i: usize = 0;
    while i < v.len()
        invariant
            i <= v.len(),
            strs(out@) == views(v@).take(i as int),
        decreases v.len() - i,
    {
        let s = string_of(v[i].as_slice());
        let ghost prev = out@;
        out.push(s);
        assert(strs(out@) =~= strs(prev).push(s@));
        assert(views(v@).take(i + 1) =~= views(v@).take(i as int).push(v@[i as int]@));
        i = i + 1;
    }
    assert(views(v@).take(v.len() as int) =~= views(v@));
    out
}

fn check_uuids(values: &Vec<Vec<char>>) -> (ok: bool)
    ensures
        ok == all_uuids(views(values@)),
{
    let mut i: usize = 0;
    while i < values.len()
        invariant
            i <= values.len(),
            forall|k: int| 0 <= k < i ==> uuid_text(#[trigger] views(values@)[k]),
        decreases values.len() - i,
    {
        let s = string_of(values[i].as_slice());
        if !uuid_parses(s.as_str()) {
            assert(!uuid_text(views(values@)[i as int]));
            return false;
        }
        i = i + 1;
    }
    true
}

fn fail(path: &[char], problem: &str) -> (e: String)
    ensures
        e@ == frontmatter_error(path@, problem@),
{
    let mut out = chars_of("invalid frontmatter in ");
    push_all(&mut out, path);
    push_str(&mut out, ": ");
    push_str(&mut out, problem);
    string_of(out.as_slice())
}

/// Reads the record file at `path` with contents `text` into a project
/// document, or reports the first problem with its frontmatter or heading.
pub fn parse_document(path: &str, text: &str) -> (r: Result<Document, String>)
    ensures
        match document_error(path@, text@) {
            Some(e) => r is Err && r->Err_0@ == e,
            None => r is Ok && r->Ok_0@ == document_model(path@, text@),
        },
{
    let p = chars_of(path);
    let t = chars_of(text);
    let kind_v = scalar(t.as_slice(), "type");
    let kind = text_of(kind_v);
    let status = opt_text(scalar(t.as_slice(), "status"));
    let status_ref: Option<&str> = match &status {
        Some(s) => Some(s.as_str()),
        None => None,
    };
    match validate_record_status(path, kind.as_str(), status_ref) {
        Ok(()) => {},
        Err(e) => {
            return Err(e);
        },
    }
    let id = text_of(scalar(t.as_slice(), "id"));
    if id.as_str().is_empty() {
        return Err(fail(p.as_slice(), "id is required"));
    }
    let kv = chars_of(kind.as_str());
    let is_record = text_is(kv.as_slice(), "decision") || text_is(kv.as_slice(), "learning");
    let created = scalar(t.as_slice(), "created_at");
    let created_present = created.is_some();
    let created_at = text_of(created);
    let related = yaml_list(t.as_slice(), "related");
    let supersedes = yaml_list(t.as_slice(), "supersedes");
    let superseded_by = yaml_list(t.as_slice(), "superseded_by");
    let source = opt_text(scalar(t.as_slice(), "source_record"));
    if is_record {
        if !uuid_parses(id.as_str()) {
            return Err(fail(p.as_slice(), "decision and learning ids must be UUIDs"));
        }
        if !created_present {
            return Err(fail(p.as_slice(), "created_at is required"));
        }
        if !check_uuids(&related) {
            return Err(fail(p.as_slice(), "related values must be UUIDs"));
        }
        if !check_uuids(&supersedes) {
            return Err(fail(p.as_slice(), "supersedes values must be UUIDs"));
        }
        if !check_uuids(&superseded_by) {
            return Err(fail(p.as_slice(), "superseded_by values must be UUIDs"));
        }
        match &source {
            Some(s) => {
                if !uuid_parses(s.as_str()) {
                    return Err(fail(p.as_slice(), "source_record must be a UUID"));
                }
            },
            None => {},
        }
    }
    let body = markdown_body(t.as_slice());
    let parsed_heading = heading(body.as_slice());
    let stem = file_stem(p.as_slice());
    if is_record && parsed_heading.is_none() {
        let mut out = chars_of("invalid Markdown in ");
        push_all(&mut out, p.as_slice());
        push_str(&mut out, ": decision and learning records require an H1 heading");
        return Err(string_of(out.as_slice()));
    }
    if is_record {
        let idv = chars_of(id.as_str());
        let matches = match &stem {
            Some(s) => same(s.as_slice(), idv.as_slice()),
            None => false,
        };
        if !matches {
            return Err(fail(p.as_slice(), "UUID filename and id do not match"));
        }
    }
    let heading_text = match parsed_heading {
        Some(h) => string_of(h.as_slice()),
        None => text_of(stem),
    };
    let files = yaml_list(t.as_slice(), "files");
    let topics = yaml_list(t.as_slice(), "topics");
    Ok(Document {
        path: string_of(p.as_slice()),
        id,
        created_at,
        heading: heading_text,
        body: string_of(body.as_slice()),
        kind,
        status,
        files: texts(&files),
        topics: texts(&topics),
        related: texts(&related),
        supersedes: texts(&supersedes),
        superseded_by: texts(&superseded_by),
        source_record: source,
        scope: Scope::Project,
    })
}

/// A document as text values.
pub struct DocumentModel {
    pub path: Seq<char>,
    pub id: Seq<char>,
    pub created_at: Seq<char>,
    pub heading: Seq<char>,
    pub body: Seq<char>,
    pub kind: Seq<char>,
    pub status: Option<Seq<char>>,
    pub files: Seq<Seq<char>>,
    pub topics: Seq<Seq<char>>,
    pub related: Seq<Seq<char>>,
    pub supersedes: Seq<Seq<char>>,
    pub superseded_by: Seq<Seq<char>>,
    pub source_record: Option<Seq<char>>,
    pub scope: Scope,
}

impl View for Document {
    type V = DocumentModel;

    open spec fn view(&self) -> DocumentModel {
        DocumentModel {
            path: self.path@,
            id: self.id@,
            created_at: self.created_at@,
            heading: self.heading@,
            body: self.body@,
            kind: self.kind@,
            status: opt_view(self.status),
            files: strs(self.files@),
            topics: strs(self.topics@),
            related: strs(self.related@),
            supersedes: strs(self.supersedes@),
            superseded_by: strs(self.superseded_by@),
            source_record: opt_view(self.source_record),
            scope: self.scope,
        }
    }
}

/// The views of a sequence of documents.
pub open spec fn doc_views(docs: Seq<Document>) -> Seq<DocumentModel> {
    docs.map_values(|d: Document| d@)
}

/// A copy of a list of strings.
pub fn copy_strings(v: &Vec<String>) -> (r: Vec<String>)
    ensures
        strs(r@) == strs(v@),
{
    let mut out: Vec<String> = Vec::new();
    let mut i: usize = 0;
    while i < v.len()
        invariant
            i <= v.len(),
            strs(out@) == strs(v@).take(i as int),
        decreases v.len() - i,
    {
        let c = v[i].clone();
        let ghost prev = strs(out@);
        out.push(c);
        assert(strs(out@) =~= prev.push(c@));
        assert(strs(v@).take(i + 1) =~= strs(v@).take(i as int).push(v@[i as int]@));
        i = i + 1;
    }
    assert(strs(v@).take(v.len() as int) =~= strs(v@));
    out
}

fn copy_opt(o: &Option<String>) -> (r: Option<String>)
    ensures
        opt_view(r) == opt_view(*o),
{
    match o {
        Some(s) => Some(s.clone()),
        None => None,
    }
}

/// A copy of a document.
pub fn copy_document(d: &Document) -> (r: Document)
    ensures
        r@ == d@,
{
    Document {
        path: d.path.clone(),
        id: d.id.clone(),
        created_at: d.created_at.clone(),
        heading: d.heading.clone(),
        body: d.body.clone(),
        kind: d.kind.clone(),
        status: copy_opt(&d.status),
        files: copy_strings(&d.files),
        topics: copy_strings(&d.topics),
        related: copy_strings(&d.related),
        supersedes: copy_strings(&d.supersedes),
        superseded_by: copy_strings(&d.superseded_by),
        source_record: copy_opt(&d.source_record),
        scope: d.scope,
    }
}

/// The file at `path` is a Markdown record: its file name has the extension
/// `md` (`Path::extension`).
pub open spec fn is_markdown_path(path: Seq<char>) -> bool {
    match file_name_of(path) {
        Some(name) => last_dot(name) > 0 && name.skip(last_dot(name) + 1) == "md"@,
        None => false,
    }
}

/// Whether the file at `path` is a Markdown record.
pub fn is_markdown_file(path: &str) -> (r: bool)
    ensures
        r == is_markdown_path(path@),
{
    let p = chars_of(path);
    match file_name(p.as_slice()) {
        None => false,
        Some(name) => {
            let d = find_last_dot(name.as_slice());
            if d <= 1 {
                return false;
            }
            let ext = crate::text::skip(name.as_slice(), d);
            text_is(ext.as_slice(), "md")
        },
    }
}

} // verus!
