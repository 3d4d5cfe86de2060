//! Record kinds, decision statuses, and the Markdown form of a new record.
use vstd::prelude::*;
use crate::text::{lines, strs, chars_of, string_of, push_all, push_str, text_is};
use crate::util::{quoted, yaml_string};

verus! {

/// The kinds of record kept under `.tincan/`.
#[derive(Debug, Clone, Copy, PartialEq, Eq, Structural)]
pub enum Kind {
    Decision,
    Learning,
    Journal,
}

/// The managed status of a decision.
#[derive(Debug, Clone, Copy, PartialEq, Eq, Structural)]
pub enum DecisionStatus {
    Active,
    Superseded,
}

/// The frontmatter name of a decision status.
pub open spec fn status_name(s: DecisionStatus) -> Seq<char> {
    match s {
        DecisionStatus::Active => "active"@,
        DecisionStatus::Superseded => "superseded"@,
    }
}

/// The status a frontmatter value names, if any.
pub open spec fn status_named(value: Seq<char>) -> Option<DecisionStatus> {
    if value == "active"@ {
        Some(DecisionStatus::Active)
    } else if value == "superseded"@ {
        Some(DecisionStatus::Superseded)
    } else {
        None
    }
}

/// The message for a status that is neither `active` nor `superseded`.
pub open spec fn invalid_status_message(value: Seq<char>) -> Seq<char> {
    "invalid decision status: "@ + value + "; expected active or superseded"@
}

impl DecisionStatus {
    /// Reads a status from its frontmatter name.
    pub fn parse(value: &str) -> (r: Result<Self, String>)
        ensures
            match status_named(value@) {
                Some(s) => r == Ok::<DecisionStatus, String>(s),
                None => r is Err && r->Err_0@ == invalid_status_message(value@),
            },
    {
        let v = chars_of(value);
        if text_is(v.as_slice(), "active") {
            Ok(DecisionStatus::Active)
        } else if text_is(v.as_slice(), "superseded") {
            Ok(DecisionStatus::Superseded)
        } else {
            let mut out = chars_of("invalid decision status: ");
            push_all(&mut out, v.as_slice());
            push_str(&mut out, "; expected active or superseded");
            Err(string_of(out.as_slice()))
        }
    }

    /// The frontmatter name of this status.
    pub fn as_str(self) -> (r: &'static str)
        ensures
            r@ == status_name(self),
    {
        match self {
            DecisionStatus::Active => "active",
            DecisionStatus::Superseded => "superseded",
        }
    }
}

/// The frontmatter `type` of a kind.
pub open spec fn kind_name(k: Kind) -> Seq<char> {
    match k {
        Kind::Decision => "decision"@,
        Kind::Learning => "learning"@,
        Kind::Journal => "journal"@,
    }
}

/// The kind a frontmatter `type` names, if any.
pub open spec fn kind_named(value: Seq<char>) -> Option<Kind> {
    if value == "decision"@ {
        Some(Kind::Decision)
    } else if value == "learning"@ {
        Some(Kind::Learning)
    } else if value == "journal"@ {
        Some(Kind::Journal)
    } else {
        None
    }
}

/// The directory under `.tincan/` that holds records of a kind.
pub open spec fn kind_directory(k: Kind) -> Seq<char> {
    match k {
        Kind::Decision => "decisions"@,
        Kind::Learning => "learnings"@,
        Kind::Journal => "journal"@,
    }
}

impl Kind {
    /// Reads a kind from its frontmatter `type`.
    pub fn parse(value: &str) -> (r: Result<Self, String>)
        ensures
            match kind_named(value@) {
                Some(k) => r == Ok::<Kind, String>(k),
                None => r is Err && r->Err_0@ == "unsupported record kind: "@ + value@,
            },
    {
        let v = chars_of(value);
        if text_is(v.as_slice(), "decision") {
            Ok(Kind::Decision)
        } else if text_is(v.as_slice(), "learning") {
            Ok(Kind::Learning)
        } else if text_is(v.as_slice(), "journal") {
            Ok(Kind::Journal)
        } else {
            let mut out = chars_of("unsupported record kind: ");
            push_all(&mut out, v.as_slice());
            Err(string_of(out.as_slice()))
        }
    }

    /// The frontmatter `type` of this kind.
    pub fn as_str(self) -> (r: &'static str)
        ensures
            r@ == kind_name(self),
    {
        match self {
            Kind::Decision => "decision",
            Kind::Learning => "learning",
            Kind::Journal => "journal",
        }
    }

    /// The directory under `.tincan/` holding records of this kind.
    pub fn directory(self) -> (r: &'static str)
        ensures
            r@ == kind_directory(self),
    {
        match self {
            Kind::Decision => "decisions",
            Kind::Learning => "learnings",
            Kind::Journal => "journal",
        }
    }
}

/// Reading a kind's own name gives the kind back.
pub proof fn lemma_kind_name_roundtrip(k: Kind)
    ensures
        kind_named(kind_name(k)) == Some(k),
{
    reveal_strlit("decision");
    reveal_strlit("learning");
    reveal_strlit("journal");
    assert("learning"@[0] != "decision"@[0]);
    assert("journal"@[0] != "decision"@[0]);
    assert("journal"@[0] != "learning"@[0]);
}

/// Reading a status's own name gives the status back.
pub proof fn lemma_status_name_roundtrip(s: DecisionStatus)
    ensures
        status_named(status_name(s)) == Some(s),
{
    reveal_strlit("active");
    reveal_strlit("superseded");
    assert("superseded"@[0] != "active"@[0]);
}

/// A new decision or learning, before it is written as Markdown.
pub struct Record {
    pub id: String,
    pub kind: Kind,
    pub created_at: String,
    pub statement: String,
    pub status: Option<DecisionStatus>,
    pub files: Vec<String>,
    pub topics: Vec<String>,
    pub evidence: Vec<String>,
    pub related: Vec<String>,
    pub supersedes: Vec<String>,
    pub branch: String,
}

/// One `key: "value"` frontmatter line.
pub open spec fn field_line(key: Seq<char>, value: Seq<char>) -> Seq<char> {
    key + ": "@ + quoted(value) + "\n"@
}

/// The `  - "value"` lines of a frontmatter list.
pub open spec fn list_items(values: Seq<Seq<char>>) -> Seq<char>
    decreases values.len(),
{
    if values.len() == 0 {
        seq![]
    } else {
        list_items(values.drop_last()) + "  - "@ + quoted(values.last()) + "\n"@
    }
}

/// A frontmatter list: its `key:` line and its items.
pub open spec fn list_block(key: Seq<char>, values: Seq<Seq<char>>) -> Seq<char> {
    key + ":\n"@ + list_items(values)
}

/// Markdown bullets, one `- value` line each.
pub open spec fn bullet_lines(values: Seq<Seq<char>>) -> Seq<char>
    decreases values.len(),
{
    if values.len() == 0 {
        seq![]
    } else {
        bullet_lines(values.drop_last()) + "- "@ + values.last() + "\n"@
    }
}

/// The Markdown of a record: managed frontmatter, the statement as H1, and an
/// evidence section when there is evidence.
pub open spec fn rendered_record(r: Record) -> Seq<char> {
    "---\n"@ + field_line("id"@, r.id@) + field_line("type"@, kind_name(r.kind)) + (match r.status {
        Some(s) => field_line("status"@, status_name(s)),
        None => Seq::<char>::empty(),
    }) + field_line("created_at"@, r.created_at@) + field_line("branch"@, r.branch@) + list_block(
        "files"@,
        strs(r.files@),
    ) + list_block("topics"@, strs(r.topics@)) + list_block("related"@, strs(r.related@))
        + list_block("supersedes"@, strs(r.supersedes@)) + "superseded_by:\n"@ + "---\n\n"@
        + "# "@ + r.statement@ + "\n\n"@ + (if r.evidence@.len() == 0 {
        Seq::<char>::empty()
    } else {
        "## Evidence\n\n"@ + bullet_lines(strs(r.evidence@))
    })
}

pub(crate) fn field(output: &mut Vec<char>, key: &str, value: &str)
    ensures
        final(output)@ == old(output)@ + field_line(key@, value@),
{
    push_str(output, key);
    push_str(output, ": ");
    let q = yaml_string(value);
    push_str(output, q.as_str());
    push_str(output, "\n");
}

pub(crate) fn list(output: &mut Vec<char>, key: &str, values: &Vec<String>)
    ensures
        final(output)@ == old(output)@ + list_block(key@, strs(values@)),
{
    push_str(output, key);
    push_str(output, ":\n");
    let ghost start = output@;
    let mut i: usize = 0;
    while i < values.len()
        invariant
            i <= values.len(),
            output@ == start + list_items(strs(values@).take(i as int)),
        decreases values.len() - i,
    {
        let ghost before = output@;
        push_str(output, "  - ");
        let q = yaml_string(values[i].as_str());
        push_str(output, q.as_str());
        push_str(output, "\n");
        assert(strs(values@).take(i + 1).drop_last() =~= strs(values@).take(i as int));
        i = i + 1;
    }
    assert(strs(values@).take(values.len() as int) =~= strs(values@));
    assert(start == old(output)@ + key@ + ":\n"@);
}

fn bullets(output: &mut Vec<char>, values: &Vec<String>)
    ensures
        final(output)@ == old(output)@ + bullet_lines(strs(values@)),
{
    let mut i: usize = 0;
    while i < values.len()
        invariant
            i <= values.len(),
            output@ == old(output)@ + bullet_lines(strs(values@).take(i as int)),
        decreases values.len() - i,
    {
        push_str(output, "- ");
        push_str(output, values[i].as_str());
        push_str(output, "\n");
        assert(strs(values@).take(i + 1).drop_last() =~= strs(values@).take(i as int));
        i = i + 1;
    }
    assert(strs(values@).take(values.len() as int) =~= strs(values@));
}

impl Record {
    /// The Markdown file for this record.
    pub fn render(&self) -> (out: String)
        ensures
            out@ == rendered_record(*self),
    {
        let mut output: Vec<char> = Vec::new();
        push_str(&mut output, "---\n");
        field(&mut output, "id", self.id.as_str());
        field(&mut output, "type", self.kind.as_str());
        let ghost with_type = output@;
        if let Some(status) = self.status {
            field(&mut output, "status", status.as_str());
        }
        field(&mut output, "created_at", self.created_at.as_str());
        field(&mut output, "branch", self.branch.as_str());
        list(&mut output, "files", &self.files);
        list(&mut output, "topics", &self.topics);
        list(&mut output, "related", &self.related);
        list(&mut output, "supersedes", &self.supersedes);
        push_str(&mut output, "superseded_by:\n");
        push_str(&mut output, "---\n\n");
        push_str(&mut output, "# ");
        push_str(&mut output, self.statement.as_str());
        push_str(&mut output, "\n\n");
        let ghost before_evidence = output@;
        if self.evidence.len() > 0 {
            push_str(&mut output, "## Evidence\n\n");
            bullets(&mut output, &self.evidence);
        }
        assert(output@ =~= rendered_record(*self));
        string_of(output.as_slice())
    }
}

} // verus!
