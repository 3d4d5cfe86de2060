use tincan::branding::LOGO;
use tincan::cli::RecordArgs;
use tincan::document::{is_markdown_file, parse_document, Scope};
use tincan::review::project_display_name;
use tincan::model::{DecisionStatus, Kind, Record};
use tincan::search::{matching_excerpt, search_rank};
use tincan::util::{display_path, yaml_string};
use tincan::workflow::{check_record_args, new_record, source_workspace_name};

const TEST_ID: &str = "019c4ea8-7e42-7b31-a211-8df9357d747c";

#[test]
fn logo_is_defined_once_as_three_lines() {
    assert_eq!(LOGO.lines().count(), 3);
    assert_eq!(LOGO.lines().next(), Some("▄▄▄ ▄ ▀▄ ▄ ▄▄▄ ▄▄▄ ▀▄ ▄"));
}

#[test]
fn escapes_yaml_strings() {
    assert_eq!(yaml_string("a \"quote\""), "\"a \\\"quote\\\"\"");
}

#[test]
fn yaml_strings_escape_backslashes_and_newlines() {
    assert_eq!(yaml_string("a\\b\nc"), "\"a\\\\b\\nc\"");
}

#[test]
fn hides_windows_verbatim_prefixes() {
    assert_eq!(
        display_path(r"\\?\C:\Users\Sabrina\project"),
        "C:/Users/Sabrina/project"
    );
    assert_eq!(
        display_path(r"\\?\UNC\server\share\project"),
        "//server/share/project"
    );
}

#[test]
fn renders_managed_frontmatter_and_an_editable_markdown_body() {
    let record = Record {
        id: TEST_ID.to_string(),
        kind: Kind::Learning,
        created_at: "2026-08-06T10:00:00Z".to_string(),
        statement: "Paging did not reduce rendering work".to_string(),
        status: None,
        files: vec!["src/gallery.rs".to_string()],
        topics: vec!["performance".to_string()],
        evidence: vec!["Release trace".to_string()],
        related: Vec::new(),
        supersedes: Vec::new(),
        branch: "main".to_string(),
    };

    let rendered = record.render();
    assert!(rendered.contains("id: \"019c4ea8-7e42-7b31-a211-8df9357d747c\""));
    assert!(rendered.contains("created_at: \"2026-08-06T10:00:00Z\""));
    assert!(rendered.contains("# Paging did not reduce rendering work"));
    assert!(rendered.contains("## Evidence\n\n- Release trace"));
    assert!(!rendered.contains("title:"));
}

#[test]
fn renders_the_exact_record_layout() {
    let record = Record {
        id: TEST_ID.to_string(),
        kind: Kind::Decision,
        created_at: "2026-08-06T10:00:00Z".to_string(),
        statement: "Keep Markdown canonical".to_string(),
        status: Some(DecisionStatus::Active),
        files: vec!["src/a.rs".to_string()],
        topics: Vec::new(),
        evidence: Vec::new(),
        related: Vec::new(),
        supersedes: Vec::new(),
        branch: "main".to_string(),
    };
    assert_eq!(
        record.render(),
        "---\nid: \"019c4ea8-7e42-7b31-a211-8df9357d747c\"\ntype: \"decision\"\nstatus: \"active\"\ncreated_at: \"2026-08-06T10:00:00Z\"\nbranch: \"main\"\nfiles:\n  - \"src/a.rs\"\ntopics:\nrelated:\nsupersedes:\nsuperseded_by:\n---\n\n# Keep Markdown canonical\n\n"
    );
}

#[test]
fn rendered_records_read_back_as_documents() {
    let record = Record {
        id: TEST_ID.to_string(),
        kind: Kind::Decision,
        created_at: "2026-08-06T10:00:00Z".to_string(),
        statement: "  Load \"media\" details on demand ".to_string(),
        status: Some(DecisionStatus::Active),
        files: vec!["web/app/page.tsx".to_string(), "a\\b.rs".to_string()],
        topics: vec!["performance".to_string()],
        evidence: vec!["Trace".to_string()],
        related: vec!["019c4ea8-7e42-7b31-a211-8df9357d747d".to_string()],
        supersedes: Vec::new(),
        branch: "main".to_string(),
    };
    let document = parse_document(&format!("decisions/{TEST_ID}.md"), &record.render()).unwrap();
    assert_eq!(document.id, TEST_ID);
    assert_eq!(document.kind, "decision");
    assert_eq!(document.status.as_deref(), Some("active"));
    assert_eq!(document.created_at, "2026-08-06T10:00:00Z");
    assert_eq!(document.heading, "Load \"media\" details on demand");
    assert_eq!(document.files, vec!["web/app/page.tsx", "a\\b.rs"]);
    assert_eq!(document.topics, vec!["performance"]);
    assert_eq!(document.related, vec!["019c4ea8-7e42-7b31-a211-8df9357d747d"]);
    assert!(document.supersedes.is_empty());
    assert!(document.superseded_by.is_empty());
    assert_eq!(document.source_record, None);
    assert_eq!(document.scope, Scope::Project);
}

#[test]
fn parses_frontmatter_index_fields() {
    let document = parse_document(
        &format!("{TEST_ID}.md"),
        &format!(
            "---\nid: \"{TEST_ID}\"\ntype: \"decision\"\nstatus: \"active\"\ncreated_at: \"2026-08-06T10:00:00Z\"\nfiles:\n  - \"src/a.rs\"\ntopics:\n  - \"performance\"\nrelated:\nsupersedes:\nsuperseded_by:\n---\n\n# Paging did not help\n\nDetailed renderer evidence.\n"
        ),
    )
    .unwrap();
    assert_eq!(document.id, TEST_ID);
    assert_eq!(document.heading, "Paging did not help");
    assert!(document.body.contains("Detailed renderer evidence."));
    assert_eq!(document.files, vec!["src/a.rs"]);
    assert_eq!(document.topics, vec!["performance"]);
    assert_eq!(document.scope, Scope::Project);
}

#[test]
fn rejects_invented_decision_statuses_and_status_on_learnings() {
    let invented = parse_document(
        &format!("{TEST_ID}.md"),
        &format!(
            "---\nid: \"{TEST_ID}\"\ntype: \"decision\"\nstatus: \"mostly-active\"\ncreated_at: \"2026-08-06T10:00:00Z\"\n---\n\n# Choice\n"
        ),
    )
    .unwrap_err();
    assert!(invented.contains("invalid decision status"));

    let learning = parse_document(
        &format!("{TEST_ID}.md"),
        &format!(
            "---\nid: \"{TEST_ID}\"\ntype: \"learning\"\nstatus: \"accepted\"\ncreated_at: \"2026-08-06T10:00:00Z\"\n---\n\n# Fact\n"
        ),
    )
    .unwrap_err();
    assert!(learning.contains("learnings must not have a status"));

    parse_document(
        &format!("{TEST_ID}.md"),
        &format!(
            "---\nid: \"{TEST_ID}\"\ntype: \"learning\"\ncreated_at: \"2026-08-06T10:00:00Z\"\n---\n\n# A reusable fact\n"
        ),
    )
    .unwrap();
}

#[test]
fn rejects_mismatched_uuid_filename_and_missing_heading() {
    let other = "019c4ea8-7e42-7b31-a211-8df9357d747d";
    let mismatch = parse_document(
        &format!("{other}.md"),
        &format!(
            "---\nid: \"{TEST_ID}\"\ntype: \"learning\"\ncreated_at: \"2026-08-06T10:00:00Z\"\n---\n\n# Fact\n"
        ),
    )
    .unwrap_err();
    assert!(mismatch.contains("UUID filename and id do not match"));

    let missing_heading = parse_document(
        &format!("{TEST_ID}.md"),
        &format!(
            "---\nid: \"{TEST_ID}\"\ntype: \"learning\"\ncreated_at: \"2026-08-06T10:00:00Z\"\n---\n\nBody without a heading.\n"
        ),
    )
    .unwrap_err();
    assert!(missing_heading.contains("require an H1 heading"));
}

#[test]
fn reports_each_frontmatter_problem() {
    let path = format!("{TEST_ID}.md");
    let cases = [
        (
            "---\ntype: \"decision\"\ncreated_at: \"x\"\n---\n\n# A\n".to_string(),
            "decision status is required",
        ),
        ("---\ntype: \"memo\"\nid: \"x\"\n---\n".to_string(), "unsupported record type: memo"),
        ("---\ntype: \"journal\"\n---\n".to_string(), "id is required"),
        ("---\ntype: \"journal\"\nstatus: \"active\"\nid: \"x\"\n---\n".to_string(), "journal entries must not have a status"),
        ("---\nid: \"short\"\ntype: \"learning\"\n---\n# A\n".to_string(), "decision and learning ids must be UUIDs"),
        (format!("---\nid: \"{TEST_ID}\"\ntype: \"learning\"\n---\n# A\n"), "created_at is required"),
        (
            format!("---\nid: \"{TEST_ID}\"\ntype: \"learning\"\ncreated_at: \"x\"\nrelated:\n  - \"nope\"\n---\n# A\n"),
            "related values must be UUIDs",
        ),
        (
            format!("---\nid: \"{TEST_ID}\"\ntype: \"learning\"\ncreated_at: \"x\"\nsource_record: \"nope\"\n---\n# A\n"),
            "source_record must be a UUID",
        ),
    ];
    for (text, expected) in cases {
        let error = parse_document(&path, &text).unwrap_err();
        assert!(error.contains(expected), "{error}");
        assert!(error.starts_with("invalid "), "{error}");
    }
}

#[test]
fn journal_documents_take_their_heading_from_the_date() {
    let document = parse_document(
        "journal/2026-08-05.md",
        "---\nid: \"journal-2026-08-05\"\ntype: \"journal\"\ncreated_at: \"2026-08-05T09:00:00+02:00\"\n---\n\n# 2026-08-05\n\n## Done\n\n- Shipped\n",
    )
    .unwrap();
    assert_eq!(document.heading, "2026-08-05");
    assert_eq!(document.kind, "journal");
    assert_eq!(document.status, None);
}

#[test]
fn kinds_and_statuses_parse_their_own_names() {
    for kind in [Kind::Decision, Kind::Learning, Kind::Journal] {
        assert_eq!(Kind::parse(kind.as_str()).unwrap(), kind);
    }
    for status in [DecisionStatus::Active, DecisionStatus::Superseded] {
        assert_eq!(DecisionStatus::parse(status.as_str()).unwrap(), status);
    }
    assert_eq!(Kind::Decision.directory(), "decisions");
    assert_eq!(Kind::Learning.directory(), "learnings");
    assert_eq!(Kind::Journal.directory(), "journal");
    assert_eq!(Kind::parse("memo").unwrap_err(), "unsupported record kind: memo");
    assert_eq!(
        DecisionStatus::parse("accepted").unwrap_err(),
        "invalid decision status: accepted; expected active or superseded"
    );
}

fn record_args(kind: &str, supersedes: Vec<String>) -> RecordArgs {
    RecordArgs {
        kind: kind.to_string(),
        repo: None,
        statement: "Paging did not reduce rendering work".to_string(),
        files: vec!["src/gallery.rs".to_string()],
        topics: vec!["performance".to_string()],
        evidence: vec!["Release trace".to_string()],
        related: Vec::new(),
        supersedes,
    }
}

#[test]
fn only_decisions_supersede_and_decisions_start_active() {
    assert_eq!(
        check_record_args(&record_args("learning", vec![TEST_ID.to_string()])).unwrap_err(),
        "--supersedes can only be used with a decision"
    );
    assert!(check_record_args(&record_args("decision", vec![TEST_ID.to_string()])).is_ok());
    let decision = new_record(
        record_args("decision", Vec::new()),
        TEST_ID.to_string(),
        "2026-08-06T10:00:00Z".to_string(),
        "main".to_string(),
    )
    .unwrap();
    assert_eq!(decision.kind, Kind::Decision);
    assert_eq!(decision.status, Some(DecisionStatus::Active));
    let learning = new_record(
        record_args("learning", Vec::new()),
        TEST_ID.to_string(),
        "t".to_string(),
        "b".to_string(),
    )
    .unwrap();
    assert_eq!(learning.status, None);
    assert!(new_record(record_args("memo", Vec::new()), TEST_ID.to_string(), "t".into(), "b".into()).is_err());
}

#[test]
fn creates_uuid_record_that_remains_searchable_after_body_edits() {
    let record = new_record(
        record_args("learning", Vec::new()),
        TEST_ID.to_string(),
        "2026-08-06T10:00:00Z".to_string(),
        "main".to_string(),
    )
    .unwrap();
    let path = format!("learnings/{TEST_ID}.md");
    let text = record.render();
    let document = parse_document(&path, &text).unwrap();
    assert_eq!(document.id, TEST_ID);

    let edited_text = format!("{text}The renderer remained the measured bottleneck.\n");
    let edited = parse_document(&path, &edited_text).unwrap();
    assert_eq!(search_rank(&edited, "renderer"), Some(3));
    assert_eq!(
        matching_excerpt(&edited, "renderer").as_deref(),
        Some("The renderer remained the measured bottleneck.")
    );
}

#[test]
fn file_names_follow_path_components() {
    assert!(is_markdown_file("journal/2026-08-05.md"));
    assert!(is_markdown_file("journal/2026-08-05.md/"));
    assert!(!is_markdown_file("journal/.md"));
    assert!(!is_markdown_file("journal/notes.txt"));
    assert_eq!(source_workspace_name("/home/me/gallery"), "gallery");
    assert_eq!(source_workspace_name("/home/me/gallery/"), "gallery");
    assert_eq!(source_workspace_name("/home/me/gallery/."), "gallery");
    assert_eq!(source_workspace_name("/"), "workspace");
    assert_eq!(source_workspace_name("/home/.."), "workspace");
    assert_eq!(project_display_name("C:\\work\\atlas"), "atlas");
    assert_eq!(project_display_name(""), "Unnamed project");
}
