use tincan::document::{Document, Scope};
use tincan::journal::{merge_journal, JournalSections};
use tincan::store::{
    active_decisions, add_supersession, config_supported, exclusion_update, global_learning_file,
    latest_journal_path, personal_tincan_root_from, render_global_learning, scan, scan_global,
    validate_global_learning_body, CONFIG, EXCLUDE_PATTERN,
};

const TEST_ID: &str = "019c4ea8-7e42-7b31-a211-8df9357d747c";
const OTHER_ID: &str = "019c4ea8-7e42-7b31-a211-8df9357d747d";

fn document(id: &str, kind: &str, status: Option<&str>) -> Document {
    Document {
        path: format!("{id}.md"),
        id: id.to_string(),
        created_at: "2026-08-06T10:00:00Z".to_string(),
        heading: "Heading".to_string(),
        body: "# Heading\n".to_string(),
        kind: kind.to_string(),
        status: status.map(str::to_string),
        files: Vec::new(),
        topics: vec!["performance".to_string()],
        related: Vec::new(),
        supersedes: Vec::new(),
        superseded_by: Vec::new(),
        source_record: None,
        scope: Scope::Project,
    }
}

#[test]
fn chooses_explicit_or_home_relative_personal_storage() {
    let explicit = "custom-tincan".to_string();
    let profile = "profile".to_string();
    let home = "home".to_string();

    assert_eq!(
        personal_tincan_root_from(Some(explicit.clone()), Some(profile.clone()), Some(home.clone())),
        Some(explicit)
    );
    assert_eq!(
        personal_tincan_root_from(None, Some(profile.clone()), Some(home.clone())),
        Some("profile/.tincan".to_string())
    );
    assert_eq!(
        personal_tincan_root_from(None, None, Some(home.clone())),
        Some("home/.tincan".to_string())
    );
    assert_eq!(personal_tincan_root_from(None, None, None), None);
}

#[test]
fn validates_prepared_global_learning_markdown() {
    validate_global_learning_body(
        "# Prefer presentation-boundary normalization\n\nKeep canonical paths internally.",
    )
    .unwrap();
    assert!(validate_global_learning_body("Body without a heading")
        .unwrap_err()
        .contains("must start with"));
    assert!(validate_global_learning_body("---\nid: owned\n---\n\n# Heading")
        .unwrap_err()
        .contains("remove YAML frontmatter"));
    assert!(validate_global_learning_body("# First\n\n# Second")
        .unwrap_err()
        .contains("exactly one H1"));
}

#[test]
fn empty_h1_headings_are_refused() {
    assert!(validate_global_learning_body("#   \n\ntext")
        .unwrap_err()
        .contains("non-empty H1"));
    assert!(validate_global_learning_body("\n\n  # Indented\n").is_ok());
    assert!(validate_global_learning_body("\n\n# Late heading\n\ntext").is_ok());
}

#[test]
fn marks_decision_as_superseded_without_rewriting_its_body() {
    let text = "---\nid: \"old\"\ntype: \"decision\"\nstatus: \"active\"\nsuperseded_by:\n---\n\n# Old choice\n\nOriginal reasoning.\n";
    let updated = add_supersession(text, "new").unwrap();

    assert!(updated.contains("status: \"superseded\""));
    assert!(updated.contains("superseded_by:\n  - \"new\""));
    assert!(updated.contains("# Old choice\n\nOriginal reasoning."));
}

#[test]
fn supersession_adds_a_missing_list_and_is_not_repeated() {
    let text = "---\nid: \"old\"\ntype: \"decision\"\nstatus: \"active\"\n---\n\n# Old choice\n";
    let once = add_supersession(text, "new").unwrap();
    assert_eq!(
        once,
        "---\nid: \"old\"\ntype: \"decision\"\nstatus: \"superseded\"\nsuperseded_by:\n  - \"new\"\n---\n\n# Old choice\n"
    );
    assert_eq!(add_supersession(&once, "new").unwrap(), once);
    let twice = add_supersession(&once, "newer").unwrap();
    assert!(twice.contains("superseded_by:\n  - \"new\"\n  - \"newer\"\n---"));
}

#[test]
fn supersession_needs_frontmatter_and_status() {
    assert_eq!(
        add_supersession("# No frontmatter\n", "new").unwrap_err(),
        "decision has no YAML frontmatter"
    );
    assert_eq!(
        add_supersession("---\nid: \"old\"\n", "new").unwrap_err(),
        "decision has unterminated YAML frontmatter"
    );
    assert_eq!(
        add_supersession("---\nid: \"old\"\n---\nstatus: \"active\"\n", "new").unwrap_err(),
        "decision has no status field"
    );
}

#[test]
fn excludes_tincan_locally_without_replacing_existing_content() {
    let content = exclusion_update("target/\n", EXCLUDE_PATTERN).unwrap();
    assert!(content.starts_with("target/\n"));
    assert!(content.contains("/.tincan/\n"));
    assert_eq!(content.matches(".tincan/").count(), 1);
    assert_eq!(exclusion_update(&content, EXCLUDE_PATTERN), None);
    assert_eq!(exclusion_update("target/", EXCLUDE_PATTERN).unwrap(), "target/\n/.tincan/\n");
    assert_eq!(exclusion_update("", EXCLUDE_PATTERN).unwrap(), "/.tincan/\n");
    assert_eq!(exclusion_update("  /.tincan/  \r\n", EXCLUDE_PATTERN), None);
}

#[test]
fn rejects_older_storage_versions_instead_of_rewriting_them() {
    assert!(config_supported(CONFIG));
    assert!(!config_supported("version = 1\nstorage = \"markdown\"\n"));
    assert!(config_supported("  version = 2  \n"));
}

#[test]
fn scans_valid_records_in_path_order_and_reports_the_first_invalid_one() {
    let learning = |id: &str| {
        format!("---\nid: \"{id}\"\ntype: \"learning\"\ncreated_at: \"2026-08-06T10:00:00Z\"\n---\n\n# Fact {id}\n")
    };
    let files = vec![
        (format!("learnings/{OTHER_ID}.md"), learning(OTHER_ID)),
        (format!("learnings/{TEST_ID}.md"), learning(TEST_ID)),
    ];
    let documents = scan(files).unwrap();
    assert_eq!(documents.len(), 2);
    assert_eq!(documents[0].id, TEST_ID);
    assert_eq!(documents[1].id, OTHER_ID);

    let broken = vec![
        (format!("learnings/{TEST_ID}.md"), learning(TEST_ID)),
        ("learnings/bad.md".to_string(), "---\ntype: \"learning\"\n---\n".to_string()),
    ];
    assert!(scan(broken).unwrap_err().contains("learnings/bad.md"));

    let globals = scan_global(vec![(format!("g/{TEST_ID}.md"), learning(TEST_ID))]).unwrap();
    assert_eq!(globals[0].scope, Scope::Global);
    let decision = format!(
        "---\nid: \"{TEST_ID}\"\ntype: \"decision\"\nstatus: \"active\"\ncreated_at: \"x\"\n---\n\n# D\n"
    );
    assert_eq!(
        scan_global(vec![(format!("g/{TEST_ID}.md"), decision)]).unwrap_err(),
        format!("invalid global record in g/{TEST_ID}.md: only learnings are supported")
    );
}

#[test]
fn supersedes_only_active_decisions() {
    let documents = vec![
        document(TEST_ID, "decision", Some("active")),
        document(OTHER_ID, "decision", Some("superseded")),
        document("019c4ea8-7e42-7b31-a211-8df9357d747e", "learning", None),
    ];
    let chosen = active_decisions(&documents, &[TEST_ID.to_string()]).unwrap();
    assert_eq!(chosen.len(), 1);
    assert_eq!(chosen[0].id, TEST_ID);
    assert_eq!(
        active_decisions(&documents, &[OTHER_ID.to_string()]).unwrap_err(),
        format!("decision {OTHER_ID} is superseded; only active decisions can be superseded")
    );
    assert_eq!(
        active_decisions(&documents, &["019c4ea8-7e42-7b31-a211-8df9357d747e".to_string()]).unwrap_err(),
        "019c4ea8-7e42-7b31-a211-8df9357d747e is not a decision"
    );
    assert_eq!(
        active_decisions(&documents, &["missing".to_string()]).unwrap_err(),
        "no Tincan record found with id missing"
    );
    assert!(active_decisions(&documents, &[]).unwrap().is_empty());
}

#[test]
fn lifts_only_project_learnings_with_provenance() {
    let source = document(TEST_ID, "learning", None);
    let rendered = render_global_learning(&source, OTHER_ID, "2026-08-07T10:00:00Z", "gallery", "\n# Global\n\nBody\n\n");
    assert_eq!(
        rendered,
        format!("---\nid: \"{OTHER_ID}\"\ntype: \"learning\"\nscope: \"global\"\ncreated_at: \"2026-08-07T10:00:00Z\"\nsource_workspace: \"gallery\"\nsource_record: \"{TEST_ID}\"\nfiles:\ntopics:\n  - \"performance\"\nrelated:\nsupersedes:\nsuperseded_by:\n---\n\n# Global\n\nBody\n")
    );
    let (name, content) = global_learning_file(&source, OTHER_ID, "t", "w", "# G").unwrap();
    assert_eq!(name, format!("{OTHER_ID}.md"));
    assert!(content.ends_with("---\n\n# G\n"));
    let decision = document(TEST_ID, "decision", Some("active"));
    assert_eq!(
        global_learning_file(&decision, OTHER_ID, "t", "w", "# G").unwrap_err(),
        "only a project learning can be lifted"
    );
}

#[test]
fn resumes_from_the_latest_markdown_journal() {
    let paths = vec![
        "journal/2026-08-05.md".to_string(),
        "journal/2026-08-07.md".to_string(),
        "journal/notes.txt".to_string(),
        "journal/2026-08-06.md".to_string(),
    ];
    assert_eq!(latest_journal_path(&paths), Some("journal/2026-08-07.md".to_string()));
    assert_eq!(latest_journal_path(&vec!["journal/a.txt".to_string()]), None);
}

#[test]
fn updates_one_daily_journal_and_moves_completed_next_item() {
    let first = merge_journal(
        "",
        "2026-08-05",
        "2026-08-05T09:00:00+02:00",
        JournalSections {
            done: &[],
            planned: &[],
            questions: &["Should this be shared?".into()],
            next: &["Implement journal".into()],
        },
    );
    assert_eq!(first.added, 2);
    let second = merge_journal(
        &first.content,
        "2026-08-05",
        "2026-08-05T10:00:00+02:00",
        JournalSections {
            done: &["Implement journal".into()],
            planned: &["Add a plan".into()],
            questions: &["Should this be shared?".into()],
            next: &[],
        },
    );
    let content = second.content;
    assert_eq!(second.added, 2);
    assert_eq!(content.matches("- Implement journal").count(), 1);
    assert_eq!(content.matches("- Should this be shared?").count(), 1);
    assert!(content.contains("created_at: \"2026-08-05T09:00:00+02:00\""));
    assert!(!content.contains("## Decisions"));
    assert!(!content.contains("## Learnings"));
    assert!(content.contains("## Planned\n\n- Add a plan"));
    assert!(content.contains("## Next\n\n<!-- none -->"));
}

#[test]
fn preserves_legacy_decision_and_learning_sections_without_creating_new_ones() {
    let existing = "---\nid: \"journal-2026-08-05\"\ntype: \"journal\"\ncreated_at: \"2026-08-05T09:00:00+02:00\"\n---\n\n# 2026-08-05\n\n## Done\n\n<!-- none -->\n\n## Decisions\n\n- Keep Markdown canonical\n\n## Learnings\n\n- Nested repositories need workspace-relative paths\n\n## Planned\n\n<!-- none -->\n\n## Open questions\n\n<!-- none -->\n\n## Next\n\n<!-- none -->\n";
    let update = merge_journal(
        existing,
        "2026-08-05",
        "2026-08-05T10:00:00+02:00",
        JournalSections {
            done: &[],
            planned: &["Add a plan".into()],
            questions: &[],
            next: &[],
        },
    );
    let content = update.content;
    assert!(content.contains("## Decisions\n\n- Keep Markdown canonical"));
    assert!(content.contains("## Learnings\n\n- Nested repositories need workspace-relative paths"));
    assert!(content.contains("## Planned\n\n- Add a plan"));
}

#[test]
fn repeating_a_journal_update_adds_nothing() {
    let sections = JournalSections {
        done: &["  Shipped search  ".into(), "".into()],
        planned: &["Plan".into()],
        questions: &[],
        next: &["Review".into()],
    };
    let first = merge_journal("", "2026-08-05", "t", sections);
    assert_eq!(first.added, 3);
    let again = merge_journal(
        &first.content,
        "2026-08-05",
        "later",
        JournalSections {
            done: &["Shipped search".into()],
            planned: &["Plan".into()],
            questions: &[],
            next: &["Review".into()],
        },
    );
    assert_eq!(again.added, 0);
    assert_eq!(again.content, first.content);
}

#[test]
fn superseding_again_by_the_same_decision_changes_nothing() {
    let text = "---\nid: \"old\"\nsuperseded_by:\n  - \"a\"\nstatus: \"active\"\n---\n\n# Old\n\nWhy.\n";
    let once = add_supersession(text, "b").unwrap();
    assert_eq!(
        once,
        "---\nid: \"old\"\nsuperseded_by:\n  - \"a\"\n  - \"b\"\nstatus: \"superseded\"\n---\n\n# Old\n\nWhy.\n"
    );
    assert_eq!(add_supersession(&once, "b").unwrap(), once);
    assert!(once.ends_with("---\n\n# Old\n\nWhy.\n"));
}

#[test]
fn a_lifted_learning_reads_back_with_its_source() {
    let source = document(TEST_ID, "learning", None);
    let (name, content) =
        global_learning_file(&source, OTHER_ID, "2026-08-07T10:00:00Z", "gallery", "# Global\n\nBody").unwrap();
    let path = format!("/home/me/.tincan/global/learnings/{name}");
    let documents = scan_global(vec![(path, content)]).unwrap();
    assert_eq!(documents.len(), 1);
    let lifted = &documents[0];
    assert_eq!(lifted.id, OTHER_ID);
    assert_eq!(lifted.created_at, "2026-08-07T10:00:00Z");
    assert_eq!(lifted.source_record.as_deref(), Some(TEST_ID));
    assert_eq!(lifted.heading, "Global");
    assert!(matches!(lifted.scope, Scope::Global));
}

#[test]
fn paths_are_ordered_by_components() {
    let paths = vec!["notes-old/2026-01-01.md".to_string(), "notes/2026-08-05.md".to_string()];
    assert_eq!(latest_journal_path(&paths), Some("notes-old/2026-01-01.md".to_string()));
    let same = vec!["journal/a.md".to_string(), "journal//a.md".to_string(), "journal/./b.txt".to_string()];
    assert_eq!(latest_journal_path(&same), Some("journal//a.md".to_string()));
    let rooted = vec!["/x/z.md".to_string(), "a.md".to_string(), "/x/y.md".to_string()];
    assert_eq!(latest_journal_path(&rooted), Some("a.md".to_string()));
}

#[test]
fn only_a_slash_ends_the_base_of_a_joined_path() {
    assert_eq!(
        personal_tincan_root_from(None, Some("home\\".to_string()), None),
        Some("home\\/.tincan".to_string())
    );
    assert_eq!(
        personal_tincan_root_from(None, None, Some("/home/me/".to_string())),
        Some("/home/me/.tincan".to_string())
    );
}
