use tincan::document::{Document, Scope};
use tincan::search::{matching_excerpt, metadata_text, paths_overlap, related_documents, search_rank};
use tincan::workflow::{already_lifted, document_summary, find_record, lift_source, search_query, search_results, source_workspace_name};

const TEST_ID: &str = "019c4ea8-7e42-7b31-a211-8df9357d747c";

fn document(id: &str, heading: &str, body: &str) -> Document {
    Document {
        path: format!("learnings/{id}.md"),
        id: id.to_string(),
        created_at: "2026-08-06T10:00:00Z".to_string(),
        heading: heading.to_string(),
        body: body.to_string(),
        kind: "learning".to_string(),
        status: None,
        files: vec!["src/gallery".to_string()],
        topics: vec!["Performance".to_string()],
        related: Vec::new(),
        supersedes: Vec::new(),
        superseded_by: Vec::new(),
        source_record: None,
        scope: Scope::Project,
    }
}

#[test]
fn matches_files_and_directories() {
    assert!(paths_overlap("src/feature/a.rs", "src/feature"));
    assert!(paths_overlap("src/feature", "src/feature/a.rs"));
    assert!(!paths_overlap("src/a.rs", "src/b.rs"));
}

#[test]
fn compares_paths_without_surrounding_slashes_or_backslashes() {
    assert!(paths_overlap("/src/feature/", "src\\feature\\a.rs"));
    assert!(!paths_overlap("src/feature-two", "src/feature"));
    assert!(paths_overlap("src", "src"));
}

#[test]
fn ranks_ids_then_headings_then_metadata_then_bodies() {
    let d = document(TEST_ID, "Paging Was Slow", "# Paging Was Slow\n\nThe Renderer is hot.\n");
    assert_eq!(search_rank(&d, TEST_ID), Some(0));
    assert_eq!(search_rank(&d, "paging"), Some(1));
    assert_eq!(search_rank(&d, "performance"), Some(2));
    assert_eq!(search_rank(&d, "renderer"), Some(3));
    assert_eq!(search_rank(&d, "absent"), None);
    assert_eq!(
        metadata_text(&d),
        format!("{TEST_ID}\nlearning\n\nsrc/gallery\nPerformance")
    );
}

#[test]
fn a_global_learning_is_found_by_its_source_id() {
    let mut global = document("019c4ea8-7e42-7b31-a211-8df9357d747d", "Global", "# Global\n");
    global.scope = Scope::Global;
    global.source_record = Some(TEST_ID.to_string());
    assert_eq!(search_rank(&global, TEST_ID), Some(2));
    assert!(metadata_text(&global).ends_with(TEST_ID));
}

#[test]
fn excerpts_skip_the_heading_and_shorten_long_lines() {
    let long = "x".repeat(130);
    let d = document(
        TEST_ID,
        "Renderer",
        &format!("# Renderer\n\n## - * Renderer notes\n\n- renderer {long}\n"),
    );
    assert_eq!(matching_excerpt(&d, "RENDERER").as_deref(), Some("- * Renderer notes"));
    let e = document(TEST_ID, "Heading", &format!("# Heading\n\n- renderer {long}\n"));
    let excerpt = matching_excerpt(&e, "renderer").unwrap();
    assert_eq!(excerpt.chars().count(), 121);
    assert!(excerpt.ends_with('\u{2026}'));
    assert_eq!(matching_excerpt(&e, "missing"), None);
}

#[test]
fn search_results_are_ordered_by_rank_then_path() {
    let a = document("019c4ea8-7e42-7b31-a211-8df9357d7471", "Other", "# Other\n\nmentions paging\n");
    let b = document("019c4ea8-7e42-7b31-a211-8df9357d7472", "Paging", "# Paging\n");
    let c = document("019c4ea8-7e42-7b31-a211-8df9357d7470", "Paging too", "# Paging too\n");
    let d = document("019c4ea8-7e42-7b31-a211-8df9357d7473", "Unrelated", "# Unrelated\n");
    let results = search_results(&vec![a, b, c, d], "paging");
    let order: Vec<(u8, String)> = results.iter().map(|(rank, doc)| (*rank, doc.heading.clone())).collect();
    assert_eq!(
        order,
        vec![(1, "Paging too".to_string()), (1, "Paging".to_string()), (3, "Other".to_string())]
    );
}

#[test]
fn summaries_show_kind_scope_match_and_path() {
    let mut d = document(TEST_ID, "Paging", "# Paging\n\nThe renderer stalls.\n");
    d.supersedes = vec!["a".to_string(), "b".to_string()];
    let lines = document_summary(&d, Some("renderer"));
    assert_eq!(
        lines,
        vec![
            "Paging [project learning]".to_string(),
            format!("  id: {TEST_ID}"),
            "  matched: The renderer stalls.".to_string(),
            "  files: src/gallery".to_string(),
            "  topics: Performance".to_string(),
            "  supersedes: a, b".to_string(),
            format!("  learnings/{TEST_ID}.md"),
        ]
    );
    let mut decision = document(TEST_ID, "Choice", "# Choice\n");
    decision.kind = "decision".to_string();
    decision.status = Some("active".to_string());
    assert_eq!(document_summary(&decision, None)[0], "Choice [project decision / active]");
}

#[test]
fn finds_records_by_id_and_lift_sources() {
    let documents = vec![document(TEST_ID, "Fact", "# Fact\n")];
    assert_eq!(find_record(&documents, TEST_ID).unwrap().heading, "Fact");
    assert_eq!(
        find_record(&documents, "nope").unwrap_err(),
        "no Tincan record found with id nope"
    );
    assert_eq!(lift_source(&documents, TEST_ID).unwrap().id, TEST_ID);
    assert_eq!(
        lift_source(&documents, "nope").unwrap_err(),
        "no project record found with id nope"
    );
    let mut decision = document(TEST_ID, "Choice", "# Choice\n");
    decision.kind = "decision".to_string();
    assert_eq!(
        lift_source(&vec![decision], TEST_ID).unwrap_err(),
        format!("{TEST_ID} is not a project learning")
    );
    let mut global = document("019c4ea8-7e42-7b31-a211-8df9357d747d", "G", "# G\n");
    global.source_record = Some(TEST_ID.to_string());
    assert!(already_lifted(&vec![global], TEST_ID).is_some());
    assert!(already_lifted(&documents, TEST_ID).is_none());
    assert_eq!(source_workspace_name("/work/gallery"), "gallery");
    assert_eq!(source_workspace_name("/"), "workspace");
}

#[test]
fn changed_files_find_their_records() {
    let documents = vec![
        document(TEST_ID, "A", "# A\n"),
        {
            let mut other = document("019c4ea8-7e42-7b31-a211-8df9357d747d", "B", "# B\n");
            other.files = vec!["docs".to_string()];
            other
        },
    ];
    let related = related_documents("src/gallery/view.rs", &documents);
    assert_eq!(related.len(), 1);
    assert_eq!(related[0].heading, "A");
    assert!(related_documents("README.md", &documents).is_empty());
}

#[test]
fn a_record_stays_found_by_its_id_after_its_body_is_edited() {
    let written = document(TEST_ID, "Gallery", "First body");
    let edited = document(TEST_ID, "Renamed", "Completely different text");
    assert_eq!(search_rank(&written, TEST_ID), Some(0));
    assert_eq!(search_rank(&edited, TEST_ID), Some(0));
    let upper = TEST_ID.to_uppercase();
    let shouted = document(&upper, "Gallery", "Body");
    assert_eq!(search_rank(&shouted, TEST_ID), Some(0));
}

#[test]
fn search_queries_are_matched_lowercased() {
    let a = document(TEST_ID, "Paging gallery", "Body");
    let results = search_results(&vec![a], "PAGING");
    assert_eq!(results.len(), 1);
    assert_eq!(results[0].0, 1);
    assert_eq!(search_query("Gallery PAGE"), "gallery page");
}

#[test]
fn lifting_again_finds_the_first_global_copy() {
    let source = document(TEST_ID, "Gallery", "Body");
    let global_id = "019c4ea8-7e42-7b31-a211-8df9357d7000";
    let (name, content) =
        tincan::store::global_learning_file(&source, global_id, "2026-08-07T10:00:00Z", "gallery", "# Global\n").unwrap();
    let globals = tincan::store::scan_global(vec![(format!("/g/learnings/{name}"), content)]).unwrap();
    let existing = already_lifted(&globals, TEST_ID).unwrap();
    assert_eq!(existing.id, global_id);
}
