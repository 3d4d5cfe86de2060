use tincan::calendar::{date, day_string, Day};
use tincan::cli::ReviewScope;
use tincan::document::{Document, Scope};
use tincan::review::{
    all_projects_review, combined_review_label, ProjectInput, project_display_name, render_combined_review,
    render_project_review_section, render_review_context, render_review_overview, review_body,
    review_date, review_kind_order, review_range, unavailable_project,
};

fn review_document(kind: &str, created_at: &str, heading: &str, body: &str) -> Document {
    Document {
        path: format!("{kind}/{heading}.md"),
        id: format!("{kind}-{heading}"),
        created_at: created_at.to_string(),
        heading: heading.to_string(),
        body: body.to_string(),
        kind: kind.to_string(),
        status: if kind == "decision" { Some("active".to_string()) } else { None },
        files: Vec::new(),
        topics: Vec::new(),
        related: Vec::new(),
        supersedes: Vec::new(),
        superseded_by: Vec::new(),
        source_record: None,
        scope: Scope::Project,
    }
}

#[test]
fn review_overview_groups_record_counts_by_year() {
    let documents = [
        review_document("journal", "2025-02-03T09:00:00Z", "2025-02-03", "# 2025-02-03\n"),
        review_document("decision", "2025-07-01T09:00:00Z", "Choose Markdown", "# Choose Markdown\n"),
        review_document("learning", "2026-01-10T09:00:00Z", "Keep evidence", "# Keep evidence\n"),
    ];
    let dated = documents
        .iter()
        .map(|document| (review_date(document).unwrap(), document))
        .collect::<Vec<_>>();

    let output = render_review_overview(&dated);

    assert!(output.contains("Review history: 2025-02-03 through 2026-01-10"));
    assert!(output.contains("2025              1           1           0"));
    assert!(output.contains("2026              0           0           1"));
    assert!(output.contains("tincan review --month 2025-06"));
    assert!(output.contains("tincan review --all-time"));
}

#[test]
fn review_context_filters_calendar_periods_and_omits_empty_sections() {
    let journal = review_document(
        "journal",
        "2025-08-05T09:00:00+02:00",
        "2025-08-05",
        "# 2025-08-05\n\n## Done\n\n- Shipped the handoff\n\n## Next\n\n<!-- none -->\n",
    );
    let later = review_document("learning", "2025-10-01T09:00:00+02:00", "Outside Q3", "# Outside Q3\n");
    let documents = [journal, later];
    let dated = documents
        .iter()
        .map(|document| (review_date(document).unwrap(), document))
        .collect::<Vec<_>>();
    let (range, label) = review_range(&ReviewScope::Quarter(2025, 3)).unwrap();

    let output = render_review_context(&dated, range, &label);

    assert!(output.contains("# Tincan review: 2025 Q3"));
    assert!(output.contains("#### Done"));
    assert!(output.contains("Shipped the handoff"));
    assert!(!output.contains("## Next"));
    assert!(!output.contains("Outside Q3"));
}

#[test]
fn review_context_orders_days_then_kinds_then_paths() {
    let documents = [
        review_document("learning", "2025-08-05T12:00:00Z", "L", "# L\n\nWhy.\n"),
        review_document("decision", "2025-08-05T11:00:00Z", "D", "# D\n"),
        review_document("journal", "2025-08-05T10:00:00Z", "2025-08-05", "# 2025-08-05\n"),
        review_document("decision", "2025-08-04T11:00:00Z", "E", "# E\n"),
    ];
    let dated = documents
        .iter()
        .map(|document| (review_date(document).unwrap(), document))
        .collect::<Vec<_>>();
    let output = render_review_context(&dated, None, "all history");
    assert_eq!(
        output,
        "# Tincan review: all history\n\n## 2025-08-04\n\n### Decision (active): E\n\n## 2025-08-05\n\n### Journal\n\n### Decision (active): D\n\n### Learning: L\n\nWhy.\n"
    );
    assert_eq!(
        render_review_context(&[], None, "2025"),
        "# Tincan review: 2025\n\nNo Tincan records were created in this period.\n"
    );
    assert_eq!(review_kind_order(&documents[2]), 0);
    assert_eq!(review_kind_order(&documents[1]), 1);
    assert_eq!(review_kind_order(&documents[0]), 2);
}

#[test]
fn empty_history_has_no_overview() {
    assert_eq!(render_review_overview(&[]), "No review history recorded.\n");
}

#[test]
fn review_periods_cover_whole_months() {
    let (range, label) = review_range(&ReviewScope::Month(2024, 2)).unwrap();
    assert_eq!(label, "2024-02");
    let (start, end) = range.unwrap();
    assert_eq!(day_string(start), "2024-02-01");
    assert_eq!(day_string(end), "2024-02-29");
    let (range, label) = review_range(&ReviewScope::Half(2025, 2)).unwrap();
    assert_eq!(label, "2025 H2");
    assert_eq!(day_string(range.unwrap().1), "2025-12-31");
    let (range, label) = review_range(&ReviewScope::Year(2023)).unwrap();
    assert_eq!(label, "2023");
    assert_eq!(range.unwrap().0, Day { year: 2023, month: 1, day: 1 });
    let (range, label) = review_range(&ReviewScope::AllTime).unwrap();
    assert_eq!(label, "all history");
    assert!(range.is_none());
    assert_eq!(
        review_range(&ReviewScope::Month(2025, 13)).unwrap_err(),
        "invalid calendar date: 2025-13-01"
    );
    assert_eq!(
        review_range(&ReviewScope::Quarter(2025, 5)).unwrap_err(),
        "invalid calendar date: 2025-13-01"
    );
    assert_eq!(
        review_range(&ReviewScope::Year(300000)).unwrap_err(),
        "invalid calendar date: 300000-01-01"
    );
    assert_eq!(combined_review_label(&ReviewScope::Overview).unwrap(), "history overview");
    assert_eq!(combined_review_label(&ReviewScope::Quarter(2025, 1)).unwrap(), "2025 Q1");
}

#[test]
fn calendar_days_follow_the_gregorian_rules() {
    assert!(date(2000, 2, 29).is_ok());
    assert_eq!(date(1900, 2, 29).unwrap_err(), "invalid calendar date: 1900-02-29");
    assert_eq!(date(-5, 1, 40).unwrap_err(), "invalid calendar date: -005-01-40");
    let day = |text: &str| review_date(&review_document("journal", "", text, "# Day\n"));
    assert_eq!(day("2025-08-05").unwrap(), Day { year: 2025, month: 8, day: 5 });
    assert!(day("2025-02-30").is_err());
    assert!(day("not a date").is_err());
    assert_eq!(day_string(Day { year: 12345, month: 6, day: 7 }), "+12345-06-07");
    assert_eq!(day_string(Day { year: 7, month: 6, day: 7 }), "0007-06-07");
}

#[test]
fn review_dates_come_from_headings_or_creation_times() {
    let journal = review_document("journal", "2025-01-01T00:00:00Z", "2025-08-05", "# 2025-08-05\n");
    assert_eq!(review_date(&journal).unwrap(), Day { year: 2025, month: 8, day: 5 });
    let decision = review_document("decision", "2025-07-01T09:00:00Z", "D", "# D\n");
    assert_eq!(review_date(&decision).unwrap(), Day { year: 2025, month: 7, day: 1 });
    let broken = review_document("learning", "yesterdayT10", "L", "# L\n");
    assert_eq!(
        review_date(&broken).unwrap_err(),
        "invalid review date in learning/L.md: yesterday"
    );
}

#[test]
fn review_bodies_keep_sections_with_content() {
    assert_eq!(
        review_body("intro\n# Title\n\n## Done\n\n- A\n\n## Next\n\n<!-- none -->\n\n### Deep\ntext\n"),
        "#### Done\n\n- A\n\n#### Next\n\n\n##### Deep\ntext"
    );
    assert_eq!(review_body("No heading at all\n"), "");
    assert_eq!(review_body("# Only a title\n"), "");
}

#[test]
fn combined_reviews_nest_each_project() {
    let section = render_project_review_section(
        "gallery",
        "C:\\work\\gallery",
        "# Tincan review: 2025\n\n## 2025-08-05\n\ntext",
    );
    assert_eq!(section, "\n## gallery\n\nPath: C:/work/gallery\n\n\n### 2025-08-05\n\ntext\n");
    assert_eq!(project_display_name("/work/gallery"), "gallery");
    assert_eq!(project_display_name("/"), "Unnamed project");
    let unavailable = vec![
        unavailable_project("old", "/work/old", None),
        unavailable_project("broken", "/work/broken", Some("cannot read")),
    ];
    assert_eq!(unavailable[1], "- broken: /work/broken (cannot read)");
    let review = render_combined_review("2025", &vec![section.clone()], &unavailable);
    assert!(review.starts_with("# Tincan review: 2025 \u{2014} all projects\n\n## gallery"));
    assert!(review.contains("## Unavailable projects\n\n- old: /work/old\n- broken: /work/broken (cannot read)\n\nMoved projects reconnect"));
    assert_eq!(
        render_combined_review("2025", &Vec::new(), &Vec::new()),
        "# Tincan review: 2025 \u{2014} all projects\n"
    );
}

#[test]
fn cross_project_review_skips_and_reports_unavailable_projects() {
    assert_eq!(
        all_projects_review(&ReviewScope::Year(2025), &Vec::new(), &Vec::new()).unwrap_err(),
        "no registered Tincan projects; run `tincan init` in a project first"
    );
    let good = ProjectInput {
        path: "/work/gallery".to_string(),
        available: true,
        scanned: Ok(vec![review_document("decision", "2025-07-01T09:00:00Z", "Choose Markdown", "# Choose Markdown\n\nWhy.\n")]),
    };
    let moved = ProjectInput { path: "/work/old".to_string(), available: false, scanned: Ok(Vec::new()) };
    let broken = ProjectInput {
        path: "/work/broken".to_string(),
        available: true,
        scanned: Err("cannot read".to_string()),
    };
    let undated = ProjectInput {
        path: "/work/undated".to_string(),
        available: true,
        scanned: Ok(vec![review_document("learning", "yesterdayT10", "L", "# L\n")]),
    };
    let projects = vec![moved, good, broken, undated];
    let problems = vec!["entry 3 has no path".to_string()];
    let review = all_projects_review(&ReviewScope::Year(2025), &projects, &problems).unwrap();
    assert!(review.starts_with("# Tincan review: 2025 \u{2014} all projects\n\n## gallery\n\nPath: /work/gallery\n"));
    assert!(review.contains("### 2025-07-01"));
    assert!(review.ends_with(
        "## Unavailable projects\n\n- Invalid registry entry: entry 3 has no path\n- old: /work/old\n- broken: /work/broken (cannot read)\n- undated: /work/undated (invalid review date in learning/L.md: yesterday)\n\nMoved projects reconnect when Tincan runs from the new location. Use `tincan projects` to inspect registry problems.\n"
    ));
    let again = ProjectInput {
        path: "/work/gallery".to_string(),
        available: true,
        scanned: Ok(vec![review_document("decision", "2025-07-01T09:00:00Z", "Choose Markdown", "# Choose Markdown\n")]),
    };
    let overview = all_projects_review(&ReviewScope::Overview, &vec![again], &Vec::new()).unwrap();
    assert!(overview.starts_with("# Tincan review: history overview \u{2014} all projects\n\n## gallery\n\nPath: /work/gallery\n\nReview history: 2025-07-01 through 2025-07-01\n"));
    assert!(!overview.contains("Unavailable projects"));
}
