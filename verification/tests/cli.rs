use tincan::cli::{help, parse, Command, ReviewArgs, ReviewScope};

fn args(values: &[&str]) -> Vec<String> {
    values.iter().map(|v| v.to_string()).collect()
}

#[test]
fn parses_repeated_record_fields() {
    let command = parse(args(&[
        "learn",
        "Paging did not reduce rendering work",
        "--file",
        "src/a.rs",
        "--file",
        "src/b.rs",
    ]))
    .unwrap();

    let Command::Record(record) = command else {
        panic!("expected record command");
    };
    assert_eq!(record.kind, "learning");
    assert_eq!(record.statement, "Paging did not reduce rendering work");
    assert_eq!(record.files, vec!["src/a.rs", "src/b.rs"]);
}

#[test]
fn gives_actionable_record_validation_errors() {
    let learning_status = parse(args(&["learn", "Paging", "--status", "accepted"])).unwrap_err();
    assert_eq!(
        learning_status,
        "unknown option --status; run `tincan --help` and retry with a listed option"
    );

    let typo = parse(args(&["decide", "Paging", "--files", "src/a.rs"])).unwrap_err();
    assert!(typo.contains("unknown option --files"));

    assert!(parse(args(&["learn", "one", "two"]))
        .unwrap_err()
        .contains("exactly one concise statement"));
    assert!(parse(args(&["learn", "A fact", "--supersedes", "id"]))
        .unwrap_err()
        .contains("only valid for decisions"));
}

#[test]
fn parses_skill_install_options() {
    let command = parse(args(&["skill", "install", "--path", "agent-skills", "--force"])).unwrap();

    assert_eq!(
        command,
        Command::SkillInstall {
            path: Some("agent-skills".to_string()),
            force: true,
        }
    );
}

#[test]
fn parses_read_only_skill_status() {
    assert_eq!(parse(args(&["skill", "status"])).unwrap(), Command::SkillStatus);
    assert!(parse(args(&["skill", "status", "extra"]))
        .unwrap_err()
        .contains("does not accept arguments"));
}

#[test]
fn parses_daily_journal_bullets() {
    let command = parse(args(&[
        "journal",
        "--done",
        "Implemented search",
        "--question",
        "Should topics be normalized?",
        "--next",
        "Test on another repository",
    ]))
    .unwrap();

    let Command::Journal(journal) = command else {
        panic!("expected journal command");
    };
    assert_eq!(journal.done, vec!["Implemented search"]);
    assert!(journal.planned.is_empty());
    assert_eq!(journal.questions, vec!["Should topics be normalized?"]);
    assert_eq!(journal.next, vec!["Test on another repository"]);
}

#[test]
fn parses_later_shelf_commands() {
    assert_eq!(
        parse(args(&["remember", "Explore a shorter review default"])).unwrap(),
        Command::Remember {
            repo: None,
            text: "Explore a shorter review default".to_string(),
        }
    );
    assert_eq!(
        parse(args(&["later", "-d", "workspace"])).unwrap(),
        Command::Later {
            repo: Some("workspace".to_string()),
        }
    );
    assert!(parse(args(&["remember"])).is_err());
    assert!(parse(args(&["later", "extra"])).is_err());
}

#[test]
fn rejects_decisions_and_learnings_as_journal_duplicates() {
    for option in ["--decision", "--learning"] {
        let error = parse(args(&["journal", option, "Keep Markdown canonical"])).unwrap_err();
        assert!(error.contains(&format!("unknown option {option}")));
    }
}

#[test]
fn parses_review_scopes_and_rejects_removed_summary() {
    assert!(matches!(
        parse(args(&["review"])).unwrap(),
        Command::Review(ReviewArgs {
            scope: ReviewScope::Overview,
            all_projects: false,
            ..
        })
    ));
    assert!(matches!(
        parse(args(&["review", "--quarter", "2025-Q3", "--all-projects"])).unwrap(),
        Command::Review(ReviewArgs {
            scope: ReviewScope::Quarter(2025, 3),
            all_projects: true,
            ..
        })
    ));
    assert!(matches!(
        parse(args(&["review", "--all-time", "--output", "review.md", "--force"])).unwrap(),
        Command::Review(ReviewArgs {
            scope: ReviewScope::AllTime,
            output: Some(output),
            force: true,
            ..
        }) if output == "review.md"
    ));
    assert!(parse(args(&["summary"]))
        .unwrap_err()
        .contains("replaced by review"));
    assert!(parse(args(&["inspect"])).is_err());
}

#[test]
fn parses_project_registry_commands() {
    assert_eq!(parse(args(&["projects"])).unwrap(), Command::ProjectsList);
    let id = "019fd6d9-1ff8-7082-9f86-2b7d89712a57";
    assert_eq!(
        parse(args(&["projects", "unregister", id])).unwrap(),
        Command::ProjectsUnregister {
            target: Some(id.into())
        }
    );
    assert!(parse(args(&["projects", "unregister"]))
        .unwrap_err()
        .contains("requires PATH or WORKSPACE_ID"));
}

#[test]
fn parses_git_include_with_explicit_confirmation() {
    assert!(matches!(
        parse(args(&["git", "include", "--directory", "project", "--yes"])).unwrap(),
        Command::GitInclude { repo, yes: true } if repo == Some("project".to_string())
    ));
    assert!(matches!(
        parse(args(&["git", "exclude"])).unwrap(),
        Command::GitExclude { .. }
    ));
    assert!(parse(args(&["git", "remove"]))
        .unwrap_err()
        .contains("use `tincan git include`"));
}

#[test]
fn validates_review_periods_and_option_combinations() {
    for case in [
        vec!["review", "--month", "2025-13"],
        vec!["review", "--quarter", "2025-Q0"],
        vec!["review", "--half", "2025-H3"],
        vec!["review", "--quarter", "2025-3"],
        vec!["review", "--all-time", "--year", "2025"],
        vec!["review", "--force"],
        vec!["review", "all"],
    ] {
        assert!(parse(case.into_iter().map(str::to_string).collect()).is_err());
    }
    assert!(matches!(
        parse(args(&["review", "--month", "2025-08"])).unwrap(),
        Command::Review(ReviewArgs {
            scope: ReviewScope::Month(2025, 8),
            ..
        })
    ));
}

#[test]
fn parses_directory_and_rejects_the_old_repo_option() {
    assert!(matches!(
        parse(args(&["resume", "-d", "project"])).unwrap(),
        Command::Resume { repo } if repo == Some("project".to_string())
    ));
    assert!(matches!(
        parse(args(&["resume", "--directory", "project"])).unwrap(),
        Command::Resume { repo } if repo == Some("project".to_string())
    ));
    assert!(parse(args(&["resume", "--repo", "project"]))
        .unwrap_err()
        .contains("unknown option --repo"));
}

#[test]
fn parses_version_flags() {
    for argument in ["-V", "--version", "version"] {
        assert_eq!(parse(vec![argument.to_string()]).unwrap(), Command::Version);
    }
}

#[test]
fn parses_lift_with_a_project_learning_id() {
    let id = "019c4ea8-7e42-7b31-a211-8df9357d747c";
    assert_eq!(
        parse(args(&["lift", id, "--directory", "project", "--from", "global.md"])).unwrap(),
        Command::Lift {
            repo: Some("project".to_string()),
            id: id.to_string(),
            from: "global.md".to_string(),
        }
    );
    assert!(parse(args(&["lift", "not-an-id"]))
        .unwrap_err()
        .contains("valid UUID"));
    assert!(parse(args(&["lift", id]))
        .unwrap_err()
        .contains("requires --from"));
}

#[test]
fn rejects_extra_arguments_and_unknown_options() {
    assert_eq!(
        parse(args(&["search", "one", "two"])).unwrap_err(),
        "search accepts exactly one query"
    );
    assert!(parse(args(&["skill", "install", "--unknown", "value"]))
        .unwrap_err()
        .contains("unknown option --unknown"));
    assert_eq!(parse(args(&["changes"])).unwrap(), Command::Changes { repo: None });
    assert!(parse(args(&["changes", "--changed"]))
        .unwrap_err()
        .contains("unknown option --changed"));
}

#[test]
fn help_explains_record_ids_and_direct_markdown_access() {
    assert!(help().contains("use an ID returned by search"));
    assert!(help().contains("nearest parent directory"));
    assert!(help().contains("UUID v7 IDs"));
    assert!(help().contains("tincan decide STATEMENT"));
    assert!(help().contains("tincan lift"));
    assert!(!help().contains("record decision"));
}

#[test]
fn no_arguments_asks_for_help() {
    assert_eq!(parse(Vec::new()).unwrap(), Command::Help);
}

#[test]
fn uppercase_uuid_braces_and_urn_forms_are_accepted_for_lift() {
    for id in [
        "019C4EA8-7E42-7B31-A211-8DF9357D747C",
        "{019c4ea8-7e42-7b31-a211-8df9357d747c}",
        "urn:uuid:019c4ea8-7e42-7b31-a211-8df9357d747c",
        "019c4ea87e427b31a2118df9357d747c",
    ] {
        assert!(parse(args(&["lift", id, "--from", "x.md"])).is_ok(), "{id}");
    }
    assert!(parse(args(&["lift", "019c4ea8-7e42-7b31-a211-8df9357d747", "--from", "x.md"])).is_err());
}
