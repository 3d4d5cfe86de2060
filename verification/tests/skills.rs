use tincan::skill::{
    default_selections, detect_roots_from, install_many, install_plan, overwrite_existing_skill,
    selected_paths, selection_labels, skill_markers, skill_status_lines, InstallCheck,
    InstallPlan, InstallationState, InstallationStatus, SkillRoot, PICKER_HELP, SKILL,
};

fn root(name: &str, path: &str) -> SkillRoot {
    SkillRoot { name: name.to_string(), path: path.to_string() }
}

#[test]
fn renders_each_destination_on_one_line_and_maps_selections() {
    let roots = vec![root("First", "first/skills"), root("Second", "second/skills")];
    let labels = selection_labels(&roots);
    assert_eq!(labels.len(), 2);
    assert!(labels[0].contains("First: first/skills"));
    assert!(labels.iter().all(|label| !label.contains('\n')));
    let selected = selected_paths(&roots, &[1]);
    assert_eq!(selected, vec!["second/skills".to_string()]);
}

#[test]
fn labels_fold_line_breaks_and_ignore_unknown_indices() {
    let roots = vec![root("Odd", "a\nb\rc")];
    assert_eq!(selection_labels(&roots), vec!["Odd: a b c".to_string()]);
    assert!(selected_paths(&roots, &[3]).is_empty());
    assert_eq!(selected_paths(&roots, &[0, 0]).len(), 2);
}

#[test]
fn selects_every_detected_destination_by_default() {
    let roots = vec![root("Only harness", "only/skills")];
    assert_eq!(default_selections(&roots), vec![true]);
}

#[test]
fn picker_help_explains_every_available_action() {
    for instruction in [
        "↑↓ move",
        "Space select/unselect",
        "A toggle all/none",
        "Enter continue",
        "Esc cancel",
    ] {
        assert!(PICKER_HELP.contains(instruction));
    }
}

#[test]
fn bundled_skill_offers_initialization_without_assuming_consent() {
    assert!(SKILL.contains("structured"));
    assert!(SKILL.contains("user-question"));
    assert!(SKILL.contains("Initialize Tincan"));
    assert!(SKILL.contains("Not now"));
    assert!(SKILL.contains("Never run `tincan init` without the user's explicit confirmation"));
}

#[test]
fn detects_only_harnesses_present_on_the_machine() {
    let candidates = skill_markers(Some("home"), None);
    let present: Vec<bool> = candidates
        .iter()
        .map(|c| c.marker == "home/.agents" || c.marker == "home/.cursor")
        .collect();
    let roots = detect_roots_from(&candidates, &present, false);
    assert_eq!(roots.len(), 2);
    assert!(roots.iter().any(|root| root.name == "Agent Skills"));
    assert!(roots.iter().any(|root| root.name == "Cursor"));
    assert!(!roots.iter().any(|root| root.name.contains("Codex")));
    assert!(roots.iter().any(|root| root.path == "home/.agents/skills"));
}

#[test]
fn every_supported_harness_is_looked_for_under_home() {
    let candidates = skill_markers(Some("home"), None);
    let markers: Vec<&str> = candidates.iter().map(|c| c.marker.as_str()).collect();
    assert_eq!(
        markers,
        vec!["home/.agents", "home/.codex", "home/.cursor", "home/.gemini", "home/.config/opencode"]
    );
}

#[test]
fn codex_home_is_offered_once() {
    let candidates = skill_markers(Some("home"), Some("home/.codex"));
    assert_eq!(candidates[0].name, "Codex");
    let present = vec![true; candidates.len()];
    let roots = detect_roots_from(&candidates, &present, false);
    assert_eq!(roots.iter().filter(|root| root.name == "Codex").count(), 1);
    assert_eq!(roots.len(), 5);
    let windows = skill_markers(Some("C:\\Users\\me"), Some("c:\\users\\me\\.codex"));
    let present = vec![true; windows.len()];
    assert_eq!(detect_roots_from(&windows, &present, true).len(), 5);
    assert_eq!(detect_roots_from(&windows, &present, false).len(), 6);
}

#[test]
fn confirmed_interactive_skill_install_updates_existing_destinations() {
    assert!(overwrite_existing_skill(None, false));
    assert!(!overwrite_existing_skill(Some("custom-skills"), false));
    assert!(overwrite_existing_skill(Some("custom-skills"), true));
}

fn check(root: &str, installed: Option<&str>, metadata: bool, exists: bool) -> InstallCheck {
    InstallCheck {
        root: root.to_string(),
        installed_skill: installed.map(str::to_string),
        metadata_current: metadata,
        destination_exists: exists,
    }
}

#[test]
fn installs_idempotently_and_protects_different_content() {
    assert!(matches!(
        install_plan(&check("root", None, false, false), false).unwrap(),
        InstallPlan::Write(ref path) if path == "root/tincan"
    ));
    assert!(matches!(
        install_plan(&check("root", Some(SKILL), true, true), false).unwrap(),
        InstallPlan::Current(ref path) if path == "root/tincan"
    ));
    assert_eq!(
        install_plan(&check("root", Some("local edit"), true, true), false).err().unwrap(),
        "root/tincan already exists and differs from this Tincan version; rerun with --force to update Tincan-owned files"
    );
    assert!(matches!(
        install_plan(&check("root", Some("local edit"), true, true), true).unwrap(),
        InstallPlan::Write(_)
    ));
}

#[test]
fn validates_every_destination_before_writing_any() {
    let checks = vec![
        check("first", None, false, false),
        check("second", Some("owned elsewhere"), false, true),
    ];
    assert!(install_many(&checks, false).is_err());
    assert_eq!(install_many(&checks, true).unwrap().len(), 2);
}

fn status(name: &str, path: &str, state: InstallationState) -> InstallationStatus {
    InstallationStatus { root: root(name, path), state }
}

#[test]
fn skill_status_groups_outdated_and_current_installations() {
    let statuses = vec![
        status("Current", "current", InstallationState::Current),
        status("Outdated", "outdated", InstallationState::UpdateAvailable),
        status("Missing", "missing", InstallationState::NotInstalled),
    ];

    let lines = skill_status_lines(&statuses);
    assert_eq!(lines[0], "Agent Skill update available.");
    assert_eq!(lines[1], "Needs update:");
    assert!(lines[2].contains("Outdated"));
    assert_eq!(lines[3], "Already up to date:");
    assert!(lines[4].contains("Current"));
    assert!(lines.iter().all(|line| !line.contains("Missing")));
}

#[test]
fn skill_status_leads_with_health_then_lists_installed_locations() {
    let statuses = vec![status("Current", "current", InstallationState::Current)];
    let lines = skill_status_lines(&statuses);
    assert_eq!(lines[0], "Agent Skill is up to date everywhere.");
    assert_eq!(lines[1], "Installed in:");
    assert!(lines[2].contains("Current"));
    assert_eq!(lines[2], "- Current (current/tincan)");
}

#[test]
fn skill_status_explains_missing_installations() {
    assert_eq!(
        skill_status_lines(&Vec::new()),
        vec!["No supported Agent Skills destinations detected.".to_string()]
    );
    let lines = skill_status_lines(&vec![status("Cursor", "home/.cursor/skills", InstallationState::NotInstalled)]);
    assert_eq!(
        lines,
        vec![
            "Agent Skill is not installed.".to_string(),
            "Available destinations:".to_string(),
            "- Cursor (home/.cursor/skills/tincan)".to_string(),
            "Run `tincan skill install` to install it.".to_string(),
        ]
    );
}
