use tincan::git::{
    changed_files, exclude_path, git_output, repository_root, require_tincan_untracked, snapshot,
    verify_tincan_ignored,
};
use tincan::workspace::{find, find_from};

#[test]
fn private_tincan_storage_is_ignored_and_must_be_untracked() {
    assert!(verify_tincan_ignored(true, Some(0), "").is_ok());
    let error = verify_tincan_ignored(false, Some(1), "").unwrap_err();
    assert!(error.contains("does not ignore"));
    assert_eq!(
        verify_tincan_ignored(false, Some(128), "  fatal: bad\n").unwrap_err(),
        "git check-ignore failed: fatal: bad"
    );
    let error = require_tincan_untracked(".tincan/config.toml").unwrap_err();
    assert!(error.contains(".tincan/config.toml"));
    assert!(error.contains("\n  .tincan/config.toml\nremove them"));
    assert!(require_tincan_untracked("").is_ok());
}

#[test]
fn reads_repository_locations_from_git() {
    assert_eq!(repository_root("/work/a", "/work\n").unwrap(), "/work");
    assert_eq!(
        repository_root("/tmp/x", "  \n").unwrap_err(),
        "/tmp/x is not inside a Git repository"
    );
    assert_eq!(exclude_path("/work", ".git/info/exclude\n"), "/work/.git/info/exclude");
    assert_eq!(exclude_path("/work", "/elsewhere/info/exclude"), "/elsewhere/info/exclude");
    assert_eq!(exclude_path("C:/work", "C:/work/.git/info/exclude\n"), "C:/work/.git/info/exclude");
    assert_eq!(exclude_path("C:\\work", "\\\\server\\share\\exclude"), "\\\\server\\share\\exclude");
    let args = vec!["rev-parse".to_string(), "--show-toplevel".to_string()];
    assert_eq!(git_output(&args, true, "/work\n\n", "").unwrap(), "/work");
    assert_eq!(
        git_output(&args, false, "", " fatal: not a repo \n").unwrap_err(),
        "git rev-parse --show-toplevel failed: fatal: not a repo"
    );
    let s = snapshot("/work".to_string(), " main\n", vec!["a.rs".to_string()]);
    assert_eq!(s.branch, "main");
    assert_eq!(s.root, "/work");
    assert_eq!(s.changed_files, vec!["a.rs"]);
}

#[test]
fn changed_files_are_sorted_once_with_forward_slashes() {
    let files = changed_files("src\\b.rs\n src/a.rs \n\n", "new.txt\nsrc/a.rs\n");
    assert_eq!(files, vec!["new.txt", "src/a.rs", "src/b.rs"]);
    assert!(changed_files("", "").is_empty());
}

#[test]
fn finds_nearest_workspace_from_a_nested_directory() {
    let ancestors = vec![
        "/root/repo/src".to_string(),
        "/root/repo".to_string(),
        "/root".to_string(),
        "/".to_string(),
    ];
    assert_eq!(
        find_from(&ancestors, &vec![false, false, true, true]),
        Some("/root".to_string())
    );
    assert_eq!(find("/root/repo/src", Some("/root".to_string())).unwrap(), "/root");
}

#[test]
fn optionally_reports_that_no_workspace_exists() {
    let ancestors = vec!["/tmp/none".to_string(), "/tmp".to_string(), "/".to_string()];
    assert_eq!(find_from(&ancestors, &vec![false, false, false]), None);
    assert_eq!(
        find("/tmp/none", None).unwrap_err(),
        "/tmp/none is not inside a Tincan workspace; run `tincan init /tmp/none`"
    );
}
