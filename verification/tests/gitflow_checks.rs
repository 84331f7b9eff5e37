use mdtasks::gitflow::{
    branch_exists, branch_name, branch_status, branch_task_id, finish_validate,
    get_current_branch, has_uncommitted_changes, load_config, start_check_branch, start_validate,
    BranchStatus,
};
use mdtasks::store::load_from_entries;
use mdtasks::store::TaskStore;
use mdtasks::task::TaskError;
use mdtasks::text::slugify;

fn store_with(id: &str, title: &str, status: &str) -> TaskStore {
    let raw = format!("---\nid: {}\ntitle: \"{}\"\nstatus: {}\n---\n", id, title, status);
    load_from_entries(&vec![(format!("tasks/{}-t.md", id), raw)])
}

#[test]
fn config_uses_feature_prefix() {
    assert_eq!(load_config().git.branch_prefix, "feature/");
}

#[test]
fn current_branch_is_trimmed_output() {
    assert_eq!(get_current_branch("main\n"), "main");
    assert_eq!(get_current_branch("  feature/001-x \n"), "feature/001-x");
}

#[test]
fn branch_exists_means_nonblank_output() {
    assert!(branch_exists("  feature/001-x\n"));
    assert!(!branch_exists(""));
    assert!(!branch_exists("  \n"));
}

#[test]
fn uncommitted_changes_mean_nonblank_porcelain() {
    assert!(has_uncommitted_changes(" M src/main.rs\n"));
    assert!(!has_uncommitted_changes("\n"));
}

#[test]
fn slugify_lowers_hyphenates_and_strips() {
    assert_eq!(slugify("Fix: The Bug!"), "fix-the-bug");
    assert_eq!(slugify("Add CLI v2, please?"), "add-cli-v2-please");
    assert_eq!(slugify("   "), "---");
}

#[test]
fn branch_name_joins_prefix_id_and_slug() {
    assert_eq!(branch_name("feature/", "007", "Fix Bug"), "feature/007-fix-bug");
}

#[test]
fn branch_task_id_takes_text_up_to_first_hyphen() {
    assert_eq!(
        branch_task_id("feature/007-fix-bug", "feature/"),
        Some("007".to_string())
    );
    assert_eq!(branch_task_id("feature/42", "feature/"), Some("42".to_string()));
    assert_eq!(branch_task_id("main", "feature/"), None);
}

#[test]
fn start_on_non_trunk_branch_is_wrong_branch() {
    let store = store_with("001", "Fix Bug", "pending");
    let cfg = load_config();
    let r = start_validate(true, "develop", &store, "001", &cfg);
    assert_eq!(
        r.unwrap_err(),
        TaskError::WrongBranch { expected: "main".to_string(), actual: "develop".to_string() }
    );
}

#[test]
fn start_outside_repository_fails_first() {
    let store = store_with("001", "Fix Bug", "pending");
    let cfg = load_config();
    let r = start_validate(false, "main", &store, "001", &cfg);
    assert_eq!(r.unwrap_err(), TaskError::NotAGitRepository);
}

#[test]
fn start_with_unknown_task_fails_before_branch_check() {
    let store = store_with("001", "Fix Bug", "pending");
    let cfg = load_config();
    let r = start_validate(true, "develop", &store, "009", &cfg);
    assert_eq!(r.unwrap_err(), TaskError::TaskNotFound { id: "009".to_string() });
}

#[test]
fn start_on_trunk_yields_plan_with_derived_branch() {
    let store = store_with("001", "Fix Bug", "pending");
    let cfg = load_config();
    let p = start_validate(true, "main", &store, "001", &cfg).unwrap();
    assert_eq!(p.branch_name, "feature/001-fix-bug");
    assert_eq!(p.title, "Fix Bug");
    assert!(p.activate);
}

#[test]
fn start_does_not_activate_non_pending_task() {
    let store = store_with("001", "Fix Bug", "active");
    let cfg = load_config();
    let p = start_validate(true, "main", &store, "001", &cfg).unwrap();
    assert!(!p.activate);
}

#[test]
fn start_stops_when_branch_already_exists() {
    let store = store_with("001", "Fix Bug", "pending");
    let cfg = load_config();
    let p = start_validate(true, "main", &store, "001", &cfg).unwrap();
    let r = start_check_branch(p, true);
    assert_eq!(
        r.unwrap_err(),
        TaskError::BranchAlreadyExists { name: "feature/001-fix-bug".to_string() }
    );
}

#[test]
fn finish_resolves_id_from_branch_name() {
    let store = store_with("007", "Fix Bug", "active");
    let cfg = load_config();
    let p = finish_validate(true, "feature/007-fix-bug", &store, &cfg, None).unwrap();
    assert_eq!(p.task_id, "007");
    assert_eq!(p.branch, "feature/007-fix-bug");
    assert_eq!(p.commit_message, "feat: Fix Bug (task #007)");
}

#[test]
fn finish_uses_given_commit_message() {
    let store = store_with("007", "Fix Bug", "active");
    let cfg = load_config();
    let p = finish_validate(
        true,
        "feature/007-fix-bug",
        &store,
        &cfg,
        Some("custom words".to_string()),
    )
    .unwrap();
    assert_eq!(p.commit_message, "custom words");
}

#[test]
fn finish_with_missing_record_aborts_before_any_mutation() {
    let store = load_from_entries(&vec![]);
    let cfg = load_config();
    let r = finish_validate(true, "feature/007-fix-bug", &store, &cfg, None);
    assert_eq!(r.unwrap_err(), TaskError::TaskNotFound { id: "007".to_string() });
}

#[test]
fn finish_off_task_branch_is_rejected() {
    let store = store_with("007", "Fix Bug", "active");
    let cfg = load_config();
    let r = finish_validate(true, "main", &store, &cfg, None);
    assert_eq!(
        r.unwrap_err(),
        TaskError::WrongBranch { expected: "feature/".to_string(), actual: "main".to_string() }
    );
}

#[test]
fn status_reports_current_task() {
    let store = store_with("007", "Fix Bug", "active");
    let cfg = load_config();
    assert_eq!(
        branch_status("feature/007-fix-bug", &store, &cfg),
        BranchStatus::OnTask { index: 0 }
    );
    assert_eq!(branch_status("main", &store, &cfg), BranchStatus::NotOnTaskBranch);
    assert_eq!(
        branch_status("feature/009-gone", &store, &cfg),
        BranchStatus::TaskMissing { task_id: "009".to_string() }
    );
}
