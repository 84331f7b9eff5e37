use mdtasks::store::{decode_entry, load_from_entries, TaskStore};
use mdtasks::task::TaskError;

fn entry(id: &str, title: &str, status: &str, body: &str) -> (String, String) {
    let path = format!("tasks/{}-t.md", id);
    let raw = format!(
        "---\nid: {}\ntitle: \"{}\"\nstatus: {}\npriority: medium\n---\n{}",
        id, title, status, body
    );
    (path, raw)
}

fn store_of(entries: Vec<(String, String)>) -> TaskStore {
    load_from_entries(&entries)
}

#[test]
fn next_id_after_001_and_003_is_004() {
    let store = store_of(vec![
        entry("001", "a", "pending", ""),
        entry("003", "b", "done", ""),
    ]);
    assert_eq!(store.get_next_task_id(), "004");
}

#[test]
fn next_id_on_empty_store_is_001() {
    let store = store_of(vec![]);
    assert_eq!(store.get_next_task_id(), "001");
}

#[test]
fn next_id_ignores_non_numeric_ids() {
    let store = store_of(vec![
        entry("alpha", "a", "pending", ""),
        entry("002", "b", "pending", ""),
    ]);
    assert_eq!(store.get_next_task_id(), "003");
}

#[test]
fn next_id_keeps_zero_padding_past_three_digits() {
    let store = store_of(vec![entry("099", "a", "pending", ""), entry("1200", "b", "pending", "")]);
    assert_eq!(store.get_next_task_id(), "1201");
}

#[test]
fn next_id_counts_up_to_the_largest_fitting_id() {
    let store = store_of(vec![entry("4294967295", "max", "pending", "")]);
    assert_eq!(store.get_next_task_id(), "4294967296");
}

#[test]
fn next_id_ignores_ids_beyond_the_numeric_range() {
    let store = store_of(vec![entry("4294967296", "too big", "pending", "")]);
    assert_eq!(store.get_next_task_id(), "001");
}

#[test]
fn load_sorts_by_id_lexicographically() {
    let store = store_of(vec![
        entry("010", "c", "pending", ""),
        entry("002", "a", "pending", ""),
        entry("100", "d", "pending", ""),
        entry("003", "b", "pending", ""),
    ]);
    let ids: Vec<&str> = store.tasks.iter().map(|f| f.task.id.as_str()).collect();
    assert_eq!(ids, vec!["002", "003", "010", "100"]);
}

#[test]
fn load_skips_invalid_files() {
    let store = store_of(vec![
        entry("001", "a", "pending", ""),
        ("tasks/broken.md".to_string(), "no front matter here\n".to_string()),
        ("tasks/worse.md".to_string(), "---\nstatus: pending\n---\n".to_string()),
    ]);
    assert_eq!(store.tasks.len(), 1);
}

#[test]
fn find_returns_index_or_not_found() {
    let store = store_of(vec![entry("001", "a", "pending", ""), entry("002", "b", "pending", "")]);
    assert_eq!(store.find("002"), Ok(1));
    assert_eq!(
        store.find("009"),
        Err(TaskError::TaskNotFound { id: "009".to_string() })
    );
}

#[test]
fn decode_entry_keeps_path_and_body() {
    let f = decode_entry(
        "tasks/001-a.md".to_string(),
        "---\nid: 001\ntitle: \"a\"\n---\n\nbody line\n",
    )
    .unwrap();
    assert_eq!(f.file_path, "tasks/001-a.md");
    assert_eq!(f.content, "\nbody line\n");
}

#[test]
fn decode_entry_signals_invalid_record() {
    let r = decode_entry("tasks/broken.md".to_string(), "---\nstatus: pending\n---\n");
    assert_eq!(r.unwrap_err(), TaskError::InvalidTaskRecord);
}

#[test]
fn mark_task_done_rewrites_record_and_checklist() {
    let body = "\n## Checklist\n- [ ] one\n- [x] two\n";
    let store = store_of(vec![entry("001", "Ship it", "active", body)]);
    let u = store.mark_task_done("001", "2024-05-05").unwrap();
    assert_eq!(u.file_path, "tasks/001-t.md");
    assert_eq!(
        u.content,
        "---\nid: 001\ntitle: \"Ship it\"\nstatus: done\npriority: medium\ncompleted: 2024-05-05\n---\n\n## Checklist\n- [x] one\n- [x] two\n"
    );
}

#[test]
fn mark_task_done_unknown_id_fails() {
    let store = store_of(vec![]);
    assert_eq!(
        store.mark_task_done("001", "2024-05-05").unwrap_err(),
        TaskError::TaskNotFound { id: "001".to_string() }
    );
}

#[test]
fn mark_task_start_sets_status_and_date() {
    let store = store_of(vec![entry("001", "Begin", "pending", "\nbody\n")]);
    let u = store.mark_task_start("001", "2024-05-06").unwrap();
    assert_eq!(
        u.content,
        "---\nid: 001\ntitle: \"Begin\"\nstatus: active\npriority: medium\nstarted: 2024-05-06\n---\n\nbody\n"
    );
}

#[test]
fn set_task_field_title() {
    let store = store_of(vec![entry("001", "Old", "pending", "\nbody\n")]);
    let u = store.set_task_field("001", "title", "New name").unwrap();
    assert!(u.content.contains("title: \"New name\"\n"));
    assert!(u.content.ends_with("---\n\nbody\n"));
}

#[test]
fn set_task_field_tags_splits_on_commas_and_trims() {
    let store = store_of(vec![entry("001", "t", "pending", "")]);
    let u = store.set_task_field("001", "tags", "a, b , c").unwrap();
    assert!(u.content.contains("tags: [\"a\", \"b\", \"c\"]\n"));
}

#[test]
fn set_task_field_due_and_priority() {
    let store = store_of(vec![entry("001", "t", "pending", "")]);
    let u = store.set_task_field("001", "due", "2024-09-09").unwrap();
    assert!(u.content.contains("due: 2024-09-09\n"));
    let u2 = store.set_task_field("001", "priority", "low").unwrap();
    assert!(u2.content.contains("priority: low\n"));
}

#[test]
fn set_task_field_unknown_field_fails_without_update() {
    let store = store_of(vec![entry("001", "t", "pending", "")]);
    assert_eq!(
        store.set_task_field("001", "owner", "me").unwrap_err(),
        TaskError::UnknownField { field: "owner".to_string() }
    );
}

#[test]
fn set_task_field_missing_task_beats_unknown_field() {
    let store = store_of(vec![]);
    assert_eq!(
        store.set_task_field("001", "owner", "me").unwrap_err(),
        TaskError::TaskNotFound { id: "001".to_string() }
    );
}

#[test]
fn add_task_builds_file_with_defaults() {
    let store = store_of(vec![entry("001", "a", "pending", "")]);
    let u = store.add_task(
        "Write the Docs!",
        None,
        None,
        Some(vec!["docs".to_string()]),
        None,
        None,
        None,
        "2024-07-07",
    );
    assert_eq!(u.file_path, "tasks/002-write-the-docs.md");
    assert_eq!(
        u.content,
        "---\nid: 002\ntitle: \"Write the Docs!\"\nstatus: pending\npriority: medium\ntags: [\"docs\"]\ncreated: 2024-07-07\n---\n\n# Task Details\n\n## Checklist\n\n"
    );
}

#[test]
fn add_task_with_notes_gets_notes_section() {
    let store = store_of(vec![]);
    let u = store.add_task("n", None, None, None, None, None, Some("remember".to_string()), "d");
    assert!(u.content.ends_with(
        "\n# Task Details\n\n## Notes\nremember\n\n## Checklist\n\n"
    ));
}

#[test]
fn list_tasks_filters_case_insensitively() {
    let store = store_of(vec![
        entry("001", "a", "pending", ""),
        entry("002", "b", "done", ""),
        entry("003", "c", "active", ""),
    ]);
    let r = store.list_tasks(&Some("PEND".to_string()), &None, &None);
    assert_eq!(r, vec![0]);
    let all = store.list_tasks(&None, &None, &None);
    assert_eq!(all, vec![0, 1, 2]);
}

#[test]
fn list_tasks_filters_by_tag_and_priority() {
    let e1 = (
        "tasks/001-a.md".to_string(),
        "---\nid: 001\ntitle: \"a\"\nstatus: pending\npriority: high\ntags: [\"CLI\", \"ux\"]\n---\n".to_string(),
    );
    let e2 = (
        "tasks/002-b.md".to_string(),
        "---\nid: 002\ntitle: \"b\"\nstatus: pending\npriority: low\n---\n".to_string(),
    );
    let store = store_of(vec![e1, e2]);
    assert_eq!(store.list_tasks(&None, &Some("cli".to_string()), &None), vec![0]);
    assert_eq!(store.list_tasks(&None, &None, &Some("LOW".to_string())), vec![1]);
    // a task without tags never matches a tag filter
    assert_eq!(store.list_tasks(&None, &Some("".to_string()), &None), vec![0]);
}

#[test]
fn cleanup_lists_done_task_paths() {
    let store = store_of(vec![
        entry("001", "a", "done", ""),
        entry("002", "b", "pending", ""),
        entry("003", "c", "done", ""),
    ]);
    assert_eq!(
        store.cleanup_done_tasks(),
        vec!["tasks/001-t.md".to_string(), "tasks/003-t.md".to_string()]
    );
}

#[test]
fn list_subtasks_through_store() {
    let store = store_of(vec![entry(
        "001",
        "t",
        "pending",
        "\n## Checklist\n- [x] built\n- [ ] tested\n",
    )]);
    assert_eq!(
        store.list_subtasks("001").unwrap(),
        vec![(true, "built".to_string()), (false, "tested".to_string())]
    );
    assert_eq!(
        store.list_subtasks("404").unwrap_err(),
        TaskError::TaskNotFound { id: "404".to_string() }
    );
}

#[test]
fn add_checklist_item_through_store() {
    let store = store_of(vec![entry("001", "t", "pending", "\n## Checklist\n\n")]);
    let u = store.add_checklist_item("001", "first step").unwrap();
    assert!(u.content.ends_with("\n## Checklist\n\n- [ ] first step\n"));
}

#[test]
fn add_task_note_through_store() {
    let store = store_of(vec![entry("001", "t", "pending", "\n## Notes\n\n## Checklist\n\n")]);
    let u = store.add_task_note("001", "a note").unwrap();
    assert!(u.content.contains("## Notes\n\na note\n"));
}
