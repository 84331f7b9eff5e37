use mdtasks::checklist::{add_checklist_item, list_items};
use mdtasks::sections::{
    add_note_to_content, find_section, insert_into_section, mark_all_subtasks_complete,
};

#[test]
fn find_section_returns_heading_to_boundary_range() {
    let body = "intro\n## Notes\ntext\nmore\n## Checklist\n- [ ] a\n";
    assert_eq!(find_section(body, "Notes"), Some((1, 4)));
    assert_eq!(find_section(body, "Checklist"), Some((4, 6)));
    assert_eq!(find_section(body, "Missing"), None);
}

#[test]
fn find_section_is_not_closed_by_sub_headings() {
    let body = "## Notes\n### detail\ntext\n## Checklist\n";
    assert_eq!(find_section(body, "Notes"), Some((0, 3)));
}

#[test]
fn mark_all_flips_only_checklist_boxes() {
    let body = "# Task Details\n\n\
                ## Notes\n\
                - [ ] looks like a box but sits in notes\n\n\
                ## Checklist\n\
                - [ ] one\n\
                - [x] two\n\
                intervening prose\n\
                - [ ] three\n\n\
                ## Other\n\
                - [ ] outside\n";
    let out = mark_all_subtasks_complete(body);
    assert_eq!(
        out,
        "# Task Details\n\n\
         ## Notes\n\
         - [ ] looks like a box but sits in notes\n\n\
         ## Checklist\n\
         - [x] one\n\
         - [x] two\n\
         intervening prose\n\
         - [x] three\n\n\
         ## Other\n\
         - [ ] outside\n"
    );
}

#[test]
fn mark_all_keeps_sub_headings_inside_section() {
    let body = "## Checklist\n### phase one\n- [ ] a\n### phase two\n- [ ] b\n";
    let out = mark_all_subtasks_complete(body);
    assert_eq!(out, "## Checklist\n### phase one\n- [x] a\n### phase two\n- [x] b\n");
}

#[test]
fn mark_all_without_checklist_changes_nothing() {
    let body = "## Notes\n- [ ] keep me\n";
    assert_eq!(mark_all_subtasks_complete(body), body);
}

#[test]
fn add_item_creates_missing_section_with_sole_entry() {
    let body = "# Task Details\n\n## Notes\nsome text\n";
    let out = add_checklist_item(body, "write docs");
    assert_eq!(
        out,
        "# Task Details\n\n## Notes\nsome text\n\n## Checklist\n- [ ] write docs\n"
    );
    assert_eq!(list_items(&out), vec![(false, "write docs".to_string())]);
}

#[test]
fn add_item_lands_after_first_blank_inside_section() {
    let body = "## Checklist\n\n- [ ] existing\n";
    let out = add_checklist_item(body, "new one");
    assert_eq!(out, "## Checklist\n\n- [ ] new one\n- [ ] existing\n");
}

#[test]
fn add_item_lands_before_section_boundary_without_blank() {
    let body = "## Checklist\n- [ ] existing\n## Notes\ntext\n";
    let out = add_checklist_item(body, "new one");
    assert_eq!(out, "## Checklist\n- [ ] existing\n- [ ] new one\n## Notes\ntext\n");
}

#[test]
fn list_items_reads_state_and_text() {
    let body = "## Checklist\n- [x] done one\n- [X] done two\n- [ ] open one\nplain line\n";
    assert_eq!(
        list_items(body),
        vec![
            (true, "done one".to_string()),
            (true, "done two".to_string()),
            (false, "open one".to_string()),
        ]
    );
}

#[test]
fn list_items_ignores_boxes_outside_the_section() {
    let body = "- [ ] stray\n## Checklist\n- [ ] counted\n## Notes\n- [ ] not counted\n";
    assert_eq!(list_items(body), vec![(false, "counted".to_string())]);
}

#[test]
fn add_note_appends_section_when_missing() {
    let body = "# Task Details\n";
    let out = add_note_to_content(body, "remember this");
    assert_eq!(out, "# Task Details\n\n## Notes\nremember this\n");
}

#[test]
fn add_note_goes_after_first_blank_in_notes() {
    let body = "## Notes\n\nolder note\n\n## Checklist\n";
    let out = add_note_to_content(body, "fresh note");
    assert_eq!(out, "## Notes\n\nfresh note\nolder note\n\n## Checklist\n");
}

#[test]
fn insert_respects_heading_name_prefix() {
    // "## Notebook" must not be taken for the Notes section boundary test:
    // the generic editor works with any heading name.
    let body = "## Log\nentry\n";
    let out = insert_into_section(body, "Log", "entry two");
    assert_eq!(out, "## Log\nentry\nentry two\n");
}
