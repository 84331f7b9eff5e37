use mdtasks::codec::{decode_text, encode_task};
use mdtasks::task::Task;

fn full_task() -> Task {
    Task {
        id: "001".to_string(),
        title: "Fix the bug".to_string(),
        status: Some("pending".to_string()),
        priority: Some("high".to_string()),
        tags: Some(vec!["cli".to_string(), "bug".to_string()]),
        project: Some("core".to_string()),
        created: Some("2024-01-01".to_string()),
        due: Some("2024-02-01".to_string()),
        completed: None,
        started: None,
    }
}

#[test]
fn encode_renders_fields_in_fixed_order() {
    let text = encode_task(&full_task());
    assert_eq!(
        text,
        "---\n\
         id: 001\n\
         title: \"Fix the bug\"\n\
         status: pending\n\
         priority: high\n\
         tags: [\"cli\", \"bug\"]\n\
         project: core\n\
         created: 2024-01-01\n\
         due: 2024-02-01\n\
         ---\n"
    );
}

#[test]
fn encode_omits_absent_fields() {
    let task = Task {
        id: "002".to_string(),
        title: "Minimal".to_string(),
        status: None,
        priority: None,
        tags: None,
        project: None,
        created: None,
        due: None,
        completed: None,
        started: None,
    };
    let text = encode_task(&task);
    assert_eq!(text, "---\nid: 002\ntitle: \"Minimal\"\n---\n");
}

#[test]
fn decode_restores_every_field() {
    let task = full_task();
    let body = "\n# Task Details\n\n## Checklist\n\n";
    let raw = format!("{}{}", encode_task(&task), body);
    let (decoded, out_body) = decode_text(&raw);
    assert_eq!(decoded, Some(full_task()));
    assert_eq!(out_body, body);
}

#[test]
fn decode_restores_minimal_record() {
    let task = Task {
        id: "042".to_string(),
        title: "Plain".to_string(),
        status: None,
        priority: None,
        tags: None,
        project: None,
        created: None,
        due: None,
        completed: None,
        started: None,
    };
    let raw = encode_task(&task);
    let (decoded, body) = decode_text(&raw);
    assert_eq!(decoded.as_ref().map(|t| t.id.as_str()), Some("042"));
    assert_eq!(decoded.as_ref().map(|t| t.title.as_str()), Some("Plain"));
    assert_eq!(decoded.unwrap().tags, None);
    assert_eq!(body, "");
}

#[test]
fn decode_round_trips_awkward_values() {
    let task = Task {
        id: "007".to_string(),
        title: "A \"quoted\" title: with punctuation, etc.".to_string(),
        status: Some("in-progress (half done)".to_string()),
        priority: Some("".to_string()),
        tags: Some(vec!["with, comma".to_string(), "".to_string(), "[brackets]".to_string()]),
        project: None,
        created: None,
        due: Some(" padded ".to_string()),
        completed: Some("2024-03-03".to_string()),
        started: Some("2024-03-01".to_string()),
    };
    let raw = format!("{}rest of file\n", encode_task(&task));
    let (decoded, body) = decode_text(&raw);
    assert_eq!(decoded, Some(task));
    assert_eq!(body, "rest of file\n");
}

#[test]
fn decode_accepts_empty_tag_list() {
    let task = Task {
        id: "003".to_string(),
        title: "Tagless".to_string(),
        status: None,
        priority: None,
        tags: Some(vec![]),
        project: None,
        created: None,
        due: None,
        completed: None,
        started: None,
    };
    let raw = encode_task(&task);
    let (decoded, _) = decode_text(&raw);
    assert_eq!(decoded.unwrap().tags, Some(vec![]));
}

#[test]
fn decode_rejects_missing_id() {
    let raw = "---\ntitle: \"No id\"\nstatus: pending\n---\n\nbody\n";
    let (decoded, body) = decode_text(raw);
    assert!(decoded.is_none());
    assert_eq!(body, "\nbody\n");
}

#[test]
fn decode_rejects_missing_title() {
    let raw = "---\nid: 009\n---\n";
    let (decoded, _) = decode_text(raw);
    assert!(decoded.is_none());
}

#[test]
fn decode_rejects_empty_id() {
    let raw = "---\nid:\ntitle: \"x\"\n---\n";
    let (decoded, _) = decode_text(raw);
    assert!(decoded.is_none());
}

#[test]
fn decode_without_opening_delimiter_is_all_body() {
    let raw = "just some text\nwith lines\n";
    let (decoded, body) = decode_text(raw);
    assert!(decoded.is_none());
    assert_eq!(body, "just some text\nwith lines\n");
}

#[test]
fn decode_with_unclosed_block_is_all_body() {
    let raw = "---\nid: 001\ntitle: \"x\"\n";
    let (decoded, body) = decode_text(raw);
    assert!(decoded.is_none());
    assert_eq!(body, raw);
}

#[test]
fn decode_ignores_unknown_keys_and_plain_lines() {
    let raw = "---\nid: 010\ntitle: \"k\"\ncolor: blue\nno colon here\n---\n";
    let (decoded, _) = decode_text(raw);
    let t = decoded.unwrap();
    assert_eq!(t.id, "010");
    assert_eq!(t.title, "k");
    assert_eq!(t.status, None);
}

#[test]
fn decode_reads_unquoted_title_and_integer_id() {
    let raw = "---\nid: 12\ntitle: hand written\n---\n";
    let (decoded, _) = decode_text(raw);
    let t = decoded.unwrap();
    assert_eq!(t.id, "12");
    assert_eq!(t.title, "hand written");
}

#[test]
fn decode_ignores_unbracketed_tag_values() {
    let raw = "---\nid: 001\ntitle: \"t\"\ntags: a, b\n---\n";
    let (decoded, _) = decode_text(raw);
    assert_eq!(decoded.unwrap().tags, None);
}

#[test]
fn decode_later_key_wins() {
    let raw = "---\nid: 001\ntitle: \"first\"\ntitle: \"second\"\n---\n";
    let (decoded, _) = decode_text(raw);
    assert_eq!(decoded.unwrap().title, "second");
}
