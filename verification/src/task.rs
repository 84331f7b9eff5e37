//! The task record: the structured fields of one task file's metadata
//! block, its mathematical view, and the validity invariant the codec
//! round-trips under.
use vstd::prelude::*;

use crate::lines::{line_ok, views_of};

verus! {

/// One task record.  `id` and `title` are mandatory; everything else is
/// optional.  `status` and `priority` are deliberately open strings, not a
/// closed enumeration, so that partial or custom values survive a
/// load/store cycle.
#[derive(Debug, PartialEq)]
pub struct Task {
    pub id: String,
    pub title: String,
    pub status: Option<String>,
    pub priority: Option<String>,
    pub tags: Option<Vec<String>>,
    pub project: Option<String>,
    pub created: Option<String>,
    pub due: Option<String>,
    pub completed: Option<String>,
    pub started: Option<String>,
}

/// The mathematical value of a task: every text field as a `Seq<char>`.
pub ghost struct TaskView {
    pub id: Seq<char>,
    pub title: Seq<char>,
    pub status: Option<Seq<char>>,
    pub priority: Option<Seq<char>>,
    pub tags: Option<Seq<Seq<char>>>,
    pub project: Option<Seq<char>>,
    pub created: Option<Seq<char>>,
    pub due: Option<Seq<char>>,
    pub completed: Option<Seq<char>>,
    pub started: Option<Seq<char>>,
}

pub open spec fn opt_view(o: Option<String>) -> Option<Seq<char>> {
    match o {
        Some(s) => Some(s@),
        None => None,
    }
}

pub open spec fn opt_tags_view(o: Option<Vec<String>>) -> Option<Seq<Seq<char>>> {
    match o {
        Some(v) => Some(views_of(v@)),
        None => None,
    }
}

impl View for Task {
    type V = TaskView;

    open spec fn view(&self) -> TaskView {
        TaskView {
            id: self.id@,
            title: self.title@,
            status: opt_view(self.status),
            priority: opt_view(self.priority),
            tags: match self.tags {
                Some(v) => Some(views_of(v@)),
                None => None,
            },
            project: opt_view(self.project),
            created: opt_view(self.created),
            due: opt_view(self.due),
            completed: opt_view(self.completed),
            started: opt_view(self.started),
        }
    }
}

pub open spec fn opt_field_ok(o: Option<Seq<char>>) -> bool {
    match o {
        Some(s) => line_ok(s),
        None => true,
    }
}

/// A tag must fit on one line and must not contain the quote that encloses
/// it in the rendered list.
pub open spec fn tag_ok(t: Seq<char>) -> bool {
    line_ok(t) && forall|i: int| 0 <= i < t.len() ==> t[i] != '"'
}

/// The record invariant: id and title are present, and every field fits on
/// its metadata line.  Records in this shape survive an encode/decode
/// round trip unchanged.
pub open spec fn valid_task(t: TaskView) -> bool {
    &&& t.id.len() > 0
    &&& line_ok(t.id)
    &&& t.title.len() > 0
    &&& line_ok(t.title)
    &&& opt_field_ok(t.status)
    &&& opt_field_ok(t.priority)
    &&& opt_field_ok(t.project)
    &&& opt_field_ok(t.created)
    &&& opt_field_ok(t.due)
    &&& opt_field_ok(t.completed)
    &&& opt_field_ok(t.started)
    &&& match t.tags {
        Some(ts) => forall|i: int| 0 <= i < ts.len() ==> tag_ok(#[trigger] ts[i]),
        None => true,
    }
}

/// One task file: the decoded record, where it lives on storage, and the
/// free-form markdown body after the metadata block.
#[derive(Debug)]
pub struct TaskFile {
    pub task: Task,
    pub file_path: String,
    pub content: String,
}

/// The mathematical value of a task file.
pub ghost struct TaskFileView {
    pub task: TaskView,
    pub file_path: Seq<char>,
    pub content: Seq<char>,
}

impl View for TaskFile {
    type V = TaskFileView;

    open spec fn view(&self) -> TaskFileView {
        TaskFileView { task: self.task@, file_path: self.file_path@, content: self.content@ }
    }
}

/// Every failure the tracker can report.
#[derive(Debug, PartialEq)]
pub enum TaskError {
    TaskNotFound { id: String },
    InvalidTaskRecord,
    UnknownField { field: String },
    NotAGitRepository,
    WrongBranch { expected: String, actual: String },
    BranchAlreadyExists { name: String },
    GitCommandFailed { stderr: String },
    FileIoError,
}

} // verus!
