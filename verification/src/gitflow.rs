//! The git branch workflow: binding a task to a `<prefix><id>-<slug>`
//! branch.
//!
//! The library decides; the caller runs git.  Each check function takes
//! the captured results of the read-only git queries (is this a
//! repository, which branch is current, does a branch exist) as plain
//! values and returns either the exact error or a plan value.  The
//! commands that mutate the repository — the trunk sync, branch creation,
//! staging, committing, merging, deleting, pushing — can only be issued
//! from a plan, so a failed check means no mutation was ever started.
use vstd::prelude::*;
use vstd::string::*;

use crate::store::{first_with_id, has_id, TaskStore};
use crate::task::{opt_view, TaskError, TaskFileView};
use crate::text::{
    find_char, first_index_of, slug_of, slugify, starts_with_spec, str_concat, str_eq,
    str_starts_with, trim_spec, trim_str,
};

verus! {

pub struct GitConfig {
    pub branch_prefix: String,
}

pub struct Config {
    pub git: GitConfig,
}

/// The built-in configuration: task branches are named under `feature/`.
pub fn load_config() -> (c: Config)
    ensures
        c.git.branch_prefix@ == "feature/"@,
{
    Config { git: GitConfig { branch_prefix: String::from_str("feature/") } }
}

/// The fixed mainline branch that task branches leave from and merge
/// back into.
pub open spec fn trunk_branch() -> Seq<char> {
    "main"@
}

// ---------------------------------------------------------------------------
// reading captured git output
// ---------------------------------------------------------------------------

/// The current branch as `git branch --show-current` prints it: the
/// captured output with surrounding whitespace removed.
pub fn get_current_branch(raw: &str) -> (r: String)
    ensures
        r@ == trim_spec(raw@),
{
    trim_str(raw)
}

/// Whether `git branch --list <name>` found the branch: it printed
/// something beyond whitespace.
pub fn branch_exists(raw: &str) -> (r: bool)
    ensures
        r == (trim_spec(raw@).len() != 0),
{
    let t = trim_str(raw);
    !t.as_str().is_empty()
}

/// Whether `git status --porcelain` reported any change: it printed
/// something beyond whitespace.
pub fn has_uncommitted_changes(raw: &str) -> (r: bool)
    ensures
        r == (trim_spec(raw@).len() != 0),
{
    let t = trim_str(raw);
    !t.as_str().is_empty()
}

// ---------------------------------------------------------------------------
// branch names
// ---------------------------------------------------------------------------

/// The branch a task lives on: prefix, id, and the slugified title.
pub open spec fn spec_branch_name(prefix: Seq<char>, id: Seq<char>, title: Seq<char>) -> Seq<
    char,
> {
    prefix + id + seq!['-'] + slug_of(title)
}

pub fn branch_name(prefix: &str, id: &str, title: &str) -> (r: String)
    ensures
        r@ == spec_branch_name(prefix@, id@, title@),
{
    let slug = slugify(title);
    let mut r = prefix.to_owned();
    r.append(id);
    r.append("-");
    r.append(slug.as_str());
    proof {
        reveal_strlit("-");
        assert("-"@ =~= seq!['-']);
        assert(r@ =~= spec_branch_name(prefix@, id@, title@));
    }
    r
}

/// The task id a branch name carries: what stands between the prefix and
/// the first hyphen after it.
pub open spec fn spec_branch_task_id(branch: Seq<char>, prefix: Seq<char>) -> Option<Seq<char>> {
    if starts_with_spec(branch, prefix) {
        let rest = branch.subrange(prefix.len() as int, branch.len() as int);
        Some(rest.subrange(0, first_index_of(rest, '-') as int))
    } else {
        None
    }
}

pub fn branch_task_id(branch: &str, prefix: &str) -> (r: Option<String>)
    ensures
        opt_view(r) == spec_branch_task_id(branch@, prefix@),
{
    if !str_starts_with(branch, prefix) {
        return None;
    }
    let n = branch.unicode_len();
    let m = prefix.unicode_len();
    let rest = branch.substring_char(m, n);
    let d = find_char(rest, '-');
    proof {
        crate::text::lemma_first_index_of(rest@, '-');
    }
    Some(rest.substring_char(0, d).to_owned())
}

/// Resolving an id from a branch name undoes building the branch name:
/// for any hyphen-free id and any tail, `<prefix><id>-<tail>` resolves to
/// the id.  In particular a branch built from a task's id and title
/// resolves back to that task's id.
pub proof fn lemma_branch_task_id_round(prefix: Seq<char>, id: Seq<char>, tail: Seq<char>)
    requires
        forall|i: int| 0 <= i < id.len() ==> id[i] != '-',
    ensures
        spec_branch_task_id(prefix + id + seq!['-'] + tail, prefix) == Some(id),
{
    let branch = prefix + id + seq!['-'] + tail;
    assert(branch.subrange(0, prefix.len() as int) =~= prefix);
    assert(starts_with_spec(branch, prefix));
    let rest = branch.subrange(prefix.len() as int, branch.len() as int);
    assert(rest =~= id + seq!['-'] + tail);
    assert(rest[id.len() as int] == '-');
    crate::text::lemma_first_index_witness(rest, '-', id.len() as int);
    assert(rest.subrange(0, id.len() as int) =~= id);
}

// ---------------------------------------------------------------------------
// starting work on a task
// ---------------------------------------------------------------------------

/// What the checks before `start` decide.  Only `Proceed` carries the
/// data that the mutating git commands are built from.
pub ghost enum StartCheck {
    NoRepo,
    UnknownTask,
    OffTrunk,
    Proceed { branch_name: Seq<char>, title: Seq<char>, activate: bool },
}

/// The decision of `start`, in the order the checks run: the directory
/// must be a repository, the task must exist, and the current branch must
/// be the trunk.  The plan then carries the derived branch name and
/// whether a pending task is to be activated.
pub open spec fn spec_start_validate(
    is_repo: bool,
    current_branch: Seq<char>,
    s: Seq<TaskFileView>,
    id: Seq<char>,
    prefix: Seq<char>,
) -> StartCheck {
    if !is_repo {
        StartCheck::NoRepo
    } else if !has_id(s, id) {
        StartCheck::UnknownTask
    } else if current_branch != trunk_branch() {
        StartCheck::OffTrunk
    } else {
        let f = s[first_with_id(s, id) as int];
        StartCheck::Proceed {
            branch_name: spec_branch_name(prefix, id, f.task.title),
            title: f.task.title,
            activate: f.task.status == Some("pending"@),
        }
    }
}

/// The plan `start` proceeds with once every check has passed.
#[derive(Debug)]
pub struct StartPlan {
    pub branch_name: String,
    pub title: String,
    pub activate: bool,
}

/// Runs the checks before `start`.  On success the caller syncs the
/// trunk, confirms the branch is free (`start_check_branch`), creates and
/// switches to it, and — when `activate` is set — marks the task active.
pub fn start_validate(
    is_repo: bool,
    current_branch: &str,
    store: &TaskStore,
    id: &str,
    config: &Config,
) -> (r: Result<StartPlan, TaskError>)
    ensures
        ({
            let check = spec_start_validate(
                is_repo,
                current_branch@,
                store@,
                id@,
                config.git.branch_prefix@,
            );
            match r {
                Ok(p) => check matches StartCheck::Proceed { branch_name, title, activate }
                    && p.branch_name@ == branch_name && p.title@ == title && p.activate
                    == activate,
                Err(e) => {
                    ||| check is NoRepo && e is NotAGitRepository
                    ||| check is UnknownTask && (e matches TaskError::TaskNotFound { id: x } && x@
                        == id@)
                    ||| check is OffTrunk && (e matches TaskError::WrongBranch {
                        expected,
                        actual,
                    } && expected@ == trunk_branch() && actual@ == current_branch@)
                },
            }
        }),
{
    if !is_repo {
        return Err(TaskError::NotAGitRepository);
    }
    let idx = match store.find(id) {
        Ok(i) => i,
        Err(e) => {
            return Err(e);
        },
    };
    if !str_eq(current_branch, "main") {
        return Err(
            TaskError::WrongBranch {
                expected: String::from_str("main"),
                actual: current_branch.to_owned(),
            },
        );
    }
    let f = &store.tasks[idx];
    let name = branch_name(config.git.branch_prefix.as_str(), id, f.task.title.as_str());
    let activate = match &f.task.status {
        Some(s) => str_eq(s.as_str(), "pending"),
        None => false,
    };
    proof {
        assert(store@[idx as int].task.id == id@);
    }
    Ok(StartPlan { branch_name: name, title: f.task.title.clone(), activate })
}

/// The last check before the branch is created: the derived name must be
/// free.  `exists` is what `branch_exists` read off the captured
/// `git branch --list` output.
pub fn start_check_branch(plan: StartPlan, exists: bool) -> (r: Result<StartPlan, TaskError>)
    ensures
        !exists ==> (r matches Ok(p) && p == plan),
        exists ==> (r matches Err(e) && (e matches TaskError::BranchAlreadyExists { name } && name@
            == plan.branch_name@)),
{
    if exists {
        Err(TaskError::BranchAlreadyExists { name: plan.branch_name })
    } else {
        Ok(plan)
    }
}

/// Off the trunk branch, `start` never reaches a plan: it stops at
/// `WrongBranch`, before any mutating git command exists to run.
pub proof fn lemma_start_requires_trunk(
    is_repo: bool,
    current_branch: Seq<char>,
    s: Seq<TaskFileView>,
    id: Seq<char>,
    prefix: Seq<char>,
)
    requires
        current_branch != trunk_branch(),
    ensures
        !(spec_start_validate(is_repo, current_branch, s, id, prefix) is Proceed),
{
}

// ---------------------------------------------------------------------------
// finishing work on a task
// ---------------------------------------------------------------------------

/// The default commit message when none is given.
pub open spec fn spec_default_message(title: Seq<char>, id: Seq<char>) -> Seq<char> {
    "feat: "@ + title + " (task #"@ + id + ")"@
}

/// What the checks before `finish` decide.  Only `Proceed` carries the
/// data that the commit, merge and push are built from.
pub ghost enum FinishCheck {
    NoRepo,
    NotTaskBranch,
    UnknownTask { task_id: Seq<char> },
    Proceed { task_id: Seq<char>, title: Seq<char>, commit_message: Seq<char> },
}

/// The decision of `finish`: the directory must be a repository, the
/// current branch must carry the configured prefix, and the id recovered
/// from the branch name must resolve to a record.
pub open spec fn spec_finish_validate(
    is_repo: bool,
    current_branch: Seq<char>,
    s: Seq<TaskFileView>,
    prefix: Seq<char>,
    message: Option<Seq<char>>,
) -> FinishCheck {
    if !is_repo {
        FinishCheck::NoRepo
    } else if !starts_with_spec(current_branch, prefix) {
        FinishCheck::NotTaskBranch
    } else {
        let tid = spec_branch_task_id(current_branch, prefix)->0;
        if !has_id(s, tid) {
            FinishCheck::UnknownTask { task_id: tid }
        } else {
            let f = s[first_with_id(s, tid) as int];
            FinishCheck::Proceed {
                task_id: tid,
                title: f.task.title,
                commit_message: match message {
                    Some(m) => m,
                    None => spec_default_message(f.task.title, tid),
                },
            }
        }
    }
}

/// The plan `finish` proceeds with: mark the task done, stage, commit
/// with this message, check out the trunk, merge this branch without
/// fast-forward, delete it, push.
#[derive(Debug)]
pub struct FinishPlan {
    pub task_id: String,
    pub branch: String,
    pub title: String,
    pub commit_message: String,
}

/// Runs the checks before `finish`.  The task id is recovered from the
/// current branch name; if its record is missing, the whole sequence
/// aborts here, before any git command that mutates the repository.
pub fn finish_validate(
    is_repo: bool,
    current_branch: &str,
    store: &TaskStore,
    config: &Config,
    message: Option<String>,
) -> (r: Result<FinishPlan, TaskError>)
    ensures
        ({
            let check = spec_finish_validate(
                is_repo,
                current_branch@,
                store@,
                config.git.branch_prefix@,
                opt_view(message),
            );
            match r {
                Ok(p) => check matches FinishCheck::Proceed { task_id, title, commit_message }
                    && p.task_id@ == task_id && p.title@ == title && p.commit_message@
                    == commit_message && p.branch@ == current_branch@,
                Err(e) => {
                    ||| check is NoRepo && e is NotAGitRepository
                    ||| check is NotTaskBranch && (e matches TaskError::WrongBranch {
                        expected,
                        actual,
                    } && expected@ == config.git.branch_prefix@ && actual@ == current_branch@)
                    ||| (check matches FinishCheck::UnknownTask { task_id } && (e
                        matches TaskError::TaskNotFound { id: x } && x@ == task_id))
                },
            }
        }),
{
    if !is_repo {
        return Err(TaskError::NotAGitRepository);
    }
    let tid = match branch_task_id(current_branch, config.git.branch_prefix.as_str()) {
        Some(t) => t,
        None => {
            return Err(
                TaskError::WrongBranch {
                    expected: config.git.branch_prefix.clone(),
                    actual: current_branch.to_owned(),
                },
            );
        },
    };
    let idx = match store.find(tid.as_str()) {
        Ok(i) => i,
        Err(e) => {
            return Err(e);
        },
    };
    let f = &store.tasks[idx];
    let msg = match message {
        Some(m) => m,
        None => {
            let mut m = String::from_str("feat: ");
            m.append(f.task.title.as_str());
            m.append(" (task #");
            m.append(tid.as_str());
            m.append(")");
            proof {
                assert(m@ =~= spec_default_message(store@[idx as int].task.title, tid@));
            }
            m
        },
    };
    Ok(
        FinishPlan {
            task_id: tid,
            branch: current_branch.to_owned(),
            title: f.task.title.clone(),
            commit_message: msg,
        },
    )
}

/// When the record for the id carried by the branch does not exist,
/// `finish` stops at `TaskNotFound`: no plan, and so no mutating git
/// command, is ever produced.
pub proof fn lemma_finish_unknown_task(
    is_repo: bool,
    current_branch: Seq<char>,
    s: Seq<TaskFileView>,
    prefix: Seq<char>,
    message: Option<Seq<char>>,
)
    requires
        starts_with_spec(current_branch, prefix),
        !has_id(s, spec_branch_task_id(current_branch, prefix)->0),
    ensures
        !(spec_finish_validate(is_repo, current_branch, s, prefix, message) is Proceed),
{
}

// ---------------------------------------------------------------------------
// the read-only status report
// ---------------------------------------------------------------------------

#[derive(Debug, PartialEq)]
pub enum BranchStatus {
    NotOnTaskBranch,
    TaskMissing { task_id: String },
    OnTask { index: usize },
}

/// What `status` reports about the current branch: not a task branch, a
/// task branch whose record is missing, or the index of the current
/// task's record.  Nothing is mutated.
pub fn branch_status(current_branch: &str, store: &TaskStore, config: &Config) -> (r: BranchStatus)
    ensures
        ({
            let tid = spec_branch_task_id(current_branch@, config.git.branch_prefix@);
            match r {
                BranchStatus::NotOnTaskBranch => tid is None,
                BranchStatus::TaskMissing { task_id } => tid matches Some(t) && task_id@ == t
                    && !has_id(store@, t),
                BranchStatus::OnTask { index } => tid matches Some(t) && has_id(store@, t) && index
                    == first_with_id(store@, t),
            }
        }),
{
    let tid = match branch_task_id(current_branch, config.git.branch_prefix.as_str()) {
        Some(t) => t,
        None => {
            return BranchStatus::NotOnTaskBranch;
        },
    };
    match store.find(tid.as_str()) {
        Ok(i) => BranchStatus::OnTask { index: i },
        Err(_) => BranchStatus::TaskMissing { task_id: tid },
    }
}

} // verus!
