//! The in-memory task store: decoding discovered files, ordering them by
//! id, looking records up, assigning the next id, and computing the
//! rewritten file for every mutating command.  All storage scanning and
//! writing stays outside; the store receives `(path, raw text)` pairs and
//! hands back `(path, new text)` updates.
use vstd::prelude::*;
use vstd::string::*;

use crate::checklist::add_checklist_item;
use crate::codec::{decode_text, encode_task, spec_decode, spec_encode};
use crate::lines::{lemma_spec_unlines_ends_nl, line_ok, spec_lines, spec_unlines, views_of};
use crate::numbers::{dec_digits, digits_val, format_id3, is_numeric, pad3, parse_u32};
use crate::sections::{
    checklist_heading, mark_lines, notes_heading, spec_insert_into_section,
    mark_all_subtasks_complete, add_note_to_content,
};
use crate::task::{
    opt_tags_view, opt_view, valid_task, Task, TaskError, TaskFile, TaskFileView, TaskView,
};
use crate::text::{
    contains_ci, lex_le, lemma_lex_le_total, slug_of, slugify, split_commas_trimmed,
    str_contains_ci, str_eq, str_lex_le, trim_spec, trimmed_pieces,
};

verus! {

pub open spec fn file_views(v: Seq<TaskFile>) -> Seq<TaskFileView> {
    v.map_values(|f: TaskFile| f@)
}

/// The store: every valid task file found on storage, ordered by id.
pub struct TaskStore {
    pub tasks: Vec<TaskFile>,
}

impl View for TaskStore {
    type V = Seq<TaskFileView>;

    open spec fn view(&self) -> Seq<TaskFileView> {
        file_views(self.tasks@)
    }
}

// ---------------------------------------------------------------------------
// decoding one discovered file
// ---------------------------------------------------------------------------

pub open spec fn opt_file_view(o: Option<TaskFile>) -> Option<TaskFileView> {
    match o {
        Some(f) => Some(f@),
        None => None,
    }
}

/// What one `(path, raw text)` pair contributes to the store: a file with
/// the decoded record and body, or nothing when the record is invalid.
pub open spec fn spec_decode_entry(path: Seq<char>, raw: Seq<char>) -> Option<TaskFileView> {
    match spec_decode(raw).0 {
        Some(t) => Some(TaskFileView { task: t, file_path: path, content: spec_decode(raw).1 }),
        None => None,
    }
}

/// Decodes one discovered file.  A file whose metadata block lacks a
/// nonempty id or title is an `InvalidTaskRecord`; the scan recovers by
/// skipping it.
pub fn decode_entry(path: String, raw: &str) -> (r: Result<TaskFile, TaskError>)
    ensures
        r matches Ok(f) ==> spec_decode_entry(path@, raw@) == Some(f@),
        r matches Err(e) ==> spec_decode_entry(path@, raw@) is None && e is InvalidTaskRecord,
{
    let (t, body) = decode_text(raw);
    match t {
        Some(task) => Ok(TaskFile { task, file_path: path, content: body }),
        None => Err(TaskError::InvalidTaskRecord),
    }
}

// ---------------------------------------------------------------------------
// ordering by id
// ---------------------------------------------------------------------------

pub open spec fn id_le(a: TaskFileView, b: TaskFileView) -> bool {
    lex_le(a.task.id, b.task.id)
}

pub open spec fn sorted_by_id(s: Seq<TaskFileView>) -> bool {
    forall|i: int| 0 <= i && i + 1 < s.len() ==> id_le(#[trigger] s[i], s[i + 1])
}

/// Where a file lands among already-sorted files: after every file whose
/// id is less than or equal to its own.
pub open spec fn insert_sorted_spec(f: TaskFileView, s: Seq<TaskFileView>) -> Seq<TaskFileView>
    decreases s.len(),
{
    if s.len() == 0 {
        seq![f]
    } else if id_le(s[0], f) {
        seq![s[0]] + insert_sorted_spec(f, s.drop_first())
    } else {
        seq![f] + s
    }
}

/// The store order: files sorted by id with an insertion sort, files with
/// equal ids keeping their discovery order.
pub open spec fn sort_by_id_spec(s: Seq<TaskFileView>) -> Seq<TaskFileView>
    decreases s.len(),
{
    if s.len() == 0 {
        Seq::empty()
    } else {
        insert_sorted_spec(s.last(), sort_by_id_spec(s.drop_last()))
    }
}

proof fn lemma_insert_sorted_at(f: TaskFileView, s: Seq<TaskFileView>, i: int)
    requires
        0 <= i <= s.len(),
        forall|j: int| 0 <= j < i ==> id_le(#[trigger] s[j], f),
        i == s.len() || !id_le(s[i], f),
    ensures
        insert_sorted_spec(f, s) == s.subrange(0, i) + seq![f] + s.subrange(i, s.len() as int),
    decreases i,
{
    if i == 0 {
        if s.len() == 0 {
            assert(insert_sorted_spec(f, s) =~~= s.subrange(0, 0) + seq![f] + s.subrange(
                0,
                s.len() as int,
            ));
        } else {
            assert(insert_sorted_spec(f, s) =~~= s.subrange(0, 0) + seq![f] + s.subrange(
                0,
                s.len() as int,
            ));
        }
    } else {
        lemma_insert_sorted_at(f, s.drop_first(), i - 1);
        assert(s.drop_first().subrange(0, i - 1) =~= s.subrange(1, i));
        assert(s.drop_first().subrange(i - 1, s.drop_first().len() as int) =~= s.subrange(
            i,
            s.len() as int,
        ));
        assert(insert_sorted_spec(f, s) =~~= s.subrange(0, i) + seq![f] + s.subrange(
            i,
            s.len() as int,
        ));
    }
}

fn insert_sorted(v: &mut Vec<TaskFile>, f: TaskFile)
    ensures
        file_views(final(v)@) == insert_sorted_spec(f@, file_views(old(v)@)),
{
    let n = v.len();
    let mut i: usize = 0;
    while i < n && str_lex_le(v[i].task.id.as_str(), f.task.id.as_str())
        invariant
            0 <= i <= n,
            n == v@.len(),
            v@ == old(v)@,
            forall|j: int| 0 <= j < i ==> id_le(#[trigger] file_views(v@)[j], f@),
        decreases n - i,
    {
        i = i + 1;
    }
    proof {
        lemma_insert_sorted_at(f@, file_views(v@), i as int);
    }
    let ghost pre = v@;
    v.insert(i, f);
    proof {
        assert(file_views(v@) =~~= file_views(pre).subrange(0, i as int) + seq![f@] + file_views(
            pre,
        ).subrange(i as int, pre.len() as int));
    }
}

// ---------------------------------------------------------------------------
// loading the store
// ---------------------------------------------------------------------------

pub open spec fn entry_views(es: Seq<(String, String)>) -> Seq<(Seq<char>, Seq<char>)> {
    es.map_values(|e: (String, String)| (e.0@, e.1@))
}

/// The files that decode successfully, in discovery order.
pub open spec fn spec_decoded(es: Seq<(Seq<char>, Seq<char>)>) -> Seq<TaskFileView>
    decreases es.len(),
{
    if es.len() == 0 {
        Seq::empty()
    } else {
        spec_decoded(es.drop_last()) + (match spec_decode_entry(es.last().0, es.last().1) {
            Some(f) => seq![f],
            None => Seq::<TaskFileView>::empty(),
        })
    }
}

/// Builds the store from every discovered `(path, raw text)` pair: files
/// that do not decode to a valid record are silently skipped, the rest
/// are sorted by id.
pub fn load_from_entries(entries: &Vec<(String, String)>) -> (s: TaskStore)
    ensures
        s@ == sort_by_id_spec(spec_decoded(entry_views(entries@))),
        sorted_by_id(s@),
        s@.to_multiset() == spec_decoded(entry_views(entries@)).to_multiset(),
{
    proof {
        lemma_load_sorted(spec_decoded(entry_views(entries@)));
        lemma_load_permutes(spec_decoded(entry_views(entries@)));
    }
    let n = entries.len();
    let mut tasks: Vec<TaskFile> = Vec::new();
    let mut i: usize = 0;
    proof {
        assert(entry_views(entries@).subrange(0, 0) =~~= Seq::<(Seq<char>, Seq<char>)>::empty());
        assert(file_views(tasks@) =~~= sort_by_id_spec(
            spec_decoded(entry_views(entries@).subrange(0, 0)),
        ));
    }
    while i < n
        invariant
            0 <= i <= n,
            n == entries@.len(),
            file_views(tasks@) == sort_by_id_spec(
                spec_decoded(entry_views(entries@).subrange(0, i as int)),
            ),
        decreases n - i,
    {
        let path = entries[i].0.clone();
        let decoded = decode_entry(path, entries[i].1.as_str());
        let ghost evs = entry_views(entries@);
        proof {
            assert(evs.subrange(0, i + 1).drop_last() =~~= evs.subrange(0, i as int));
            assert(evs.subrange(0, i + 1).last() == evs[i as int]);
            assert(evs[i as int] == (entries@[i as int].0@, entries@[i as int].1@));
        }
        match decoded {
            Ok(f) => {
                proof {
                    let d = spec_decoded(evs.subrange(0, i as int));
                    assert(spec_decoded(evs.subrange(0, i + 1)) == d + seq![f@]);
                    assert((d + seq![f@]).drop_last() =~~= d);
                    assert((d + seq![f@]).last() == f@);
                }
                insert_sorted(&mut tasks, f);
            },
            Err(_) => {
                proof {
                    let d = spec_decoded(evs.subrange(0, i as int));
                    assert(spec_decoded(evs.subrange(0, i + 1)) =~~= d);
                }
            },
        }
        i = i + 1;
    }
    proof {
        assert(entry_views(entries@).subrange(0, n as int) =~~= entry_views(entries@));
    }
    TaskStore { tasks }
}

/// The store that loading yields is sorted by id.
pub proof fn lemma_load_sorted(s: Seq<TaskFileView>)
    ensures
        sorted_by_id(sort_by_id_spec(s)),
    decreases s.len(),
{
    if s.len() > 0 {
        lemma_load_sorted(s.drop_last());
        lemma_insert_sorted_keeps_sorted(s.last(), sort_by_id_spec(s.drop_last()));
    }
}

proof fn lemma_insert_sorted_keeps_sorted(f: TaskFileView, s: Seq<TaskFileView>)
    requires
        sorted_by_id(s),
    ensures
        sorted_by_id(insert_sorted_spec(f, s)),
        insert_sorted_spec(f, s).len() == s.len() + 1,
        insert_sorted_spec(f, s)[0] == f || (s.len() > 0 && insert_sorted_spec(f, s)[0] == s[0]),
    decreases s.len(),
{
    if s.len() == 0 {
    } else if id_le(s[0], f) {
        assert forall|i: int|
            0 <= i && i + 1 < s.drop_first().len() implies id_le(
            #[trigger] s.drop_first()[i],
            s.drop_first()[i + 1],
        ) by {
            assert(s.drop_first()[i] == s[i + 1]);
            assert(s.drop_first()[i + 1] == s[i + 2]);
            assert(id_le(s[i + 1], s[i + 2]));
        }
        lemma_insert_sorted_keeps_sorted(f, s.drop_first());
        let r = seq![s[0]] + insert_sorted_spec(f, s.drop_first());
        let ri = insert_sorted_spec(f, s.drop_first());
        assert forall|i: int| 0 <= i && i + 1 < r.len() implies id_le(#[trigger] r[i], r[i + 1]) by {
            if i == 0 {
                assert(r[0] == s[0]);
                assert(r[1] == ri[0]);
                if ri[0] == f {
                } else {
                    assert(s.drop_first()[0] == s[1]);
                }
            } else {
                assert(r[i] == ri[i - 1]);
                assert(r[i + 1] == ri[i]);
            }
        }
    } else {
        lemma_lex_le_total(s[0].task.id, f.task.id);
        let r = seq![f] + s;
        assert forall|i: int| 0 <= i && i + 1 < r.len() implies id_le(#[trigger] r[i], r[i + 1]) by {
            if i == 0 {
            } else {
                assert(r[i] == s[i - 1]);
                assert(r[i + 1] == s[i]);
            }
        }
    }
}

/// Loading keeps exactly the decoded files: sorting only reorders them.
pub proof fn lemma_load_permutes(s: Seq<TaskFileView>)
    ensures
        sort_by_id_spec(s).to_multiset() =~= s.to_multiset(),
    decreases s.len(),
{
    broadcast use vstd::seq_lib::group_to_multiset_ensures;

    if s.len() > 0 {
        lemma_load_permutes(s.drop_last());
        lemma_insert_sorted_multiset(s.last(), sort_by_id_spec(s.drop_last()));
        assert(s =~= s.drop_last().push(s.last()));
        assert(s.to_multiset() =~= s.drop_last().to_multiset().insert(s.last()));
    }
}

proof fn lemma_insert_sorted_multiset(f: TaskFileView, s: Seq<TaskFileView>)
    ensures
        insert_sorted_spec(f, s).to_multiset() =~= s.to_multiset().insert(f),
    decreases s.len(),
{
    broadcast use vstd::seq_lib::group_to_multiset_ensures;

    if s.len() == 0 {
        assert(insert_sorted_spec(f, s) =~= Seq::<TaskFileView>::empty().push(f));
    } else if id_le(s[0], f) {
        lemma_insert_sorted_multiset(f, s.drop_first());
        let ri = insert_sorted_spec(f, s.drop_first());
        vstd::seq_lib::lemma_multiset_commutative(seq![s[0]], ri);
        vstd::seq_lib::lemma_multiset_commutative(seq![s[0]], s.drop_first());
        assert(seq![s[0]] + s.drop_first() =~= s);
        assert(insert_sorted_spec(f, s).to_multiset() =~= s.to_multiset().insert(f));
    } else {
        vstd::seq_lib::lemma_multiset_commutative(seq![f], s);
    }
}

// ---------------------------------------------------------------------------
// looking records up
// ---------------------------------------------------------------------------

pub open spec fn has_id(s: Seq<TaskFileView>, id: Seq<char>) -> bool {
    exists|i: int| 0 <= i < s.len() && (#[trigger] s[i]).task.id == id
}

/// Index of the first file whose record has the id, or `s.len()`.
pub open spec fn first_with_id(s: Seq<TaskFileView>, id: Seq<char>) -> nat
    decreases s.len(),
{
    if s.len() == 0 {
        0
    } else if s[0].task.id == id {
        0
    } else {
        (1 + first_with_id(s.drop_first(), id)) as nat
    }
}

proof fn lemma_first_with_id_witness(s: Seq<TaskFileView>, id: Seq<char>, i: int)
    requires
        0 <= i <= s.len(),
        forall|j: int| 0 <= j < i ==> (#[trigger] s[j]).task.id != id,
        i == s.len() || s[i].task.id == id,
    ensures
        first_with_id(s, id) == i,
    decreases i,
{
    if i > 0 {
        lemma_first_with_id_witness(s.drop_first(), id, i - 1);
    }
}

// ---------------------------------------------------------------------------
// assigning the next id
// ---------------------------------------------------------------------------

/// The number an id contributes to id assignment: its decimal value if it
/// is numeric and fits, nothing otherwise.
pub open spec fn id_num(id: Seq<char>) -> nat {
    if is_numeric(id) && digits_val(id) <= u32::MAX {
        digits_val(id)
    } else {
        0
    }
}

pub open spec fn max_numeric_id(s: Seq<TaskFileView>) -> nat
    decreases s.len(),
{
    if s.len() == 0 {
        0
    } else {
        let m = max_numeric_id(s.drop_last());
        if id_num(s.last().task.id) > m {
            id_num(s.last().task.id)
        } else {
            m
        }
    }
}

// ---------------------------------------------------------------------------
// rebuilding a record in memory
// ---------------------------------------------------------------------------

fn clone_opt_string(o: &Option<String>) -> (r: Option<String>)
    ensures
        opt_view(r) == opt_view(*o),
{
    match o {
        Some(s) => Some(s.clone()),
        None => None,
    }
}

fn clone_string_vec(v: &Vec<String>) -> (r: Vec<String>)
    ensures
        r@ == v@,
{
    let n = v.len();
    let mut r: Vec<String> = Vec::new();
    let mut i: usize = 0;
    while i < n
        invariant
            0 <= i <= n,
            n == v@.len(),
            r@ == v@.subrange(0, i as int),
        decreases n - i,
    {
        r.push(v[i].clone());
        proof {
            assert(r@ =~= v@.subrange(0, i + 1));
        }
        i = i + 1;
    }
    proof {
        assert(v@.subrange(0, n as int) =~= v@);
    }
    r
}

fn clone_opt_tags(o: &Option<Vec<String>>) -> (r: Option<Vec<String>>)
    ensures
        match r {
            Some(v) => o matches Some(w) && v@ == w@,
            None => o is None,
        },
{
    match o {
        Some(v) => Some(clone_string_vec(v)),
        None => None,
    }
}

/// An exact in-memory copy of a record.
pub fn clone_task(t: &Task) -> (r: Task)
    ensures
        r@ == t@,
{
    Task {
        id: t.id.clone(),
        title: t.title.clone(),
        status: clone_opt_string(&t.status),
        priority: clone_opt_string(&t.priority),
        tags: clone_opt_tags(&t.tags),
        project: clone_opt_string(&t.project),
        created: clone_opt_string(&t.created),
        due: clone_opt_string(&t.due),
        completed: clone_opt_string(&t.completed),
        started: clone_opt_string(&t.started),
    }
}

pub open spec fn done_view(t: TaskView, today: Seq<char>) -> TaskView {
    TaskView { status: Some("done"@), completed: Some(today), ..t }
}

pub open spec fn started_view(t: TaskView, today: Seq<char>) -> TaskView {
    TaskView { status: Some("active"@), started: Some(today), ..t }
}

/// Completing a record keeps it valid: the status literal fits on a line
/// and every other field is unchanged.
pub proof fn lemma_done_view_valid(t: TaskView, today: Seq<char>)
    requires
        valid_task(t),
        line_ok(today),
    ensures
        valid_task(done_view(t, today)),
{
    reveal_strlit("done");
    assert(line_ok("done"@)) by {
        assert forall|i: int| 0 <= i < "done"@.len() implies "done"@[i] != '\n' by {
            if i == 0 {
            } else if i == 1 {
            } else if i == 2 {
            } else {
                assert(i == 3);
            }
        }
    }
}

/// What marking a task done writes, read back: the rewritten file decodes
/// to exactly the completed record, with the checked-off body preserved.
pub proof fn lemma_mark_done_reload(f: TaskFileView, today: Seq<char>)
    requires
        valid_task(f.task),
        line_ok(today),
    ensures
        ({
            let body = spec_unlines(mark_lines(spec_lines(f.content)));
            let content = spec_encode(done_view(f.task, today)) + body;
            &&& spec_decode(content).0 == Some(done_view(f.task, today))
            &&& spec_decode(content).1 == body
        }),
{
    lemma_done_view_valid(f.task, today);
    let marked = mark_lines(spec_lines(f.content));
    if marked.len() > 0 {
        lemma_spec_unlines_ends_nl(marked);
    }
    crate::codec::lemma_codec_round_trip(done_view(f.task, today), spec_unlines(marked));
}

/// The record of a finished task: status `done`, completion date set,
/// everything else kept.
pub fn complete_task(t: &Task, today: &str) -> (r: Task)
    ensures
        r@ == done_view(t@, today@),
{
    let mut r = clone_task(t);
    r.status = Some(String::from_str("done"));
    r.completed = Some(today.to_owned());
    r
}

/// The record of a started task: status `active`, start date set.
pub fn start_task(t: &Task, today: &str) -> (r: Task)
    ensures
        r@ == started_view(t@, today@),
{
    let mut r = clone_task(t);
    r.status = Some(String::from_str("active"));
    r.started = Some(today.to_owned());
    r
}

// ---------------------------------------------------------------------------
// rendering a whole file
// ---------------------------------------------------------------------------

/// The full text of a task file: the rendered metadata block followed by
/// the body.  Every mutation rewrites the whole file this way.
pub fn render_task_file(t: &Task, body: &str) -> (r: String)
    ensures
        r@ == spec_encode(t@) + body@,
{
    let block = encode_task(t);
    crate::text::str_concat(block.as_str(), body)
}

/// One pending write: the file's path and its complete new text.
#[derive(Debug)]
pub struct FileUpdate {
    pub file_path: String,
    pub content: String,
}

// ---------------------------------------------------------------------------
// specs of the store's commands
// ---------------------------------------------------------------------------

/// The field names a single-field mutation accepts.
pub open spec fn known_field(field: Seq<char>) -> bool {
    field == "title"@ || field == "priority"@ || field == "tags"@ || field == "due"@
}

pub open spec fn set_field_view(t: TaskView, field: Seq<char>, value: Seq<char>) -> TaskView {
    if field == "title"@ {
        TaskView { title: value, ..t }
    } else if field == "priority"@ {
        TaskView { priority: Some(value), ..t }
    } else if field == "tags"@ {
        TaskView { tags: Some(trimmed_pieces(value)), ..t }
    } else if field == "due"@ {
        TaskView { due: Some(value), ..t }
    } else {
        t
    }
}

/// The record a new task starts with: given fields, with status
/// defaulting to `pending`, priority to `medium`, and today as the
/// creation date.
pub open spec fn new_task_view(
    id: Seq<char>,
    title: Seq<char>,
    status: Option<Seq<char>>,
    priority: Option<Seq<char>>,
    tags: Option<Seq<Seq<char>>>,
    project: Option<Seq<char>>,
    due: Option<Seq<char>>,
    today: Seq<char>,
) -> TaskView {
    TaskView {
        id: id,
        title: title,
        status: match status {
            Some(s) => Some(s),
            None => Some("pending"@),
        },
        priority: match priority {
            Some(p) => Some(p),
            None => Some("medium"@),
        },
        tags: tags,
        project: project,
        created: Some(today),
        due: due,
        completed: None,
        started: None,
    }
}

/// A new task's body: a heading, an optional Notes section, and an empty
/// Checklist section.
pub open spec fn new_task_body_lines(notes: Option<Seq<char>>) -> Seq<Seq<char>> {
    seq![Seq::<char>::empty(), "# Task Details"@, Seq::<char>::empty()] + (match notes {
        Some(x) => seq!["## Notes"@, x, Seq::<char>::empty()],
        None => Seq::<Seq<char>>::empty(),
    }) + seq!["## Checklist"@, Seq::<char>::empty()]
}

pub open spec fn new_task_body(notes: Option<Seq<char>>) -> Seq<char> {
    spec_unlines(new_task_body_lines(notes))
}

/// The listing filters: each given filter must occur, case-insensitively,
/// in its field; a task without that field never matches.
pub open spec fn matches_filters(
    t: TaskView,
    sf: Option<Seq<char>>,
    tf: Option<Seq<char>>,
    pf: Option<Seq<char>>,
) -> bool {
    (match sf {
        Some(f) => match t.status {
            Some(s) => contains_ci(s, f),
            None => false,
        },
        None => true,
    }) && (match tf {
        Some(f) => match t.tags {
            Some(ts) => exists|i: int| 0 <= i < ts.len() && contains_ci(#[trigger] ts[i], f),
            None => false,
        },
        None => true,
    }) && (match pf {
        Some(f) => match t.priority {
            Some(p) => contains_ci(p, f),
            None => false,
        },
        None => true,
    })
}

fn task_matches(
    task: &Task,
    status: &Option<String>,
    tag: &Option<String>,
    priority: &Option<String>,
) -> (b: bool)
    ensures
        b == matches_filters(task@, opt_view(*status), opt_view(*tag), opt_view(*priority)),
{
    match status {
        Some(f) => {
            match &task.status {
                Some(s) => {
                    if !str_contains_ci(s.as_str(), f.as_str()) {
                        return false;
                    }
                },
                None => {
                    return false;
                },
            }
        },
        None => {},
    }
    match tag {
        Some(f) => {
            match &task.tags {
                Some(ts) => {
                    let m = ts.len();
                    let mut k: usize = 0;
                    let mut found = false;
                    while k < m
                        invariant
                            0 <= k <= m,
                            m == ts@.len(),
                            found == exists|j: int|
                                0 <= j < k && contains_ci(#[trigger] views_of(ts@)[j], f@),
                        decreases m - k,
                    {
                        let ghost pre = found;
                        if str_contains_ci(ts[k].as_str(), f.as_str()) {
                            found = true;
                            proof {
                                assert(contains_ci(views_of(ts@)[k as int], f@));
                            }
                        }
                        proof {
                            if found && !pre && !contains_ci(views_of(ts@)[k as int], f@) {
                            }
                        }
                        k = k + 1;
                    }
                    if !found {
                        return false;
                    }
                },
                None => {
                    return false;
                },
            }
        },
        None => {},
    }
    match priority {
        Some(f) => {
            match &task.priority {
                Some(p) => {
                    if !str_contains_ci(p.as_str(), f.as_str()) {
                        return false;
                    }
                },
                None => {
                    return false;
                },
            }
        },
        None => {},
    }
    true
}

/// The paths of the tasks whose status is `done`, in store order.
pub open spec fn done_paths(s: Seq<TaskFileView>) -> Seq<Seq<char>>
    decreases s.len(),
{
    if s.len() == 0 {
        Seq::empty()
    } else {
        done_paths(s.drop_last()) + (if s.last().task.status == Some("done"@) {
            seq![s.last().file_path]
        } else {
            Seq::<Seq<char>>::empty()
        })
    }
}

// ---------------------------------------------------------------------------
// the store's operations
// ---------------------------------------------------------------------------

impl TaskStore {
    /// Looks a task up by id; the index of its first occurrence, or
    /// `TaskNotFound` carrying the id.
    pub fn find(&self, id: &str) -> (r: Result<usize, TaskError>)
        ensures
            (r is Ok) == has_id(self@, id@),
            r matches Ok(i) ==> i == first_with_id(self@, id@) && i < self@.len()
                && self@[i as int].task.id == id@,
            r matches Err(e) ==> !has_id(self@, id@) && (e matches TaskError::TaskNotFound {
                id: x,
            } && x@ == id@),
    {
        let n = self.tasks.len();
        let mut i: usize = 0;
        while i < n && !str_eq(self.tasks[i].task.id.as_str(), id)
            invariant
                0 <= i <= n,
                n == self.tasks@.len(),
                forall|j: int| 0 <= j < i ==> (#[trigger] self@[j]).task.id != id@,
            decreases n - i,
        {
            i = i + 1;
        }
        proof {
            lemma_first_with_id_witness(self@, id@, i as int);
        }
        if i == n {
            Err(TaskError::TaskNotFound { id: id.to_owned() })
        } else {
            proof {
                assert(self@[i as int].task.id == id@);
            }
            Ok(i)
        }
    }

    /// The id the next task gets: one past the largest numeric id in the
    /// store, zero-padded to three digits.
    pub fn get_next_task_id(&self) -> (r: String)
        ensures
            r@ == pad3(dec_digits(max_numeric_id(self@) + 1)),
    {
        let n = self.tasks.len();
        let mut maxv: u32 = 0;
        let mut i: usize = 0;
        proof {
            assert(self@.subrange(0, 0) =~~= Seq::<TaskFileView>::empty());
        }
        while i < n
            invariant
                0 <= i <= n,
                n == self.tasks@.len(),
                maxv == max_numeric_id(self@.subrange(0, i as int)),
            decreases n - i,
        {
            proof {
                assert(self@.subrange(0, i + 1).drop_last() =~~= self@.subrange(0, i as int));
                assert(self@.subrange(0, i + 1).last() == self@[i as int]);
                assert(self@[i as int].task.id == self.tasks@[i as int].task.id@);
            }
            match parse_u32(self.tasks[i].task.id.as_str()) {
                Some(v) => {
                    if v > maxv {
                        maxv = v;
                    }
                },
                None => {},
            }
            i = i + 1;
        }
        proof {
            assert(self@.subrange(0, n as int) =~~= self@);
        }
        format_id3((maxv as u64) + 1)
    }

    /// The rewrite that marks a task done: status `done`, completion date
    /// set, every checklist box checked, whole file re-rendered.
    pub fn mark_task_done(&self, id: &str, today: &str) -> (r: Result<FileUpdate, TaskError>)
        ensures
            (r is Ok) == has_id(self@, id@),
            r matches Ok(u) ==> ({
                let f = self@[first_with_id(self@, id@) as int];
                &&& u.file_path@ == f.file_path
                &&& u.content@ == spec_encode(done_view(f.task, today@)) + spec_unlines(
                    mark_lines(spec_lines(f.content)),
                )
            }),
            r matches Err(e) ==> e matches TaskError::TaskNotFound { id: x } && x@ == id@,
    {
        let idx = match self.find(id) {
            Ok(i) => i,
            Err(e) => {
                return Err(e);
            },
        };
        let new_task = complete_task(&self.tasks[idx].task, today);
        let new_body = mark_all_subtasks_complete(self.tasks[idx].content.as_str());
        Ok(
            FileUpdate {
                file_path: self.tasks[idx].file_path.clone(),
                content: render_task_file(&new_task, new_body.as_str()),
            },
        )
    }

    /// The rewrite that starts a task: status `active`, start date set,
    /// body untouched.
    pub fn mark_task_start(&self, id: &str, today: &str) -> (r: Result<FileUpdate, TaskError>)
        ensures
            (r is Ok) == has_id(self@, id@),
            r matches Ok(u) ==> ({
                let f = self@[first_with_id(self@, id@) as int];
                &&& u.file_path@ == f.file_path
                &&& u.content@ == spec_encode(started_view(f.task, today@)) + f.content
            }),
            r matches Err(e) ==> e matches TaskError::TaskNotFound { id: x } && x@ == id@,
    {
        let idx = match self.find(id) {
            Ok(i) => i,
            Err(e) => {
                return Err(e);
            },
        };
        let new_task = start_task(&self.tasks[idx].task, today);
        Ok(
            FileUpdate {
                file_path: self.tasks[idx].file_path.clone(),
                content: render_task_file(&new_task, self.tasks[idx].content.as_str()),
            },
        )
    }

    /// The rewrite that appends one incomplete checklist entry to a
    /// task's Checklist section.
    pub fn add_checklist_item(&self, id: &str, item: &str) -> (r: Result<FileUpdate, TaskError>)
        ensures
            (r is Ok) == has_id(self@, id@),
            r matches Ok(u) ==> ({
                let f = self@[first_with_id(self@, id@) as int];
                &&& u.file_path@ == f.file_path
                &&& u.content@ == spec_encode(f.task) + spec_unlines(
                    spec_insert_into_section(
                        spec_lines(f.content),
                        checklist_heading(),
                        "- [ ] "@ + item@,
                    ),
                )
            }),
            r matches Err(e) ==> e matches TaskError::TaskNotFound { id: x } && x@ == id@,
    {
        let idx = match self.find(id) {
            Ok(i) => i,
            Err(e) => {
                return Err(e);
            },
        };
        let task_copy = clone_task(&self.tasks[idx].task);
        let new_body = add_checklist_item(self.tasks[idx].content.as_str(), item);
        Ok(
            FileUpdate {
                file_path: self.tasks[idx].file_path.clone(),
                content: render_task_file(&task_copy, new_body.as_str()),
            },
        )
    }

    /// The rewrite of a single named-field mutation: title, priority,
    /// tags (split on commas, trimmed) or due.  Any other field name is
    /// `UnknownField`, and nothing is written.
    pub fn set_task_field(&self, id: &str, field: &str, value: &str) -> (r: Result<
        FileUpdate,
        TaskError,
    >)
        ensures
            (r is Ok) == (has_id(self@, id@) && known_field(field@)),
            r matches Ok(u) ==> ({
                let f = self@[first_with_id(self@, id@) as int];
                &&& u.file_path@ == f.file_path
                &&& u.content@ == spec_encode(set_field_view(f.task, field@, value@)) + f.content
            }),
            r matches Err(e) ==> ({
                ||| !has_id(self@, id@) && (e matches TaskError::TaskNotFound { id: x } && x@
                    == id@)
                ||| has_id(self@, id@) && !known_field(field@) && (e
                    matches TaskError::UnknownField { field: g } && g@ == field@)
            }),
    {
        let idx = match self.find(id) {
            Ok(i) => i,
            Err(e) => {
                return Err(e);
            },
        };
        let t = &self.tasks[idx].task;
        let new_task: Task;
        if str_eq(field, "title") {
            let mut c = clone_task(t);
            c.title = value.to_owned();
            new_task = c;
        } else if str_eq(field, "priority") {
            let mut c = clone_task(t);
            c.priority = Some(value.to_owned());
            new_task = c;
        } else if str_eq(field, "tags") {
            let mut c = clone_task(t);
            c.tags = Some(split_commas_trimmed(value));
            new_task = c;
        } else if str_eq(field, "due") {
            let mut c = clone_task(t);
            c.due = Some(value.to_owned());
            new_task = c;
        } else {
            return Err(TaskError::UnknownField { field: field.to_owned() });
        }
        Ok(
            FileUpdate {
                file_path: self.tasks[idx].file_path.clone(),
                content: render_task_file(&new_task, self.tasks[idx].content.as_str()),
            },
        )
    }

    /// The file a new task is stored in: the next free id, defaults for
    /// status and priority, today's date as creation date, and a body
    /// with an optional Notes section and an empty Checklist section.
    pub fn add_task(
        &self,
        title: &str,
        priority: Option<String>,
        status: Option<String>,
        tags: Option<Vec<String>>,
        project: Option<String>,
        due: Option<String>,
        notes: Option<String>,
        today: &str,
    ) -> (r: FileUpdate)
        ensures
            ({
                let id = pad3(dec_digits(max_numeric_id(self@) + 1));
                &&& r.file_path@ == "tasks/"@ + id + "-"@ + slug_of(title@) + ".md"@
                &&& r.content@ == spec_encode(
                    new_task_view(
                        id,
                        title@,
                        opt_view(status),
                        opt_view(priority),
                        opt_tags_view(tags),
                        opt_view(project),
                        opt_view(due),
                        today@,
                    ),
                ) + new_task_body(opt_view(notes))
            }),
    {
        let id = self.get_next_task_id();
        let slug = slugify(title);
        let mut path = String::from_str("tasks/");
        path.append(id.as_str());
        path.append("-");
        path.append(slug.as_str());
        path.append(".md");
        let task = Task {
            id: id.clone(),
            title: title.to_owned(),
            status: match status {
                Some(s) => Some(s),
                None => Some(String::from_str("pending")),
            },
            priority: match priority {
                Some(p) => Some(p),
                None => Some(String::from_str("medium")),
            },
            tags,
            project,
            created: Some(today.to_owned()),
            due,
            completed: None,
            started: None,
        };
        let mut body_lines: Vec<String> = Vec::new();
        body_lines.push(String::new());
        body_lines.push(String::from_str("# Task Details"));
        body_lines.push(String::new());
        match notes {
            Some(x) => {
                body_lines.push(String::from_str("## Notes"));
                body_lines.push(x);
                body_lines.push(String::new());
            },
            None => {},
        }
        body_lines.push(String::from_str("## Checklist"));
        body_lines.push(String::new());
        let body = crate::lines::join_lines(&body_lines);
        proof {
            assert(views_of(body_lines@) =~~= new_task_body_lines(
                opt_view(notes),
            ));
        }
        FileUpdate { file_path: path, content: render_task_file(&task, body.as_str()) }
    }

    /// The indices of the tasks that pass the given filters, in store
    /// order; a filter matches case-insensitively anywhere in its field.
    pub fn list_tasks(
        &self,
        status: &Option<String>,
        tag: &Option<String>,
        priority: &Option<String>,
    ) -> (r: Vec<usize>)
        ensures
            forall|k: int|
                0 <= k < r@.len() ==> (#[trigger] r@[k]) < self@.len() && matches_filters(
                    self@[r@[k] as int].task,
                    opt_view(*status),
                    opt_view(*tag),
                    opt_view(*priority),
                ),
            forall|k: int| 0 <= k && k + 1 < r@.len() ==> #[trigger] r@[k] < r@[k + 1],
            forall|i: int|
                0 <= i < self@.len() && matches_filters(
                    #[trigger] self@[i].task,
                    opt_view(*status),
                    opt_view(*tag),
                    opt_view(*priority),
                ) ==> r@.contains(i as usize),
    {
        let n = self.tasks.len();
        let mut r: Vec<usize> = Vec::new();
        let mut i: usize = 0;
        while i < n
            invariant
                0 <= i <= n,
                n == self.tasks@.len(),
                forall|k: int|
                    0 <= k < r@.len() ==> (#[trigger] r@[k]) < i && matches_filters(
                        self@[r@[k] as int].task,
                        opt_view(*status),
                        opt_view(*tag),
                        opt_view(*priority),
                    ),
                forall|k: int| 0 <= k && k + 1 < r@.len() ==> #[trigger] r@[k] < r@[k + 1],
                forall|j: int|
                    0 <= j < i && matches_filters(
                        #[trigger] self@[j].task,
                        opt_view(*status),
                        opt_view(*tag),
                        opt_view(*priority),
                    ) ==> r@.contains(j as usize),
            decreases n - i,
        {
            let ghost pre = r@;
            if task_matches(&self.tasks[i].task, status, tag, priority) {
                r.push(i);
                proof {
                    assert(r@[r@.len() - 1] == i);
                    assert(r@.contains(i as usize));
                    assert forall|j: int|
                        0 <= j < i + 1 && matches_filters(
                            #[trigger] self@[j].task,
                            opt_view(*status),
                            opt_view(*tag),
                            opt_view(*priority),
                        ) implies r@.contains(j as usize) by {
                        if j < i {
                            let k = choose|k: int| 0 <= k < pre.len() && pre[k] == j as usize;
                            assert(r@[k] == j as usize);
                        }
                    }
                }
            } else {
                proof {
                    assert forall|j: int|
                        0 <= j < i + 1 && matches_filters(
                            #[trigger] self@[j].task,
                            opt_view(*status),
                            opt_view(*tag),
                            opt_view(*priority),
                        ) implies r@.contains(j as usize) by {}
                }
            }
            i = i + 1;
        }
        r
    }

    /// The storage paths of every task whose status is exactly `done` —
    /// the files a cleanup deletes.
    pub fn cleanup_done_tasks(&self) -> (r: Vec<String>)
        ensures
            views_of(r@) == done_paths(self@),
    {
        let n = self.tasks.len();
        let mut r: Vec<String> = Vec::new();
        let mut i: usize = 0;
        proof {
            assert(views_of(r@) =~~= done_paths(self@.subrange(0, 0)));
        }
        while i < n
            invariant
                0 <= i <= n,
                n == self.tasks@.len(),
                views_of(r@) == done_paths(self@.subrange(0, i as int)),
            decreases n - i,
        {
            proof {
                assert(self@.subrange(0, i + 1).drop_last() =~~= self@.subrange(0, i as int));
                assert(self@.subrange(0, i + 1).last() == self@[i as int]);
            }
            let ghost pre = r@;
            let is_done = match &self.tasks[i].task.status {
                Some(s) => str_eq(s.as_str(), "done"),
                None => false,
            };
            if is_done {
                r.push(self.tasks[i].file_path.clone());
                proof {
                    assert(views_of(r@) =~= views_of(pre) + seq![self@[i as int].file_path]);
                    assert(views_of(r@) =~~= done_paths(self@.subrange(0, i + 1)));
                }
            } else {
                proof {
                    assert(views_of(r@) =~~= done_paths(self@.subrange(0, i + 1)));
                }
            }
            i = i + 1;
        }
        proof {
            assert(self@.subrange(0, n as int) =~~= self@);
        }
        r
    }

    /// The checklist entries of one task: completion state and text of
    /// every checkbox line inside its Checklist section.
    pub fn list_subtasks(&self, id: &str) -> (r: Result<Vec<(bool, String)>, TaskError>)
        ensures
            (r is Ok) == has_id(self@, id@),
            r matches Ok(v) ==> crate::checklist::item_views(v@) == crate::checklist::checklist_items(
                spec_lines(self@[first_with_id(self@, id@) as int].content),
            ),
            r matches Err(e) ==> e matches TaskError::TaskNotFound { id: x } && x@ == id@,
    {
        let idx = match self.find(id) {
            Ok(i) => i,
            Err(e) => {
                return Err(e);
            },
        };
        Ok(crate::checklist::list_items(self.tasks[idx].content.as_str()))
    }

    /// The rewrite that adds a note line to a task's Notes section.
    pub fn add_task_note(&self, id: &str, note: &str) -> (r: Result<FileUpdate, TaskError>)
        ensures
            (r is Ok) == has_id(self@, id@),
            r matches Ok(u) ==> ({
                let f = self@[first_with_id(self@, id@) as int];
                &&& u.file_path@ == f.file_path
                &&& u.content@ == spec_encode(f.task) + spec_unlines(
                    spec_insert_into_section(spec_lines(f.content), notes_heading(), note@),
                )
            }),
            r matches Err(e) ==> e matches TaskError::TaskNotFound { id: x } && x@ == id@,
    {
        let idx = match self.find(id) {
            Ok(i) => i,
            Err(e) => {
                return Err(e);
            },
        };
        let task_copy = clone_task(&self.tasks[idx].task);
        let new_body = add_note_to_content(self.tasks[idx].content.as_str(), note);
        Ok(
            FileUpdate {
                file_path: self.tasks[idx].file_path.clone(),
                content: render_task_file(&task_copy, new_body.as_str()),
            },
        )
    }
}

} // verus!
