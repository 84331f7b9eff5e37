//! The metadata-block codec.
//!
//! A task file starts with a block delimited by `---` lines; inside, every
//! field sits on its own `key: value` line.  `encode` renders the fields in
//! a fixed order — id, title, status, priority, tags, project, created,
//! due, completed, started — emitting only fields that are present; the
//! title is quoted and the tags are a bracketed, quoted, comma-separated
//! list.  `decode` splits text at the delimiters, reads the key-value
//! lines (unknown keys and lines without a colon are ignored), and accepts
//! the record only when id and title come out nonempty.  The round-trip
//! lemmas at the end show that decoding an encoded valid record restores
//! every field.
use vstd::prelude::*;
use vstd::string::*;

use crate::lines::{
    first_eq_line, join_lines, join_lines_range, lemma_first_eq_line_witness,
    lemma_lines_unlines, lemma_spec_lines_concat, lemma_spec_unlines_ends_nl,
    lemma_unlines_lines, line_ok, lines_ok, spec_lines, spec_unlines, split_lines, views_of,
};
use crate::task::{opt_view, tag_ok, valid_task, Task, TaskView};
use crate::text::{
    find_char, first_index_of, is_space_char, lemma_first_index_concat, lemma_first_index_of,
    lemma_first_index_witness, lemma_trim_end_at, lemma_trim_start_at, push_char, str_concat,
    str_eq, trim_spec, trim_str,
};

verus! {

// ---------------------------------------------------------------------------
// the rendered shape of the metadata block
// ---------------------------------------------------------------------------

pub open spec fn delim_line() -> Seq<char> {
    "---"@
}

pub open spec fn kv_line(key: Seq<char>, value: Seq<char>) -> Seq<char> {
    key + ": "@ + value
}

pub open spec fn quoted(v: Seq<char>) -> Seq<char> {
    seq!['"'] + v + seq!['"']
}

pub open spec fn tags_inner(ts: Seq<Seq<char>>) -> Seq<char>
    decreases ts.len(),
{
    if ts.len() == 0 {
        Seq::empty()
    } else if ts.len() == 1 {
        quoted(ts[0])
    } else {
        quoted(ts[0]) + ", "@ + tags_inner(ts.drop_first())
    }
}

pub open spec fn tags_value(ts: Seq<Seq<char>>) -> Seq<char> {
    seq!['['] + tags_inner(ts) + seq![']']
}

pub open spec fn opt_kv_lines(key: Seq<char>, o: Option<Seq<char>>) -> Seq<Seq<char>> {
    match o {
        Some(v) => seq![kv_line(key, v)],
        None => Seq::empty(),
    }
}

pub open spec fn tags_lines(o: Option<Seq<Seq<char>>>) -> Seq<Seq<char>> {
    match o {
        Some(ts) => seq![kv_line("tags"@, tags_value(ts))],
        None => Seq::empty(),
    }
}

/// The field lines of the block, in their fixed serialization order.
pub open spec fn field_lines(t: TaskView) -> Seq<Seq<char>> {
    seq![kv_line("id"@, t.id)] + seq![kv_line("title"@, quoted(t.title))] + opt_kv_lines(
        "status"@,
        t.status,
    ) + opt_kv_lines("priority"@, t.priority) + tags_lines(t.tags) + opt_kv_lines(
        "project"@,
        t.project,
    ) + opt_kv_lines("created"@, t.created) + opt_kv_lines("due"@, t.due) + opt_kv_lines(
        "completed"@,
        t.completed,
    ) + opt_kv_lines("started"@, t.started)
}

pub open spec fn spec_encode_lines(t: TaskView) -> Seq<Seq<char>> {
    seq![delim_line()] + field_lines(t) + seq![delim_line()]
}

/// The whole rendered metadata block, closing delimiter and newline
/// included.
pub open spec fn spec_encode(t: TaskView) -> Seq<char> {
    spec_unlines(spec_encode_lines(t))
}

// ---------------------------------------------------------------------------
// the encoder
// ---------------------------------------------------------------------------

fn push_kv(out: &mut Vec<String>, key: &str, value: &str)
    ensures
        views_of(final(out)@) == views_of(old(out)@) + seq![kv_line(key@, value@)],
{
    let head = str_concat(key, ": ");
    let line = str_concat(head.as_str(), value);
    out.push(line);
    proof {
        assert(views_of(out@) =~~= views_of(old(out)@) + seq![kv_line(key@, value@)]);
    }
}

fn push_opt_kv(out: &mut Vec<String>, key: &str, o: &Option<String>)
    ensures
        views_of(final(out)@) == views_of(old(out)@) + opt_kv_lines(key@, opt_view(*o)),
{
    match o {
        Some(v) => {
            push_kv(out, key, v.as_str());
        },
        None => {
            proof {
                assert(views_of(out@) =~~= views_of(out@) + opt_kv_lines(key@, opt_view(*o)));
            }
        },
    }
}

fn quote_str(v: &str) -> (r: String)
    ensures
        r@ == quoted(v@),
{
    let mut r = String::new();
    push_char(&mut r, '"');
    r.append(v);
    push_char(&mut r, '"');
    proof {
        assert(r@ =~= quoted(v@));
    }
    r
}

fn tags_value_str(ts: &Vec<String>) -> (r: String)
    ensures
        r@ == tags_value(views_of(ts@)),
{
    let ghost vs = views_of(ts@);
    let n = ts.len();
    let mut r = String::new();
    push_char(&mut r, '[');
    let mut i: usize = 0;
    proof {
        assert(r@ =~= seq!['[']);
    }
    while i < n
        invariant
            0 <= i <= n,
            n == ts@.len(),
            vs == views_of(ts@),
            i == 0 ==> r@ == seq!['['],
            0 < i < n ==> r@ + ", "@ + tags_inner(vs.subrange(i as int, n as int)) == seq!['[']
                + tags_inner(vs),
            i == n && n > 0 ==> r@ == seq!['['] + tags_inner(vs),
        decreases n - i,
    {
        let ghost pre = r@;
        if i > 0 {
            r.append(", ");
        }
        let q = quote_str(ts[i].as_str());
        r.append(q.as_str());
        proof {
            let tail = vs.subrange(i as int, n as int);
            assert(tail[0] == vs[i as int]);
            assert(tail.drop_first() =~= vs.subrange(i + 1, n as int));
            if i == 0 {
                assert(r@ =~= seq!['['] + quoted(vs[0]));
                if n == 1 {
                    assert(vs.subrange(0, n as int) =~= vs);
                    assert(tags_inner(vs) == quoted(vs[0]));
                } else {
                    assert(vs.subrange(0, n as int) =~= vs);
                    assert(tags_inner(vs) == quoted(vs[0]) + ", "@ + tags_inner(vs.drop_first()));
                    assert(vs.drop_first() =~= vs.subrange(1, n as int));
                    assert(r@ + ", "@ + tags_inner(vs.subrange(1, n as int)) =~= seq!['[']
                        + tags_inner(vs));
                }
            } else {
                assert(r@ =~= pre + ", "@ + quoted(vs[i as int]));
                if i + 1 == n {
                    assert(tags_inner(tail) == quoted(vs[i as int]));
                    assert(r@ =~= seq!['['] + tags_inner(vs));
                } else {
                    assert(tags_inner(tail) == quoted(vs[i as int]) + ", "@ + tags_inner(
                        tail.drop_first(),
                    ));
                    assert(r@ + ", "@ + tags_inner(vs.subrange(i + 1, n as int)) =~= seq!['[']
                        + tags_inner(vs));
                }
            }
        }
        i = i + 1;
    }
    push_char(&mut r, ']');
    proof {
        if n == 0 {
            assert(tags_inner(vs) == Seq::<char>::empty());
        }
        assert(r@ =~= tags_value(views_of(ts@)));
    }
    r
}

/// Renders the metadata block of a task: the delimiter line, the field
/// lines in fixed order, and the closing delimiter line, each
/// newline-terminated.
#[verifier::rlimit(60)]
pub fn encode_task(t: &Task) -> (r: String)
    ensures
        r@ == spec_encode(t@),
{
    let mut out: Vec<String> = Vec::new();
    let ghost e0 = out@;
    out.push(String::from_str("---"));
    proof {
        assert(views_of(out@) =~~= views_of(e0) + seq![delim_line()]);
        assert(views_of(e0) + seq![delim_line()] =~~= seq![delim_line()]);
    }
    push_kv(&mut out, "id", t.id.as_str());
    let qt = quote_str(t.title.as_str());
    push_kv(&mut out, "title", qt.as_str());
    push_opt_kv(&mut out, "status", &t.status);
    push_opt_kv(&mut out, "priority", &t.priority);
    match &t.tags {
        Some(ts) => {
            let tv = tags_value_str(ts);
            push_kv(&mut out, "tags", tv.as_str());
        },
        None => {},
    }
    push_opt_kv(&mut out, "project", &t.project);
    push_opt_kv(&mut out, "created", &t.created);
    push_opt_kv(&mut out, "due", &t.due);
    push_opt_kv(&mut out, "completed", &t.completed);
    push_opt_kv(&mut out, "started", &t.started);
    let ghost e1 = out@;
    out.push(String::from_str("---"));
    proof {
        assert(views_of(out@) =~~= views_of(e1) + seq![delim_line()]);
        assert(views_of(out@) =~~= spec_encode_lines(t@));
    }
    join_lines(&out)
}

// ---------------------------------------------------------------------------
// the decoder: spec
// ---------------------------------------------------------------------------

/// Fields as read so far; id and title stay `None` until their lines are
/// seen.
pub ghost struct PartialTask {
    pub id: Option<Seq<char>>,
    pub title: Option<Seq<char>>,
    pub status: Option<Seq<char>>,
    pub priority: Option<Seq<char>>,
    pub tags: Option<Seq<Seq<char>>>,
    pub project: Option<Seq<char>>,
    pub created: Option<Seq<char>>,
    pub due: Option<Seq<char>>,
    pub completed: Option<Seq<char>>,
    pub started: Option<Seq<char>>,
}

pub open spec fn empty_partial() -> PartialTask {
    PartialTask {
        id: None,
        title: None,
        status: None,
        priority: None,
        tags: None,
        project: None,
        created: None,
        due: None,
        completed: None,
        started: None,
    }
}

/// A value keeps everything after the colon except one separating space.
pub open spec fn strip_one_space(v: Seq<char>) -> Seq<char> {
    if v.len() > 0 && v[0] == ' ' {
        v.drop_first()
    } else {
        v
    }
}

/// A title loses one surrounding pair of quotes, if it has one.
pub open spec fn unquote(v: Seq<char>) -> Seq<char> {
    if v.len() >= 2 && v[0] == '"' && v.last() == '"' {
        v.subrange(1, v.len() - 1)
    } else {
        v
    }
}

/// The quoted items of a bracketed tag list: scan to a quote, to its
/// closing quote, take what lies between, repeat.
pub open spec fn parse_tag_items(s: Seq<char>) -> Seq<Seq<char>>
    decreases s.len(),
{
    let q1 = first_index_of(s, '"');
    if q1 >= s.len() {
        Seq::empty()
    } else {
        let rest1 = s.subrange(q1 + 1 as int, s.len() as int);
        let q2 = first_index_of(rest1, '"');
        if q2 >= rest1.len() {
            Seq::empty()
        } else {
            seq![rest1.subrange(0, q2 as int)] + parse_tag_items(
                rest1.subrange(q2 + 1 as int, rest1.len() as int),
            )
        }
    }
}

pub open spec fn parse_tags_value(raw: Seq<char>) -> Option<Seq<Seq<char>>> {
    if raw.len() >= 2 && raw[0] == '[' && raw.last() == ']' {
        Some(parse_tag_items(raw.subrange(1, raw.len() - 1)))
    } else {
        None
    }
}

/// Reads one metadata line into the partial record.  Lines without a
/// colon and unknown keys are ignored; a later occurrence of a key
/// overwrites an earlier one.
pub open spec fn apply_field_line(p: PartialTask, l: Seq<char>) -> PartialTask {
    let fc = first_index_of(l, ':');
    if fc >= l.len() {
        p
    } else {
        let key = trim_spec(l.subrange(0, fc as int));
        let raw = strip_one_space(l.subrange(fc + 1 as int, l.len() as int));
        if key == "id"@ {
            PartialTask { id: Some(raw), ..p }
        } else if key == "title"@ {
            PartialTask { title: Some(unquote(raw)), ..p }
        } else if key == "status"@ {
            PartialTask { status: Some(raw), ..p }
        } else if key == "priority"@ {
            PartialTask { priority: Some(raw), ..p }
        } else if key == "tags"@ {
            match parse_tags_value(raw) {
                Some(ts) => PartialTask { tags: Some(ts), ..p },
                None => p,
            }
        } else if key == "project"@ {
            PartialTask { project: Some(raw), ..p }
        } else if key == "created"@ {
            PartialTask { created: Some(raw), ..p }
        } else if key == "due"@ {
            PartialTask { due: Some(raw), ..p }
        } else if key == "completed"@ {
            PartialTask { completed: Some(raw), ..p }
        } else if key == "started"@ {
            PartialTask { started: Some(raw), ..p }
        } else {
            p
        }
    }
}

pub open spec fn parse_fields_from(p: PartialTask, ls: Seq<Seq<char>>) -> PartialTask
    decreases ls.len(),
{
    if ls.len() == 0 {
        p
    } else {
        apply_field_line(parse_fields_from(p, ls.drop_last()), ls.last())
    }
}

/// A record is only valid with a nonempty id and a nonempty title.
pub open spec fn task_of_partial(p: PartialTask) -> Option<TaskView> {
    match p.id {
        Some(id) => match p.title {
            Some(title) => if id.len() > 0 && title.len() > 0 {
                Some(
                    TaskView {
                        id: id,
                        title: title,
                        status: p.status,
                        priority: p.priority,
                        tags: p.tags,
                        project: p.project,
                        created: p.created,
                        due: p.due,
                        completed: p.completed,
                        started: p.started,
                    },
                )
            } else {
                None
            },
            None => None,
        },
        None => None,
    }
}

/// Decoding a line sequence: the block must open on the first line and
/// close on a later delimiter line; the body is everything after the
/// close.  Without that structure there is no record and the whole text
/// is body.
pub open spec fn spec_decode_lines(ls: Seq<Seq<char>>) -> (Option<TaskView>, Seq<Seq<char>>) {
    if ls.len() == 0 || ls[0] != delim_line() {
        (None::<TaskView>, ls)
    } else {
        let rest = ls.drop_first();
        let d = first_eq_line(rest, delim_line());
        if d >= rest.len() {
            (None::<TaskView>, ls)
        } else {
            let fields = rest.subrange(0, d as int);
            let body = rest.subrange(d + 1 as int, rest.len() as int);
            (task_of_partial(parse_fields_from(empty_partial(), fields)), body)
        }
    }
}

/// Decoding raw text: split into lines, decode, and render the body lines
/// back to text (each line newline-terminated).
pub open spec fn spec_decode(s: Seq<char>) -> (Option<TaskView>, Seq<char>) {
    let r = spec_decode_lines(spec_lines(s));
    (r.0, spec_unlines(r.1))
}

// ---------------------------------------------------------------------------
// the decoder: executable
// ---------------------------------------------------------------------------

struct PartialFields {
    id: Option<String>,
    title: Option<String>,
    status: Option<String>,
    priority: Option<String>,
    tags: Option<Vec<String>>,
    project: Option<String>,
    created: Option<String>,
    due: Option<String>,
    completed: Option<String>,
    started: Option<String>,
}

impl View for PartialFields {
    type V = PartialTask;

    closed spec fn view(&self) -> PartialTask {
        PartialTask {
            id: opt_view(self.id),
            title: opt_view(self.title),
            status: opt_view(self.status),
            priority: opt_view(self.priority),
            tags: match self.tags {
                Some(v) => Some(views_of(v@)),
                None => None,
            },
            project: opt_view(self.project),
            created: opt_view(self.created),
            due: opt_view(self.due),
            completed: opt_view(self.completed),
            started: opt_view(self.started),
        }
    }
}

fn strip_one(s: &str) -> (r: String)
    ensures
        r@ == strip_one_space(s@),
{
    let n = s.unicode_len();
    if n > 0 && s.get_char(0) == ' ' {
        let r = s.substring_char(1, n);
        proof {
            assert(s@.subrange(1, n as int) =~= s@.drop_first());
        }
        r.to_owned()
    } else {
        s.to_owned()
    }
}

fn unquote_str(s: &str) -> (r: String)
    ensures
        r@ == unquote(s@),
{
    let n = s.unicode_len();
    if n >= 2 && s.get_char(0) == '"' && s.get_char(n - 1) == '"' {
        s.substring_char(1, n - 1).to_owned()
    } else {
        s.to_owned()
    }
}

fn parse_tags_exec(s: &str) -> (r: Vec<String>)
    ensures
        views_of(r@) == parse_tag_items(s@),
    decreases s@.len(),
{
    let n = s.unicode_len();
    let q1 = find_char(s, '"');
    if q1 >= n {
        let r: Vec<String> = Vec::new();
        proof {
            assert(views_of(r@) =~~= parse_tag_items(s@));
        }
        return r;
    }
    let rest1 = s.substring_char(q1 + 1, n);
    let m = rest1.unicode_len();
    let q2 = find_char(rest1, '"');
    if q2 >= m {
        let r: Vec<String> = Vec::new();
        proof {
            assert(views_of(r@) =~~= parse_tag_items(s@));
        }
        return r;
    }
    let item = rest1.substring_char(0, q2).to_owned();
    let rest2 = rest1.substring_char(q2 + 1, m);
    let mut r = parse_tags_exec(rest2);
    let ghost pre = r@;
    r.insert(0, item);
    proof {
        assert(r@ =~= seq![item].add(pre));
        assert(views_of(r@) =~~= seq![item@] + views_of(pre));
        assert(views_of(r@) =~~= parse_tag_items(s@));
    }
    r
}

fn apply_line(p: &mut PartialFields, l: &str)
    ensures
        final(p)@ == apply_field_line(old(p)@, l@),
{
    let n = l.unicode_len();
    let fc = find_char(l, ':');
    if fc >= n {
        return;
    }
    let key = trim_str(l.substring_char(0, fc));
    let raw = strip_one(l.substring_char(fc + 1, n));
    if str_eq(key.as_str(), "id") {
        p.id = Some(raw);
    } else if str_eq(key.as_str(), "title") {
        p.title = Some(unquote_str(raw.as_str()));
    } else if str_eq(key.as_str(), "status") {
        p.status = Some(raw);
    } else if str_eq(key.as_str(), "priority") {
        p.priority = Some(raw);
    } else if str_eq(key.as_str(), "tags") {
        let rn = raw.as_str().unicode_len();
        if rn >= 2 && raw.as_str().get_char(0) == '[' && raw.as_str().get_char(rn - 1) == ']' {
            let inner = raw.as_str().substring_char(1, rn - 1);
            let items = parse_tags_exec(inner);
            p.tags = Some(items);
        }
    } else if str_eq(key.as_str(), "project") {
        p.project = Some(raw);
    } else if str_eq(key.as_str(), "created") {
        p.created = Some(raw);
    } else if str_eq(key.as_str(), "due") {
        p.due = Some(raw);
    } else if str_eq(key.as_str(), "completed") {
        p.completed = Some(raw);
    } else if str_eq(key.as_str(), "started") {
        p.started = Some(raw);
    }
}

pub open spec fn opt_task_view(o: Option<Task>) -> Option<TaskView> {
    match o {
        Some(t) => Some(t@),
        None => None,
    }
}

/// Splits raw file text into an optional decoded record and the body
/// text.  A file without a well-formed delimited block, or whose block
/// lacks a nonempty id or title, yields no record.
pub fn decode_text(s: &str) -> (r: (Option<Task>, String))
    ensures
        opt_task_view(r.0) == spec_decode(s@).0,
        r.1@ == spec_decode(s@).1,
{
    let ls = split_lines(s);
    let ghost lsv = spec_lines(s@);
    let n = ls.len();
    if n == 0 {
        return (None, join_lines(&ls));
    }
    if !str_eq(ls[0].as_str(), "---") {
        proof {
            reveal_strlit("---");
        }
        return (None, join_lines(&ls));
    }
    let mut close: usize = 1;
    while close < n && !str_eq(ls[close].as_str(), "---")
        invariant
            1 <= close <= n,
            n == ls@.len(),
            lsv == views_of(ls@),
            forall|k: int| 1 <= k < close ==> lsv[k] != delim_line(),
        decreases n - close,
    {
        close = close + 1;
    }
    proof {
        assert(lsv.drop_first().len() == n - 1);
        assert forall|j: int| 0 <= j < close - 1 implies lsv.drop_first()[j] != delim_line() by {
            assert(lsv.drop_first()[j] == lsv[j + 1]);
        }
        if close < n {
            assert(lsv.drop_first()[close - 1] == lsv[close as int]);
        }
        lemma_first_eq_line_witness(lsv.drop_first(), delim_line(), close - 1);
    }
    if close == n {
        return (None, join_lines(&ls));
    }
    let mut pf = PartialFields {
        id: None,
        title: None,
        status: None,
        priority: None,
        tags: None,
        project: None,
        created: None,
        due: None,
        completed: None,
        started: None,
    };
    let ghost fields = lsv.drop_first().subrange(0, close - 1);
    let mut i: usize = 1;
    proof {
        assert(fields.subrange(0, 0) =~~= Seq::<Seq<char>>::empty());
        assert(pf@ == parse_fields_from(empty_partial(), fields.subrange(0, 0)));
    }
    while i < close
        invariant
            1 <= i <= close < n,
            n == ls@.len(),
            lsv == views_of(ls@),
            fields == lsv.drop_first().subrange(0, close - 1),
            pf@ == parse_fields_from(empty_partial(), fields.subrange(0, i - 1)),
        decreases close - i,
    {
        apply_line(&mut pf, ls[i].as_str());
        proof {
            let sub = fields.subrange(0, i as int);
            assert(sub.drop_last() =~~= fields.subrange(0, i - 1));
            assert(sub.last() == fields[i - 1]);
            assert(fields[i - 1] == lsv[i as int]);
            assert(lsv[i as int] == ls@[i as int]@);
        }
        i = i + 1;
    }
    proof {
        assert(fields.subrange(0, close - 1) =~~= fields);
    }
    let body = join_lines_range(&ls, close + 1, n);
    proof {
        assert(lsv.drop_first().subrange(close as int, n - 1) =~~= lsv.subrange(
            close + 1,
            n as int,
        ));
        assert(views_of(ls@).subrange(close + 1, n as int) == lsv.subrange(close + 1, n as int));
    }
    let task = build_task(pf);
    proof {
        assert(opt_task_view(task) == task_of_partial(parse_fields_from(empty_partial(), fields)));
    }
    (task, body)
}

fn build_task(pf: PartialFields) -> (r: Option<Task>)
    ensures
        opt_task_view(r) == task_of_partial(pf@),
{
    match (pf.id, pf.title) {
        (Some(id), Some(title)) => {
            if !id.as_str().is_empty() && !title.as_str().is_empty() {
                Some(
                    Task {
                        id,
                        title,
                        status: pf.status,
                        priority: pf.priority,
                        tags: pf.tags,
                        project: pf.project,
                        created: pf.created,
                        due: pf.due,
                        completed: pf.completed,
                        started: pf.started,
                    },
                )
            } else {
                None
            }
        },
        _ => None,
    }
}

// ---------------------------------------------------------------------------
// round trip: decoding an encoded record restores it
// ---------------------------------------------------------------------------

/// A metadata key contains neither the colon separator nor whitespace.
pub open spec fn key_char_ok(c: char) -> bool {
    c != ':' && !is_space_char(c)
}

pub open spec fn key_ok(key: Seq<char>) -> bool {
    key.len() > 0 && forall|j: int| 0 <= j < key.len() ==> key_char_ok(#[trigger] key[j])
}

proof fn lemma_trim_of_clean(s: Seq<char>)
    requires
        s.len() > 0,
        !is_space_char(s[0]),
        !is_space_char(s.last()),
    ensures
        trim_spec(s) == s,
{
    lemma_trim_start_at(s, 0);
    assert(s.subrange(0, s.len() as int) =~= s);
    lemma_trim_end_at(s, s.len() as int);
}

/// How one rendered `key: value` line reads back: the first colon sits
/// right after the key, the key comes back trimmed, and the value loses
/// only the one separating space.
proof fn lemma_parse_kv_line(key: Seq<char>, v: Seq<char>)
    requires
        key_ok(key),
    ensures
        first_index_of(kv_line(key, v), ':') == key.len(),
        key.len() < kv_line(key, v).len(),
        trim_spec(kv_line(key, v).subrange(0, key.len() as int)) == key,
        strip_one_space(
            kv_line(key, v).subrange(key.len() + 1 as int, kv_line(key, v).len() as int),
        ) == v,
{
    reveal_strlit(": ");
    let l = kv_line(key, v);
    let tail = ": "@ + v;
    assert(tail[0] == ':');
    lemma_first_index_witness(tail, ':', 0);
    lemma_first_index_concat(key, tail, ':');
    assert(key + tail =~= l);
    assert(first_index_of(l, ':') == key.len());
    assert(l.subrange(0, key.len() as int) =~= key);
    lemma_trim_of_clean(key);
    let raw = l.subrange(key.len() + 1 as int, l.len() as int);
    assert(raw.len() > 0);
    assert(raw[0] == l[key.len() + 1 as int]);
    assert(raw[0] == ' ');
    assert(raw.drop_first() =~= v);
}

proof fn lemma_key_ok_id()
    ensures
        key_ok("id"@),
        "id"@.len() == 2,
        "id"@[0] == 'i',
{
    reveal_strlit("id");
    assert forall|j: int| 0 <= j < "id"@.len() implies key_char_ok("id"@[j]) by {
        if j == 0 {
        } else {
            assert(j == 1);
        }
    }
}

proof fn lemma_key_ok_title()
    ensures
        key_ok("title"@),
        "title"@.len() == 5,
        "title"@[0] == 't',
{
    reveal_strlit("title");
    assert forall|j: int| 0 <= j < "title"@.len() implies key_char_ok("title"@[j]) by {
        if j == 0 {
        } else if j == 1 {
        } else if j == 2 {
        } else if j == 3 {
        } else {
            assert(j == 4);
        }
    }
}

proof fn lemma_key_ok_status()
    ensures
        key_ok("status"@),
        "status"@.len() == 6,
        "status"@[0] == 's',
{
    reveal_strlit("status");
    assert forall|j: int| 0 <= j < "status"@.len() implies key_char_ok("status"@[j]) by {
        if j == 0 {
        } else if j == 1 {
        } else if j == 2 {
        } else if j == 3 {
        } else if j == 4 {
        } else {
            assert(j == 5);
        }
    }
}

proof fn lemma_key_ok_priority()
    ensures
        key_ok("priority"@),
        "priority"@.len() == 8,
        "priority"@[0] == 'p',
{
    reveal_strlit("priority");
    assert forall|j: int| 0 <= j < "priority"@.len() implies key_char_ok("priority"@[j]) by {
        if j == 0 {
        } else if j == 1 {
        } else if j == 2 {
        } else if j == 3 {
        } else if j == 4 {
        } else if j == 5 {
        } else if j == 6 {
        } else {
            assert(j == 7);
        }
    }
}

proof fn lemma_key_ok_tags()
    ensures
        key_ok("tags"@),
        "tags"@.len() == 4,
        "tags"@[0] == 't',
        "tags"@[1] == 'a',
{
    reveal_strlit("tags");
    assert forall|j: int| 0 <= j < "tags"@.len() implies key_char_ok("tags"@[j]) by {
        if j == 0 {
        } else if j == 1 {
        } else if j == 2 {
        } else {
            assert(j == 3);
        }
    }
}

proof fn lemma_key_ok_project()
    ensures
        key_ok("project"@),
        "project"@.len() == 7,
        "project"@[0] == 'p',
        "project"@[1] == 'r',
{
    reveal_strlit("project");
    assert forall|j: int| 0 <= j < "project"@.len() implies key_char_ok("project"@[j]) by {
        if j == 0 {
        } else if j == 1 {
        } else if j == 2 {
        } else if j == 3 {
        } else if j == 4 {
        } else if j == 5 {
        } else {
            assert(j == 6);
        }
    }
}

proof fn lemma_key_ok_created()
    ensures
        key_ok("created"@),
        "created"@.len() == 7,
        "created"@[0] == 'c',
{
    reveal_strlit("created");
    assert forall|j: int| 0 <= j < "created"@.len() implies key_char_ok("created"@[j]) by {
        if j == 0 {
        } else if j == 1 {
        } else if j == 2 {
        } else if j == 3 {
        } else if j == 4 {
        } else if j == 5 {
        } else {
            assert(j == 6);
        }
    }
}

proof fn lemma_key_ok_due()
    ensures
        key_ok("due"@),
        "due"@.len() == 3,
        "due"@[0] == 'd',
{
    reveal_strlit("due");
    assert forall|j: int| 0 <= j < "due"@.len() implies key_char_ok("due"@[j]) by {
        if j == 0 {
        } else if j == 1 {
        } else {
            assert(j == 2);
        }
    }
}

proof fn lemma_key_ok_completed()
    ensures
        key_ok("completed"@),
        "completed"@.len() == 9,
        "completed"@[0] == 'c',
        "completed"@[1] == 'o',
{
    reveal_strlit("completed");
    assert forall|j: int| 0 <= j < "completed"@.len() implies key_char_ok("completed"@[j]) by {
        if j == 0 {
        } else if j == 1 {
        } else if j == 2 {
        } else if j == 3 {
        } else if j == 4 {
        } else if j == 5 {
        } else if j == 6 {
        } else if j == 7 {
        } else {
            assert(j == 8);
        }
    }
}

proof fn lemma_key_ok_started()
    ensures
        key_ok("started"@),
        "started"@.len() == 7,
        "started"@[0] == 's',
        "started"@[1] == 't',
{
    reveal_strlit("started");
    assert forall|j: int| 0 <= j < "started"@.len() implies key_char_ok("started"@[j]) by {
        if j == 0 {
        } else if j == 1 {
        } else if j == 2 {
        } else if j == 3 {
        } else if j == 4 {
        } else if j == 5 {
        } else {
            assert(j == 6);
        }
    }
}

/// All ten key literals, with their first characters, at once.
proof fn lemma_all_keys_ok()
    ensures
        key_ok("id"@) && "id"@.len() == 2 && "id"@[0] == 'i',
        key_ok("title"@) && "title"@.len() == 5 && "title"@[0] == 't',
        key_ok("status"@) && "status"@.len() == 6 && "status"@[0] == 's',
        key_ok("priority"@) && "priority"@.len() == 8 && "priority"@[0] == 'p',
        key_ok("tags"@) && "tags"@.len() == 4 && "tags"@[0] == 't' && "tags"@[1] == 'a',
        key_ok("project"@) && "project"@.len() == 7 && "project"@[0] == 'p' && "project"@[1]
            == 'r',
        key_ok("created"@) && "created"@.len() == 7 && "created"@[0] == 'c',
        key_ok("due"@) && "due"@.len() == 3 && "due"@[0] == 'd',
        key_ok("completed"@) && "completed"@.len() == 9 && "completed"@[0] == 'c' && "completed"@[1]
            == 'o',
        key_ok("started"@) && "started"@.len() == 7 && "started"@[0] == 's' && "started"@[1]
            == 't',
{
    lemma_key_ok_id();
    lemma_key_ok_title();
    lemma_key_ok_status();
    lemma_key_ok_priority();
    lemma_key_ok_tags();
    lemma_key_ok_project();
    lemma_key_ok_created();
    lemma_key_ok_due();
    lemma_key_ok_completed();
    lemma_key_ok_started();
}

proof fn lemma_apply_id(p: PartialTask, v: Seq<char>)
    ensures
        apply_field_line(p, kv_line("id"@, v)) == (PartialTask { id: Some(v), ..p }),
{
    lemma_all_keys_ok();
    lemma_parse_kv_line("id"@, v);
}

proof fn lemma_apply_title(p: PartialTask, tl: Seq<char>)
    ensures
        apply_field_line(p, kv_line("title"@, quoted(tl))) == (PartialTask {
            title: Some(tl),
            ..p
        }),
{
    lemma_all_keys_ok();
    lemma_parse_kv_line("title"@, quoted(tl));
    let q = quoted(tl);
    assert(q.len() >= 2);
    assert(q[0] == '"');
    assert(q.last() == '"');
    assert(q.subrange(1, q.len() - 1) =~= tl);
}

proof fn lemma_apply_status(p: PartialTask, v: Seq<char>)
    ensures
        apply_field_line(p, kv_line("status"@, v)) == (PartialTask { status: Some(v), ..p }),
{
    lemma_all_keys_ok();
    lemma_parse_kv_line("status"@, v);
}

proof fn lemma_apply_priority(p: PartialTask, v: Seq<char>)
    ensures
        apply_field_line(p, kv_line("priority"@, v)) == (PartialTask { priority: Some(v), ..p }),
{
    lemma_all_keys_ok();
    lemma_parse_kv_line("priority"@, v);
}

proof fn lemma_apply_project(p: PartialTask, v: Seq<char>)
    ensures
        apply_field_line(p, kv_line("project"@, v)) == (PartialTask { project: Some(v), ..p }),
{
    lemma_all_keys_ok();
    lemma_parse_kv_line("project"@, v);
}

proof fn lemma_apply_created(p: PartialTask, v: Seq<char>)
    ensures
        apply_field_line(p, kv_line("created"@, v)) == (PartialTask { created: Some(v), ..p }),
{
    lemma_all_keys_ok();
    lemma_parse_kv_line("created"@, v);
}

proof fn lemma_apply_due(p: PartialTask, v: Seq<char>)
    ensures
        apply_field_line(p, kv_line("due"@, v)) == (PartialTask { due: Some(v), ..p }),
{
    lemma_all_keys_ok();
    lemma_parse_kv_line("due"@, v);
}

proof fn lemma_apply_completed(p: PartialTask, v: Seq<char>)
    ensures
        apply_field_line(p, kv_line("completed"@, v)) == (PartialTask { completed: Some(v), ..p }),
{
    lemma_all_keys_ok();
    lemma_parse_kv_line("completed"@, v);
}

proof fn lemma_apply_started(p: PartialTask, v: Seq<char>)
    ensures
        apply_field_line(p, kv_line("started"@, v)) == (PartialTask { started: Some(v), ..p }),
{
    lemma_all_keys_ok();
    lemma_parse_kv_line("started"@, v);
}

/// Scanning for quoted items ignores any quote-free prefix.
proof fn lemma_parse_tag_items_skip(pre: Seq<char>, s: Seq<char>)
    requires
        forall|j: int| 0 <= j < pre.len() ==> pre[j] != '"',
    ensures
        parse_tag_items(pre + s) == parse_tag_items(s),
{
    let t = pre + s;
    lemma_first_index_concat(pre, s, '"');
    lemma_first_index_of(s, '"');
    let q1 = first_index_of(s, '"');
    if q1 >= s.len() {
        assert(first_index_of(t, '"') >= t.len());
    } else {
        let q1t = first_index_of(t, '"');
        assert(q1t == pre.len() + q1);
        assert(q1t < t.len());
        assert(t.subrange(q1t + 1 as int, t.len() as int) =~= s.subrange(
            q1 + 1 as int,
            s.len() as int,
        ));
    }
}

/// Parsing the rendered tag list restores the tags.
proof fn lemma_parse_tag_items_round(ts: Seq<Seq<char>>)
    requires
        forall|i: int| 0 <= i < ts.len() ==> tag_ok(#[trigger] ts[i]),
    ensures
        parse_tag_items(tags_inner(ts)) == ts,
    decreases ts.len(),
{
    if ts.len() == 0 {
        assert(tags_inner(ts) == Seq::<char>::empty());
        assert(parse_tag_items(tags_inner(ts)) =~~= ts);
    } else {
        let t0 = ts[0];
        assert(tag_ok(t0));
        let inner = tags_inner(ts);
        if ts.len() == 1 {
            assert(inner == quoted(t0));
            assert(inner[0] == '"');
            lemma_first_index_witness(inner, '"', 0);
            let rest1 = inner.subrange(0 + 1 as int, inner.len() as int);
            assert(rest1 =~= t0 + seq!['"']);
            assert(forall|j: int| 0 <= j < t0.len() ==> rest1[j] != '"');
            assert(rest1[t0.len() as int] == '"');
            lemma_first_index_witness(rest1, '"', t0.len() as int);
            assert(rest1.subrange(0, t0.len() as int) =~= t0);
            let rest2 = rest1.subrange(t0.len() + 1 as int, rest1.len() as int);
            assert(rest2 =~= Seq::<char>::empty());
            assert(parse_tag_items(rest2) == Seq::<Seq<char>>::empty());
            assert(seq![t0] + Seq::<Seq<char>>::empty() =~~= ts);
            assert(parse_tag_items(inner) == ts);
        } else {
            assert forall|i: int| 0 <= i < ts.drop_first().len() implies tag_ok(
                #[trigger] ts.drop_first()[i],
            ) by {
                assert(ts.drop_first()[i] == ts[i + 1]);
            }
            lemma_parse_tag_items_round(ts.drop_first());
            let tail = tags_inner(ts.drop_first());
            assert(inner == quoted(t0) + ", "@ + tail);
            assert(inner[0] == '"');
            lemma_first_index_witness(inner, '"', 0);
            let rest1 = inner.subrange(0 + 1 as int, inner.len() as int);
            assert(rest1 =~= t0 + seq!['"'] + ", "@ + tail);
            assert(forall|j: int| 0 <= j < t0.len() ==> rest1[j] != '"');
            assert(rest1[t0.len() as int] == '"');
            lemma_first_index_witness(rest1, '"', t0.len() as int);
            assert(rest1.subrange(0, t0.len() as int) =~= t0);
            let rest2 = rest1.subrange(t0.len() + 1 as int, rest1.len() as int);
            assert(rest2 =~= ", "@ + tail);
            reveal_strlit(", ");
            assert forall|j: int| 0 <= j < ", "@.len() implies ", "@[j] != '"' by {
                if j == 0 {
                } else {
                    assert(j == 1);
                }
            }
            lemma_parse_tag_items_skip(", "@, tail);
            assert(parse_tag_items(rest2) == ts.drop_first());
            assert(seq![t0] + ts.drop_first() =~~= ts);
            assert(parse_tag_items(inner) == ts);
        }
    }
}

proof fn lemma_apply_tags(p: PartialTask, ts: Seq<Seq<char>>)
    requires
        forall|i: int| 0 <= i < ts.len() ==> tag_ok(#[trigger] ts[i]),
    ensures
        apply_field_line(p, kv_line("tags"@, tags_value(ts))) == (PartialTask {
            tags: Some(ts),
            ..p
        }),
{
    lemma_all_keys_ok();
    lemma_parse_kv_line("tags"@, tags_value(ts));
    let raw = tags_value(ts);
    assert(raw.len() >= 2);
    assert(raw[0] == '[');
    assert(raw.last() == ']');
    assert(raw.subrange(1, raw.len() - 1) =~= tags_inner(ts));
    lemma_parse_tag_items_round(ts);
}

proof fn lemma_parse_snoc(p: PartialTask, a: Seq<Seq<char>>, l: Seq<char>)
    ensures
        parse_fields_from(p, a.push(l)) == apply_field_line(parse_fields_from(p, a), l),
{
    assert(a.push(l).drop_last() =~~= a);
    assert(a.push(l).last() == l);
}

/// Folding the rendered field lines over an empty partial record yields a
/// partial record holding exactly the task's fields.
#[verifier::rlimit(60)]
proof fn lemma_fields_round(t: TaskView)
    requires
        valid_task(t),
    ensures
        parse_fields_from(empty_partial(), field_lines(t)) == (PartialTask {
            id: Some(t.id),
            title: Some(t.title),
            status: t.status,
            priority: t.priority,
            tags: t.tags,
            project: t.project,
            created: t.created,
            due: t.due,
            completed: t.completed,
            started: t.started,
        }),
{
    let e = empty_partial();
    let l_id = kv_line("id"@, t.id);
    let l_title = kv_line("title"@, quoted(t.title));
    let c0 = seq![l_id];
    let c1 = c0 + seq![l_title];
    let c2 = c1 + opt_kv_lines("status"@, t.status);
    let c3 = c2 + opt_kv_lines("priority"@, t.priority);
    let c4 = c3 + tags_lines(t.tags);
    let c5 = c4 + opt_kv_lines("project"@, t.project);
    let c6 = c5 + opt_kv_lines("created"@, t.created);
    let c7 = c6 + opt_kv_lines("due"@, t.due);
    let c8 = c7 + opt_kv_lines("completed"@, t.completed);
    let c9 = c8 + opt_kv_lines("started"@, t.started);
    assert(field_lines(t) == c9);

    assert(c0 =~~= Seq::<Seq<char>>::empty().push(l_id));
    lemma_parse_snoc(e, Seq::<Seq<char>>::empty(), l_id);
    lemma_apply_id(e, t.id);
    let p0 = parse_fields_from(e, c0);
    assert(p0 == (PartialTask { id: Some(t.id), ..e }));

    assert(c1 =~~= c0.push(l_title));
    lemma_parse_snoc(e, c0, l_title);
    lemma_apply_title(p0, t.title);
    let p1 = parse_fields_from(e, c1);
    assert(p1 == (PartialTask { title: Some(t.title), ..p0 }));

    let p2 = parse_fields_from(e, c2);
    match t.status {
        Some(v) => {
            assert(c2 =~~= c1.push(kv_line("status"@, v)));
            lemma_parse_snoc(e, c1, kv_line("status"@, v));
            lemma_apply_status(p1, v);
            assert(p2 == (PartialTask { status: Some(v), ..p1 }));
        },
        None => {
            assert(c2 =~~= c1);
            assert(p2 == p1);
        },
    }

    let p3 = parse_fields_from(e, c3);
    match t.priority {
        Some(v) => {
            assert(c3 =~~= c2.push(kv_line("priority"@, v)));
            lemma_parse_snoc(e, c2, kv_line("priority"@, v));
            lemma_apply_priority(p2, v);
            assert(p3 == (PartialTask { priority: Some(v), ..p2 }));
        },
        None => {
            assert(c3 =~~= c2);
            assert(p3 == p2);
        },
    }

    let p4 = parse_fields_from(e, c4);
    match t.tags {
        Some(ts) => {
            assert(c4 =~~= c3.push(kv_line("tags"@, tags_value(ts))));
            lemma_parse_snoc(e, c3, kv_line("tags"@, tags_value(ts)));
            lemma_apply_tags(p3, ts);
            assert(p4 == (PartialTask { tags: Some(ts), ..p3 }));
        },
        None => {
            assert(c4 =~~= c3);
            assert(p4 == p3);
        },
    }

    let p5 = parse_fields_from(e, c5);
    match t.project {
        Some(v) => {
            assert(c5 =~~= c4.push(kv_line("project"@, v)));
            lemma_parse_snoc(e, c4, kv_line("project"@, v));
            lemma_apply_project(p4, v);
            assert(p5 == (PartialTask { project: Some(v), ..p4 }));
        },
        None => {
            assert(c5 =~~= c4);
            assert(p5 == p4);
        },
    }

    let p6 = parse_fields_from(e, c6);
    match t.created {
        Some(v) => {
            assert(c6 =~~= c5.push(kv_line("created"@, v)));
            lemma_parse_snoc(e, c5, kv_line("created"@, v));
            lemma_apply_created(p5, v);
            assert(p6 == (PartialTask { created: Some(v), ..p5 }));
        },
        None => {
            assert(c6 =~~= c5);
            assert(p6 == p5);
        },
    }

    let p7 = parse_fields_from(e, c7);
    match t.due {
        Some(v) => {
            assert(c7 =~~= c6.push(kv_line("due"@, v)));
            lemma_parse_snoc(e, c6, kv_line("due"@, v));
            lemma_apply_due(p6, v);
            assert(p7 == (PartialTask { due: Some(v), ..p6 }));
        },
        None => {
            assert(c7 =~~= c6);
            assert(p7 == p6);
        },
    }

    let p8 = parse_fields_from(e, c8);
    match t.completed {
        Some(v) => {
            assert(c8 =~~= c7.push(kv_line("completed"@, v)));
            lemma_parse_snoc(e, c7, kv_line("completed"@, v));
            lemma_apply_completed(p7, v);
            assert(p8 == (PartialTask { completed: Some(v), ..p7 }));
        },
        None => {
            assert(c8 =~~= c7);
            assert(p8 == p7);
        },
    }

    let p9 = parse_fields_from(e, c9);
    match t.started {
        Some(v) => {
            assert(c9 =~~= c8.push(kv_line("started"@, v)));
            lemma_parse_snoc(e, c8, kv_line("started"@, v));
            lemma_apply_started(p8, v);
            assert(p9 == (PartialTask { started: Some(v), ..p8 }));
        },
        None => {
            assert(c9 =~~= c8);
            assert(p9 == p8);
        },
    }
}

// ---------------------------------------------------------------------------
// shape of the rendered lines
// ---------------------------------------------------------------------------

/// No rendered field line can be mistaken for a delimiter: each starts
/// with its key's first letter, never a dash.
spec fn nondash_lines(ls: Seq<Seq<char>>) -> bool {
    forall|i: int| 0 <= i < ls.len() ==> (#[trigger] ls[i]).len() > 0 && ls[i][0] != '-'
}

proof fn lemma_nondash_concat(a: Seq<Seq<char>>, b: Seq<Seq<char>>)
    requires
        nondash_lines(a),
        nondash_lines(b),
    ensures
        nondash_lines(a + b),
{
    assert forall|i: int| 0 <= i < (a + b).len() implies ((a + b)[i].len() > 0 && (a + b)[i][0]
        != '-') by {
        if i < a.len() {
            assert((a + b)[i] == a[i]);
        } else {
            assert((a + b)[i] == b[i - a.len()]);
        }
    }
}

proof fn lemma_nondash_single(l: Seq<char>)
    requires
        l.len() > 0,
        l[0] != '-',
    ensures
        nondash_lines(seq![l]),
{
    assert forall|i: int| 0 <= i < seq![l].len() implies ((seq![l][i]).len() > 0 && seq![l][i][0]
        != '-') by {
        assert(i == 0);
    }
}

proof fn lemma_kv_first_char(key: Seq<char>, v: Seq<char>)
    requires
        key.len() > 0,
    ensures
        kv_line(key, v).len() > 0,
        kv_line(key, v)[0] == key[0],
{
    reveal_strlit(": ");
}

#[verifier::rlimit(30)]
proof fn lemma_field_lines_nondash(t: TaskView)
    ensures
        nondash_lines(field_lines(t)),
{
    lemma_all_keys_ok();
    let c0 = seq![kv_line("id"@, t.id)];
    let c1 = c0 + seq![kv_line("title"@, quoted(t.title))];
    let c2 = c1 + opt_kv_lines("status"@, t.status);
    let c3 = c2 + opt_kv_lines("priority"@, t.priority);
    let c4 = c3 + tags_lines(t.tags);
    let c5 = c4 + opt_kv_lines("project"@, t.project);
    let c6 = c5 + opt_kv_lines("created"@, t.created);
    let c7 = c6 + opt_kv_lines("due"@, t.due);
    let c8 = c7 + opt_kv_lines("completed"@, t.completed);
    let c9 = c8 + opt_kv_lines("started"@, t.started);
    assert(field_lines(t) == c9);
    lemma_kv_first_char("id"@, t.id);
    lemma_nondash_single(kv_line("id"@, t.id));
    lemma_kv_first_char("title"@, quoted(t.title));
    lemma_nondash_single(kv_line("title"@, quoted(t.title)));
    lemma_nondash_concat(c0, seq![kv_line("title"@, quoted(t.title))]);
    match t.status {
        Some(v) => {
            lemma_kv_first_char("status"@, v);
            lemma_nondash_single(kv_line("status"@, v));
        },
        None => {},
    }
    lemma_nondash_concat(c1, opt_kv_lines("status"@, t.status));
    match t.priority {
        Some(v) => {
            lemma_kv_first_char("priority"@, v);
            lemma_nondash_single(kv_line("priority"@, v));
        },
        None => {},
    }
    lemma_nondash_concat(c2, opt_kv_lines("priority"@, t.priority));
    match t.tags {
        Some(ts) => {
            lemma_kv_first_char("tags"@, tags_value(ts));
            lemma_nondash_single(kv_line("tags"@, tags_value(ts)));
        },
        None => {},
    }
    lemma_nondash_concat(c3, tags_lines(t.tags));
    match t.project {
        Some(v) => {
            lemma_kv_first_char("project"@, v);
            lemma_nondash_single(kv_line("project"@, v));
        },
        None => {},
    }
    lemma_nondash_concat(c4, opt_kv_lines("project"@, t.project));
    match t.created {
        Some(v) => {
            lemma_kv_first_char("created"@, v);
            lemma_nondash_single(kv_line("created"@, v));
        },
        None => {},
    }
    lemma_nondash_concat(c5, opt_kv_lines("created"@, t.created));
    match t.due {
        Some(v) => {
            lemma_kv_first_char("due"@, v);
            lemma_nondash_single(kv_line("due"@, v));
        },
        None => {},
    }
    lemma_nondash_concat(c6, opt_kv_lines("due"@, t.due));
    match t.completed {
        Some(v) => {
            lemma_kv_first_char("completed"@, v);
            lemma_nondash_single(kv_line("completed"@, v));
        },
        None => {},
    }
    lemma_nondash_concat(c7, opt_kv_lines("completed"@, t.completed));
    match t.started {
        Some(v) => {
            lemma_kv_first_char("started"@, v);
            lemma_nondash_single(kv_line("started"@, v));
        },
        None => {},
    }
    lemma_nondash_concat(c8, opt_kv_lines("started"@, t.started));
}

/// Decoding the rendered lines of a valid record, followed by any body
/// lines, restores the record and the body.
pub proof fn lemma_decode_encode_lines(t: TaskView, body: Seq<Seq<char>>)
    requires
        valid_task(t),
    ensures
        spec_decode_lines(spec_encode_lines(t) + body).0 == Some(t),
        spec_decode_lines(spec_encode_lines(t) + body).1 == body,
{
    reveal_strlit("---");
    let f = field_lines(t);
    let enc = spec_encode_lines(t);
    let ls = enc + body;
    assert(ls[0] == delim_line());
    let rest = ls.drop_first();
    assert(rest =~~= f + seq![delim_line()] + body);
    lemma_field_lines_nondash(t);
    assert(delim_line().len() == 3 && delim_line()[0] == '-');
    assert forall|j: int| 0 <= j < f.len() implies rest[j] != delim_line() by {
        assert(rest[j] == f[j]);
        assert(f[j].len() > 0 && f[j][0] != '-');
    }
    assert(rest[f.len() as int] == delim_line());
    lemma_first_eq_line_witness(rest, delim_line(), f.len() as int);
    let d = first_eq_line(rest, delim_line());
    assert(d == f.len());
    assert(d < rest.len());
    assert(rest.subrange(0, d as int) =~~= f);
    assert(rest.subrange(d + 1 as int, rest.len() as int) =~~= body);
    lemma_fields_round(t);
}

/// The round-trip law: encode a valid record, append any (newline-
/// terminated or empty) body text, decode the whole file — every field of
/// the record and the body come back unchanged.
pub proof fn lemma_codec_round_trip(t: TaskView, body: Seq<char>)
    requires
        valid_task(t),
        body.len() == 0 || body.last() == '\n',
    ensures
        spec_decode(spec_encode(t) + body).0 == Some(t),
        spec_decode(spec_encode(t) + body).1 == body,
{
    let enc = spec_encode_lines(t);
    lemma_encode_lines_ok(t);
    assert(enc.len() >= 2);
    lemma_spec_unlines_ends_nl(enc);
    lemma_spec_lines_concat(spec_encode(t), body);
    lemma_lines_unlines(enc);
    assert(spec_lines(spec_encode(t) + body) == enc + spec_lines(body));
    lemma_decode_encode_lines(t, spec_lines(body));
    lemma_unlines_lines(body);
}

// ---------------------------------------------------------------------------
// every rendered line is newline-free
// ---------------------------------------------------------------------------

proof fn lemma_line_ok_concat(a: Seq<char>, b: Seq<char>)
    requires
        line_ok(a),
        line_ok(b),
    ensures
        line_ok(a + b),
{
    assert forall|i: int| 0 <= i < (a + b).len() implies (a + b)[i] != '\n' by {
        if i < a.len() {
            assert((a + b)[i] == a[i]);
        } else {
            assert((a + b)[i] == b[i - a.len()]);
        }
    }
}

proof fn lemma_lines_ok_concat(a: Seq<Seq<char>>, b: Seq<Seq<char>>)
    requires
        lines_ok(a),
        lines_ok(b),
    ensures
        lines_ok(a + b),
{
    assert forall|i: int| 0 <= i < (a + b).len() implies line_ok(#[trigger] (a + b)[i]) by {
        if i < a.len() {
            assert((a + b)[i] == a[i]);
        } else {
            assert((a + b)[i] == b[i - a.len()]);
        }
    }
}

proof fn lemma_lines_ok_single(l: Seq<char>)
    requires
        line_ok(l),
    ensures
        lines_ok(seq![l]),
{
    assert forall|i: int| 0 <= i < seq![l].len() implies line_ok(#[trigger] seq![l][i]) by {
        assert(i == 0);
    }
}

proof fn lemma_key_line_ok(key: Seq<char>)
    requires
        key_ok(key),
    ensures
        line_ok(key),
{
    assert forall|i: int| 0 <= i < key.len() implies key[i] != '\n' by {
        assert(key_char_ok(key[i]));
    }
}

proof fn lemma_kv_line_ok(key: Seq<char>, v: Seq<char>)
    requires
        key_ok(key),
        line_ok(v),
    ensures
        line_ok(kv_line(key, v)),
{
    reveal_strlit(": ");
    lemma_key_line_ok(key);
    assert forall|i: int| 0 <= i < ": "@.len() implies ": "@[i] != '\n' by {
        if i == 0 {
        } else {
            assert(i == 1);
        }
    }
    lemma_line_ok_concat(key, ": "@);
    lemma_line_ok_concat(key + ": "@, v);
}

proof fn lemma_quoted_line_ok(v: Seq<char>)
    requires
        line_ok(v),
    ensures
        line_ok(quoted(v)),
{
    assert(line_ok(seq!['"'])) by {
        assert forall|i: int| 0 <= i < seq!['"'].len() implies seq!['"'][i] != '\n' by {
            assert(i == 0);
        }
    }
    lemma_line_ok_concat(seq!['"'], v);
    lemma_line_ok_concat(seq!['"'] + v, seq!['"']);
}

proof fn lemma_tags_inner_ok(ts: Seq<Seq<char>>)
    requires
        forall|i: int| 0 <= i < ts.len() ==> tag_ok(#[trigger] ts[i]),
    ensures
        line_ok(tags_inner(ts)),
    decreases ts.len(),
{
    reveal_strlit(", ");
    if ts.len() == 0 {
        assert(line_ok(tags_inner(ts)));
    } else if ts.len() == 1 {
        assert(tag_ok(ts[0]));
        lemma_quoted_line_ok(ts[0]);
    } else {
        assert(tag_ok(ts[0]));
        lemma_quoted_line_ok(ts[0]);
        assert forall|i: int| 0 <= i < ts.drop_first().len() implies tag_ok(
            #[trigger] ts.drop_first()[i],
        ) by {
            assert(ts.drop_first()[i] == ts[i + 1]);
        }
        lemma_tags_inner_ok(ts.drop_first());
        assert(line_ok(", "@)) by {
            assert forall|i: int| 0 <= i < ", "@.len() implies ", "@[i] != '\n' by {
                if i == 0 {
                } else {
                    assert(i == 1);
                }
            }
        }
        lemma_line_ok_concat(quoted(ts[0]), ", "@);
        lemma_line_ok_concat(quoted(ts[0]) + ", "@, tags_inner(ts.drop_first()));
    }
}

proof fn lemma_tags_value_ok(ts: Seq<Seq<char>>)
    requires
        forall|i: int| 0 <= i < ts.len() ==> tag_ok(#[trigger] ts[i]),
    ensures
        line_ok(tags_value(ts)),
{
    lemma_tags_inner_ok(ts);
    assert(line_ok(seq!['['])) by {
        assert forall|i: int| 0 <= i < seq!['['].len() implies seq!['['][i] != '\n' by {
            assert(i == 0);
        }
    }
    assert(line_ok(seq![']'])) by {
        assert forall|i: int| 0 <= i < seq![']'].len() implies seq![']'][i] != '\n' by {
            assert(i == 0);
        }
    }
    lemma_line_ok_concat(seq!['['], tags_inner(ts));
    lemma_line_ok_concat(seq!['['] + tags_inner(ts), seq![']']);
}

/// Every line the encoder emits is newline-free, so joining and splitting
/// them is lossless.
#[verifier::rlimit(30)]
proof fn lemma_encode_lines_ok(t: TaskView)
    requires
        valid_task(t),
    ensures
        lines_ok(spec_encode_lines(t)),
{
    reveal_strlit("---");
    lemma_all_keys_ok();
    assert(line_ok(delim_line())) by {
        assert forall|i: int| 0 <= i < "---"@.len() implies "---"@[i] != '\n' by {
            if i == 0 {
            } else if i == 1 {
            } else {
                assert(i == 2);
            }
        }
    }
    lemma_lines_ok_single(delim_line());
    lemma_kv_line_ok("id"@, t.id);
    lemma_lines_ok_single(kv_line("id"@, t.id));
    lemma_quoted_line_ok(t.title);
    lemma_kv_line_ok("title"@, quoted(t.title));
    lemma_lines_ok_single(kv_line("title"@, quoted(t.title)));
    match t.status {
        Some(v) => {
            lemma_kv_line_ok("status"@, v);
            lemma_lines_ok_single(kv_line("status"@, v));
        },
        None => {},
    }
    match t.priority {
        Some(v) => {
            lemma_kv_line_ok("priority"@, v);
            lemma_lines_ok_single(kv_line("priority"@, v));
        },
        None => {},
    }
    match t.tags {
        Some(ts) => {
            lemma_tags_value_ok(ts);
            lemma_kv_line_ok("tags"@, tags_value(ts));
            lemma_lines_ok_single(kv_line("tags"@, tags_value(ts)));
        },
        None => {},
    }
    match t.project {
        Some(v) => {
            lemma_kv_line_ok("project"@, v);
            lemma_lines_ok_single(kv_line("project"@, v));
        },
        None => {},
    }
    match t.created {
        Some(v) => {
            lemma_kv_line_ok("created"@, v);
            lemma_lines_ok_single(kv_line("created"@, v));
        },
        None => {},
    }
    match t.due {
        Some(v) => {
            lemma_kv_line_ok("due"@, v);
            lemma_lines_ok_single(kv_line("due"@, v));
        },
        None => {},
    }
    match t.completed {
        Some(v) => {
            lemma_kv_line_ok("completed"@, v);
            lemma_lines_ok_single(kv_line("completed"@, v));
        },
        None => {},
    }
    match t.started {
        Some(v) => {
            lemma_kv_line_ok("started"@, v);
            lemma_lines_ok_single(kv_line("started"@, v));
        },
        None => {},
    }
    let c0 = seq![kv_line("id"@, t.id)];
    let c1 = c0 + seq![kv_line("title"@, quoted(t.title))];
    let c2 = c1 + opt_kv_lines("status"@, t.status);
    let c3 = c2 + opt_kv_lines("priority"@, t.priority);
    let c4 = c3 + tags_lines(t.tags);
    let c5 = c4 + opt_kv_lines("project"@, t.project);
    let c6 = c5 + opt_kv_lines("created"@, t.created);
    let c7 = c6 + opt_kv_lines("due"@, t.due);
    let c8 = c7 + opt_kv_lines("completed"@, t.completed);
    let c9 = c8 + opt_kv_lines("started"@, t.started);
    assert(field_lines(t) == c9);
    lemma_lines_ok_concat(c0, seq![kv_line("title"@, quoted(t.title))]);
    lemma_lines_ok_concat(c1, opt_kv_lines("status"@, t.status));
    lemma_lines_ok_concat(c2, opt_kv_lines("priority"@, t.priority));
    lemma_lines_ok_concat(c3, tags_lines(t.tags));
    lemma_lines_ok_concat(c4, opt_kv_lines("project"@, t.project));
    lemma_lines_ok_concat(c5, opt_kv_lines("created"@, t.created));
    lemma_lines_ok_concat(c6, opt_kv_lines("due"@, t.due));
    lemma_lines_ok_concat(c7, opt_kv_lines("completed"@, t.completed));
    lemma_lines_ok_concat(c8, opt_kv_lines("started"@, t.started));
    lemma_lines_ok_concat(seq![delim_line()], c9);
    lemma_lines_ok_concat(seq![delim_line()] + c9, seq![delim_line()]);
}

} // verus!
