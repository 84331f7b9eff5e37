//! Editing named `##`-level sections of a task body.
//!
//! A section opens at a line whose trimmed text starts with `## <name>`
//! and runs to the next `##`-level heading (a `###` sub-heading never
//! closes it) or the end of the body.  The editor walks the lines with
//! one in-section flag, exactly as `section_state` describes, so every
//! contract here is stated over that spec.
use vstd::prelude::*;
use vstd::string::*;

use crate::lines::{join_lines, spec_lines, spec_unlines, split_lines, views_of};
use crate::text::{
    starts_with_spec, str_concat, str_starts_with, trim_spec, trim_str,
};

verus! {

pub open spec fn section_prefix(h: Seq<char>) -> Seq<char> {
    "## "@ + h
}

/// The line opens the section named `h`.
pub open spec fn opens_section(l: Seq<char>, h: Seq<char>) -> bool {
    starts_with_spec(trim_spec(l), section_prefix(h))
}

/// The line is a `##`-level heading (and not a deeper `###` heading), the
/// kind that closes a running section.
pub open spec fn is_l2_boundary(l: Seq<char>) -> bool {
    starts_with_spec(trim_spec(l), "##"@) && !starts_with_spec(trim_spec(l), "###"@)
}

/// The in-section flag of the scan, before line `i` is processed: a line
/// opening `h` raises it, any other `##`-level heading clears it.
pub open spec fn section_state(ls: Seq<Seq<char>>, h: Seq<char>, i: int) -> bool
    decreases i,
{
    if i <= 0 {
        false
    } else {
        let l = ls[i - 1];
        if opens_section(l, h) {
            true
        } else if is_l2_boundary(l) {
            false
        } else {
            section_state(ls, h, i - 1)
        }
    }
}

/// Line `i` lies strictly inside the section named `h`: the flag is up
/// and the line itself is neither the section's heading nor a boundary.
pub open spec fn inside_section(ls: Seq<Seq<char>>, h: Seq<char>, i: int) -> bool {
    section_state(ls, h, i) && !opens_section(ls[i], h) && !is_l2_boundary(ls[i])
}

pub open spec fn checklist_heading() -> Seq<char> {
    "Checklist"@
}

pub open spec fn notes_heading() -> Seq<char> {
    "Notes"@
}

// ---------------------------------------------------------------------------
// completing every checklist box
// ---------------------------------------------------------------------------

/// An unchecked checklist line: its trimmed text starts with the
/// incomplete marker.
pub open spec fn is_unchecked_line(l: Seq<char>) -> bool {
    starts_with_spec(trim_spec(l), "- [ ]"@)
}

/// The completed form of an unchecked line: marker flipped, item text
/// kept (trimmed, as the rewrite re-renders the line from its text).
pub open spec fn checked_of(l: Seq<char>) -> Seq<char> {
    "- [x] "@ + trim_spec(
        trim_spec(l).subrange("- [ ]"@.len() as int, trim_spec(l).len() as int),
    )
}

pub open spec fn mark_line(ls: Seq<Seq<char>>, i: int) -> Seq<char> {
    if inside_section(ls, checklist_heading(), i) && is_unchecked_line(ls[i]) {
        checked_of(ls[i])
    } else {
        ls[i]
    }
}

pub open spec fn mark_lines(ls: Seq<Seq<char>>) -> Seq<Seq<char>> {
    Seq::new(ls.len(), |i: int| mark_line(ls, i))
}

/// Rewrites the body so that every unchecked box inside the Checklist
/// section is checked; all other lines stay as they are.
pub fn mark_all_subtasks_complete(content: &str) -> (r: String)
    ensures
        r@ == spec_unlines(mark_lines(spec_lines(content@))),
{
    let ls = split_lines(content);
    let ghost lsv = spec_lines(content@);
    let n = ls.len();
    let prefix = str_concat("## ", "Checklist");
    let mut out: Vec<String> = Vec::new();
    let mut in_sec = false;
    let mut i: usize = 0;
    while i < n
        invariant
            0 <= i <= n,
            n == ls@.len(),
            lsv == views_of(ls@),
            prefix@ == section_prefix(checklist_heading()),
            in_sec == section_state(lsv, checklist_heading(), i as int),
            out@.len() == i,
            forall|j: int| 0 <= j < i ==> out@[j]@ == mark_line(lsv, j),
        decreases n - i,
    {
        let t = trim_str(ls[i].as_str());
        if str_starts_with(t.as_str(), prefix.as_str()) {
            in_sec = true;
            out.push(ls[i].clone());
        } else {
            if in_sec && str_starts_with(t.as_str(), "##") && !str_starts_with(t.as_str(), "###") {
                in_sec = false;
            }
            if in_sec && str_starts_with(t.as_str(), "- [ ]") {
                let m = "- [ ]".unicode_len();
                let tn = t.as_str().unicode_len();
                let text = trim_str(t.as_str().substring_char(m, tn));
                out.push(str_concat("- [x] ", text.as_str()));
            } else {
                out.push(ls[i].clone());
            }
        }
        i = i + 1;
    }
    proof {
        assert(views_of(out@) =~~= mark_lines(lsv));
    }
    join_lines(&out)
}

// ---------------------------------------------------------------------------
// the checklist and notes sections never overlap
// ---------------------------------------------------------------------------

/// A line that opens a section is itself a `##`-level heading.
pub proof fn lemma_opens_is_l2(l: Seq<char>, h: Seq<char>)
    requires
        opens_section(l, h),
    ensures
        is_l2_boundary(l),
{
    reveal_strlit("## ");
    reveal_strlit("##");
    reveal_strlit("###");
    let t = trim_spec(l);
    let p = section_prefix(h);
    assert(p.len() >= 3);
    assert(t.subrange(0, p.len() as int) == p);
    assert(t[0] == p[0] && t[1] == p[1] && t[2] == p[2]) by {
        assert(t.subrange(0, p.len() as int)[0] == t[0]);
        assert(t.subrange(0, p.len() as int)[1] == t[1]);
        assert(t.subrange(0, p.len() as int)[2] == t[2]);
    }
    assert(p[0] == '#' && p[1] == '#' && p[2] == ' ');
    assert(t.subrange(0, 2) =~= "##"@);
    if starts_with_spec(t, "###"@) {
        assert(t.subrange(0, 3)[2] == t[2]);
        assert(t[2] == '#');
    }
}

proof fn lemma_opens_exclusive(l: Seq<char>)
    ensures
        !(opens_section(l, notes_heading()) && opens_section(l, checklist_heading())),
{
    reveal_strlit("## ");
    reveal_strlit("Notes");
    reveal_strlit("Checklist");
    if opens_section(l, notes_heading()) && opens_section(l, checklist_heading()) {
        let t = trim_spec(l);
        let pn = section_prefix(notes_heading());
        let pc = section_prefix(checklist_heading());
        assert(t.subrange(0, pn.len() as int)[3] == t[3]);
        assert(t.subrange(0, pc.len() as int)[3] == t[3]);
        assert(pn[3] == 'N');
        assert(pc[3] == 'C');
    }
}

/// The scan is never inside Notes and Checklist at once.
proof fn lemma_states_exclusive(ls: Seq<Seq<char>>, i: int)
    ensures
        !(section_state(ls, notes_heading(), i) && section_state(ls, checklist_heading(), i)),
    decreases i,
{
    if i > 0 {
        lemma_states_exclusive(ls, i - 1);
        let l = ls[i - 1];
        lemma_opens_exclusive(l);
        if opens_section(l, notes_heading()) {
            lemma_opens_is_l2(l, notes_heading());
        }
        if opens_section(l, checklist_heading()) {
            lemma_opens_is_l2(l, checklist_heading());
        }
    }
}

/// The completion rewrite flips exactly the unchecked boxes inside the
/// Checklist section.  Every line outside that section — in particular
/// every line inside the Notes section — is unchanged.
pub proof fn lemma_mark_all_scope(ls: Seq<Seq<char>>)
    ensures
        mark_lines(ls).len() == ls.len(),
        forall|i: int|
            0 <= i < ls.len() && inside_section(ls, checklist_heading(), i)
                && is_unchecked_line(ls[i]) ==> mark_lines(ls)[i] == checked_of(ls[i]),
        forall|i: int|
            0 <= i < ls.len() && !(inside_section(ls, checklist_heading(), i)
                && is_unchecked_line(ls[i])) ==> mark_lines(ls)[i] == ls[i],
        forall|i: int|
            0 <= i < ls.len() && inside_section(ls, notes_heading(), i) ==> mark_lines(ls)[i]
                == ls[i],
{
    assert forall|i: int|
        0 <= i < ls.len() && inside_section(ls, notes_heading(), i) implies mark_lines(ls)[i]
        == ls[i] by {
        lemma_states_exclusive(ls, i);
    }
}

// ---------------------------------------------------------------------------
// inserting a line into a section
// ---------------------------------------------------------------------------

/// Index of the first line opening `h`, or `ls.len()` if none does.
pub open spec fn first_opener(ls: Seq<Seq<char>>, h: Seq<char>) -> nat
    decreases ls.len(),
{
    if ls.len() == 0 {
        0
    } else if opens_section(ls[0], h) {
        0
    } else {
        (1 + first_opener(ls.drop_first(), h)) as nat
    }
}

/// Index of the first line that would close a running section of `h`, or
/// `ls.len()` if none does.
pub open spec fn first_boundary(ls: Seq<Seq<char>>, h: Seq<char>) -> nat
    decreases ls.len(),
{
    if ls.len() == 0 {
        0
    } else if is_l2_boundary(ls[0]) && !opens_section(ls[0], h) {
        0
    } else {
        (1 + first_boundary(ls.drop_first(), h)) as nat
    }
}

/// Index of the first blank (whitespace-only) line, or `ls.len()`.
pub open spec fn first_blank(ls: Seq<Seq<char>>) -> nat
    decreases ls.len(),
{
    if ls.len() == 0 {
        0
    } else if trim_spec(ls[0]).len() == 0 {
        0
    } else {
        (1 + first_blank(ls.drop_first())) as nat
    }
}

pub proof fn lemma_first_opener_witness(ls: Seq<Seq<char>>, h: Seq<char>, i: int)
    requires
        0 <= i <= ls.len(),
        forall|j: int| 0 <= j < i ==> !opens_section(ls[j], h),
        i == ls.len() || opens_section(ls[i], h),
    ensures
        first_opener(ls, h) == i,
    decreases i,
{
    if i > 0 {
        lemma_first_opener_witness(ls.drop_first(), h, i - 1);
    }
}

pub proof fn lemma_first_boundary_witness(ls: Seq<Seq<char>>, h: Seq<char>, i: int)
    requires
        0 <= i <= ls.len(),
        forall|j: int| 0 <= j < i ==> !(is_l2_boundary(ls[j]) && !opens_section(ls[j], h)),
        i == ls.len() || (is_l2_boundary(ls[i]) && !opens_section(ls[i], h)),
    ensures
        first_boundary(ls, h) == i,
    decreases i,
{
    if i > 0 {
        lemma_first_boundary_witness(ls.drop_first(), h, i - 1);
    }
}

pub proof fn lemma_first_blank_witness(ls: Seq<Seq<char>>, i: int)
    requires
        0 <= i <= ls.len(),
        forall|j: int| 0 <= j < i ==> trim_spec(ls[j]).len() != 0,
        i == ls.len() || trim_spec(ls[i]).len() == 0,
    ensures
        first_blank(ls) == i,
    decreases i,
{
    if i > 0 {
        lemma_first_blank_witness(ls.drop_first(), i - 1);
    }
}

/// The line range of the section named `h`: from its heading line up to
/// (but not including) the next `##`-level heading that does not reopen
/// it, or the end of the body.
pub open spec fn spec_find_section(ls: Seq<Seq<char>>, h: Seq<char>) -> Option<(int, int)> {
    let start = first_opener(ls, h);
    if start >= ls.len() {
        None
    } else {
        let b = first_boundary(ls.subrange(start + 1 as int, ls.len() as int), h);
        Some((start as int, start + 1 + b as int))
    }
}

/// Locates the section named `heading`: the index of its heading line and
/// the index one past its last line.
pub fn find_section(content: &str, heading: &str) -> (r: Option<(usize, usize)>)
    ensures
        match r {
            Some(p) => spec_find_section(spec_lines(content@), heading@) == Some(
                (p.0 as int, p.1 as int),
            ),
            None => spec_find_section(spec_lines(content@), heading@) is None,
        },
{
    let ls = split_lines(content);
    let ghost lsv = spec_lines(content@);
    let n = ls.len();
    let prefix = str_concat("## ", heading);
    let mut start: usize = 0;
    while start < n && !line_opens(ls[start].as_str(), prefix.as_str())
        invariant
            0 <= start <= n,
            n == ls@.len(),
            lsv == views_of(ls@),
            prefix@ == section_prefix(heading@),
            forall|j: int| 0 <= j < start ==> !opens_section(lsv[j], heading@),
        decreases n - start,
    {
        start = start + 1;
    }
    proof {
        lemma_first_opener_witness(lsv, heading@, start as int);
    }
    if start == n {
        return None;
    }
    let ghost window = lsv.subrange(start + 1 as int, n as int);
    let mut b: usize = start + 1;
    while b < n && !line_is_closing_boundary(ls[b].as_str(), prefix.as_str())
        invariant
            start + 1 <= b <= n,
            n == ls@.len(),
            lsv == views_of(ls@),
            prefix@ == section_prefix(heading@),
            window == lsv.subrange(start + 1 as int, n as int),
            forall|j: int|
                start + 1 <= j < b ==> !(is_l2_boundary(lsv[j]) && !opens_section(
                    lsv[j],
                    heading@,
                )),
        decreases n - b,
    {
        b = b + 1;
    }
    proof {
        assert forall|j: int|
            0 <= j < b - start - 1 implies !(is_l2_boundary(window[j]) && !opens_section(
            window[j],
            heading@,
        )) by {
            assert(window[j] == lsv[start + 1 + j]);
        }
        if b < n {
            assert(window[b - start - 1] == lsv[b as int]);
        }
        lemma_first_boundary_witness(window, heading@, b - start - 1);
    }
    Some((start, b))
}

/// The three lines a freshly created section consists of: a separating
/// blank line, the heading, and the new entry.
pub open spec fn new_section_lines(h: Seq<char>, line: Seq<char>) -> Seq<Seq<char>> {
    seq![Seq::<char>::empty(), section_prefix(h), line]
}

/// Where an inserted line lands: after the first blank line inside the
/// section; failing that, immediately before the section's end boundary
/// (or at the end of the body); if the section does not exist, a new one
/// is appended at the end.
pub open spec fn spec_insert_into_section(
    ls: Seq<Seq<char>>,
    h: Seq<char>,
    line: Seq<char>,
) -> Seq<Seq<char>> {
    let start = first_opener(ls, h);
    if start >= ls.len() {
        ls + new_section_lines(h, line)
    } else {
        let window = ls.subrange(start + 1 as int, ls.len() as int);
        let b = first_boundary(window, h);
        let k = first_blank(window);
        if k < b {
            ls.insert(start + 1 + k + 1 as int, line)
        } else {
            ls.insert(start + 1 + b as int, line)
        }
    }
}

fn line_opens(l: &str, prefix: &str) -> (b: bool)
    ensures
        b == starts_with_spec(trim_spec(l@), prefix@),
{
    let t = trim_str(l);
    str_starts_with(t.as_str(), prefix)
}

fn line_is_closing_boundary(l: &str, prefix: &str) -> (b: bool)
    ensures
        b == (is_l2_boundary(l@) && !starts_with_spec(trim_spec(l@), prefix@)),
{
    let t = trim_str(l);
    str_starts_with(t.as_str(), "##") && !str_starts_with(t.as_str(), "###") && !str_starts_with(
        t.as_str(),
        prefix,
    )
}

fn line_is_blank(l: &str) -> (b: bool)
    ensures
        b == (trim_spec(l@).len() == 0),
{
    let t = trim_str(l);
    t.as_str().is_empty()
}

/// Inserts `line` into the section named `heading` of the body,
/// creating the section at the end if it is missing.
pub fn insert_into_section(content: &str, heading: &str, line: &str) -> (r: String)
    ensures
        r@ == spec_unlines(spec_insert_into_section(spec_lines(content@), heading@, line@)),
{
    let mut ls = split_lines(content);
    let ghost lsv = spec_lines(content@);
    let n = ls.len();
    let prefix = str_concat("## ", heading);
    let mut start: usize = 0;
    while start < n && !line_opens(ls[start].as_str(), prefix.as_str())
        invariant
            0 <= start <= n,
            n == ls@.len(),
            lsv == views_of(ls@),
            prefix@ == section_prefix(heading@),
            forall|j: int| 0 <= j < start ==> !opens_section(lsv[j], heading@),
        decreases n - start,
    {
        start = start + 1;
    }
    proof {
        lemma_first_opener_witness(lsv, heading@, start as int);
    }
    if start == n {
        ls.push(String::new());
        ls.push(prefix);
        ls.push(line.to_owned());
        proof {
            assert(views_of(ls@) =~~= lsv + new_section_lines(heading@, line@));
        }
        return join_lines(&ls);
    }
    let ghost window = lsv.subrange(start + 1 as int, n as int);
    // the first boundary after the heading
    let mut b: usize = start + 1;
    while b < n && !line_is_closing_boundary(ls[b].as_str(), prefix.as_str())
        invariant
            start + 1 <= b <= n,
            n == ls@.len(),
            lsv == views_of(ls@),
            prefix@ == section_prefix(heading@),
            window == lsv.subrange(start + 1 as int, n as int),
            forall|j: int|
                start + 1 <= j < b ==> !(is_l2_boundary(lsv[j]) && !opens_section(
                    lsv[j],
                    heading@,
                )),
        decreases n - b,
    {
        b = b + 1;
    }
    proof {
        assert forall|j: int|
            0 <= j < b - start - 1 implies !(is_l2_boundary(window[j]) && !opens_section(
            window[j],
            heading@,
        )) by {
            assert(window[j] == lsv[start + 1 + j]);
        }
        if b < n {
            assert(window[b - start - 1] == lsv[b as int]);
        }
        lemma_first_boundary_witness(window, heading@, b - start - 1);
    }
    // the first blank line after the heading
    let mut k: usize = start + 1;
    while k < n && !line_is_blank(ls[k].as_str())
        invariant
            start + 1 <= k <= n,
            n == ls@.len(),
            lsv == views_of(ls@),
            forall|j: int| start + 1 <= j < k ==> trim_spec(lsv[j]).len() != 0,
        decreases n - k,
    {
        k = k + 1;
    }
    proof {
        assert forall|j: int| 0 <= j < k - start - 1 implies trim_spec(window[j]).len() != 0 by {
            assert(window[j] == lsv[start + 1 + j]);
        }
        if k < n {
            assert(window[k - start - 1] == lsv[k as int]);
        }
        lemma_first_blank_witness(window, k - start - 1);
    }
    let pos: usize = if k < b {
        k + 1
    } else {
        b
    };
    ls.insert(pos, line.to_owned());
    proof {
        assert(views_of(ls@) =~~= lsv.insert(pos as int, line@));
        assert(views_of(ls@) =~~= spec_insert_into_section(lsv, heading@, line@));
    }
    join_lines(&ls)
}

/// Adds a note line to the `## Notes` section of the body, creating the
/// section if it is absent.
pub fn add_note_to_content(content: &str, note: &str) -> (r: String)
    ensures
        r@ == spec_unlines(spec_insert_into_section(spec_lines(content@), notes_heading(), note@)),
{
    insert_into_section(content, "Notes", note)
}

/// If no line of the body opens the section, insertion appends a fresh
/// section: a blank line, the heading, and the new entry.
pub proof fn lemma_insert_creates_section(ls: Seq<Seq<char>>, h: Seq<char>, line: Seq<char>)
    requires
        forall|i: int| 0 <= i < ls.len() ==> !opens_section(#[trigger] ls[i], h),
    ensures
        spec_insert_into_section(ls, h, line) == ls + new_section_lines(h, line),
{
    lemma_first_opener_witness(ls, h, ls.len() as int);
}

} // verus!
