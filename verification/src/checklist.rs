//! Checklist entries: parsing the checkbox lines of the Checklist
//! section, appending a new entry, and the law that appending to a body
//! without a Checklist section creates one holding exactly that entry.
use vstd::prelude::*;
use vstd::string::*;

use crate::lines::{spec_lines, spec_unlines, split_lines, views_of};
use crate::sections::{
    checklist_heading, first_opener, insert_into_section, inside_section, is_l2_boundary,
    lemma_first_opener_witness, new_section_lines, opens_section, section_state,
    spec_insert_into_section,
};
use crate::text::{
    is_space_char, lemma_trim_end_at, lemma_trim_end_shape, lemma_trim_start_at,
    lemma_trim_start_shape, starts_with_spec, str_concat, str_starts_with, trim_end_spec,
    trim_spec, trim_start_spec, trim_str,
};

verus! {

/// What one line contributes to the checklist: `Some((done, text))` for a
/// checkbox line, `None` for anything else.
pub open spec fn checkbox_of(l: Seq<char>) -> Option<(bool, Seq<char>)> {
    let t = trim_spec(l);
    if starts_with_spec(t, "- [x]"@) {
        Some((true, trim_spec(t.subrange("- [x]"@.len() as int, t.len() as int))))
    } else if starts_with_spec(t, "- [X]"@) {
        Some((true, trim_spec(t.subrange("- [X]"@.len() as int, t.len() as int))))
    } else if starts_with_spec(t, "- [ ]"@) {
        Some((false, trim_spec(t.subrange("- [ ]"@.len() as int, t.len() as int))))
    } else {
        None
    }
}

/// The checklist entries contributed by lines `0..i`: checkbox lines that
/// lie inside the Checklist section, in order.
pub open spec fn items_upto(ls: Seq<Seq<char>>, i: int) -> Seq<(bool, Seq<char>)>
    decreases i,
{
    if i <= 0 {
        Seq::empty()
    } else {
        items_upto(ls, i - 1) + (if inside_section(ls, checklist_heading(), i - 1) {
            match checkbox_of(ls[i - 1]) {
                Some(it) => seq![it],
                None => Seq::<(bool, Seq<char>)>::empty(),
            }
        } else {
            Seq::<(bool, Seq<char>)>::empty()
        })
    }
}

pub open spec fn checklist_items(ls: Seq<Seq<char>>) -> Seq<(bool, Seq<char>)> {
    items_upto(ls, ls.len() as int)
}

pub open spec fn item_views(v: Seq<(bool, String)>) -> Seq<(bool, Seq<char>)> {
    v.map_values(|p: (bool, String)| (p.0, p.1@))
}

pub open spec fn opt_item_view(o: Option<(bool, String)>) -> Option<(bool, Seq<char>)> {
    match o {
        Some(p) => Some((p.0, p.1@)),
        None => None,
    }
}

fn checkbox_exec(l: &str) -> (r: Option<(bool, String)>)
    ensures
        opt_item_view(r) == checkbox_of(l@),
{
    let t = trim_str(l);
    let tn = t.as_str().unicode_len();
    if str_starts_with(t.as_str(), "- [x]") {
        let m = "- [x]".unicode_len();
        Some((true, trim_str(t.as_str().substring_char(m, tn))))
    } else if str_starts_with(t.as_str(), "- [X]") {
        let m = "- [X]".unicode_len();
        Some((true, trim_str(t.as_str().substring_char(m, tn))))
    } else if str_starts_with(t.as_str(), "- [ ]") {
        let m = "- [ ]".unicode_len();
        Some((false, trim_str(t.as_str().substring_char(m, tn))))
    } else {
        None
    }
}

/// Scans the body and returns every checklist entry inside the Checklist
/// section: its completion state and its text.
pub fn list_items(content: &str) -> (r: Vec<(bool, String)>)
    ensures
        item_views(r@) == checklist_items(spec_lines(content@)),
{
    let ls = split_lines(content);
    let ghost lsv = spec_lines(content@);
    let n = ls.len();
    let prefix = str_concat("## ", "Checklist");
    let mut out: Vec<(bool, String)> = Vec::new();
    let mut in_sec = false;
    let mut i: usize = 0;
    proof {
        assert(item_views(out@) =~~= items_upto(lsv, 0));
    }
    while i < n
        invariant
            0 <= i <= n,
            n == ls@.len(),
            lsv == views_of(ls@),
            prefix@ == crate::sections::section_prefix(checklist_heading()),
            in_sec == section_state(lsv, checklist_heading(), i as int),
            item_views(out@) == items_upto(lsv, i as int),
        decreases n - i,
    {
        let t = trim_str(ls[i].as_str());
        let ghost pre = out@;
        if str_starts_with(t.as_str(), prefix.as_str()) {
            in_sec = true;
        } else {
            if in_sec && str_starts_with(t.as_str(), "##") && !str_starts_with(t.as_str(), "###") {
                in_sec = false;
            }
            if in_sec {
                match checkbox_exec(ls[i].as_str()) {
                    Some(item) => {
                        out.push(item);
                    },
                    None => {},
                }
            }
        }
        proof {
            assert(item_views(out@) =~~= items_upto(lsv, i + 1));
        }
        i = i + 1;
    }
    out
}

/// Appends one incomplete checklist entry for `text` to the body's
/// Checklist section, creating the section at the end if it is missing.
pub fn add_checklist_item(content: &str, text: &str) -> (r: String)
    ensures
        r@ == spec_unlines(
            spec_insert_into_section(spec_lines(content@), checklist_heading(), "- [ ] "@ + text@),
        ),
{
    let line = str_concat("- [ ] ", text);
    insert_into_section(content, "Checklist", line.as_str())
}

// ---------------------------------------------------------------------------
// a fresh section holds exactly the new entry
// ---------------------------------------------------------------------------

/// A rendered entry line parses back as one incomplete item whose text is
/// the (trimmed) entry text.
proof fn lemma_checkbox_of_item(text: Seq<char>)
    ensures
        checkbox_of("- [ ] "@ + text) == Some((false, trim_spec(text))),
{
    reveal_strlit("- [ ] ");
    reveal_strlit("- [ ]");
    reveal_strlit("- [x]");
    reveal_strlit("- [X]");
    let l = "- [ ] "@ + text;
    assert(l.len() == 6 + text.len());
    assert(l[0] == '-' && l[1] == ' ' && l[2] == '[' && l[3] == ' ' && l[4] == ']' && l[5] == ' ');
    lemma_trim_start_at(l, 0);
    assert(l.subrange(0, l.len() as int) =~= l);
    let te = trim_end_spec(text);
    lemma_trim_end_shape(text);
    let t = trim_spec(l);
    if te.len() == 0 {
        lemma_trim_end_at(l, 5);
        assert(t == l.subrange(0, 5));
        assert(t =~= "- [ ]"@);
        assert(starts_with_spec(t, "- [ ]"@)) by {
            assert(t.subrange(0, 5) =~= "- [ ]"@);
        }
        assert(!starts_with_spec(t, "- [x]"@)) by {
            if starts_with_spec(t, "- [x]"@) {
                assert(t.subrange(0, 5)[3] == t[3]);
                assert(t[3] == 'x');
            }
        }
        assert(!starts_with_spec(t, "- [X]"@)) by {
            if starts_with_spec(t, "- [X]"@) {
                assert(t.subrange(0, 5)[3] == t[3]);
                assert(t[3] == 'X');
            }
        }
        let raw = t.subrange(5, t.len() as int);
        assert(raw =~= Seq::<char>::empty());
        assert(trim_spec(raw) =~= Seq::<char>::empty());
        lemma_trim_start_at(text, text.len() as int);
        assert(trim_start_spec(text) =~= Seq::<char>::empty());
        assert(trim_spec(text) =~= Seq::<char>::empty());
    } else {
        assert forall|k: int| 6 + te.len() <= k < l.len() implies is_space_char(l[k]) by {
            assert(l[k] == text[k - 6]);
        }
        assert(l[6 + te.len() - 1] == te.last());
        lemma_trim_end_at(l, 6 + te.len() as int);
        assert(t == l.subrange(0, 6 + te.len() as int));
        assert(t =~= "- [ ] "@ + te);
        assert(starts_with_spec(t, "- [ ]"@)) by {
            assert(t.subrange(0, 5) =~= "- [ ]"@);
        }
        assert(!starts_with_spec(t, "- [x]"@)) by {
            if starts_with_spec(t, "- [x]"@) {
                assert(t.subrange(0, 5)[3] == t[3]);
                assert(t[3] == 'x');
            }
        }
        assert(!starts_with_spec(t, "- [X]"@)) by {
            if starts_with_spec(t, "- [X]"@) {
                assert(t.subrange(0, 5)[3] == t[3]);
                assert(t[3] == 'X');
            }
        }
        let raw = t.subrange(5, t.len() as int);
        assert(raw =~= seq![' '] + te);
        let ts = trim_start_spec(text);
        lemma_trim_start_shape(text);
        assert(ts.len() > 0) by {
            if ts.len() == 0 {
                assert(is_space_char(text[te.len() - 1]));
                assert(!is_space_char(te.last()));
                assert(te.last() == text[te.len() - 1]);
            }
        }
        let c = text.len() - ts.len();
        assert(!is_space_char(text[c])) by {
            assert(ts[0] == text[c]);
        }
        assert(c < te.len()) by {
            if c >= te.len() {
                assert(is_space_char(text[c]));
            }
        }
        assert forall|j: int| 0 <= j < 1 + c implies is_space_char(raw[j]) by {
            if j > 0 {
                assert(raw[j] == te[j - 1]);
                assert(te[j - 1] == text[j - 1]);
            }
        }
        assert(raw[1 + c] == te[c]);
        assert(te[c] == text[c]);
        lemma_trim_start_at(raw, 1 + c);
        let mid = text.subrange(c, te.len() as int);
        assert(trim_start_spec(raw) == raw.subrange(1 + c, raw.len() as int));
        assert(raw.subrange(1 + c, raw.len() as int) =~= mid);
        // the right end of `mid` is already clean
        assert(mid.len() > 0 && !is_space_char(mid.last())) by {
            assert(mid.last() == text[te.len() - 1]);
            assert(te.last() == text[te.len() - 1]);
        }
        lemma_trim_end_at(mid, mid.len() as int);
        assert(mid.subrange(0, mid.len() as int) =~= mid);
        assert(trim_spec(raw) == mid);
        // and trim_spec(text) is the same middle piece
        assert(ts == text.subrange(c, text.len() as int));
        assert forall|k: int| te.len() - c <= k < ts.len() implies is_space_char(ts[k]) by {
            assert(ts[k] == text[c + k]);
        }
        assert(ts[te.len() - c - 1] == text[te.len() - 1]);
        lemma_trim_end_at(ts, te.len() - c);
        assert(ts.subrange(0, te.len() - c) =~= mid);
        assert(trim_spec(text) == mid);
    }
}

/// While no line has opened the section, the scan stays outside it.
proof fn lemma_state_stays_out(ls: Seq<Seq<char>>, h: Seq<char>, i: int)
    requires
        0 <= i <= ls.len(),
        forall|j: int| 0 <= j < i ==> !opens_section(#[trigger] ls[j], h),
    ensures
        !section_state(ls, h, i),
    decreases i,
{
    if i > 0 {
        lemma_state_stays_out(ls, h, i - 1);
    }
}

/// Lines that are never inside the section contribute no items.
proof fn lemma_items_upto_empty(ls: Seq<Seq<char>>, i: int)
    requires
        forall|j: int| 0 <= j < i ==> !inside_section(ls, checklist_heading(), j),
    ensures
        items_upto(ls, i) == Seq::<(bool, Seq<char>)>::empty(),
    decreases i,
{
    if i > 0 {
        lemma_items_upto_empty(ls, i - 1);
        assert(items_upto(ls, i) =~~= Seq::<(bool, Seq<char>)>::empty());
    }
}

/// Adding an entry to a body with no Checklist section creates the
/// section at the end and the entry is its sole item — incomplete, with
/// the given text.
pub proof fn lemma_add_item_creates_section(ls: Seq<Seq<char>>, text: Seq<char>)
    requires
        forall|i: int| 0 <= i < ls.len() ==> !opens_section(#[trigger] ls[i], checklist_heading()),
    ensures
        spec_insert_into_section(ls, checklist_heading(), "- [ ] "@ + text) == ls
            + new_section_lines(checklist_heading(), "- [ ] "@ + text),
        checklist_items(
            spec_insert_into_section(ls, checklist_heading(), "- [ ] "@ + text),
        ) == seq![(false, trim_spec(text))],
{
    reveal_strlit("## ");
    reveal_strlit("##");
    reveal_strlit("###");
    reveal_strlit("- [ ] ");
    lemma_first_opener_witness(ls, checklist_heading(), ls.len() as int);
    let h = checklist_heading();
    let item = "- [ ] "@ + text;
    let nl = ls + new_section_lines(h, item);
    assert(spec_insert_into_section(ls, h, item) == nl);
    let n = ls.len() as int;
    assert(nl.len() == n + 3);
    let blank = Seq::<char>::empty();
    let header = crate::sections::section_prefix(h);
    assert(nl[n] == blank && nl[n + 1] == header && nl[n + 2] == item);
    // the blank separator opens nothing
    assert(!opens_section(blank, h)) by {
        assert(trim_spec(blank).len() == 0);
        assert(header.len() >= 3);
    }
    // so the scan stays outside until the new header
    assert forall|j: int| 0 <= j < n + 1 implies !opens_section(#[trigger] nl[j], h) by {
        if j < n {
            assert(nl[j] == ls[j]);
        }
    }
    lemma_state_stays_out(nl, h, n + 1);
    assert forall|j: int| 0 <= j < n + 2 implies !inside_section(nl, h, j) by {
        lemma_state_stays_out(nl, h, j);
    }
    lemma_items_upto_empty(nl, n + 2);
    // the header opens the section, and the entry line lies inside it
    assert(opens_section(header, h)) by {
        lemma_trim_start_at(header, 0);
        assert(header.subrange(0, header.len() as int) =~= header);
        assert(!is_space_char(header.last()) && header.len() > 0) by {
            reveal_strlit("Checklist");
            assert(header.last() == "Checklist"@[8]);
        }
        lemma_trim_end_at(header, header.len() as int);
        assert(trim_spec(header) == header);
        assert(header.subrange(0, header.len() as int) =~= header);
    }
    assert(section_state(nl, h, n + 2));
    assert(item[0] == '-');
    let ti = trim_spec(item);
    assert(ti.len() > 0 && ti[0] == '-') by {
        lemma_trim_start_at(item, 0);
        assert(item.subrange(0, item.len() as int) =~= item);
        lemma_trim_end_shape(item);
        if ti.len() == 0 {
            assert(is_space_char(item[0]));
        }
        assert(ti == item.subrange(0, ti.len() as int));
    }
    assert(!is_l2_boundary(item)) by {
        if starts_with_spec(ti, "##"@) {
            assert(ti.subrange(0, 2)[0] == ti[0]);
            assert(ti[0] == '#');
        }
    }
    assert(!opens_section(item, h)) by {
        if opens_section(item, h) {
            crate::sections::lemma_opens_is_l2(item, h);
        }
    }
    assert(inside_section(nl, h, n + 2));
    lemma_checkbox_of_item(text);
    assert(checklist_items(nl) == items_upto(nl, n + 3));
    assert(items_upto(nl, n + 3) =~~= seq![(false, trim_spec(text))]);
}

} // verus!
