//! Splitting text into lines and joining lines back into text.
//!
//! `spec_lines` mirrors the usual convention that a trailing newline ends
//! the last line rather than opening an empty one; `spec_unlines` terminates
//! every line with a newline.  The two round-trip lemmas below carry the
//! codec's round-trip proof.
use vstd::prelude::*;
use vstd::string::*;

use crate::text::push_char;

verus! {

/// The sequence-of-characters views of a sequence of owned strings.
pub open spec fn views_of(v: Seq<String>) -> Seq<Seq<char>> {
    v.map_values(|s: String| s@)
}

/// A line holds no newline character.
pub open spec fn line_ok(l: Seq<char>) -> bool {
    forall|i: int| 0 <= i < l.len() ==> l[i] != '\n'
}

pub open spec fn lines_ok(ls: Seq<Seq<char>>) -> bool {
    forall|i: int| 0 <= i < ls.len() ==> line_ok(#[trigger] ls[i])
}

pub open spec fn spec_lines(s: Seq<char>) -> Seq<Seq<char>>
    decreases s.len(),
{
    if s.len() == 0 {
        Seq::empty()
    } else if s[0] == '\n' {
        seq![Seq::<char>::empty()].add(spec_lines(s.drop_first()))
    } else {
        let rest = spec_lines(s.drop_first());
        if rest.len() == 0 {
            seq![seq![s[0]]]
        } else {
            seq![seq![s[0]].add(rest[0])].add(rest.drop_first())
        }
    }
}

pub open spec fn spec_unlines(ls: Seq<Seq<char>>) -> Seq<char>
    decreases ls.len(),
{
    if ls.len() == 0 {
        Seq::empty()
    } else {
        ls[0] + seq!['\n'] + spec_unlines(ls.drop_first())
    }
}

pub proof fn lemma_spec_lines_nonempty(s: Seq<char>)
    requires
        s.len() > 0,
    ensures
        spec_lines(s).len() >= 1,
{
}

/// Text of one newline-free nonempty line splits into just that line.
pub proof fn lemma_spec_lines_single(a: Seq<char>)
    requires
        line_ok(a),
        a.len() > 0,
    ensures
        spec_lines(a) == seq![a],
    decreases a.len(),
{
    if a.len() == 1 {
        assert(a.drop_first().len() == 0);
        assert(spec_lines(a.drop_first()) == Seq::<Seq<char>>::empty());
        assert(spec_lines(a) == seq![seq![a[0]]]);
        assert(seq![a[0]] =~= a);
        assert(spec_lines(a) =~~= seq![a]);
    } else {
        lemma_spec_lines_single(a.drop_first());
        assert(seq![a[0]].add(a.drop_first()) =~= a);
        assert(spec_lines(a) =~~= seq![a]);
    }
}

/// A newline right after a newline-free prefix closes exactly one line.
pub proof fn lemma_spec_lines_newline(a: Seq<char>, b: Seq<char>)
    requires
        line_ok(a),
    ensures
        spec_lines(a + seq!['\n'] + b) == seq![a] + spec_lines(b),
    decreases a.len(),
{
    let s = a + seq!['\n'] + b;
    if a.len() == 0 {
        assert(s =~= seq!['\n'] + b);
        assert(s[0] == '\n');
        assert(s.drop_first() =~= b);
        assert(spec_lines(s) =~~= seq![a] + spec_lines(b));
    } else {
        lemma_spec_lines_newline(a.drop_first(), b);
        assert(s.drop_first() =~= a.drop_first() + seq!['\n'] + b);
        let rest = spec_lines(s.drop_first());
        assert(rest == seq![a.drop_first()] + spec_lines(b));
        assert(rest.len() > 0);
        assert(rest[0] == a.drop_first());
        assert(seq![a[0]].add(rest[0]) =~= a);
        assert(rest.drop_first() =~= spec_lines(b));
        assert(spec_lines(s) =~~= seq![a] + spec_lines(b));
    }
}

/// Splitting distributes over concatenation when the first part ends in a
/// newline.
pub proof fn lemma_spec_lines_concat(a: Seq<char>, b: Seq<char>)
    requires
        a.len() == 0 || a.last() == '\n',
    ensures
        spec_lines(a + b) == spec_lines(a) + spec_lines(b),
    decreases a.len(),
{
    if a.len() == 0 {
        assert(a + b =~= b);
        assert(spec_lines(a + b) =~~= spec_lines(a) + spec_lines(b));
    } else if a[0] == '\n' {
        lemma_spec_lines_concat(a.drop_first(), b);
        assert((a + b).drop_first() =~= a.drop_first() + b);
        assert(spec_lines(a + b) =~~= spec_lines(a) + spec_lines(b));
    } else {
        lemma_spec_lines_concat(a.drop_first(), b);
        assert((a + b).drop_first() =~= a.drop_first() + b);
        let rest = spec_lines(a.drop_first() + b);
        assert(rest == spec_lines(a.drop_first()) + spec_lines(b));
        assert(a.drop_first().len() > 0);
        lemma_spec_lines_nonempty(a.drop_first());
        assert(rest.len() > 0);
        assert(rest[0] == spec_lines(a.drop_first())[0]);
        assert(rest.drop_first() =~= spec_lines(a.drop_first()).drop_first() + spec_lines(b));
        assert(spec_lines(a + b) =~~= spec_lines(a) + spec_lines(b));
    }
}

/// Joining newline-free lines and splitting again is the identity.
pub proof fn lemma_lines_unlines(ls: Seq<Seq<char>>)
    requires
        lines_ok(ls),
    ensures
        spec_lines(spec_unlines(ls)) == ls,
    decreases ls.len(),
{
    if ls.len() == 0 {
    } else {
        lemma_lines_unlines(ls.drop_first());
        lemma_spec_lines_newline(ls[0], spec_unlines(ls.drop_first()));
        assert(spec_unlines(ls) == ls[0] + seq!['\n'] + spec_unlines(ls.drop_first()));
        assert(spec_lines(spec_unlines(ls)) =~~= ls);
    }
}

/// Unlining text that was split yields the text back, up to the final
/// newline: the result always ends in one.
pub proof fn lemma_unlines_lines(s: Seq<char>)
    requires
        s.len() == 0 || s.last() == '\n',
    ensures
        spec_unlines(spec_lines(s)) == s,
    decreases s.len(),
{
    if s.len() == 0 {
    } else if s[0] == '\n' {
        lemma_unlines_lines(s.drop_first());
        let ls = spec_lines(s);
        assert(ls == seq![Seq::<char>::empty()].add(spec_lines(s.drop_first())));
        assert(ls.len() > 0 && ls[0] =~= Seq::<char>::empty());
        assert(ls.drop_first() =~= spec_lines(s.drop_first()));
        assert(spec_unlines(ls) == ls[0] + seq!['\n'] + spec_unlines(spec_lines(s.drop_first())));
        assert(spec_unlines(ls) =~= s);
    } else {
        assert(s.len() >= 2);
        lemma_unlines_lines(s.drop_first());
        let rest = spec_lines(s.drop_first());
        assert(s.drop_first().len() > 0);
        lemma_spec_lines_nonempty(s.drop_first());
        let ls = spec_lines(s);
        assert(ls == seq![seq![s[0]].add(rest[0])].add(rest.drop_first()));
        assert(ls.len() > 0 && ls[0] == seq![s[0]].add(rest[0]));
        assert(ls.drop_first() =~= rest.drop_first());
        assert(spec_unlines(ls) == ls[0] + seq!['\n'] + spec_unlines(rest.drop_first()));
        assert(spec_unlines(rest) == rest[0] + seq!['\n'] + spec_unlines(rest.drop_first()));
        assert(spec_unlines(rest) == s.drop_first());
        assert(spec_unlines(ls) =~= seq![s[0]] + (rest[0] + seq!['\n'] + spec_unlines(
            rest.drop_first(),
        )));
        assert(seq![s[0]] + s.drop_first() =~= s);
        assert(spec_unlines(ls) == s);
    }
}

/// Joined lines always end in a newline (or are empty).
pub proof fn lemma_spec_unlines_ends_nl(ls: Seq<Seq<char>>)
    requires
        ls.len() > 0,
    ensures
        spec_unlines(ls).len() > 0,
        spec_unlines(ls).last() == '\n',
    decreases ls.len(),
{
    if ls.len() == 1 {
        assert(spec_unlines(ls.drop_first()) == Seq::<char>::empty());
        let u = ls[0] + seq!['\n'] + spec_unlines(ls.drop_first());
        assert(u.len() == ls[0].len() + 1);
        assert(u.last() == '\n');
    } else {
        lemma_spec_unlines_ends_nl(ls.drop_first());
        let rest = spec_unlines(ls.drop_first());
        let u = ls[0] + seq!['\n'] + rest;
        assert(u.last() == rest.last());
    }
}

/// Index of the first line equal to `l`, or `ls.len()` if absent.
pub open spec fn first_eq_line(ls: Seq<Seq<char>>, l: Seq<char>) -> nat
    decreases ls.len(),
{
    if ls.len() == 0 {
        0
    } else if ls[0] == l {
        0
    } else {
        (1 + first_eq_line(ls.drop_first(), l)) as nat
    }
}

pub proof fn lemma_first_eq_line_witness(ls: Seq<Seq<char>>, l: Seq<char>, i: int)
    requires
        0 <= i <= ls.len(),
        forall|j: int| 0 <= j < i ==> ls[j] != l,
        i == ls.len() || ls[i] == l,
    ensures
        first_eq_line(ls, l) == i,
    decreases i,
{
    if i == 0 {
        if ls.len() > 0 && ls[0] != l {
            lemma_first_eq_line_witness(ls.drop_first(), l, 0);
        }
    } else {
        lemma_first_eq_line_witness(ls.drop_first(), l, i - 1);
    }
}

pub fn split_lines(s: &str) -> (r: Vec<String>)
    ensures
        views_of(r@) == spec_lines(s@),
{
    let n = s.unicode_len();
    let mut out: Vec<String> = Vec::new();
    let mut cur = String::new();
    let mut i: usize = 0;
    proof {
        assert(views_of(out@) =~= Seq::<Seq<char>>::empty());
        assert(cur@ + s@.subrange(0, n as int) =~= s@);
    }
    while i < n
        invariant
            0 <= i <= n,
            n == s@.len(),
            line_ok(cur@),
            spec_lines(s@) == views_of(out@) + spec_lines(cur@ + s@.subrange(i as int, n as int)),
        decreases n - i,
    {
        let c = s.get_char(i);
        let ghost pre_cur = cur@;
        let ghost pre_out = out@;
        if c == '\n' {
            proof {
                lemma_spec_lines_newline(pre_cur, s@.subrange(i + 1, n as int));
                assert(pre_cur + s@.subrange(i as int, n as int) =~= pre_cur + seq!['\n']
                    + s@.subrange(i + 1, n as int));
            }
            out.push(cur);
            cur = String::new();
            proof {
                assert(views_of(out@) =~= views_of(pre_out).push(pre_cur));
                assert(views_of(pre_out).push(pre_cur) =~= views_of(pre_out) + seq![pre_cur]);
                assert(cur@ + s@.subrange(i + 1, n as int) =~= s@.subrange(i + 1, n as int));
                assert(spec_lines(s@) =~~= views_of(out@) + spec_lines(
                    cur@ + s@.subrange(i + 1, n as int),
                ));
            }
        } else {
            push_char(&mut cur, c);
            proof {
                assert(cur@ + s@.subrange(i + 1, n as int) =~= pre_cur + s@.subrange(
                    i as int,
                    n as int,
                ));
            }
        }
        i = i + 1;
    }
    proof {
        assert(cur@ + s@.subrange(n as int, n as int) =~= cur@);
    }
    if !cur.as_str().is_empty() {
        proof {
            lemma_spec_lines_single(cur@);
            assert(views_of(out@.push(cur)) =~= views_of(out@) + seq![cur@]);
        }
        let ghost pre_out = out@;
        out.push(cur);
        proof {
            assert(views_of(out@) =~= views_of(pre_out) + seq![cur@]);
            assert(spec_lines(s@) =~~= views_of(out@));
        }
    } else {
        proof {
            assert(cur@ =~= Seq::<char>::empty());
            assert(spec_lines(s@) =~~= views_of(out@));
        }
    }
    out
}

/// Joins the lines `v[from..to]`, each terminated with a newline.
pub fn join_lines_range(v: &Vec<String>, from: usize, to: usize) -> (r: String)
    requires
        from <= to <= v@.len(),
    ensures
        r@ == spec_unlines(views_of(v@).subrange(from as int, to as int)),
{
    let mut r = String::new();
    let mut i: usize = from;
    proof {
        assert(r@ + spec_unlines(views_of(v@).subrange(from as int, to as int)) =~= spec_unlines(
            views_of(v@).subrange(from as int, to as int),
        ));
    }
    while i < to
        invariant
            from <= i <= to <= v@.len(),
            spec_unlines(views_of(v@).subrange(from as int, to as int)) == r@ + spec_unlines(
                views_of(v@).subrange(i as int, to as int),
            ),
        decreases to - i,
    {
        let ghost pre = r@;
        r.append(v[i].as_str());
        r.append("\n");
        proof {
            reveal_strlit("\n");
            assert("\n"@ =~= seq!['\n']);
            let tail = views_of(v@).subrange(i as int, to as int);
            assert(tail[0] == v@[i as int]@);
            assert(tail.drop_first() =~= views_of(v@).subrange(i + 1, to as int));
            assert(r@ =~= pre + v@[i as int]@ + seq!['\n']);
            assert(spec_unlines(views_of(v@).subrange(from as int, to as int)) == r@
                + spec_unlines(views_of(v@).subrange(i + 1, to as int)));
        }
        i = i + 1;
    }
    proof {
        assert(views_of(v@).subrange(to as int, to as int) =~= Seq::<Seq<char>>::empty());
        assert(r@ =~= spec_unlines(views_of(v@).subrange(from as int, to as int)));
    }
    r
}

pub fn join_lines(v: &Vec<String>) -> (r: String)
    ensures
        r@ == spec_unlines(views_of(v@)),
{
    let n = v.len();
    let mut r = String::new();
    let mut i: usize = 0;
    proof {
        assert(views_of(v@).subrange(0, n as int) =~= views_of(v@));
        assert(r@ + spec_unlines(views_of(v@)) =~= spec_unlines(views_of(v@)));
    }
    while i < n
        invariant
            0 <= i <= n,
            n == v@.len(),
            spec_unlines(views_of(v@)) == r@ + spec_unlines(views_of(v@).subrange(
                i as int,
                n as int,
            )),
        decreases n - i,
    {
        let ghost pre = r@;
        r.append(v[i].as_str());
        r.append("\n");
        proof {
            reveal_strlit("\n");
            assert("\n"@ =~= seq!['\n']);
            let tail = views_of(v@).subrange(i as int, n as int);
            assert(tail[0] == v@[i as int]@);
            assert(tail.drop_first() =~= views_of(v@).subrange(i + 1, n as int));
            assert(r@ =~= pre + v@[i as int]@ + seq!['\n']);
            assert(spec_unlines(views_of(v@)) == r@ + spec_unlines(
                views_of(v@).subrange(i + 1, n as int),
            ));
        }
        i = i + 1;
    }
    proof {
        assert(views_of(v@).subrange(n as int, n as int) =~= Seq::<Seq<char>>::empty());
        assert(r@ =~= spec_unlines(views_of(v@)));
    }
    r
}

} // verus!
