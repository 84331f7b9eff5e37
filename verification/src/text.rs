//! Character-level text utilities: the spec-level model of strings is
//! `Seq<char>`, and every executable helper here is specified exactly
//! against a spec function on that model.
use vstd::prelude::*;
use vstd::string::*;

verus! {

// ---------------------------------------------------------------------------
// character classes
// ---------------------------------------------------------------------------

/// ASCII whitespace, the class that trimming strips.
pub open spec fn is_space_char(c: char) -> bool {
    c == ' ' || c == '\t' || c == '\r' || c == '\n'
}

pub fn is_space(c: char) -> (b: bool)
    ensures
        b == is_space_char(c),
{
    c == ' ' || c == '\t' || c == '\r' || c == '\n'
}

pub open spec fn is_digit_char(c: char) -> bool {
    '0' <= c && c <= '9'
}

pub fn is_digit(c: char) -> (b: bool)
    ensures
        b == is_digit_char(c),
{
    let n = c as u32;
    48 <= n && n <= 57
}

/// ASCII letters and digits, the characters a slug keeps.
pub open spec fn is_alnum_char(c: char) -> bool {
    ('a' <= c && c <= 'z') || ('A' <= c && c <= 'Z') || ('0' <= c && c <= '9')
}

pub fn is_alnum(c: char) -> (b: bool)
    ensures
        b == is_alnum_char(c),
{
    let n = c as u32;
    (97 <= n && n <= 122) || (65 <= n && n <= 90) || (48 <= n && n <= 57)
}

/// ASCII upper-case letters are mapped down; all other characters stay.
pub open spec fn lower_char_spec(c: char) -> char {
    if 'A' <= c && c <= 'Z' {
        (((c as u8) + 32) as char)
    } else {
        c
    }
}

pub fn lower_char(c: char) -> (r: char)
    ensures
        r == lower_char_spec(c),
{
    let n = c as u32;
    if 65 <= n && n <= 90 {
        ((c as u8) + 32) as char
    } else {
        c
    }
}

// ---------------------------------------------------------------------------
// building strings
// ---------------------------------------------------------------------------

/// Relies on String::push: appends exactly one character at the end.
#[verifier::external_body]
pub fn push_char(s: &mut String, c: char)
    ensures
        final(s)@ == old(s)@.push(c),
{
    s.push(c)
}

pub fn str_concat(a: &str, b: &str) -> (r: String)
    ensures
        r@ == a@ + b@,
{
    let mut r = a.to_owned();
    r.append(b);
    r
}

// ---------------------------------------------------------------------------
// trimming
// ---------------------------------------------------------------------------

pub open spec fn trim_start_spec(s: Seq<char>) -> Seq<char>
    decreases s.len(),
{
    if s.len() > 0 && is_space_char(s[0]) {
        trim_start_spec(s.drop_first())
    } else {
        s
    }
}

pub open spec fn trim_end_spec(s: Seq<char>) -> Seq<char>
    decreases s.len(),
{
    if s.len() > 0 && is_space_char(s.last()) {
        trim_end_spec(s.drop_last())
    } else {
        s
    }
}

/// What `str::trim` yields on ASCII-whitespace-padded text.
pub open spec fn trim_spec(s: Seq<char>) -> Seq<char> {
    trim_end_spec(trim_start_spec(s))
}

pub proof fn lemma_trim_start_at(s: Seq<char>, i: int)
    requires
        0 <= i <= s.len(),
        forall|j: int| 0 <= j < i ==> is_space_char(s[j]),
        i == s.len() || !is_space_char(s[i]),
    ensures
        trim_start_spec(s) == s.subrange(i, s.len() as int),
    decreases i,
{
    if i == 0 {
        assert(s.subrange(0, s.len() as int) =~= s);
    } else {
        lemma_trim_start_at(s.drop_first(), i - 1);
        assert(s.drop_first().subrange(i - 1, s.len() - 1) =~= s.subrange(i, s.len() as int));
    }
}

pub proof fn lemma_trim_end_at(s: Seq<char>, j: int)
    requires
        0 <= j <= s.len(),
        forall|k: int| j <= k < s.len() ==> is_space_char(s[k]),
        j == 0 || !is_space_char(s[j - 1]),
    ensures
        trim_end_spec(s) == s.subrange(0, j),
    decreases s.len() - j,
{
    if j == s.len() {
        assert(s.subrange(0, s.len() as int) =~= s);
    } else {
        lemma_trim_end_at(s.drop_last(), j);
        assert(s.drop_last().subrange(0, j) =~= s.subrange(0, j));
    }
}

/// Where the trimmed-from-the-left text sits inside the original.
pub proof fn lemma_trim_start_shape(s: Seq<char>)
    ensures
        trim_start_spec(s).len() <= s.len(),
        trim_start_spec(s) == s.subrange(s.len() - trim_start_spec(s).len(), s.len() as int),
        forall|k: int| 0 <= k < s.len() - trim_start_spec(s).len() ==> is_space_char(s[k]),
        trim_start_spec(s).len() > 0 ==> !is_space_char(trim_start_spec(s)[0]),
    decreases s.len(),
{
    if s.len() > 0 && is_space_char(s[0]) {
        lemma_trim_start_shape(s.drop_first());
        let ts = trim_start_spec(s);
        assert(s.drop_first().subrange(s.len() - 1 - ts.len(), s.len() - 1) =~= s.subrange(
            s.len() - ts.len(),
            s.len() as int,
        ));
        assert forall|k: int| 0 <= k < s.len() - ts.len() implies is_space_char(s[k]) by {
            if k > 0 {
                assert(s[k] == s.drop_first()[k - 1]);
            }
        }
    } else {
        assert(s.subrange(0, s.len() as int) =~= s);
    }
}

/// Where the trimmed-from-the-right text sits inside the original.
pub proof fn lemma_trim_end_shape(s: Seq<char>)
    ensures
        trim_end_spec(s).len() <= s.len(),
        trim_end_spec(s) == s.subrange(0, trim_end_spec(s).len() as int),
        forall|k: int| trim_end_spec(s).len() <= k < s.len() ==> is_space_char(s[k]),
        trim_end_spec(s).len() > 0 ==> !is_space_char(trim_end_spec(s).last()),
    decreases s.len(),
{
    if s.len() > 0 && is_space_char(s.last()) {
        lemma_trim_end_shape(s.drop_last());
        let te = trim_end_spec(s);
        assert(s.drop_last().subrange(0, te.len() as int) =~= s.subrange(0, te.len() as int));
        assert forall|k: int| te.len() <= k < s.len() implies is_space_char(s[k]) by {
            if k < s.len() - 1 {
                assert(s[k] == s.drop_last()[k]);
            }
        }
    } else {
        assert(s.subrange(0, s.len() as int) =~= s);
    }
}

pub fn trim_str(s: &str) -> (r: String)
    ensures
        r@ == trim_spec(s@),
{
    let n = s.unicode_len();
    let mut i: usize = 0;
    while i < n && is_space(s.get_char(i))
        invariant
            0 <= i <= n,
            n == s@.len(),
            forall|j: int| 0 <= j < i ==> is_space_char(s@[j]),
        decreases n - i,
    {
        i = i + 1;
    }
    let mut j: usize = n;
    while j > i && is_space(s.get_char(j - 1))
        invariant
            i <= j <= n,
            n == s@.len(),
            forall|k: int| j <= k < n ==> is_space_char(s@[k]),
        decreases j,
    {
        j = j - 1;
    }
    let r = s.substring_char(i, j);
    proof {
        lemma_trim_start_at(s@, i as int);
        let t = s@.subrange(i as int, n as int);
        lemma_trim_end_at(t, j - i);
        assert(t.subrange(0, j - i) =~= s@.subrange(i as int, j as int));
    }
    r.to_owned()
}

// ---------------------------------------------------------------------------
// prefix, equality, substring search
// ---------------------------------------------------------------------------

pub open spec fn starts_with_spec(s: Seq<char>, p: Seq<char>) -> bool {
    p.len() <= s.len() && s.subrange(0, p.len() as int) == p
}

pub fn str_starts_with(s: &str, p: &str) -> (b: bool)
    ensures
        b == starts_with_spec(s@, p@),
{
    let n = s.unicode_len();
    let m = p.unicode_len();
    if m > n {
        return false;
    }
    let mut k: usize = 0;
    while k < m
        invariant
            0 <= k <= m <= n,
            n == s@.len(),
            m == p@.len(),
            forall|j: int| 0 <= j < k ==> s@[j] == p@[j],
        decreases m - k,
    {
        if s.get_char(k) != p.get_char(k) {
            proof {
                if starts_with_spec(s@, p@) {
                    assert(s@.subrange(0, m as int)[k as int] == s@[k as int]);
                }
            }
            return false;
        }
        k = k + 1;
    }
    proof {
        assert(s@.subrange(0, m as int) =~= p@);
    }
    true
}

pub fn str_eq(s: &str, t: &str) -> (b: bool)
    ensures
        b == (s@ == t@),
{
    let n = s.unicode_len();
    let m = t.unicode_len();
    if m != n {
        return false;
    }
    let mut k: usize = 0;
    while k < n
        invariant
            0 <= k <= n,
            n == s@.len(),
            n == t@.len(),
            forall|j: int| 0 <= j < k ==> s@[j] == t@[j],
        decreases n - k,
    {
        if s.get_char(k) != t.get_char(k) {
            return false;
        }
        k = k + 1;
    }
    proof {
        assert(s@ =~= t@);
    }
    true
}

/// `p` occurs in `s` at position `i`.
pub open spec fn contains_at(s: Seq<char>, p: Seq<char>, i: int) -> bool {
    0 <= i && i + p.len() <= s.len() && s.subrange(i, i + p.len() as int) == p
}

pub open spec fn contains_spec(s: Seq<char>, p: Seq<char>) -> bool {
    exists|i: int| contains_at(s, p, i)
}

fn matches_at(s: &str, p: &str, i: usize) -> (b: bool)
    requires
        i + p@.len() <= s@.len(),
    ensures
        b == contains_at(s@, p@, i as int),
{
    let n = s.unicode_len();
    let m = p.unicode_len();
    let mut k: usize = 0;
    while k < m
        invariant
            0 <= k <= m,
            m == p@.len(),
            n == s@.len(),
            i + m <= n,
            forall|j: int| 0 <= j < k ==> s@[i + j] == p@[j],
        decreases m - k,
    {
        if s.get_char(i + k) != p.get_char(k) {
            proof {
                if contains_at(s@, p@, i as int) {
                    assert(s@.subrange(i as int, i + m as int)[k as int] == s@[i + k]);
                }
            }
            return false;
        }
        k = k + 1;
    }
    proof {
        assert(s@.subrange(i as int, i + m as int) =~= p@);
    }
    true
}

pub fn str_contains(s: &str, p: &str) -> (b: bool)
    ensures
        b == contains_spec(s@, p@),
{
    let n = s.unicode_len();
    let m = p.unicode_len();
    if m > n {
        proof {
            assert(forall|i: int| !contains_at(s@, p@, i));
        }
        return false;
    }
    if m == 0 {
        proof {
            assert(s@.subrange(0, 0) =~= p@);
            assert(contains_at(s@, p@, 0));
        }
        return true;
    }
    let mut i: usize = 0;
    while i <= n - m
        invariant
            0 <= i <= n - m + 1,
            0 < m <= n,
            n == s@.len(),
            m == p@.len(),
            forall|k: int| 0 <= k < i ==> !contains_at(s@, p@, k),
        decreases n - i,
    {
        if matches_at(s, p, i) {
            proof {
                assert(contains_at(s@, p@, i as int));
            }
            return true;
        }
        i = i + 1;
    }
    proof {
        assert(forall|k: int| !contains_at(s@, p@, k)) by {
            assert(forall|k: int| k > n - m ==> !contains_at(s@, p@, k));
        }
    }
    false
}

// ---------------------------------------------------------------------------
// first occurrence of a character
// ---------------------------------------------------------------------------

/// Index of the first occurrence of `c` in `s`, or `s.len()` if absent.
pub open spec fn first_index_of(s: Seq<char>, c: char) -> nat
    decreases s.len(),
{
    if s.len() == 0 {
        0
    } else if s[0] == c {
        0
    } else {
        (1 + first_index_of(s.drop_first(), c)) as nat
    }
}

pub proof fn lemma_first_index_of(s: Seq<char>, c: char)
    ensures
        first_index_of(s, c) <= s.len(),
        forall|j: int| 0 <= j < first_index_of(s, c) ==> s[j] != c,
        first_index_of(s, c) < s.len() ==> s[first_index_of(s, c) as int] == c,
    decreases s.len(),
{
    if s.len() > 0 && s[0] != c {
        lemma_first_index_of(s.drop_first(), c);
        let fi = first_index_of(s, c);
        assert(fi == 1 + first_index_of(s.drop_first(), c));
        assert forall|j: int| 0 <= j < fi implies s[j] != c by {
            if j > 0 {
                assert(s.drop_first()[j - 1] == s[j]);
            }
        }
    }
}

pub proof fn lemma_first_index_witness(s: Seq<char>, c: char, i: int)
    requires
        0 <= i <= s.len(),
        forall|j: int| 0 <= j < i ==> s[j] != c,
        i == s.len() || s[i] == c,
    ensures
        first_index_of(s, c) == i,
    decreases i,
{
    if i == 0 {
        if s.len() > 0 && s[0] != c {
            lemma_first_index_of(s.drop_first(), c);
        }
    } else {
        lemma_first_index_witness(s.drop_first(), c, i - 1);
    }
}

/// Prepending text free of `c` shifts the first occurrence by its length.
pub proof fn lemma_first_index_concat(a: Seq<char>, b: Seq<char>, c: char)
    requires
        forall|j: int| 0 <= j < a.len() ==> a[j] != c,
    ensures
        first_index_of(a + b, c) == a.len() + first_index_of(b, c),
    decreases a.len(),
{
    if a.len() == 0 {
        assert(a + b =~= b);
    } else {
        lemma_first_index_concat(a.drop_first(), b, c);
        assert((a + b).drop_first() =~= a.drop_first() + b);
        assert((a + b)[0] == a[0]);
    }
}

pub fn find_char(s: &str, c: char) -> (i: usize)
    ensures
        i == first_index_of(s@, c),
{
    let n = s.unicode_len();
    let mut i: usize = 0;
    while i < n && s.get_char(i) != c
        invariant
            0 <= i <= n,
            n == s@.len(),
            forall|j: int| 0 <= j < i ==> s@[j] != c,
        decreases n - i,
    {
        i = i + 1;
    }
    proof {
        lemma_first_index_witness(s@, c, i as int);
    }
    i
}

// ---------------------------------------------------------------------------
// lower-casing a whole string
// ---------------------------------------------------------------------------

pub open spec fn lower_spec(s: Seq<char>) -> Seq<char> {
    s.map_values(|c: char| lower_char_spec(c))
}

pub fn to_lower(s: &str) -> (r: String)
    ensures
        r@ == lower_spec(s@),
{
    let n = s.unicode_len();
    let mut r = String::new();
    let mut i: usize = 0;
    while i < n
        invariant
            0 <= i <= n,
            n == s@.len(),
            r@.len() == i,
            forall|j: int| 0 <= j < i ==> r@[j] == lower_char_spec(s@[j]),
        decreases n - i,
    {
        push_char(&mut r, lower_char(s.get_char(i)));
        i = i + 1;
    }
    proof {
        assert(r@ =~= lower_spec(s@));
    }
    r
}

// ---------------------------------------------------------------------------
// splitting on commas
// ---------------------------------------------------------------------------

/// The comma-separated pieces of `s`; text without a comma (the empty
/// text included) is one piece.
pub open spec fn spec_split_commas(s: Seq<char>) -> Seq<Seq<char>>
    decreases s.len(),
{
    if s.len() == 0 {
        seq![Seq::<char>::empty()]
    } else if s[0] == ',' {
        seq![Seq::<char>::empty()] + spec_split_commas(s.drop_first())
    } else {
        let rest = spec_split_commas(s.drop_first());
        seq![seq![s[0]] + rest[0]] + rest.drop_first()
    }
}

/// Comma-free text is a single piece.
pub proof fn lemma_split_commas_single(a: Seq<char>)
    requires
        forall|i: int| 0 <= i < a.len() ==> a[i] != ',',
    ensures
        spec_split_commas(a) == seq![a],
    decreases a.len(),
{
    if a.len() == 0 {
        assert(spec_split_commas(a) =~~= seq![a]);
    } else {
        lemma_split_commas_single(a.drop_first());
        assert(seq![a[0]] + a.drop_first() =~= a);
        assert(spec_split_commas(a) =~~= seq![a]);
    }
}

/// A comma after a comma-free prefix closes exactly one piece.
pub proof fn lemma_split_commas_step(a: Seq<char>, b: Seq<char>)
    requires
        forall|i: int| 0 <= i < a.len() ==> a[i] != ',',
    ensures
        spec_split_commas(a + seq![','] + b) == seq![a] + spec_split_commas(b),
    decreases a.len(),
{
    let s = a + seq![','] + b;
    if a.len() == 0 {
        assert(s =~= seq![','] + b);
        assert(s[0] == ',');
        assert(s.drop_first() =~= b);
        assert(spec_split_commas(s) =~~= seq![a] + spec_split_commas(b));
    } else {
        lemma_split_commas_step(a.drop_first(), b);
        assert(s.drop_first() =~= a.drop_first() + seq![','] + b);
        let rest = spec_split_commas(s.drop_first());
        assert(rest == seq![a.drop_first()] + spec_split_commas(b));
        assert(rest[0] == a.drop_first());
        assert(seq![s[0]] + rest[0] =~= a);
        assert(rest.drop_first() =~= spec_split_commas(b));
        assert(spec_split_commas(s) =~~= seq![a] + spec_split_commas(b));
    }
}

pub open spec fn trimmed_pieces(s: Seq<char>) -> Seq<Seq<char>> {
    spec_split_commas(s).map_values(|p: Seq<char>| trim_spec(p))
}

/// Splits `s` on commas and trims every piece — how a comma-separated
/// tag list is read.
pub fn split_commas_trimmed(s: &str) -> (r: Vec<String>)
    ensures
        crate::lines::views_of(r@) == trimmed_pieces(s@),
{
    let n = s.unicode_len();
    let mut out: Vec<String> = Vec::new();
    let mut cur = String::new();
    let mut i: usize = 0;
    proof {
        assert(cur@ + s@.subrange(0, n as int) =~= s@);
        assert(crate::lines::views_of(out@) =~~= Seq::<Seq<char>>::empty());
    }
    while i < n
        invariant
            0 <= i <= n,
            n == s@.len(),
            forall|j: int| 0 <= j < cur@.len() ==> cur@[j] != ',',
            trimmed_pieces(s@) == crate::lines::views_of(out@) + trimmed_pieces(
                cur@ + s@.subrange(i as int, n as int),
            ),
        decreases n - i,
    {
        let c = s.get_char(i);
        let ghost pre_cur = cur@;
        let ghost pre_out = out@;
        if c == ',' {
            let piece = trim_str(cur.as_str());
            proof {
                lemma_split_commas_step(pre_cur, s@.subrange(i + 1, n as int));
                assert(pre_cur + s@.subrange(i as int, n as int) =~= pre_cur + seq![',']
                    + s@.subrange(i + 1, n as int));
            }
            out.push(piece);
            cur = String::new();
            proof {
                assert(crate::lines::views_of(out@) =~= crate::lines::views_of(pre_out) + seq![
                    trim_spec(pre_cur),
                ]);
                assert(cur@ + s@.subrange(i + 1, n as int) =~= s@.subrange(i + 1, n as int));
                assert(trimmed_pieces(pre_cur + seq![','] + s@.subrange(i + 1, n as int)) =~~= seq![
                    trim_spec(pre_cur),
                ] + trimmed_pieces(s@.subrange(i + 1, n as int)));
                assert(trimmed_pieces(s@) =~~= crate::lines::views_of(out@) + trimmed_pieces(
                    cur@ + s@.subrange(i + 1, n as int),
                ));
            }
        } else {
            push_char(&mut cur, c);
            proof {
                assert(cur@ + s@.subrange(i + 1, n as int) =~= pre_cur + s@.subrange(
                    i as int,
                    n as int,
                ));
            }
        }
        i = i + 1;
    }
    let piece = trim_str(cur.as_str());
    let ghost pre_out = out@;
    out.push(piece);
    proof {
        assert(cur@ + s@.subrange(n as int, n as int) =~= cur@);
        lemma_split_commas_single(cur@);
        assert(trimmed_pieces(cur@) =~~= seq![trim_spec(cur@)]);
        assert(crate::lines::views_of(out@) =~= crate::lines::views_of(pre_out) + seq![
            trim_spec(cur@),
        ]);
        assert(crate::lines::views_of(out@) =~~= trimmed_pieces(s@));
    }
    out
}

// ---------------------------------------------------------------------------
// lexicographic order on text
// ---------------------------------------------------------------------------

/// Lexicographic order by character code, the order task ids sort in.
pub open spec fn lex_le(a: Seq<char>, b: Seq<char>) -> bool
    decreases a.len(),
{
    if a.len() == 0 {
        true
    } else if b.len() == 0 {
        false
    } else if a[0] != b[0] {
        a[0] < b[0]
    } else {
        lex_le(a.drop_first(), b.drop_first())
    }
}

/// Any two texts compare one way or the other.
pub proof fn lemma_lex_le_total(a: Seq<char>, b: Seq<char>)
    ensures
        lex_le(a, b) || lex_le(b, a),
    decreases a.len(),
{
    if a.len() == 0 {
    } else if b.len() == 0 {
    } else if a[0] == b[0] {
        lemma_lex_le_total(a.drop_first(), b.drop_first());
    } else {
        assert(a[0] < b[0] || b[0] < a[0]);
    }
}

pub fn str_lex_le(a: &str, b: &str) -> (r: bool)
    ensures
        r == lex_le(a@, b@),
{
    let an = a.unicode_len();
    let bn = b.unicode_len();
    let mut i: usize = 0;
    proof {
        assert(a@.subrange(0, an as int) =~= a@);
        assert(b@.subrange(0, bn as int) =~= b@);
    }
    loop
        invariant
            0 <= i <= an,
            i <= bn,
            an == a@.len(),
            bn == b@.len(),
            lex_le(a@, b@) == lex_le(
                a@.subrange(i as int, an as int),
                b@.subrange(i as int, bn as int),
            ),
        decreases an - i,
    {
        if i == an {
            proof {
                assert(a@.subrange(i as int, an as int).len() == 0);
            }
            return true;
        }
        if i == bn {
            proof {
                assert(b@.subrange(i as int, bn as int).len() == 0);
                assert(a@.subrange(i as int, an as int).len() > 0);
            }
            return false;
        }
        let ca = a.get_char(i);
        let cb = b.get_char(i);
        proof {
            let at = a@.subrange(i as int, an as int);
            let bt = b@.subrange(i as int, bn as int);
            assert(at[0] == a@[i as int] && bt[0] == b@[i as int]);
            assert(at.drop_first() =~= a@.subrange(i + 1, an as int));
            assert(bt.drop_first() =~= b@.subrange(i + 1, bn as int));
        }
        if ca != cb {
            return ca < cb;
        }
        i = i + 1;
    }
}

// ---------------------------------------------------------------------------
// slugs
// ---------------------------------------------------------------------------

pub open spec fn slug_char(c: char) -> char {
    if lower_char_spec(c) == ' ' {
        '-'
    } else {
        lower_char_spec(c)
    }
}

/// The slug of a title: letters lower-cased, spaces turned to hyphens,
/// everything that is not an ASCII letter, digit or hyphen dropped.
pub open spec fn slug_of(s: Seq<char>) -> Seq<char>
    decreases s.len(),
{
    if s.len() == 0 {
        Seq::empty()
    } else {
        let c = slug_char(s[0]);
        (if is_alnum_char(c) || c == '-' {
            seq![c]
        } else {
            Seq::<char>::empty()
        }) + slug_of(s.drop_first())
    }
}

pub fn slugify(title: &str) -> (r: String)
    ensures
        r@ == slug_of(title@),
{
    let n = title.unicode_len();
    let mut r = String::new();
    let mut i: usize = 0;
    proof {
        assert(title@.subrange(0, n as int) =~= title@);
        assert(r@ + slug_of(title@) =~= slug_of(title@));
    }
    while i < n
        invariant
            0 <= i <= n,
            n == title@.len(),
            slug_of(title@) == r@ + slug_of(title@.subrange(i as int, n as int)),
        decreases n - i,
    {
        let ghost tail = title@.subrange(i as int, n as int);
        proof {
            assert(tail[0] == title@[i as int]);
            assert(tail.drop_first() =~= title@.subrange(i + 1, n as int));
        }
        let c0 = lower_char(title.get_char(i));
        let c = if c0 == ' ' {
            '-'
        } else {
            c0
        };
        if is_alnum(c) || c == '-' {
            push_char(&mut r, c);
        }
        i = i + 1;
    }
    proof {
        assert(slug_of(title@.subrange(n as int, n as int)) =~= Seq::<char>::empty());
        assert(r@ =~= slug_of(title@));
    }
    r
}

/// Case-insensitive containment, the filter semantics of task listing.
pub open spec fn contains_ci(hay: Seq<char>, needle: Seq<char>) -> bool {
    contains_spec(lower_spec(hay), lower_spec(needle))
}

pub fn str_contains_ci(hay: &str, needle: &str) -> (b: bool)
    ensures
        b == contains_ci(hay@, needle@),
{
    let h = to_lower(hay);
    let n = to_lower(needle);
    str_contains(h.as_str(), n.as_str())
}

} // verus!
