//! Texts as sequences of characters: their order and their prefixes.

use vstd::prelude::*;
use vstd::string::StrSliceExecFns;

verus! {

/// What `char::is_numeric` of std returns for `c`.
pub uninterp spec fn is_numeric(c: char) -> bool;

/// What `char::is_whitespace` of std returns for `c`.
pub uninterp spec fn is_whitespace(c: char) -> bool;

/// `char::is_numeric` of std: whether the character has one of the general
/// categories for numbers. The contract gives the answer its name and claims
/// nothing else of it.
#[verifier::external_body]
fn char_is_numeric(c: char) -> (r: bool)
    ensures
        r == is_numeric(c),
{
    c.is_numeric()
}

/// `char::is_whitespace` of std: whether the character has the property
/// `White_Space`. The contract gives the answer its name and claims nothing
/// else of it.
#[verifier::external_body]
fn char_is_whitespace(c: char) -> (r: bool)
    ensures
        r == is_whitespace(c),
{
    c.is_whitespace()
}

/// `a` comes before `b` in the order of a dictionary whose alphabet is the
/// code points: at the first place where the two differ, `a` has ended or has
/// the lower character.
pub open spec fn lex_less(a: Seq<char>, b: Seq<char>) -> bool
    decreases a.len(),
{
    if b.len() == 0 {
        false
    } else if a.len() == 0 {
        true
    } else if a[0] != b[0] {
        (a[0] as int) < (b[0] as int)
    } else {
        lex_less(a.drop_first(), b.drop_first())
    }
}

/// No text comes before itself.
pub proof fn lemma_lex_irreflexive(a: Seq<char>)
    ensures
        !lex_less(a, a),
    decreases a.len(),
{
    if a.len() > 0 {
        lemma_lex_irreflexive(a.drop_first());
    }
}

/// Of two different texts one comes before the other.
pub proof fn lemma_lex_total(a: Seq<char>, b: Seq<char>)
    ensures
        a == b || lex_less(a, b) || lex_less(b, a),
    decreases a.len(),
{
    if a.len() == 0 || b.len() == 0 {
        if a.len() == 0 && b.len() == 0 {
            assert(a =~= b);
        }
    } else if a[0] == b[0] {
        lemma_lex_total(a.drop_first(), b.drop_first());
        if a.drop_first() == b.drop_first() {
            assert(a =~= seq![a[0]] + a.drop_first());
            assert(b =~= seq![b[0]] + b.drop_first());
        }
    }
}

/// What comes before a text that comes before a third comes before the third.
pub proof fn lemma_lex_transitive(a: Seq<char>, b: Seq<char>, c: Seq<char>)
    requires
        lex_less(a, b),
        lex_less(b, c),
    ensures
        lex_less(a, c),
    decreases a.len(),
{
    if a.len() > 0 && b.len() > 0 && c.len() > 0 {
        if a[0] == b[0] && b[0] == c[0] {
            lemma_lex_transitive(a.drop_first(), b.drop_first(), c.drop_first());
        }
    }
}

/// The characters of a text.
pub fn to_chars(s: &str) -> (r: Vec<char>)
    ensures
        r@ == s@,
{
    let n = s.unicode_len();
    let mut out: Vec<char> = Vec::new();
    let mut i: usize = 0;
    while i < n
        invariant
            n == s@.len(),
            i <= n,
            out@ == s@.take(i as int),
        decreases n - i,
    {
        out.push(s.get_char(i));
        assert(s@.take(i + 1) =~= s@.take(i as int).push(s@[i as int]));
        i += 1;
    }
    assert(s@.take(n as int) =~= s@);
    out
}

/// Whether `a` comes before `b`.
pub fn less(a: &Vec<char>, b: &Vec<char>) -> (r: bool)
    ensures
        r == lex_less(a@, b@),
{
    let mut k: usize = 0;
    assert(a@.skip(0) =~= a@ && b@.skip(0) =~= b@);
    loop
        invariant
            k <= a.len(),
            k <= b.len(),
            lex_less(a@, b@) == lex_less(a@.skip(k as int), b@.skip(k as int)),
        decreases a.len() - k,
    {
        if k == b.len() {
            return false;
        }
        if k == a.len() {
            return true;
        }
        assert(a@.skip(k as int)[0] == a@[k as int]);
        assert(b@.skip(k as int)[0] == b@[k as int]);
        if a[k] != b[k] {
            return a[k] < b[k];
        }
        assert(a@.skip(k as int).drop_first() =~= a@.skip(k + 1));
        assert(b@.skip(k as int).drop_first() =~= b@.skip(k + 1));
        k += 1;
    }
}

/// Whether `text` begins with `prefix`.
pub fn starts_with(text: &Vec<char>, prefix: &Vec<char>) -> (r: bool)
    ensures
        r == prefix@.is_prefix_of(text@),
{
    if prefix.len() > text.len() {
        return false;
    }
    let mut k: usize = 0;
    while k < prefix.len()
        invariant
            k <= prefix.len(),
            prefix.len() <= text.len(),
            forall|j: int| 0 <= j < k ==> prefix@[j] == text@[j],
        decreases prefix.len() - k,
    {
        if prefix[k] != text[k] {
            assert(text@.subrange(0, prefix@.len() as int)[k as int] != prefix@[k as int]);
            return false;
        }
        k += 1;
    }
    assert(prefix@ =~= text@.subrange(0, prefix@.len() as int));
    true
}

/// Which characters of a text are whitespace.
pub open spec fn whitespace_marks(s: Seq<char>) -> Seq<bool> {
    Seq::new(s.len(), |i: int| is_whitespace(s[i]))
}

/// Which characters of a text are numeric.
pub open spec fn numeric_marks(s: Seq<char>) -> Seq<bool> {
    Seq::new(s.len(), |i: int| is_numeric(s[i]))
}

/// The first place from `from` on and before `to` that is not marked, or
/// `to` where all of them are.
pub open spec fn first_clear(marks: Seq<bool>, from: int, to: int) -> int
    decreases to - from,
{
    if from >= to {
        to
    } else if !marks[from] {
        from
    } else {
        first_clear(marks, from + 1, to)
    }
}

/// The first place from `from` on and before `to` that is marked, or `to`
/// where none of them is.
pub open spec fn first_set(marks: Seq<bool>, from: int, to: int) -> int
    decreases to - from,
{
    if from >= to {
        to
    } else if marks[from] {
        from
    } else {
        first_set(marks, from + 1, to)
    }
}

/// The place behind the last one that is not marked, from `from` on and
/// before `to`, or `from` where all of them are marked.
pub open spec fn last_clear_end(marks: Seq<bool>, from: int, to: int) -> int
    decreases to - from,
{
    if from >= to {
        from
    } else if !marks[to - 1] {
        to
    } else {
        last_clear_end(marks, from, to - 1)
    }
}

/// The part of the text between `from` and `to` without the whitespace at
/// its start and at its end, given which of its characters are whitespace.
pub open spec fn trimmed_between(s: Seq<char>, space: Seq<bool>, from: int, to: int) -> Seq<char> {
    s.subrange(
        first_clear(space, from, to),
        last_clear_end(space, first_clear(space, from, to), to),
    )
}

/// A text that neither begins nor ends with whitespace.
pub open spec fn without_outer_whitespace(s: Seq<char>) -> bool {
    s.len() > 0 ==> !is_whitespace(s[0]) && !is_whitespace(s.last())
}

/// What [`first_clear`] finds lies between its bounds and, unless it is the
/// upper one, is not marked.
pub proof fn lemma_first_clear(marks: Seq<bool>, from: int, to: int)
    requires
        from <= to,
    ensures
        from <= first_clear(marks, from, to) <= to,
        first_clear(marks, from, to) < to ==> !marks[first_clear(marks, from, to)],
    decreases to - from,
{
    if from < to && marks[from] {
        lemma_first_clear(marks, from + 1, to);
    }
}

/// What [`last_clear_end`] finds lies between its bounds and, unless it is
/// the lower one, stands behind a place that is not marked.
pub proof fn lemma_last_clear_end(marks: Seq<bool>, from: int, to: int)
    requires
        from <= to,
    ensures
        from <= last_clear_end(marks, from, to) <= to,
        from < last_clear_end(marks, from, to) ==> !marks[last_clear_end(marks, from, to) - 1],
    decreases to - from,
{
    if from < to && marks[to - 1] {
        lemma_last_clear_end(marks, from, to - 1);
    }
}

/// A part of a text that is trimmed by the marks of its whitespace neither
/// begins nor ends with whitespace.
pub proof fn lemma_trimmed_between(s: Seq<char>, from: int, to: int)
    requires
        0 <= from <= to <= s.len(),
    ensures
        without_outer_whitespace(trimmed_between(s, whitespace_marks(s), from, to)),
{
    let marks = whitespace_marks(s);
    lemma_first_clear(marks, from, to);
    let a = first_clear(marks, from, to);
    lemma_last_clear_end(marks, a, to);
}

/// The text without the whitespace at its start and at its end.
pub open spec fn trimmed(s: Seq<char>) -> Seq<char> {
    trimmed_between(s, whitespace_marks(s), 0, s.len() as int)
}

/// The text `pattern` stands in `text` at the place `i`.
pub open spec fn occurs_at(text: Seq<char>, pattern: Seq<char>, i: int) -> bool {
    0 <= i && i + pattern.len() <= text.len() && text.subrange(i, i + pattern.len()) == pattern
}

/// The first place at or after `from` where `pattern` stands in `text`.
pub open spec fn first_occurrence(text: Seq<char>, pattern: Seq<char>, from: int) -> Option<int>
    decreases text.len() - from + 1,
{
    if from < 0 || from + pattern.len() > text.len() {
        None
    } else if occurs_at(text, pattern, from) {
        Some(from)
    } else {
        first_occurrence(text, pattern, from + 1)
    }
}

/// What [`first_occurrence`] finds is a place where the pattern stands, with
/// none between `from` and it; it finds none only where there is none from
/// `from` on.
pub proof fn lemma_first_occurrence(text: Seq<char>, pattern: Seq<char>, from: int)
    requires
        0 <= from,
    ensures
        match first_occurrence(text, pattern, from) {
            Some(i) => from <= i && occurs_at(text, pattern, i) && forall|j: int|
                from <= j < i ==> !occurs_at(text, pattern, j),
            None => forall|j: int| from <= j ==> !occurs_at(text, pattern, j),
        },
    decreases text.len() - from + 1,
{
    if from + pattern.len() <= text.len() && !occurs_at(text, pattern, from) {
        lemma_first_occurrence(text, pattern, from + 1);
    }
}

/// The last place among the first `n` where the character `c` stands in `text`.
pub open spec fn last_index_of(text: Seq<char>, c: char, n: int) -> Option<int>
    decreases n,
{
    if n <= 0 {
        None
    } else if text[n - 1] == c {
        Some(n - 1)
    } else {
        last_index_of(text, c, n - 1)
    }
}

/// Which characters of a text are whitespace.
pub fn mark_whitespace(text: &Vec<char>) -> (r: Vec<bool>)
    ensures
        r@ == whitespace_marks(text@),
{
    let mut marks: Vec<bool> = Vec::new();
    let mut i: usize = 0;
    while i < text.len()
        invariant
            i <= text.len(),
            marks@.len() == i,
            forall|k: int| 0 <= k < i ==> marks@[k] == is_whitespace(text@[k]),
        decreases text.len() - i,
    {
        marks.push(char_is_whitespace(text[i]));
        i += 1;
    }
    assert(marks@ =~= whitespace_marks(text@));
    marks
}

/// Which characters of a text are numeric.
pub fn mark_numeric(text: &Vec<char>) -> (r: Vec<bool>)
    ensures
        r@ == numeric_marks(text@),
{
    let mut marks: Vec<bool> = Vec::new();
    let mut i: usize = 0;
    while i < text.len()
        invariant
            i <= text.len(),
            marks@.len() == i,
            forall|k: int| 0 <= k < i ==> marks@[k] == is_numeric(text@[k]),
        decreases text.len() - i,
    {
        marks.push(char_is_numeric(text[i]));
        i += 1;
    }
    assert(marks@ =~= numeric_marks(text@));
    marks
}

/// The first place from `from` on and before `to` that is not marked, or
/// `to`.
pub fn skip_marked(marks: &Vec<bool>, from: usize, to: usize) -> (r: usize)
    requires
        from <= to <= marks@.len(),
    ensures
        r == first_clear(marks@, from as int, to as int),
        from <= r <= to,
{
    let mut a: usize = from;
    while a < to && marks[a]
        invariant
            from <= a <= to,
            to <= marks@.len(),
            first_clear(marks@, from as int, to as int) == first_clear(marks@, a as int, to as int),
        decreases to - a,
    {
        a += 1;
    }
    a
}

/// The first place from `from` on and before `to` that is marked, or `to`.
pub fn skip_clear(marks: &Vec<bool>, from: usize, to: usize) -> (r: usize)
    requires
        from <= to <= marks@.len(),
    ensures
        r == first_set(marks@, from as int, to as int),
        from <= r <= to,
{
    let mut a: usize = from;
    while a < to && !marks[a]
        invariant
            from <= a <= to,
            to <= marks@.len(),
            first_set(marks@, from as int, to as int) == first_set(marks@, a as int, to as int),
        decreases to - a,
    {
        a += 1;
    }
    a
}

/// What [`last_index_of`] finds is a place among the first `n`.
pub proof fn lemma_last_index_of(text: Seq<char>, c: char, n: int)
    requires
        0 <= n <= text.len(),
    ensures
        last_index_of(text, c, n) is Some ==> 0 <= last_index_of(text, c, n).unwrap() < n,
    decreases n,
{
    if n > 0 && text[n - 1] != c {
        lemma_last_index_of(text, c, n - 1);
    }
}

/// The bounds of the part between `from` and `to` without the marked places
/// at its start and at its end.
pub fn trim_bounds(marks: &Vec<bool>, from: usize, to: usize) -> (r: (usize, usize))
    requires
        from <= to <= marks@.len(),
    ensures
        r.0 == first_clear(marks@, from as int, to as int),
        r.1 == last_clear_end(marks@, r.0 as int, to as int),
        from <= r.0 <= r.1 <= to,
{
    let a = skip_marked(marks, from, to);
    let mut b: usize = to;
    while a < b && marks[b - 1]
        invariant
            a <= b <= to,
            to <= marks@.len(),
            last_clear_end(marks@, a as int, to as int) == last_clear_end(
                marks@,
                a as int,
                b as int,
            ),
        decreases b - a,
    {
        b -= 1;
    }
    (a, b)
}

/// The first place where `pattern` stands in `text`.
pub fn find_text(text: &Vec<char>, pattern: &Vec<char>) -> (r: Option<usize>)
    ensures
        match r {
            Some(i) => first_occurrence(text@, pattern@, 0) == Some(i as int) && occurs_at(
                text@,
                pattern@,
                i as int,
            ) && forall|j: int| 0 <= j < i ==> !occurs_at(text@, pattern@, j),
            None => first_occurrence(text@, pattern@, 0) is None && forall|j: int|
                0 <= j ==> !occurs_at(text@, pattern@, j),
        },
{
    proof {
        lemma_first_occurrence(text@, pattern@, 0);
    }
    if pattern.len() > text.len() {
        return None;
    }
    if pattern.len() == 0 {
        assert(text@.subrange(0, 0) =~= pattern@);
        return Some(0);
    }
    let last = text.len() - pattern.len();
    let mut i: usize = 0;
    while i <= last
        invariant
            i <= last + 1,
            pattern@.len() > 0,
            last == text@.len() - pattern@.len(),
            first_occurrence(text@, pattern@, 0) == first_occurrence(text@, pattern@, i as int),
        decreases last + 1 - i,
    {
        let mut k: usize = 0;
        let mut same = true;
        while k < pattern.len() && same
            invariant
                k <= pattern.len(),
                i + pattern.len() <= text.len(),
                same ==> forall|j: int| 0 <= j < k ==> text@[i + j] == pattern@[j],
                !same ==> !occurs_at(text@, pattern@, i as int),
            decreases pattern.len() - k + (if same {
                1int
            } else {
                0int
            }),
        {
            if text[i + k] != pattern[k] {
                assert(text@.subrange(i as int, i + pattern@.len())[k as int] != pattern@[k as int]);
                same = false;
            } else {
                k += 1;
            }
        }
        if same {
            assert(text@.subrange(i as int, i + pattern@.len()) =~= pattern@);
            proof {
                lemma_first_occurrence(text@, pattern@, 0);
            }
            return Some(i);
        }
        i += 1;
    }
    proof {
        lemma_first_occurrence(text@, pattern@, 0);
    }
    None
}

/// The last place where the character `c` stands in `text`.
pub fn find_last(text: &Vec<char>, c: char) -> (r: Option<usize>)
    ensures
        match r {
            Some(i) => last_index_of(text@, c, text@.len() as int) == Some(i as int) && i
                < text@.len(),
            None => last_index_of(text@, c, text@.len() as int) is None,
        },
{
    let mut n: usize = text.len();
    while n > 0
        invariant
            n <= text.len(),
            last_index_of(text@, c, text@.len() as int) == last_index_of(text@, c, n as int),
        decreases n,
    {
        if text[n - 1] == c {
            return Some(n - 1);
        }
        n -= 1;
    }
    None
}

} // verus!
