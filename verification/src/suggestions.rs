//! The suggestion index: descriptions that begin with what has been typed,
//! once a leading quantity is set aside.

use crate::text::{
    first_clear, first_set, lemma_lex_total, lemma_lex_transitive, less, lex_less, mark_numeric,
    mark_whitespace, numeric_marks, skip_clear, skip_marked, starts_with, to_chars,
    whitespace_marks,
};
use vstd::prelude::*;
use vstd::string::{StrSliceExecFns, StringExecFns};

verus! {

/// At most this many suggestions are made.
pub const SUGGESTION_LIMIT: usize = 10;

/// The query begins with a quantity, given which of its characters are
/// whitespace and which are numeric: its first word begins with a numeric
/// character.
pub open spec fn has_quantity(space: Seq<bool>, numeric: Seq<bool>) -> bool {
    first_clear(space, 0, space.len() as int) < space.len() && numeric[first_clear(
        space,
        0,
        space.len() as int,
    )]
}

/// The quantity of a query, given which of its characters are whitespace and
/// which are numeric: its first word where that begins with a numeric
/// character, the empty text otherwise.
pub open spec fn quantity_with(query: Seq<char>, space: Seq<bool>, numeric: Seq<bool>) -> Seq<char> {
    if has_quantity(space, numeric) {
        query.subrange(
            first_clear(space, 0, space.len() as int),
            first_set(space, first_clear(space, 0, space.len() as int), space.len() as int),
        )
    } else {
        Seq::empty()
    }
}

/// Where the pattern begins in a query that begins with a quantity: at the
/// first character behind the quantity and the whitespace that follows it.
pub open spec fn pattern_start(space: Seq<bool>) -> int {
    first_clear(
        space,
        first_set(space, first_clear(space, 0, space.len() as int), space.len() as int),
        space.len() as int,
    )
}

/// What descriptions are matched against, given which characters of the
/// query are whitespace and which are numeric: where the query begins with
/// a quantity, the query from the first character behind the quantity and
/// the whitespace that follows it, unchanged to its end; the whole query
/// otherwise.
pub open spec fn pattern_with(query: Seq<char>, space: Seq<bool>, numeric: Seq<bool>) -> Seq<char> {
    if has_quantity(space, numeric) {
        query.subrange(pattern_start(space), space.len() as int)
    } else {
        query
    }
}

/// The quantity of a query.
pub open spec fn quantity_of(query: Seq<char>) -> Seq<char> {
    quantity_with(query, whitespace_marks(query), numeric_marks(query))
}

/// What descriptions are matched against.
pub open spec fn pattern_of(query: Seq<char>) -> Seq<char> {
    pattern_with(query, whitespace_marks(query), numeric_marks(query))
}

/// Splits a query into its quantity and what descriptions are matched
/// against, given which of its characters are whitespace and which are
/// numeric.
pub fn split_quantity_with(query: &str, space: &Vec<bool>, numeric: &Vec<bool>) -> (r: (
    String,
    String,
))
    requires
        space@.len() == query@.len(),
        numeric@.len() == query@.len(),
    ensures
        r.0@ == quantity_with(query@, space@, numeric@),
        r.1@ == pattern_with(query@, space@, numeric@),
{
    let n = space.len();
    let a = skip_marked(space, 0, n);
    if a == n || !numeric[a] {
        return (String::new(), String::from_str(query));
    }
    let b = skip_clear(space, a, n);
    let quantity = String::from_str(query.substring_char(a, b));
    let c = skip_marked(space, b, n);
    let pattern = String::from_str(query.substring_char(c, n));
    (quantity, pattern)
}

/// Splits a query into its quantity and what descriptions are matched
/// against.
pub fn split_quantity(query: &str) -> (r: (String, String))
    ensures
        r.0@ == quantity_of(query@),
        r.1@ == pattern_of(query@),
{
    let chars = to_chars(query);
    let space = mark_whitespace(&chars);
    let numeric = mark_numeric(&chars);
    split_quantity_with(query, &space, &numeric)
}

/// A description matches: it is not empty and begins with the pattern, letter
/// for letter.
pub open spec fn is_match(description: Seq<char>, pattern: Seq<char>) -> bool {
    description.len() > 0 && pattern.is_prefix_of(description)
}

/// The texts of a list of character vectors.
pub open spec fn texts_of(all: Seq<Vec<char>>) -> Seq<Seq<char>> {
    Seq::new(all.len(), |i: int| all[i]@)
}

/// One of the picks is the text `d`.
pub open spec fn picked(all: Seq<Seq<char>>, picks: Seq<usize>, d: Seq<char>) -> bool {
    exists|k: int| 0 <= k < picks.len() && all[(#[trigger] picks[k]) as int] == d
}

/// The text `d` comes after the last pick, or there is no pick yet.
pub open spec fn above_last(all: Seq<Seq<char>>, picks: Seq<usize>, d: Seq<char>) -> bool {
    picks.len() == 0 || lex_less(all[picks.last() as int], d)
}

/// The picks are in ascending order, no two of them the same text.
pub open spec fn ascending(all: Seq<Seq<char>>, picks: Seq<usize>) -> bool {
    forall|a: int, b: int|
        #![trigger picks[a], picks[b]]
        0 <= a < b < picks.len() ==> lex_less(all[picks[a] as int], all[picks[b] as int])
}

/// Every pick is a place of a text that matches.
pub open spec fn all_match(all: Seq<Seq<char>>, pattern: Seq<char>, picks: Seq<usize>) -> bool {
    forall|k: int|
        0 <= k < picks.len() ==> (#[trigger] picks[k]) < all.len() && is_match(
            all[picks[k] as int],
            pattern,
        )
}

/// `picks` are the places of the first texts that match, in ascending order,
/// each text once, up to the limit: every text that matches is one of them,
/// or comes after the last of a full list.
pub open spec fn is_top(all: Seq<Seq<char>>, pattern: Seq<char>, picks: Seq<usize>) -> bool {
    &&& picks.len() <= SUGGESTION_LIMIT
    &&& all_match(all, pattern, picks)
    &&& ascending(all, picks)
    &&& forall|i: int|
        0 <= i < all.len() && is_match(#[trigger] all[i], pattern) ==> picked(all, picks, all[i])
            || (picks.len() == SUGGESTION_LIMIT && lex_less(all[picks.last() as int], all[i]))
}

/// The place of the first text, in ascending order, that matches and comes
/// after the last pick; `None` where there is none.
fn next_match(all: &Vec<Vec<char>>, pattern: &Vec<char>, picks: &Vec<usize>) -> (r: Option<usize>)
    requires
        all_match(texts_of(all@), pattern@, picks@),
    ensures
        match r {
            Some(b) => {
                &&& b < all@.len()
                &&& is_match(all@[b as int]@, pattern@)
                &&& above_last(texts_of(all@), picks@, all@[b as int]@)
                &&& forall|j: int|
                    0 <= j < all@.len() && is_match((#[trigger] all@[j])@, pattern@) && above_last(
                        texts_of(all@),
                        picks@,
                        all@[j]@,
                    ) ==> !lex_less(all@[j]@, all@[b as int]@)
            },
            None => forall|j: int|
                0 <= j < all@.len() && is_match((#[trigger] all@[j])@, pattern@) ==> !above_last(
                    texts_of(all@),
                    picks@,
                    all@[j]@,
                ),
        },
{
    let n = all.len();
    let mut best: Option<usize> = None;
    let mut i: usize = 0;
    while i < n
        invariant
            i <= n,
            n == all@.len(),
            all_match(texts_of(all@), pattern@, picks@),
            match best {
                Some(b) => {
                    &&& b < i
                    &&& is_match(all@[b as int]@, pattern@)
                    &&& above_last(texts_of(all@), picks@, all@[b as int]@)
                    &&& forall|j: int|
                        0 <= j < i && is_match((#[trigger] all@[j])@, pattern@) && above_last(
                            texts_of(all@),
                            picks@,
                            all@[j]@,
                        ) ==> !lex_less(all@[j]@, all@[b as int]@)
                },
                None => forall|j: int|
                    0 <= j < i && is_match((#[trigger] all@[j])@, pattern@) ==> !above_last(
                        texts_of(all@),
                        picks@,
                        all@[j]@,
                    ),
            },
        decreases n - i,
    {
        if all[i].len() > 0 && starts_with(&all[i], pattern) {
            let above = if picks.len() == 0 {
                true
            } else {
                let last = picks[picks.len() - 1];
                assert(picks@[picks@.len() - 1] == picks@.last());
                assert(texts_of(all@)[last as int] == all@[last as int]@);
                less(&all[last], &all[i])
            };
            if above {
                match best {
                    None => {
                        proof {
                            crate::text::lemma_lex_irreflexive(all@[i as int]@);
                        }
                        best = Some(i);
                    },
                    Some(b) => {
                        if less(&all[i], &all[b]) {
                            proof {
                                crate::text::lemma_lex_irreflexive(all@[i as int]@);
                                assert forall|j: int|
                                    0 <= j < i && is_match((#[trigger] all@[j])@, pattern@)
                                        && above_last(
                                        texts_of(all@),
                                        picks@,
                                        all@[j]@,
                                    ) implies !lex_less(all@[j]@, all@[i as int]@) by {
                                    if lex_less(all@[j]@, all@[i as int]@) {
                                        lemma_lex_transitive(
                                            all@[j]@,
                                            all@[i as int]@,
                                            all@[b as int]@,
                                        );
                                    }
                                }
                            }
                            best = Some(i);
                        }
                    },
                }
            }
        }
        i += 1;
    }
    best
}

/// The places of the first texts of `all` that match `pattern`, in ascending
/// order, each text once, up to the limit.
pub fn top_matches(all: &Vec<Vec<char>>, pattern: &Vec<char>) -> (picks: Vec<usize>)
    ensures
        is_top(texts_of(all@), pattern@, picks@),
{
    let ghost texts = texts_of(all@);
    let mut picks: Vec<usize> = Vec::new();
    let mut done = false;
    while !done && picks.len() < SUGGESTION_LIMIT
        invariant
            texts == texts_of(all@),
            picks@.len() <= SUGGESTION_LIMIT,
            all_match(texts, pattern@, picks@),
            ascending(texts, picks@),
            forall|i: int|
                0 <= i < texts.len() && is_match(#[trigger] texts[i], pattern@) && !above_last(
                    texts,
                    picks@,
                    texts[i],
                ) ==> picked(texts, picks@, texts[i]),
            done ==> forall|i: int|
                0 <= i < texts.len() && is_match(#[trigger] texts[i], pattern@) ==> picked(
                    texts,
                    picks@,
                    texts[i],
                ),
        decreases
                (if done {
                    0int
                } else {
                    SUGGESTION_LIMIT - picks@.len() + 1
                }),
    {
        let ghost before = picks@;
        match next_match(all, pattern, &picks) {
            None => {
                proof {
                    assert forall|i: int|
                        0 <= i < texts.len() && is_match(
                            #[trigger] texts[i],
                            pattern@,
                        ) implies picked(texts, picks@, texts[i]) by {
                        assert(is_match(all@[i]@, pattern@));
                        assert(!above_last(texts, picks@, all@[i]@));
                    }
                }
                done = true;
            },
            Some(b) => {
                picks.push(b);
                proof {
                    let after = picks@;
                    let d = texts[b as int];
                    assert(after.last() == b);
                    assert forall|k: int| 0 <= k < after.len() implies (#[trigger] after[k])
                        < texts.len() && is_match(texts[after[k] as int], pattern@) by {
                        if k < before.len() {
                            assert(after[k] == before[k]);
                        }
                    }
                    assert forall|x: int, y: int|
                        #![trigger after[x], after[y]]
                        0 <= x < y < after.len() implies lex_less(
                        texts[after[x] as int],
                        texts[after[y] as int],
                    ) by {
                        if y < before.len() {
                            assert(after[x] == before[x] && after[y] == before[y]);
                        } else {
                            assert(after[x] == before[x]);
                            assert(above_last(texts, before, d));
                            if x < before.len() - 1 {
                                assert(lex_less(
                                    texts[before[x] as int],
                                    texts[before[before.len() - 1] as int],
                                ));
                                lemma_lex_transitive(
                                    texts[before[x] as int],
                                    texts[before.last() as int],
                                    d,
                                );
                            }
                        }
                    }
                    assert forall|i: int|
                        0 <= i < texts.len() && is_match(#[trigger] texts[i], pattern@)
                            && !above_last(texts, after, texts[i]) implies picked(
                        texts,
                        after,
                        texts[i],
                    ) by {
                        lemma_lex_total(texts[i], d);
                        if texts[i] == d {
                            assert(texts[after[after.len() - 1] as int] == d);
                        } else {
                            assert(lex_less(texts[i], d));
                            assert(is_match(all@[i]@, pattern@));
                            assert(!above_last(texts, before, all@[i]@));
                            assert(picked(texts, before, texts[i]));
                            let k = choose|k: int|
                                0 <= k < before.len() && texts[(#[trigger] before[k]) as int]
                                    == texts[i];
                            assert(after[k] == before[k]);
                        }
                    }
                }
            },
        }
    }
    picks
}

/// A suggestion: the description alone where the quantity is empty, and
/// otherwise the quantity, one space, the description.
pub open spec fn suggestion(quantity: Seq<char>, description: Seq<char>) -> Seq<char> {
    if quantity.len() == 0 {
        description
    } else {
        quantity + seq![' '] + description
    }
}

/// A suggestion: the description alone where the quantity is empty, and
/// otherwise the quantity, one space, the description.
pub fn render_suggestion(quantity: &str, description: &str) -> (r: String)
    ensures
        r@ == suggestion(quantity@, description@),
{
    if quantity.unicode_len() == 0 {
        return String::from_str(description);
    }
    let mut made = String::from_str(quantity);
    made.append(" ");
    made.append(description);
    proof {
        reveal_strlit(" ");
        assert(" "@ =~= seq![' ']);
    }
    made
}

/// `made` are the suggestions for `query` out of `descriptions`: for the
/// first descriptions that match, in ascending order, each once, up to the
/// limit, the description with the quantity of the query, if it has one,
/// and a space before it.
pub open spec fn suggests(
    descriptions: Seq<Seq<char>>,
    query: Seq<char>,
    picks: Seq<usize>,
    made: Seq<String>,
) -> bool {
    &&& is_top(descriptions, pattern_of(query), picks)
    &&& made.len() == picks.len()
    &&& forall|k: int|
        0 <= k < made.len() ==> (#[trigger] made[k])@ == suggestion(
            quantity_of(query),
            descriptions[picks[k] as int],
        )
}

/// The texts of a list of strings.
pub open spec fn views(descriptions: Seq<String>) -> Seq<Seq<char>> {
    Seq::new(descriptions.len(), |i: int| descriptions[i]@)
}

/// The suggestions for `query` out of `descriptions`.
pub fn suggest(descriptions: &Vec<String>, query: &str) -> (r: Vec<String>)
    ensures
        exists|picks: Seq<usize>| suggests(views(descriptions@), query@, picks, r@),
{
    let (quantity, pattern) = split_quantity(query);
    let pattern_chars = to_chars(pattern.as_str());
    let mut all: Vec<Vec<char>> = Vec::new();
    let mut i: usize = 0;
    while i < descriptions.len()
        invariant
            i <= descriptions.len(),
            all@.len() == i,
            forall|j: int| 0 <= j < i ==> (#[trigger] all@[j])@ == descriptions@[j]@,
        decreases descriptions.len() - i,
    {
        all.push(to_chars(descriptions[i].as_str()));
        i += 1;
    }
    assert(texts_of(all@) =~= views(descriptions@));
    let picks = top_matches(&all, &pattern_chars);
    let mut out: Vec<String> = Vec::new();
    let mut k: usize = 0;
    while k < picks.len()
        invariant
            k <= picks.len(),
            out@.len() == k,
            quantity@ == quantity_of(query@),
            is_top(views(descriptions@), pattern_of(query@), picks@),
            forall|j: int|
                0 <= j < k ==> (#[trigger] out@[j])@ == suggestion(
                    quantity_of(query@),
                    views(descriptions@)[picks@[j] as int],
                ),
        decreases picks.len() - k,
    {
        let row = picks[k];
        assert(picks@[k as int] < views(descriptions@).len());
        out.push(render_suggestion(quantity.as_str(), descriptions[row].as_str()));
        k += 1;
    }
    assert(suggests(views(descriptions@), query@, picks@, out@));
    out
}

} // verus!
