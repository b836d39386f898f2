//! What is typed for an entry, taken apart: a leading quantity, the
//! description, and notes after a dash or between parentheses.

use crate::models::{CreateGroceryListEntry, UpdateGroceryListEntry};
use crate::text::{
    find_last, find_text, first_occurrence, last_index_of, lemma_trimmed_between,
    mark_whitespace, to_chars, trim_bounds, trimmed, trimmed_between, whitespace_marks,
    without_outer_whitespace,
};
use vstd::prelude::*;
use vstd::string::{StrSliceExecFns, StringExecFns};

verus! {

/// A quantity and the rest: digits, then lower-case letters if any, then
/// whitespace, then whatever follows on the line.
pub const QUANTITY_PATTERN: &'static str = "^(\\d+[a-z]*)\\s+(.+)$";

/// The texts of the first and the second group of the leftmost match of the
/// regular expression `pattern` in `text`; `None` where `pattern` is not a
/// regular expression, where it has no match in `text`, or where one of the
/// two groups has no part in the match.
pub uninterp spec fn regex_groups(pattern: Seq<char>, text: Seq<char>) -> Option<
    (Seq<char>, Seq<char>),
>;

/// `Regex::new`, `Regex::captures`, `Captures::get` and `Match::as_str` of
/// the crate regex: compiles `pattern`, searches `text` for its leftmost
/// match, and hands out the texts of the groups 1 and 2. The contract gives
/// the outcome its name and claims nothing else of it.
#[verifier::external_body]
fn capture_two_groups(pattern: &str, text: &str) -> (r: Option<(String, String)>)
    ensures
        match r {
            Some(groups) => regex_groups(pattern@, text@) == Some((groups.0@, groups.1@)),
            None => regex_groups(pattern@, text@) is None,
        },
{
    let compiled = regex::Regex::new(pattern).ok()?;
    let found = compiled.captures(text)?;
    Some((found.get(1)?.as_str().to_string(), found.get(2)?.as_str().to_string()))
}

/// The notes of `rest` cannot be told: it holds no dash between spaces, and
/// its last closing parenthesis comes before the place behind its first space
/// and opening parenthesis.
pub open spec fn parentheses_cross(rest: Seq<char>) -> bool {
    &&& first_occurrence(rest, " - "@, 0) is None
    &&& first_occurrence(rest, " ("@, 0) is Some
    &&& last_index_of(rest, ')', rest.len() as int) is Some
    &&& last_index_of(rest, ')', rest.len() as int).unwrap() < first_occurrence(
        rest,
        " ("@,
        0,
    ).unwrap() + 2
}

/// Quantity, description and notes out of a quantity and the text `rest`,
/// given which characters of `rest` are whitespace: where `rest` holds a
/// dash between spaces, what stands before the first one is the description
/// and what stands after it the notes; else, where it holds a space and an
/// opening parenthesis and, further on, a closing one, what stands before
/// the first opening is the description and what stands between it and the
/// last closing one the notes; both without the whitespace around them. Else
/// the description is `plain`, and there are no notes.
pub open spec fn noted(quantity: Seq<char>, rest: Seq<char>, space: Seq<bool>, plain: Seq<char>) -> (
    Seq<char>,
    Seq<char>,
    Seq<char>,
) {
    match first_occurrence(rest, " - "@, 0) {
        Some(d) => (
            quantity,
            trimmed_between(rest, space, 0, d),
            trimmed_between(rest, space, d + 3, rest.len() as int),
        ),
        None => match first_occurrence(rest, " ("@, 0) {
            Some(p) => match last_index_of(rest, ')', rest.len() as int) {
                Some(e) => (
                    quantity,
                    trimmed_between(rest, space, 0, p),
                    trimmed_between(rest, space, p + 2, e),
                ),
                None => (quantity, plain, Seq::empty()),
            },
            None => (quantity, plain, Seq::empty()),
        },
    }
}

/// The text in which notes are looked for: with a quantity, what the
/// pattern captured after it; without one, the whole input.
pub open spec fn searched(input: Seq<char>, groups: Option<(Seq<char>, Seq<char>)>) -> Seq<char> {
    match groups {
        Some(g) => g.1,
        None => input,
    }
}

/// Quantity, description and notes out of what was typed, given what the
/// quantity pattern captured in it and which characters of the text in
/// which notes are looked for are whitespace. Where there are no notes, the
/// description is that text without the whitespace around it.
pub open spec fn parsed_entry(
    input: Seq<char>,
    groups: Option<(Seq<char>, Seq<char>)>,
    space: Seq<bool>,
) -> (Seq<char>, Seq<char>, Seq<char>) {
    noted(
        match groups {
            Some(g) => g.0,
            None => Seq::empty(),
        },
        searched(input, groups),
        space,
        trimmed_between(
            searched(input, groups),
            space,
            0,
            searched(input, groups).len() as int,
        ),
    )
}

/// What the quantity pattern captures in what was typed, once the
/// whitespace around it is set aside.
pub open spec fn quantity_groups(input: Seq<char>) -> Option<(Seq<char>, Seq<char>)> {
    regex_groups(QUANTITY_PATTERN@, trimmed(input))
}

/// The notes of what was typed cannot be told.
pub open spec fn input_crosses(input: Seq<char>) -> bool {
    parentheses_cross(searched(input, quantity_groups(input)))
}

/// Quantity, description and notes out of what was typed.
pub open spec fn parsed_input(input: Seq<char>) -> (Seq<char>, Seq<char>, Seq<char>) {
    parsed_entry(
        input,
        quantity_groups(input),
        whitespace_marks(searched(input, quantity_groups(input))),
    )
}

/// The part of `source` between `from` and `to` without the whitespace at
/// its start and at its end.
fn trimmed_part(source: &str, space: &Vec<bool>, from: usize, to: usize) -> (r: String)
    requires
        space@.len() == source@.len(),
        from <= to <= space@.len(),
    ensures
        r@ == trimmed_between(source@, space@, from as int, to as int),
{
    let (a, b) = trim_bounds(space, from, to);
    String::from_str(source.substring_char(a, b))
}

/// Whether the notes of `rest` cannot be told.
pub fn crosses(rest: &str) -> (r: bool)
    ensures
        r == parentheses_cross(rest@),
{
    let chars = to_chars(rest);
    let n = chars.len();
    let dash = to_chars(" - ");
    let opening = to_chars(" (");
    proof {
        reveal_strlit(" - ");
        reveal_strlit(" (");
        assert(opening@.len() == 2);
    }
    if find_text(&chars, &dash).is_some() {
        return false;
    }
    match find_text(&chars, &opening) {
        Some(p) => {
            assert(crate::text::occurs_at(chars@, opening@, p as int));
            match find_last(&chars, ')') {
                Some(e) => e < p + 2,
                None => false,
            }
        },
        None => false,
    }
}

/// Quantity, description and notes out of a quantity and the text `rest`,
/// given which characters of `rest` are whitespace.
pub fn take_notes(quantity: String, rest: &str, space: &Vec<bool>, plain: String) -> (r: (
    String,
    String,
    String,
))
    requires
        space@.len() == rest@.len(),
        !parentheses_cross(rest@),
    ensures
        (r.0@, r.1@, r.2@) == noted(quantity@, rest@, space@, plain@),
{
    let chars = to_chars(rest);
    let n = chars.len();
    let dash = to_chars(" - ");
    let opening = to_chars(" (");
    proof {
        reveal_strlit(" - ");
        reveal_strlit(" (");
        assert(dash@.len() == 3);
        assert(opening@.len() == 2);
    }
    match find_text(&chars, &dash) {
        Some(d) => {
            let description = trimmed_part(rest, space, 0, d);
            let notes = trimmed_part(rest, space, d + 3, n);
            (quantity, description, notes)
        },
        None => match find_text(&chars, &opening) {
            Some(p) => {
                match find_last(&chars, ')') {
                    Some(e) => {
                        let description = trimmed_part(rest, space, 0, p);
                        let notes = trimmed_part(rest, space, p + 2, e);
                        (quantity, description, notes)
                    },
                    None => (quantity, plain, String::new()),
                }
            },
            None => (quantity, plain, String::new()),
        },
    }
}

/// Quantity, description and notes out of what was typed, given what the
/// quantity pattern captured in it and which characters of the text in
/// which notes are looked for are whitespace.
pub fn parse_entry_with(input: &str, groups: Option<(String, String)>, space: &Vec<bool>) -> (r: (
    String,
    String,
    String,
))
    requires
        space@.len() == searched(
            input@,
            match groups {
                Some(g) => Some((g.0@, g.1@)),
                None => None,
            },
        ).len(),
        !parentheses_cross(
            searched(
                input@,
                match groups {
                    Some(g) => Some((g.0@, g.1@)),
                    None => None,
                },
            ),
        ),
    ensures
        (r.0@, r.1@, r.2@) == parsed_entry(
            input@,
            match groups {
                Some(g) => Some((g.0@, g.1@)),
                None => None,
            },
            space@,
        ),
{
    match groups {
        Some(g) => {
            let plain = trimmed_part(g.1.as_str(), space, 0, space.len());
            take_notes(g.0, g.1.as_str(), space, plain)
        },
        None => {
            let plain = trimmed_part(input, space, 0, space.len());
            take_notes(String::new(), input, space, plain)
        },
    }
}

/// Quantity, description and notes out of what was typed: the quantity
/// pattern is tried on the input without the whitespace around it. `None`
/// where the notes cannot be told. Description and notes neither begin nor
/// end with whitespace.
pub fn parse_entry_input(input: &str) -> (r: Option<(String, String, String)>)
    ensures
        r is None <==> input_crosses(input@),
        r is Some ==> (r.unwrap().0@, r.unwrap().1@, r.unwrap().2@) == parsed_input(input@),
        r is Some ==> without_outer_whitespace(r.unwrap().1@) && without_outer_whitespace(
            r.unwrap().2@,
        ),
{
    let chars = to_chars(input);
    let space = mark_whitespace(&chars);
    let (a, b) = trim_bounds(&space, 0, space.len());
    let groups = capture_two_groups(QUANTITY_PATTERN, input.substring_char(a, b));
    proof {
        let text = searched(input@, quantity_groups(input@));
        let n = text.len() as int;
        lemma_trimmed_between(text, 0, n);
        match first_occurrence(text, " - "@, 0) {
            Some(d) => {
                reveal_strlit(" - ");
                crate::text::lemma_first_occurrence(text, " - "@, 0);
                lemma_trimmed_between(text, 0, d);
                lemma_trimmed_between(text, d + 3, n);
            },
            None => {
                match first_occurrence(text, " ("@, 0) {
                    Some(p) => {
                        reveal_strlit(" (");
                        crate::text::lemma_first_occurrence(text, " ("@, 0);
                        crate::text::lemma_last_index_of(text, ')', n);
                        match last_index_of(text, ')', n) {
                            Some(e) => {
                                if e >= p + 2 {
                                    lemma_trimmed_between(text, 0, p);
                                    lemma_trimmed_between(text, p + 2, e);
                                }
                            },
                            None => {},
                        }
                    },
                    None => {},
                }
            },
        }
    }
    match &groups {
        Some(g) => {
            if crosses(g.1.as_str()) {
                return None;
            }
            let rest = to_chars(g.1.as_str());
            let rest_space = mark_whitespace(&rest);
            Some(parse_entry_with(input, groups, &rest_space))
        },
        None => {
            if crosses(input) {
                return None;
            }
            Some(parse_entry_with(input, groups, &space))
        },
    }
}

/// A text, or `None` for the empty one.
pub open spec fn some_text(text: String, given: Option<String>) -> bool {
    match given {
        Some(t) => t == text && text@.len() > 0,
        None => text@.len() == 0,
    }
}

/// A text, or `None` for the empty one.
fn non_empty(text: String) -> (r: Option<String>)
    ensures
        some_text(text, r),
{
    if text.as_str().unicode_len() == 0 {
        None
    } else {
        Some(text)
    }
}

/// The request to create an entry, once what was typed as its description
/// is taken apart; a request that gives a quantity or notes is left as it
/// is.
pub open spec fn normalized_create(
    payload: CreateGroceryListEntry,
    parsed: (String, String, String),
    r: CreateGroceryListEntry,
) -> bool {
    if payload.quantity is None && payload.notes is None {
        &&& r.description == parsed.1
        &&& some_text(parsed.0, r.quantity)
        &&& some_text(parsed.2, r.notes)
        &&& r.position == payload.position
        &&& r.category_id == payload.category_id
    } else {
        r == payload
    }
}

/// The request to create an entry, given the parts of its description.
pub fn normalize_create_with(payload: CreateGroceryListEntry, parsed: (String, String, String)) -> (r:
    CreateGroceryListEntry)
    ensures
        normalized_create(payload, parsed, r),
{
    if payload.quantity.is_none() && payload.notes.is_none() {
        CreateGroceryListEntry {
            description: parsed.1,
            position: payload.position,
            quantity: non_empty(parsed.0),
            notes: non_empty(parsed.2),
            category_id: payload.category_id,
        }
    } else {
        payload
    }
}

/// `r` is the request `payload` with what was typed as its description taken
/// apart.
pub open spec fn create_taken_apart(payload: CreateGroceryListEntry, r: CreateGroceryListEntry) -> bool {
    exists|parsed: (String, String, String)|
        #[trigger] normalized_create(payload, parsed, r) && (parsed.0@, parsed.1@, parsed.2@)
            == parsed_input(payload.description@)
}

/// The request to create an entry, once what was typed as its description
/// is taken apart; a request that gives a quantity or notes is left as it
/// is. `None` where the description is to be taken apart and its notes
/// cannot be told.
pub fn normalize_create(payload: CreateGroceryListEntry) -> (r: Option<CreateGroceryListEntry>)
    ensures
        payload.quantity is Some || payload.notes is Some ==> r == Some(payload),
        payload.quantity is None && payload.notes is None ==> (r is None <==> input_crosses(
            payload.description@,
        )),
        payload.quantity is None && payload.notes is None && r is Some ==> create_taken_apart(
            payload,
            r.unwrap(),
        ),
{
    if payload.quantity.is_some() || payload.notes.is_some() {
        return Some(payload);
    }
    match parse_entry_input(payload.description.as_str()) {
        Some(parsed) => {
            let ghost given = payload;
            let ghost parts = parsed;
            let made = normalize_create_with(payload, parsed);
            assert(normalized_create(given, parts, made) && (parts.0@, parts.1@, parts.2@)
                == parsed_input(given.description@));
            Some(made)
        },
        None => None,
    }
}

/// The request to edit an entry, once what was typed as its description is
/// taken apart; a request without a description, or one that gives a
/// quantity or notes, is left as it is.
pub open spec fn normalized_update(
    payload: UpdateGroceryListEntry,
    parsed: (String, String, String),
    r: UpdateGroceryListEntry,
) -> bool {
    if payload.description is Some && payload.quantity is None && payload.notes is None {
        &&& r.description == Some(parsed.1)
        &&& some_text(parsed.0, r.quantity)
        &&& some_text(parsed.2, r.notes)
        &&& r.completed == payload.completed
        &&& r.position == payload.position
        &&& r.category_id == payload.category_id
    } else {
        r == payload
    }
}

/// The request to edit an entry, given the parts of its description.
pub fn normalize_update_with(payload: UpdateGroceryListEntry, parsed: (String, String, String)) -> (r:
    UpdateGroceryListEntry)
    ensures
        normalized_update(payload, parsed, r),
{
    if payload.description.is_some() && payload.quantity.is_none() && payload.notes.is_none() {
        UpdateGroceryListEntry {
            description: Some(parsed.1),
            completed: payload.completed,
            quantity: non_empty(parsed.0),
            notes: non_empty(parsed.2),
            category_id: payload.category_id,
            position: payload.position,
        }
    } else {
        payload
    }
}

/// `r` is the request `payload` with what was typed as its description taken
/// apart.
pub open spec fn update_taken_apart(payload: UpdateGroceryListEntry, r: UpdateGroceryListEntry) -> bool {
    exists|parsed: (String, String, String)|
        #[trigger] normalized_update(payload, parsed, r) && (parsed.0@, parsed.1@, parsed.2@)
            == parsed_input(payload.description.unwrap()@)
}

/// The request to edit an entry, once what was typed as its description is
/// taken apart; a request without a description, or one that gives a
/// quantity or notes, is left as it is. `None` where the description is to
/// be taken apart and its notes cannot be told.
pub fn normalize_update(payload: UpdateGroceryListEntry) -> (r: Option<UpdateGroceryListEntry>)
    ensures
        payload.description is None || payload.quantity is Some || payload.notes is Some ==> r
            == Some(payload),
        payload.description is Some && payload.quantity is None && payload.notes is None ==> (r
            is None <==> input_crosses(payload.description.unwrap()@)),
        payload.description is Some && payload.quantity is None && payload.notes is None && r
            is Some ==> update_taken_apart(payload, r.unwrap()),
{
    if payload.quantity.is_some() || payload.notes.is_some() {
        return Some(payload);
    }
    let parsed = match &payload.description {
        Some(description) => match parse_entry_input(description.as_str()) {
            Some(parsed) => parsed,
            None => {
                return None;
            },
        },
        None => {
            return Some(payload);
        },
    };
    let ghost given = payload;
    let ghost parts = parsed;
    let made = normalize_update_with(payload, parsed);
    assert(normalized_update(given, parts, made) && (parts.0@, parts.1@, parts.2@)
        == parsed_input(given.description.unwrap()@));
    Some(made)
}

} // verus!
