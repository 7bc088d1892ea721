//! Find and replace in the SQL editor.
//!
//! A bar over the editor. The match the user is on is the editor's own
//! selection, so closing the bar leaves it selected and ready to type over, and
//! the bar counts where it is among the rest.
//!
//! Matching ignores ASCII case, which is what SQL itself does with keywords and
//! with unquoted names: looking for `select` finds `SELECT`.
use crate::keys::Keystroke;
use crate::text::{
    contains_char, decimal, lemma_bytes_concat, push_decimal, same, slice,
};
use crate::text_field::{Focus, FocusState};
use crate::text_input::{line_input, TextInput};
use std::ops::Range;
use vstd::prelude::*;
use vstd::string::*;
use vstd::utf8::{
    encode_utf8, encode_utf8_valid_utf8, is_char_boundary, is_char_boundary_start_end_of_seq,
};

verus! {

#[derive(Debug, Clone, Copy, PartialEq, Eq, Structural)]
pub enum FindField {
    Query,
    Replacement,
}

#[derive(Debug)]
pub struct EditorFind {
    pub query: TextInput,
    pub replacement: TextInput,
    /// Whether the replace row is showing.
    pub replacing: bool,
    /// Which of the two fields has the keyboard.
    pub field: FindField,
}

/// An ASCII capital as its small letter, any other byte as it is.
pub open spec fn lower_byte(b: u8) -> u8 {
    if 65 <= b <= 90 {
        (b + 32) as u8
    } else {
        b
    }
}

/// `needle` stands in `hay` at `at`, whatever the case of ASCII letters, and
/// covers whole characters.
pub open spec fn matches_at(hay: Seq<u8>, needle: Seq<u8>, at: int) -> bool {
    &&& 0 <= at
    &&& at + needle.len() <= hay.len()
    &&& is_char_boundary(hay, at)
    &&& is_char_boundary(hay, at + needle.len())
    &&& forall|k: int|
        0 <= k < needle.len() ==> lower_byte(#[trigger] hay[at + k]) == lower_byte(needle[k])
}

/// The matches from `from` on, each the earliest that does not overlap the one
/// before it.
pub open spec fn matches_from(hay: Seq<u8>, needle: Seq<u8>, from: int) -> Seq<Range<usize>>
    decreases hay.len() - from,
{
    if needle.len() == 0 || from < 0 || from + needle.len() > hay.len() {
        Seq::empty()
    } else if matches_at(hay, needle, from) {
        seq![Range { start: from as usize, end: (from + needle.len()) as usize }] + matches_from(
            hay,
            needle,
            from + needle.len(),
        )
    } else {
        matches_from(hay, needle, from + 1)
    }
}

/// Every place `needle` occurs in `hay`, as byte ranges.
pub open spec fn all_matches(hay: Seq<char>, needle: Seq<char>) -> Seq<Range<usize>> {
    matches_from(encode_utf8(hay), encode_utf8(needle), 0)
}

fn to_lower_byte(b: u8) -> (lower: u8)
    ensures
        lower == lower_byte(b),
{
    if 65 <= b && b <= 90 {
        b + 32
    } else {
        b
    }
}

fn same_ignoring_case(hay: &[u8], at: usize, needle: &[u8]) -> (same: bool)
    requires
        at + needle@.len() <= hay@.len(),
    ensures
        same == (forall|k: int|
            0 <= k < needle@.len() ==> lower_byte(#[trigger] hay@[at + k]) == lower_byte(
                needle@[k],
            )),
{
    let total: usize = hay.len();
    let mut k: usize = 0;
    while k < needle.len()
        invariant
            k <= needle@.len(),
            total == hay@.len(),
            at + needle@.len() <= total,
            forall|i: int|
                0 <= i < k ==> lower_byte(#[trigger] hay@[at + i]) == lower_byte(needle@[i]),
        decreases needle@.len() - k,
    {
        if to_lower_byte(hay[at + k]) != to_lower_byte(needle[k]) {
            assert(lower_byte(hay@[at + k]) != lower_byte(needle@[k as int]));
            return false;
        }
        k += 1;
    }
    true
}

/// Every place `needle` occurs in `hay`, ignoring ASCII case, left to right
/// and without overlapping.
pub fn find_all(hay: &str, needle: &str) -> (found: Vec<Range<usize>>)
    ensures
        found@ == all_matches(hay@, needle@),
{
    let mut found: Vec<Range<usize>> = Vec::new();
    let hay_bytes = hay.as_bytes();
    let needle_bytes = needle.as_bytes();
    let width: usize = needle_bytes.len();
    let total: usize = hay_bytes.len();
    if width == 0 || width > total {
        return found;
    }
    let last: usize = total - width;
    let mut at: usize = 0;
    while at <= last
        invariant
            hay_bytes@ == encode_utf8(hay@),
            needle_bytes@ == encode_utf8(needle@),
            width == needle_bytes@.len(),
            total == hay_bytes@.len(),
            width > 0,
            last + width == total,
            at <= total,
            all_matches(hay@, needle@) == found@ + matches_from(
                hay_bytes@,
                needle_bytes@,
                at as int,
            ),
        decreases total - at,
    {
        let end: usize = at + width;
        // A match begins and ends on a character: a window could otherwise
        // begin halfway through one.
        if hay.is_char_boundary(at) && hay.is_char_boundary(end) && same_ignoring_case(
            hay_bytes,
            at,
            needle_bytes,
        ) {
            let range = Range { start: at, end };
            assert(found@ + (seq![range] + matches_from(hay_bytes@, needle_bytes@, end as int))
                == found@.push(range) + matches_from(hay_bytes@, needle_bytes@, end as int));
            found.push(range);
            at = end;
        } else {
            at += 1;
        }
    }
    assert(found@ + Seq::<Range<usize>>::empty() == found@);
    found
}

/// A list of ranges of a text, in order, apart from each other, and each around
/// whole characters.
pub open spec fn in_order(hay: Seq<u8>, ranges: Seq<Range<usize>>) -> bool {
    &&& forall|i: int|
        0 <= i < ranges.len() ==> (#[trigger] ranges[i]).start < ranges[i].end <= hay.len()
            && is_char_boundary(hay, ranges[i].start as int) && is_char_boundary(
            hay,
            ranges[i].end as int,
        )
    &&& forall|i: int, j: int|
        0 <= i < j < ranges.len() ==> (#[trigger] ranges[i]).end <= (#[trigger] ranges[j]).start
}

proof fn lemma_matches_from(hay: Seq<u8>, needle: Seq<u8>, from: int)
    requires
        0 <= from,
        hay.len() <= usize::MAX,
    ensures
        in_order(hay, matches_from(hay, needle, from)),
        forall|i: int|
            0 <= i < matches_from(hay, needle, from).len() ==> from <= (#[trigger] matches_from(
                hay,
                needle,
                from,
            )[i]).start && matches_at(hay, needle, matches_from(hay, needle, from)[i].start as int)
                && matches_from(hay, needle, from)[i].end == matches_from(
                hay,
                needle,
                from,
            )[i].start + needle.len(),
    decreases hay.len() - from,
{
    if needle.len() == 0 || from + needle.len() > hay.len() {
    } else if matches_at(hay, needle, from) {
        lemma_matches_from(hay, needle, from + needle.len());
    } else {
        lemma_matches_from(hay, needle, from + 1);
    }
}

/// What is found is what was looked for: the matches stand in order, never
/// overlap, and each one is the needle up to ASCII case.
pub proof fn matches_are_in_order(hay: Seq<char>, needle: Seq<char>)
    requires
        encode_utf8(hay).len() <= usize::MAX,
    ensures
        in_order(encode_utf8(hay), all_matches(hay, needle)),
        forall|i: int|
            0 <= i < all_matches(hay, needle).len() ==> matches_at(
                encode_utf8(hay),
                encode_utf8(needle),
                (#[trigger] all_matches(hay, needle)[i]).start as int,
            ) && all_matches(hay, needle)[i].end == all_matches(hay, needle)[i].start + encode_utf8(
                needle,
            ).len(),
{
    lemma_matches_from(encode_utf8(hay), encode_utf8(needle), 0);
}

proof fn lemma_none_missed(hay: Seq<u8>, needle: Seq<u8>, from: int, at: int)
    requires
        0 <= from <= at,
        hay.len() <= usize::MAX,
        needle.len() > 0,
        matches_at(hay, needle, at),
    ensures
        exists|i: int|
            0 <= i < matches_from(hay, needle, from).len() && (#[trigger] matches_from(
                hay,
                needle,
                from,
            )[i]).start <= at < matches_from(hay, needle, from)[i].end,
    decreases hay.len() - from,
{
    let all = matches_from(hay, needle, from);
    if matches_at(hay, needle, from) {
        let rest = matches_from(hay, needle, from + needle.len());
        if at < from + needle.len() {
            assert(all[0].start <= at < all[0].end);
        } else {
            lemma_none_missed(hay, needle, from + needle.len(), at);
            let i = choose|i: int|
                0 <= i < rest.len() && (#[trigger] rest[i]).start <= at < rest[i].end;
            assert(all[i + 1] == rest[i]);
        }
    } else {
        lemma_none_missed(hay, needle, from + 1, at);
    }
}

/// No occurrence is passed over: wherever the needle stands, it begins inside
/// one of the matches.
pub proof fn no_match_is_missed(hay: Seq<char>, needle: Seq<char>, at: int)
    requires
        encode_utf8(hay).len() <= usize::MAX,
        encode_utf8(needle).len() > 0,
        matches_at(encode_utf8(hay), encode_utf8(needle), at),
    ensures
        exists|i: int|
            0 <= i < all_matches(hay, needle).len() && (#[trigger] all_matches(
                hay,
                needle,
            )[i]).start <= at < all_matches(hay, needle)[i].end,
{
    let all = all_matches(hay, needle);
    lemma_none_missed(encode_utf8(hay), encode_utf8(needle), 0, at);
    let i = choose|i: int| 0 <= i < all.len() && (#[trigger] all[i]).start <= at < all[i].end;
    assert(all_matches(hay, needle)[i].start <= at);
}

/// Nothing to look for is found nowhere.
pub proof fn an_empty_needle_is_not_found(hay: Seq<char>)
    ensures
        all_matches(hay, Seq::<char>::empty()).len() == 0,
{
}

/// Where the query occurs in the front editor; nowhere without a bar, or where
/// the front tab is no query.
pub fn find_matches(find: &Option<EditorFind>, editor: Option<&str>) -> (found: Vec<Range<usize>>)
    ensures
        found@ == (match (find, editor) {
            (Some(find), Some(text)) => all_matches(text@, find.query@.text),
            _ => Seq::empty(),
        }),
{
    match (find, editor) {
        (Some(find), Some(text)) => find_all(text, find.query.text()),
        _ => Vec::new(),
    }
}

/// The bar after ⌘F or ⌥⌘F on a query tab.
///
/// Starts from the selection when there is a one-line one: selecting a word and
/// asking to find is how you ask where else it is. The query is selected, so that
/// typing replaces it.
pub fn open_editor_find(
    find: Option<EditorFind>,
    selected: Option<String>,
    replacing: bool,
    focus: &mut FocusState,
) -> (open: EditorFind)
    ensures
        *final(focus) == (FocusState { focus: Focus::Find, ..*old(focus) }),
        open.field == FindField::Query,
        open.replacing == (replacing || (find matches Some(was) && was.replacing)),
        open.replacement@ == (match find {
            Some(was) => was.replacement@,
            None => line_input(Seq::empty()),
        }),
        open.query@ == (match (selected, find) {
            (Some(text), _) if !text@.contains('\n') => line_input(text@),
            (_, Some(was)) => was.query@,
            (_, None) => line_input(Seq::empty()),
        }).all_selected(),
{
    let mut open = match find {
        Some(was) => was,
        None => EditorFind {
            query: TextInput::new(false),
            replacement: TextInput::new(false),
            replacing,
            field: FindField::Query,
        },
    };
    open.replacing = open.replacing || replacing;
    open.field = FindField::Query;
    if let Some(text) = selected {
        if !contains_char(text.as_str(), '\n') {
            open.query = TextInput::with_text(text, false);
        }
    }
    open.query.select_all();
    focus.focus = Focus::Find;
    open
}

/// Esc: back to the editor, with the match it was on still selected.
pub fn close_editor_find(find: &mut Option<EditorFind>, focus: &mut FocusState)
    ensures
        *final(find) is None,
        *final(focus) == (FocusState { focus: Focus::Editor, ..*old(focus) }),
{
    *find = None;
    focus.focus = Focus::Editor;
}

fn same_range(a: &Range<usize>, b: &Range<usize>) -> (same: bool)
    ensures
        same == (*a == *b),
{
    a.start == b.start && a.end == b.end
}

/// A match that begins after the selection.
pub open spec fn ahead(found: Range<usize>, selection: Range<usize>) -> bool {
    found.start >= selection.end && found != selection
}

/// The first match ahead of the selection at index `from` or later; the number
/// of matches where there is none.
pub open spec fn first_ahead(
    matches: Seq<Range<usize>>,
    selection: Range<usize>,
    from: int,
) -> int
    decreases matches.len() - from,
{
    if from >= matches.len() {
        matches.len() as int
    } else if ahead(matches[from], selection) {
        from
    } else {
        first_ahead(matches, selection, from + 1)
    }
}

/// The last of the first `upto` matches that ends before the selection; -1
/// where there is none.
pub open spec fn last_behind(
    matches: Seq<Range<usize>>,
    selection: Range<usize>,
    upto: int,
) -> int
    decreases upto,
{
    if upto <= 0 {
        -1
    } else if matches[upto - 1].end <= selection.start {
        upto - 1
    } else {
        last_behind(matches, selection, upto - 1)
    }
}

/// The match to go to: the next after the selection, wrapping at the end, or
/// the one before it, wrapping at the start.
pub open spec fn step_target(
    matches: Seq<Range<usize>>,
    selection: Range<usize>,
    forward: bool,
) -> Option<Range<usize>> {
    if matches.len() == 0 {
        None
    } else if forward {
        let i = first_ahead(matches, selection, 0);
        Some(
            if i < matches.len() {
                matches[i]
            } else {
                matches[0]
            },
        )
    } else {
        let i = last_behind(matches, selection, matches.len() as int);
        Some(
            if i >= 0 {
                matches[i]
            } else {
                matches.last()
            },
        )
    }
}

fn step_over(
    matches: &Vec<Range<usize>>,
    selection: &Range<usize>,
    forward: bool,
) -> (next: Option<Range<usize>>)
    ensures
        next == step_target(matches@, *selection, forward),
{
    if matches.len() == 0 {
        return None;
    }
    if forward {
        let mut i: usize = 0;
        while i < matches.len()
            invariant
                i <= matches@.len(),
                first_ahead(matches@, *selection, 0) == first_ahead(
                    matches@,
                    *selection,
                    i as int,
                ),
                matches@.len() > 0,
                forward,
            decreases matches@.len() - i,
        {
            let found = &matches[i];
            if found.start >= selection.end && !same_range(found, selection) {
                return Some(Range { start: found.start, end: found.end });
            }
            i += 1;
        }
        let first = &matches[0];
        Some(Range { start: first.start, end: first.end })
    } else {
        let mut upto: usize = matches.len();
        while upto > 0
            invariant
                upto <= matches@.len(),
                last_behind(matches@, *selection, matches@.len() as int) == last_behind(
                    matches@,
                    *selection,
                    upto as int,
                ),
                matches@.len() > 0,
                !forward,
            decreases upto,
        {
            let found = &matches[upto - 1];
            if found.end <= selection.start {
                return Some(Range { start: found.start, end: found.end });
            }
            upto -= 1;
        }
        let last = &matches[matches.len() - 1];
        Some(Range { start: last.start, end: last.end })
    }
}

/// The match that a step goes to from the front editor's selection; none without
/// a bar, or where the front tab is no query.
pub open spec fn step_of(
    find: Option<EditorFind>,
    editor: Option<(&str, Range<usize>)>,
    forward: bool,
) -> Option<Range<usize>> {
    match (find, editor) {
        (Some(find), Some(front)) => step_target(
            all_matches(front.0@, find.query@.text),
            front.1,
            forward,
        ),
        _ => None,
    }
}

/// Enter / ⌘G: the next match after the selection, wrapping at the end. ⇧Enter /
/// ⇧⌘G the one before.
pub fn find_step(
    find: &Option<EditorFind>,
    editor: Option<(&str, Range<usize>)>,
    forward: bool,
) -> (target: Option<Range<usize>>)
    ensures
        target == step_of(*find, editor, forward),
{
    match (find, editor) {
        (Some(find), Some((text, selection))) => {
            let matches = find_all(text, find.query.text());
            step_over(&matches, &selection, forward)
        },
        _ => None,
    }
}

proof fn lemma_first_ahead(
    matches: Seq<Range<usize>>,
    selection: Range<usize>,
    from: int,
    target: int,
)
    requires
        0 <= from <= target <= matches.len(),
        forall|i: int| from <= i < target ==> !ahead(#[trigger] matches[i], selection),
        target < matches.len() ==> ahead(matches[target], selection),
    ensures
        first_ahead(matches, selection, from) == target,
    decreases target - from,
{
    if from < target {
        assert(!ahead(matches[from], selection));
        lemma_first_ahead(matches, selection, from + 1, target);
    }
}

proof fn lemma_last_behind(
    matches: Seq<Range<usize>>,
    selection: Range<usize>,
    upto: int,
    target: int,
)
    requires
        -1 <= target < upto <= matches.len(),
        forall|i: int| target < i < upto ==> (#[trigger] matches[i]).end > selection.start,
        target >= 0 ==> matches[target].end <= selection.start,
    ensures
        last_behind(matches, selection, upto) == target,
    decreases upto - target,
{
    if target < upto - 1 {
        assert(matches[upto - 1].end > selection.start);
        lemma_last_behind(matches, selection, upto - 1, target);
    }
}

/// From any match, a step forward reaches the next one and a step back the one
/// before, around the ends: every match is visited in turn.
pub proof fn steps_visit_each_match_in_turn(hay: Seq<u8>, matches: Seq<Range<usize>>, i: int)
    requires
        in_order(hay, matches),
        0 <= i < matches.len(),
    ensures
        step_target(matches, matches[i], true) == Some(
            matches[if i + 1 < matches.len() {
                i + 1
            } else {
                0
            }],
        ),
        step_target(matches, matches[i], false) == Some(
            matches[if i > 0 {
                i - 1
            } else {
                matches.len() - 1
            }],
        ),
{
    let selection = matches[i];
    assert forall|k: int| 0 <= k < i + 1 implies !ahead(#[trigger] matches[k], selection) by {
        if k < i {
            assert(matches[k].end <= matches[i].start);
        }
    }
    if i + 1 < matches.len() {
        assert(matches[i].end <= matches[i + 1].start);
    }
    lemma_first_ahead(matches, selection, 0, i + 1);
    if i > 0 {
        assert(matches[i - 1].end <= matches[i].start);
    }
    assert forall|k: int| i - 1 < k < matches.len() implies (#[trigger] matches[k]).end
        > selection.start by {
        if k > i {
            assert(matches[i].end <= matches[k].start);
        }
    }
    lemma_last_behind(matches, selection, matches.len() as int, i - 1);
}

/// The index of the first match that begins at `from` or later; the number of
/// matches where there is none.
pub open spec fn first_at_or_after(matches: Seq<Range<usize>>, from: usize, index: int) -> int
    decreases matches.len() - index,
{
    if index >= matches.len() {
        matches.len() as int
    } else if matches[index].start >= from {
        index
    } else {
        first_at_or_after(matches, from, index + 1)
    }
}

/// The first match at or after a place; with none there, the first of all.
pub open spec fn refreshed(matches: Seq<Range<usize>>, from: usize) -> Option<Range<usize>> {
    if matches.len() == 0 {
        None
    } else if first_at_or_after(matches, from, 0) < matches.len() {
        Some(matches[first_at_or_after(matches, from, 0)])
    } else {
        Some(matches[0])
    }
}

/// The query changed: land on the first match at or after where the selection
/// starts, so typing more of a word refines the match in place instead of
/// hopping to the next one. With none there, the first of all.
pub fn find_refresh(find: &Option<EditorFind>, editor: Option<(&str, Range<usize>)>) -> (target:
    Option<Range<usize>>)
    ensures
        target == (match (find, editor) {
            (Some(find), Some(front)) => refreshed(
                all_matches(front.0@, find.query@.text),
                front.1.start,
            ),
            _ => None,
        }),
{
    match (find, editor) {
        (Some(find), Some((text, selection))) => {
            let matches = find_all(text, find.query.text());
            refresh_over(&matches, selection.start)
        },
        _ => None,
    }
}

fn refresh_over(matches: &Vec<Range<usize>>, from: usize) -> (target: Option<Range<usize>>)
    ensures
        target == refreshed(matches@, from),
{
    if matches.len() == 0 {
        return None;
    }
    let mut i: usize = 0;
    while i < matches.len()
        invariant
            i <= matches@.len(),
            matches@.len() > 0,
            first_at_or_after(matches@, from, 0) == first_at_or_after(matches@, from, i as int),
        decreases matches@.len() - i,
    {
        let found = &matches[i];
        if found.start >= from {
            return Some(Range { start: found.start, end: found.end });
        }
        i += 1;
    }
    let first = &matches[0];
    Some(Range { start: first.start, end: first.end })
}

/// Where the selection stands among the matches.
pub open spec fn on_match(matches: Seq<Range<usize>>, selection: Range<usize>) -> bool {
    matches.contains(selection)
}

fn match_index(matches: &Vec<Range<usize>>, selection: &Range<usize>) -> (at: Option<usize>)
    ensures
        match at {
            Some(i) => i < matches@.len() && matches@[i as int] == *selection && forall|j: int|
                0 <= j < i ==> matches@[j] != *selection,
            None => !on_match(matches@, *selection),
        },
{
    let mut i: usize = 0;
    while i < matches.len()
        invariant
            i <= matches@.len(),
            forall|j: int| 0 <= j < i ==> matches@[j] != *selection,
        decreases matches@.len() - i,
    {
        if same_range(&matches[i], selection) {
            return Some(i);
        }
        i += 1;
    }
    None
}

/// The text with one range of it replaced.
pub open spec fn replaced(hay: Seq<u8>, range: Range<usize>, with: Seq<u8>) -> Seq<u8> {
    hay.subrange(0, range.start as int) + with + hay.subrange(range.end as int, hay.len() as int)
}

/// The text with each of the ranges replaced, taken from the back so that the
/// earlier ranges keep their place.
pub open spec fn all_replaced(
    hay: Seq<u8>,
    ranges: Seq<Range<usize>>,
    with: Seq<u8>,
) -> Seq<u8>
    decreases ranges.len(),
{
    if ranges.len() == 0 {
        hay
    } else {
        all_replaced(replaced(hay, ranges.last(), with), ranges.drop_last(), with)
    }
}

fn splice(text: &str, range: &Range<usize>, with: &str) -> (result: String)
    requires
        range.start <= range.end <= encode_utf8(text@).len(),
        is_char_boundary(encode_utf8(text@), range.start as int),
        is_char_boundary(encode_utf8(text@), range.end as int),
    ensures
        encode_utf8(result@) == replaced(encode_utf8(text@), *range, encode_utf8(with@)),
{
    proof {
        encode_utf8_valid_utf8(text@);
        is_char_boundary_start_end_of_seq(encode_utf8(text@));
    }
    let before = slice(text, 0, range.start);
    let after = slice(text, range.end, text.as_bytes().len());
    let mut result: String = String::new();
    result.append(before);
    result.append(with);
    result.append(after);
    proof {
        assert(result@ == before@ + with@ + after@);
        lemma_bytes_concat(before@ + with@, after@);
        lemma_bytes_concat(before@, with@);
    }
    result
}

/// What a press of Replace leaves: the text, where a match was replaced, and the
/// match to go to.
#[derive(Debug)]
pub struct ReplacedOne {
    pub text: Option<String>,
    pub target: Option<Range<usize>>,
}

/// Where the selection is once a match was replaced: nothing is selected, and the
/// caret stands behind what replaced it.
pub open spec fn behind(selection: Range<usize>, replacement: Seq<char>) -> Range<usize> {
    let caret = (selection.start + encode_utf8(replacement).len()) as usize;
    Range { start: caret, end: caret }
}

/// Replace the match that is selected, then move to the next. With none
/// selected, the first press only finds one: replacing text the user has not
/// seen highlighted is replacing blind.
pub fn replace_one(text: &str, query: &str, selection: &Range<usize>, replacement: &str) -> (result:
    ReplacedOne)
    ensures
        result.text is Some <==> on_match(all_matches(text@, query@), *selection),
        match result.text {
            Some(new_text) => {
                &&& encode_utf8(new_text@) == replaced(
                    encode_utf8(text@),
                    *selection,
                    encode_utf8(replacement@),
                )
                &&& result.target == step_target(
                    all_matches(new_text@, query@),
                    behind(*selection, replacement@),
                    true,
                )
            },
            None => result.target == step_target(all_matches(text@, query@), *selection, true),
        },
{
    let bytes: usize = text.as_bytes().len();
    let matches = find_all(text, query);
    match match_index(&matches, selection) {
        None => ReplacedOne { text: None, target: step_over(&matches, selection, true) },
        Some(i) => {
            proof {
                assert(bytes == encode_utf8(text@).len());
                matches_are_in_order(text@, query@);
                assert(matches@[i as int] == *selection);
            }
            let new_text = splice(text, selection, replacement);
            let length: usize = new_text.as_str().as_bytes().len();
            let added: usize = replacement.as_bytes().len();
            assert(selection.start + added <= length);
            let caret: usize = selection.start + added;
            let target = step_over(
                &find_all(new_text.as_str(), query),
                &Range { start: caret, end: caret },
                true,
            );
            ReplacedOne { text: Some(new_text), target }
        },
    }
}

proof fn lemma_first_ahead_is_ahead(matches: Seq<Range<usize>>, selection: Range<usize>, from: int)
    requires
        0 <= from <= matches.len(),
    ensures
        from <= first_ahead(matches, selection, from) <= matches.len(),
        first_ahead(matches, selection, from) < matches.len() ==> ahead(
            matches[first_ahead(matches, selection, from)],
            selection,
        ),
        forall|i: int|
            from <= i < first_ahead(matches, selection, from) ==> !ahead(
                #[trigger] matches[i],
                selection,
            ),
    decreases matches.len() - from,
{
    if from < matches.len() && !ahead(matches[from], selection) {
        lemma_first_ahead_is_ahead(matches, selection, from + 1);
    }
}

/// Replacing moves on: where anything is found behind what was just written, the
/// next match lies there, so what was written is not replaced again.
pub proof fn replacing_moves_on(
    matches: Seq<Range<usize>>,
    selection: Range<usize>,
    replacement: Seq<char>,
    next: int,
)
    requires
        0 <= next < matches.len(),
        ahead(matches[next], behind(selection, replacement)),
    ensures
        step_target(matches, behind(selection, replacement), true) matches Some(target)
            && target.start >= behind(selection, replacement).end,
{
    lemma_first_ahead_is_ahead(matches, behind(selection, replacement), 0);
}

proof fn lemma_all_replaced_tail(
    head: Seq<u8>,
    tail: Seq<u8>,
    ranges: Seq<Range<usize>>,
    with: Seq<u8>,
)
    requires
        forall|i: int| 0 <= i < ranges.len() ==> (#[trigger] ranges[i]).start < ranges[i].end,
        forall|i: int| 0 <= i < ranges.len() ==> (#[trigger] ranges[i]).end <= head.len(),
        forall|i: int, j: int|
            0 <= i < j < ranges.len() ==> (#[trigger] ranges[i]).end <= (
            #[trigger] ranges[j]).start,
    ensures
        all_replaced(head + tail, ranges, with) == all_replaced(head, ranges, with) + tail,
    decreases ranges.len(),
{
    if ranges.len() > 0 {
        let last = ranges.last();
        let rest = ranges.drop_last();
        let next = replaced(head, last, with);
        assert(replaced(head + tail, last, with) == next + tail);
        assert forall|i: int| 0 <= i < rest.len() implies (#[trigger] rest[i]).end
            <= next.len() by {
            assert(ranges[i].end <= ranges[ranges.len() - 1].start);
        }
        lemma_all_replaced_tail(next, tail, rest, with);
    }
}

fn splice_all(text: &str, ranges: &Vec<Range<usize>>, with: &str) -> (result: String)
    requires
        in_order(encode_utf8(text@), ranges@),
    ensures
        encode_utf8(result@) == all_replaced(encode_utf8(text@), ranges@, encode_utf8(with@)),
{
    let total: usize = text.as_bytes().len();
    let ghost hay = encode_utf8(text@);
    let mut result: String = String::new();
    let mut done: usize = 0;
    let mut i: usize = 0;
    proof {
        encode_utf8_valid_utf8(text@);
        is_char_boundary_start_end_of_seq(hay);
        assert(ranges@.take(0) == Seq::<Range<usize>>::empty());
        assert(hay.subrange(0, 0) == encode_utf8(result@));
    }
    while i < ranges.len()
        invariant
            hay == encode_utf8(text@),
            total == hay.len(),
            in_order(hay, ranges@),
            i <= ranges@.len(),
            done == (if i == 0 {
                0
            } else {
                ranges@[i - 1].end
            }),
            done <= total,
            is_char_boundary(hay, done as int),
            encode_utf8(result@) == all_replaced(
                hay.subrange(0, done as int),
                ranges@.take(i as int),
                encode_utf8(with@),
            ),
        decreases ranges@.len() - i,
    {
        let start: usize = ranges[i].start;
        let end: usize = ranges[i].end;
        assert(i > 0 ==> ranges@[i - 1].end <= ranges@[i as int].start);
        let kept = slice(text, done, start);
        let ghost before = result@;
        result.append(kept);
        result.append(with);
        proof {
            let range = ranges@[i as int];
            let upto = ranges@.take(i as int);
            let more = ranges@.take(i + 1);
            let tail = encode_utf8(kept@) + encode_utf8(with@);
            assert(result@ == before + (kept@ + with@));
            lemma_bytes_concat(before, kept@ + with@);
            lemma_bytes_concat(kept@, with@);
            assert(more.last() == range);
            assert(more.drop_last() == upto);
            assert(replaced(hay.subrange(0, end as int), range, encode_utf8(with@))
                == hay.subrange(0, done as int) + tail);
            assert forall|k: int| 0 <= k < upto.len() implies (#[trigger] upto[k]).end <= done by {
                assert(upto[k] == ranges@[k]);
                if k < i - 1 {
                    assert(ranges@[k].end <= ranges@[i - 1].start);
                }
            }
            lemma_all_replaced_tail(
                hay.subrange(0, done as int),
                tail,
                upto,
                encode_utf8(with@),
            );
        }
        done = end;
        i += 1;
    }
    let rest = slice(text, done, total);
    let ghost before = result@;
    result.append(rest);
    proof {
        lemma_bytes_concat(before, rest@);
        assert(ranges@.take(i as int) == ranges@);
        assert(hay.subrange(0, done as int) + encode_utf8(rest@) == hay);
        assert forall|k: int| 0 <= k < ranges@.len() implies (#[trigger] ranges@[k]).end
            <= done by {
            if k < i - 1 {
                assert(ranges@[k].end <= ranges@[i - 1].start);
            }
        }
        lemma_all_replaced_tail(
            hay.subrange(0, done as int),
            encode_utf8(rest@),
            ranges@,
            encode_utf8(with@),
        );
    }
    result
}

/// What replacing every match leaves: the text, where the caret goes, and what
/// the status line says.
#[derive(Debug)]
pub struct ReplacedAll {
    pub text: String,
    pub caret: usize,
    pub status: String,
}

pub open spec fn replaced_status(count: nat) -> Seq<char> {
    if count == 1 {
        "Replaced 1 match"@
    } else {
        "Replaced "@ + decimal(count) + " matches"@
    }
}

/// Replace every match, as one edit. Without a match there is no edit.
pub fn replace_all(text: &str, query: &str, replacement: &str, cursor: usize) -> (result: Option<
    ReplacedAll,
>)
    ensures
        match result {
            Some(edit) => {
                &&& all_matches(text@, query@).len() > 0
                &&& encode_utf8(edit.text@) == all_replaced(
                    encode_utf8(text@),
                    all_matches(text@, query@),
                    encode_utf8(replacement@),
                )
                &&& edit.caret == (if cursor < encode_utf8(edit.text@).len() {
                    cursor as int
                } else {
                    encode_utf8(edit.text@).len() as int
                })
                &&& edit.status@ == replaced_status(all_matches(text@, query@).len())
            },
            None => all_matches(text@, query@).len() == 0,
        },
{
    let bytes: usize = text.as_bytes().len();
    let matches = find_all(text, query);
    if matches.len() == 0 {
        return None;
    }
    proof {
        assert(bytes == encode_utf8(text@).len());
        matches_are_in_order(text@, query@);
    }
    let new_text = splice_all(text, &matches, replacement);
    let length: usize = new_text.as_str().as_bytes().len();
    let caret: usize = if cursor < length {
        cursor
    } else {
        length
    };
    let count: usize = matches.len();
    let mut status: String = String::new();
    if count == 1 {
        status.append("Replaced 1 match");
    } else {
        status.append("Replaced ");
        push_decimal(&mut status, count as u64);
        status.append(" matches");
    }
    assert(status@ == replaced_status(count as nat));
    Some(ReplacedAll { text: new_text, caret, status })
}

proof fn lemma_all_replaced_len(hay: Seq<u8>, ranges: Seq<Range<usize>>, width: int, with: Seq<u8>)
    requires
        forall|i: int|
            0 <= i < ranges.len() ==> (#[trigger] ranges[i]).end == ranges[i].start + width,
        forall|i: int| 0 <= i < ranges.len() ==> (#[trigger] ranges[i]).end <= hay.len(),
        width > 0,
        forall|i: int, j: int|
            0 <= i < j < ranges.len() ==> (#[trigger] ranges[i]).end <= (
            #[trigger] ranges[j]).start,
    ensures
        all_replaced(hay, ranges, with).len() == hay.len() + ranges.len() * (with.len() - width),
    decreases ranges.len(),
{
    if ranges.len() > 0 {
        let next = replaced(hay, ranges.last(), with);
        let rest = ranges.drop_last();
        assert forall|i: int| 0 <= i < rest.len() implies (#[trigger] rest[i]).end
            <= next.len() by {
            assert(ranges[i].end <= ranges[ranges.len() - 1].start);
        }
        lemma_all_replaced_len(next, rest, width, with);
        assert(ranges.len() * (with.len() - width) == (ranges.len() - 1) * (with.len() - width) + (
        with.len() - width)) by (nonlinear_arith)
            requires
                ranges.len() > 0,
        ;
    }
}

/// Replacing every match changes the length by each match's own difference, and
/// so by nothing but the matches.
pub proof fn only_the_matches_change_length(
    text: Seq<char>,
    query: Seq<char>,
    replacement: Seq<char>,
)
    requires
        encode_utf8(text).len() <= usize::MAX,
        encode_utf8(query).len() > 0,
    ensures
        all_replaced(encode_utf8(text), all_matches(text, query), encode_utf8(replacement)).len()
            == encode_utf8(text).len() + all_matches(text, query).len() * (encode_utf8(
            replacement,
        ).len() - encode_utf8(query).len()),
{
    matches_are_in_order(text, query);
    lemma_all_replaced_len(
        encode_utf8(text),
        all_matches(text, query),
        encode_utf8(query).len() as int,
        encode_utf8(replacement),
    );
}

/// What a key does while the bar has the keyboard.
#[derive(Debug, Clone, Copy, PartialEq, Eq, Structural)]
pub enum FindAction {
    /// Back to the editor, with the match it was on still selected.
    Close,
    ReplaceOne,
    Step { forward: bool },
    /// The other field, where both show.
    SwitchField,
    /// The field's own input takes it, if it wants it.
    Edit,
}

pub open spec fn find_key_action(key: Keystroke, field: FindField) -> FindAction {
    if key.key@ == "escape"@ {
        FindAction::Close
    } else if key.key@ == "enter"@ && !key.platform {
        if field == FindField::Replacement {
            FindAction::ReplaceOne
        } else {
            FindAction::Step { forward: !key.shift }
        }
    } else if key.key@ == "g"@ && key.platform {
        FindAction::Step { forward: !key.shift }
    } else if key.key@ == "tab"@ {
        FindAction::SwitchField
    } else {
        FindAction::Edit
    }
}

/// Keys while the bar has the keyboard; without a bar, none are its own.
pub fn handle_find_key(find: &Option<EditorFind>, keystroke: &Keystroke) -> (action: Option<
    FindAction,
>)
    ensures
        action == (match find {
            Some(find) => Some(find_key_action(*keystroke, find.field)),
            None => None,
        }),
{
    let field = match find {
        Some(find) => find.field,
        None => return None,
    };
    let key = keystroke.key.as_str();
    if same(key, "escape") {
        Some(FindAction::Close)
    } else if same(key, "enter") && !keystroke.platform {
        if field == FindField::Replacement {
            Some(FindAction::ReplaceOne)
        } else {
            Some(FindAction::Step { forward: !keystroke.shift })
        }
    } else if same(key, "g") && keystroke.platform {
        Some(FindAction::Step { forward: !keystroke.shift })
    } else if same(key, "tab") {
        Some(FindAction::SwitchField)
    } else {
        Some(FindAction::Edit)
    }
}

impl EditorFind {
    /// Tab: between the fields while both show.
    pub fn switch_field(&mut self)
        ensures
            final(self).query == old(self).query,
            final(self).replacement == old(self).replacement,
            final(self).replacing == old(self).replacing,
            final(self).field == (if !old(self).replacing {
                old(self).field
            } else if old(self).field == FindField::Query {
                FindField::Replacement
            } else {
                FindField::Query
            }),
    {
        if self.replacing {
            self.field = match self.field {
                FindField::Query => FindField::Replacement,
                FindField::Replacement => FindField::Query,
            };
        }
    }

    /// The replace row in or out; either way the query has the keyboard.
    pub fn toggle_replacing(&mut self)
        ensures
            final(self).query == old(self).query,
            final(self).replacement == old(self).replacement,
            final(self).replacing == !old(self).replacing,
            final(self).field == FindField::Query,
    {
        self.replacing = !self.replacing;
        self.field = FindField::Query;
    }
}

/// Whether an edit of a field moves the match: the query's does, where it
/// changed the text.
pub fn refreshes(field: FindField, before: &str, after: &str) -> (moves: bool)
    ensures
        moves == (field == FindField::Query && before@ != after@),
{
    field == FindField::Query && !same(before, after)
}

/// The bar as it shows.
#[derive(Debug)]
pub struct FindBar {
    pub query: String,
    /// What the field says while it is empty.
    pub query_hint: String,
    /// Where the selection is among the matches.
    pub count: String,
    /// Something is looked for and nowhere to be found.
    pub nothing_found: bool,
    pub query_focused: bool,
    pub previous: String,
    pub next: String,
    /// What shows the second row and puts it away, lit while it is there.
    pub toggle: String,
    pub replacing: bool,
    pub close: String,
    /// The second row.
    pub replacement: Option<ReplaceRow>,
}

/// The row that replaces what was found.
#[derive(Debug)]
pub struct ReplaceRow {
    pub text: String,
    pub hint: String,
    pub focused: bool,
    pub one: String,
    pub all: String,
}

/// What the bar says whatever is looked for.
pub open spec fn bar_words(bar: FindBar) -> bool {
    &&& bar.query_hint@ == "Find"@
    &&& bar.previous@ == "↑"@
    &&& bar.next@ == "↓"@
    &&& bar.toggle@ == "⇄"@
    &&& bar.close@ == "×"@
    &&& bar.replacement matches Some(row) ==> {
        &&& row.hint@ == "Replace"@
        &&& row.one@ == "Replace"@
        &&& row.all@ == "All"@
    }
}

pub open spec fn count_text(query: Seq<char>, total: nat, at: Option<int>) -> Seq<char> {
    if query.len() == 0 {
        Seq::empty()
    } else if total == 0 {
        "No matches"@
    } else {
        match at {
            Some(index) => decimal((index + 1) as nat) + " of "@ + decimal(total),
            None => decimal(total) + " found"@,
        }
    }
}

/// Where the selection stands among the matches, if it is one.
pub open spec fn position_of(matches: Seq<Range<usize>>, selection: Range<usize>) -> Option<int> {
    if on_match(matches, selection) {
        Some(matches.index_of_first(selection).unwrap())
    } else {
        None
    }
}

/// The bar, when it is open and the front tab is a query.
pub fn render_editor_find(
    find: &Option<EditorFind>,
    editor: Option<(&str, Range<usize>)>,
    focused: bool,
) -> (bar: Option<FindBar>)
    ensures
        match (find, editor) {
            (Some(find), Some(front)) => {
                let matches = all_matches(front.0@, find.query@.text);
                &&& bar is Some
                &&& bar.unwrap().count@ == count_text(
                    find.query@.text,
                    matches.len(),
                    position_of(matches, front.1),
                )
                &&& bar.unwrap().nothing_found == (matches.len() == 0 && find.query@.text.len() > 0)
                &&& bar.unwrap().query_focused == (focused && find.field == FindField::Query)
                &&& bar.unwrap().replacing == find.replacing
                &&& bar.unwrap().replacement is Some <==> find.replacing
                &&& bar.unwrap().query@ == find.query@.text
                &&& bar.unwrap().replacement matches Some(row) ==> row.text@
                    == find.replacement@.text && row.focused == (focused && find.field
                    == FindField::Replacement)
                &&& bar_words(bar.unwrap())
            },
            _ => bar is None,
        },
{
    match (find, editor) {
        (Some(find), Some((text, selection))) => {
            let matches = find_all(text, find.query.text());
            let at = match_index(&matches, &selection);
            let blank = find.query.is_empty();
            let total: usize = matches.len();
            let mut count: String = String::new();
            proof {
                if on_match(matches@, selection) {
                    matches@.index_of_first_ensures(selection);
                }
            }
            if !blank {
                if total == 0 {
                    count.append("No matches");
                } else {
                    match at {
                        Some(index) => {
                            push_decimal(&mut count, index as u64 + 1);
                            count.append(" of ");
                            push_decimal(&mut count, total as u64);
                        },
                        None => {
                            push_decimal(&mut count, total as u64);
                            count.append(" found");
                        },
                    }
                }
            }
            assert(count@ == count_text(
                find.query@.text,
                matches@.len(),
                position_of(matches@, selection),
            ));
            Some(
                FindBar {
                    query: find.query.text().to_string(),
                    query_hint: "Find".to_string(),
                    count,
                    nothing_found: total == 0 && !blank,
                    query_focused: focused && find.field == FindField::Query,
                    previous: "↑".to_string(),
                    next: "↓".to_string(),
                    toggle: "⇄".to_string(),
                    replacing: find.replacing,
                    close: "×".to_string(),
                    replacement: if find.replacing {
                        Some(
                            ReplaceRow {
                                text: find.replacement.text().to_string(),
                                hint: "Replace".to_string(),
                                focused: focused && find.field == FindField::Replacement,
                                one: "Replace".to_string(),
                                all: "All".to_string(),
                            },
                        )
                    } else {
                        None
                    },
                },
            )
        },
        _ => None,
    }
}

/// Two bytes are taken for the same where they are, and where they are one letter
/// in its two cases; nothing else is.
pub open spec fn same_letter(a: u8, b: u8) -> bool {
    a == b || 65 <= a <= 90 && b == a + 32 || 65 <= b <= 90 && a == b + 32
}

/// A match is what was typed, letter for letter, in either case, and it begins and
/// ends between characters.
pub proof fn a_match_is_what_was_typed(hay: Seq<u8>, needle: Seq<u8>, at: int)
    ensures
        matches_at(hay, needle, at) <==> 0 <= at && at + needle.len() <= hay.len()
            && is_char_boundary(hay, at) && is_char_boundary(hay, at + needle.len()) && (forall|
            k: int,
        |
            0 <= k < needle.len() ==> same_letter(#[trigger] hay[at + k], needle[k])),
{
    assert forall|a: u8, b: u8| lower_byte(a) == lower_byte(b) <==> #[trigger] same_letter(
        a,
        b,
    ) by {
    }
    if 0 <= at && at + needle.len() <= hay.len() {
        if forall|k: int|
            0 <= k < needle.len() ==> same_letter(#[trigger] hay[at + k], needle[k]) {
            assert forall|k: int| 0 <= k < needle.len() implies lower_byte(
                #[trigger] hay[at + k],
            ) == lower_byte(needle[k]) by {
                assert(same_letter(hay[at + k], needle[k]));
            }
        }
        if forall|k: int|
            0 <= k < needle.len() ==> lower_byte(#[trigger] hay[at + k]) == lower_byte(
                needle[k],
            ) {
            assert forall|k: int| 0 <= k < needle.len() implies same_letter(
                #[trigger] hay[at + k],
                needle[k],
            ) by {
                assert(lower_byte(hay[at + k]) == lower_byte(needle[k]));
            }
        }
    }
}

proof fn lemma_last_behind_is_behind(matches: Seq<Range<usize>>, selection: Range<usize>, upto: int)
    requires
        0 <= upto <= matches.len(),
    ensures
        -1 <= last_behind(matches, selection, upto) < upto,
        last_behind(matches, selection, upto) >= 0 ==> matches[last_behind(
            matches,
            selection,
            upto,
        )].end <= selection.start,
        forall|i: int|
            last_behind(matches, selection, upto) < i < upto ==> (#[trigger] matches[i]).end
                > selection.start,
    decreases upto,
{
    if upto > 0 && matches[upto - 1].end > selection.start {
        lemma_last_behind_is_behind(matches, selection, upto - 1);
    }
}

/// A step forward goes to the first match that starts at the end of the selection
/// or after it, and a step back to the last that ends at its start or before it,
/// each around the ends of the text. Without matches there is nowhere to go.
pub proof fn a_step_goes_to_the_nearest_match(
    matches: Seq<Range<usize>>,
    selection: Range<usize>,
    i: int,
)
    requires
        0 <= i < matches.len(),
        matches[i] != selection,
    ensures
        matches[i].start >= selection.end && (forall|j: int|
            0 <= j < i ==> (#[trigger] matches[j]).start < selection.end) ==> step_target(
            matches,
            selection,
            true,
        ) == Some(matches[i]),
        matches[i].end <= selection.start && (forall|j: int|
            i < j < matches.len() ==> (#[trigger] matches[j]).end > selection.start)
            ==> step_target(matches, selection, false) == Some(matches[i]),
        (forall|j: int| 0 <= j < matches.len() ==> (#[trigger] matches[j]).start < selection.end)
            ==> step_target(matches, selection, true) == Some(matches[0]),
        (forall|j: int| 0 <= j < matches.len() ==> (#[trigger] matches[j]).end > selection.start)
            ==> step_target(matches, selection, false) == Some(matches.last()),
{
    lemma_first_ahead_is_ahead(matches, selection, 0);
    lemma_last_behind_is_behind(matches, selection, matches.len() as int);
    let first = first_ahead(matches, selection, 0);
    let last = last_behind(matches, selection, matches.len() as int);
    if first < i {
        assert(ahead(matches[first], selection));
    } else if first > i {
        assert(!ahead(matches[i], selection));
    }
    if 0 <= last < i {
        assert(matches[i].end > selection.start);
    }
}

/// Without matches there is nowhere to go.
pub proof fn without_matches_nothing_is_selected(
    matches: Seq<Range<usize>>,
    selection: Range<usize>,
    forward: bool,
)
    requires
        matches.len() == 0,
    ensures
        step_target(matches, selection, forward) is None,
        refreshed(matches, selection.start) is None,
{
}

proof fn lemma_first_at_or_after(matches: Seq<Range<usize>>, from: usize, index: int)
    requires
        0 <= index <= matches.len(),
    ensures
        index <= first_at_or_after(matches, from, index) <= matches.len(),
        first_at_or_after(matches, from, index) < matches.len() ==> matches[first_at_or_after(
            matches,
            from,
            index,
        )].start >= from,
        forall|i: int|
            index <= i < first_at_or_after(matches, from, index) ==> (
            #[trigger] matches[i]).start < from,
    decreases matches.len() - index,
{
    if index < matches.len() && matches[index].start < from {
        lemma_first_at_or_after(matches, from, index + 1);
    }
}

/// While the query is typed, the selection stays on the first match from where it
/// was on, or goes to the first of all where there is none.
pub proof fn typing_stays_with_the_selection(matches: Seq<Range<usize>>, from: usize, i: int)
    requires
        0 <= i < matches.len(),
    ensures
        matches[i].start >= from && (forall|j: int|
            0 <= j < i ==> (#[trigger] matches[j]).start < from) ==> refreshed(matches, from)
            == Some(matches[i]),
        (forall|j: int| 0 <= j < matches.len() ==> (#[trigger] matches[j]).start < from)
            ==> refreshed(matches, from) == Some(matches[0]),
{
    lemma_first_at_or_after(matches, from, 0);
    let first = first_at_or_after(matches, from, 0);
    if first < i {
        assert(matches[first].start >= from);
    } else if first > i {
        assert(matches[i].start < from);
    }
}

/// Replacing a range leaves what is before it and what is after it, and puts the
/// replacement between.
pub proof fn replacing_keeps_both_sides(
    before: Seq<u8>,
    found: Seq<u8>,
    after: Seq<u8>,
    with: Seq<u8>,
    range: Range<usize>,
)
    requires
        range.start == before.len(),
        range.end == before.len() + found.len(),
    ensures
        replaced(before + found + after, range, with) == before + with + after,
{
    let hay = before + found + after;
    assert(hay.subrange(0, range.start as int) == before);
    assert(hay.subrange(range.end as int, hay.len() as int) == after);
}

/// Replacing all matches replaces each of them: what stands between two stays, and
/// so does what stands before the first and after the last.
pub proof fn replacing_all_replaces_each(
    hay: Seq<u8>,
    ranges: Seq<Range<usize>>,
    with: Seq<u8>,
)
    requires
        in_order(hay, ranges),
    ensures
        ranges.len() == 0 ==> all_replaced(hay, ranges, with) == hay,
        ranges.len() > 0 ==> all_replaced(hay, ranges, with) == all_replaced(
            hay.take(ranges.last().start as int),
            ranges.drop_last(),
            with,
        ) + with + hay.skip(ranges.last().end as int),
{
    if ranges.len() > 0 {
        let last = ranges.last();
        let fewer = ranges.drop_last();
        let head = hay.take(last.start as int);
        let tail = with + hay.skip(last.end as int);
        assert(last == ranges[ranges.len() - 1]);
        assert forall|i: int| 0 <= i < fewer.len() implies (#[trigger] fewer[i]).start
            < fewer[i].end && fewer[i].end <= head.len() by {
            assert(fewer[i] == ranges[i]);
            assert(ranges[i].end <= ranges[ranges.len() - 1].start);
        }
        assert forall|i: int, j: int| 0 <= i < j < fewer.len() implies (#[trigger] fewer[i]).end
            <= (#[trigger] fewer[j]).start by {
            assert(ranges[i].end <= ranges[j].start);
        }
        assert(replaced(hay, last, with) == head + tail);
        lemma_all_replaced_tail(head, tail, fewer, with);
        assert(all_replaced(hay, ranges, with) == all_replaced(head, fewer, with) + with
            + hay.skip(last.end as int));
    }
}

/// The bar says which match is selected, or how many there are where none is; it
/// says nothing of an empty query.
pub proof fn the_bar_counts_the_matches(query: Seq<char>, total: nat, index: int)
    requires
        0 <= index < total,
    ensures
        count_text(Seq::empty(), total, Some(index)).len() == 0,
        query.len() > 0 ==> count_text(query, 0, None) == seq!['N', 'o', ' ', 'm', 'a', 't', 'c', 'h', 'e', 's'],
        query.len() > 0 ==> count_text(query, total, Some(index)) == decimal((index + 1) as nat)
            + seq![' ', 'o', 'f', ' '] + decimal(total),
        query.len() > 0 ==> count_text(query, total, None) == decimal(total) + seq![' ', 'f', 'o', 'u', 'n', 'd'],
{
    reveal_strlit("No matches");
    reveal_strlit(" of ");
    reveal_strlit(" found");
    assert("No matches"@ == seq!['N', 'o', ' ', 'm', 'a', 't', 'c', 'h', 'e', 's']);
    assert(" of "@ == seq![' ', 'o', 'f', ' ']);
    assert(" found"@ == seq![' ', 'f', 'o', 'u', 'n', 'd']);
}

/// What was replaced is counted.
pub proof fn what_was_replaced_is_counted(count: nat)
    ensures
        count == 1 ==> replaced_status(count) == seq!['R', 'e', 'p', 'l', 'a', 'c', 'e', 'd', ' ', '1', ' ', 'm', 'a', 't', 'c', 'h'],
        count != 1 ==> replaced_status(count) == seq!['R', 'e', 'p', 'l', 'a', 'c', 'e', 'd', ' '] + decimal(count) + seq![' ', 'm', 'a', 't', 'c', 'h', 'e', 's'],
{
    reveal_strlit("Replaced 1 match");
    reveal_strlit("Replaced ");
    reveal_strlit(" matches");
    assert("Replaced 1 match"@ == seq!['R', 'e', 'p', 'l', 'a', 'c', 'e', 'd', ' ', '1', ' ', 'm', 'a', 't', 'c', 'h']);
    assert("Replaced "@ == seq!['R', 'e', 'p', 'l', 'a', 'c', 'e', 'd', ' ']);
    assert(" matches"@ == seq![' ', 'm', 'a', 't', 'c', 'h', 'e', 's']);
}

/// The match that is selected is counted by its place among the others.
pub proof fn the_selected_match_is_counted_by_its_place(
    hay: Seq<u8>,
    matches: Seq<Range<usize>>,
    i: int,
)
    requires
        in_order(hay, matches),
        0 <= i < matches.len(),
    ensures
        position_of(matches, matches[i]) == Some(i),
{
    let selection = matches[i];
    assert(matches.contains(selection));
    matches.index_of_first_ensures(selection);
    let at = matches.index_of_first(selection)->0;
    assert(matches[at] == selection);
    if at < i {
        assert(matches[at].end <= matches[i].start);
    } else if i < at {
        assert(matches[i].end <= matches[at].start);
    }
}

/// Enter steps on and ⇧Enter back, as ⌘G does; from the replacement Enter replaces.
/// Tab goes to the other field, and Escape closes the bar.
pub proof fn the_find_keys_do_as_they_say(key: Keystroke, field: FindField)
    ensures
        key.key@ == seq!['e', 's', 'c', 'a', 'p', 'e'] ==> find_key_action(key, field) is Close,
        key.key@ == seq!['e', 'n', 't', 'e', 'r'] && !key.platform && field is Query ==> find_key_action(key, field) == (
        FindAction::Step { forward: !key.shift }),
        key.key@ == seq!['e', 'n', 't', 'e', 'r'] && !key.platform && field is Replacement ==> find_key_action(
            key,
            field,
        ) is ReplaceOne,
        key.key@ == seq!['g'] && key.platform ==> find_key_action(key, field) == (FindAction::Step {
            forward: !key.shift,
        }),
        key.key@ == seq!['t', 'a', 'b'] ==> find_key_action(key, field) is SwitchField,
        find_key_action(key, field) is ReplaceOne ==> field is Replacement,
{
    reveal_strlit("escape");
    reveal_strlit("enter");
    reveal_strlit("g");
    reveal_strlit("tab");
    assert("escape"@ == seq!['e', 's', 'c', 'a', 'p', 'e']);
    assert("enter"@ == seq!['e', 'n', 't', 'e', 'r']);
    assert("g"@ == seq!['g']);
    assert("tab"@ == seq!['t', 'a', 'b']);
    assert("escape"@.len() == 6 && "enter"@.len() == 5 && "g"@.len() == 1 && "tab"@.len() == 3);
}

/// A step is taken in the text in front, for what the bar looks for; without the
/// bar, or without an editor, there is none.
pub proof fn a_step_is_taken_where_the_bar_looks(
    find: EditorFind,
    text: &str,
    selection: Range<usize>,
    forward: bool,
)
    ensures
        step_of(Some(find), Some((text, selection)), forward) == step_target(
            all_matches(text@, find.query@.text),
            selection,
            forward,
        ),
        step_of(None, Some((text, selection)), forward) is None,
        step_of(Some(find), None, forward) is None,
{
}

/// After a replacement the search goes on behind it.
pub proof fn the_search_goes_on_behind_the_replacement(
    selection: Range<usize>,
    replacement: Seq<char>,
)
    requires
        selection.start + encode_utf8(replacement).len() <= usize::MAX,
    ensures
        behind(selection, replacement).start == selection.start + encode_utf8(replacement).len(),
        behind(selection, replacement).end == behind(selection, replacement).start,
{
}

} // verus!
