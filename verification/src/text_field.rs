//! Shared text field: caret, selection, lines.
//!
//! Single-line for filters / search / page size; multiline for detail cells.
use crate::filters::FilterFocus;
use crate::text::{
    chars_of, joined, lemma_boundary_is_prefix, lemma_bytes_concat, lemma_part_is_valid,
    lines_are_joined_by_line_breaks, slice, texts,
};
use crate::transfer::text_at;
use std::ops::Range;
use vstd::prelude::*;
use vstd::string::*;
use vstd::utf8::{
    encode_utf8, encode_utf8_decode_utf8, encode_utf8_valid_utf8, is_char_boundary,
    is_char_boundary_start_end_of_seq,
};

verus! {

/// More lines than this scroll.
pub const MAX_VISIBLE_LINES: usize = 8;

/// How tall a one-line field is, in pixels before zoom.
pub const SINGLE_LINE_HEIGHT: usize = 28;

/// How tall the palette's query is, in pixels before zoom.
pub const QUERY_HEIGHT: usize = 36;

/// Which editable string the shared field is talking to.
#[derive(Debug, Clone, Copy, PartialEq, Eq, Structural)]
pub enum InputTarget {
    WhereDraft,
    DetailSearch,
    DetailField(usize),
    PageSize,
    PaletteQuery,
}

/// Which detail-sidebar editor owns the keyboard.
#[derive(Debug, Clone, Copy, PartialEq, Eq, Structural)]
pub enum DetailInput {
    Search,
    Field(usize),
}

/// The parts of the window that can have the keyboard.
#[derive(Debug, Clone, Copy, PartialEq, Eq, Structural)]
pub enum Focus {
    Sidebar,
    SidebarSearch,
    Editor,
    Find,
    Grid,
    Filter,
    Detail,
    PageSize,
}

/// What is there to be typed into.
#[derive(Debug, Clone, Copy)]
pub struct Inputs {
    /// The front tab is a table's.
    pub is_table: bool,
    /// A row's draft is open on the front tab, with so many fields.
    pub draft_fields: Option<usize>,
    pub palette_open: bool,
}

pub open spec fn is_there(inputs: Inputs, target: InputTarget) -> bool {
    match target {
        InputTarget::WhereDraft => inputs.is_table,
        InputTarget::DetailSearch => inputs.draft_fields is Some,
        InputTarget::DetailField(index) => inputs.draft_fields matches Some(count) && index
            < count,
        InputTarget::PageSize => inputs.is_table,
        InputTarget::PaletteQuery => inputs.palette_open,
    }
}

/// Whether the string that a field talks to is there to be typed into.
pub fn has_input(inputs: Inputs, target: InputTarget) -> (there: bool)
    ensures
        there == is_there(inputs, target),
{
    match target {
        InputTarget::WhereDraft => inputs.is_table,
        InputTarget::DetailSearch => inputs.draft_fields.is_some(),
        InputTarget::DetailField(index) => match inputs.draft_fields {
            Some(count) => index < count,
            None => false,
        },
        InputTarget::PageSize => inputs.is_table,
        InputTarget::PaletteQuery => inputs.palette_open,
    }
}

/// Where the keyboard is.
#[derive(Debug, Clone, Copy, PartialEq, Eq, Structural)]
pub struct FocusState {
    pub focus: Focus,
    pub filter_focus: Option<FilterFocus>,
    pub detail_input: Option<DetailInput>,
    pub page_size_focus: bool,
}

/// Where the keyboard is once a field was clicked. The palette floats over
/// whatever had it.
pub open spec fn focused_on(state: FocusState, target: InputTarget) -> FocusState {
    match target {
        InputTarget::WhereDraft => FocusState {
            focus: Focus::Filter,
            filter_focus: Some(FilterFocus::Where),
            detail_input: None,
            page_size_focus: false,
        },
        InputTarget::DetailSearch => FocusState {
            focus: Focus::Detail,
            filter_focus: None,
            detail_input: Some(DetailInput::Search),
            page_size_focus: false,
        },
        InputTarget::DetailField(index) => FocusState {
            focus: Focus::Detail,
            filter_focus: None,
            detail_input: Some(DetailInput::Field(index)),
            page_size_focus: false,
        },
        InputTarget::PageSize => FocusState {
            focus: Focus::PageSize,
            filter_focus: None,
            detail_input: None,
            page_size_focus: true,
        },
        InputTarget::PaletteQuery => FocusState {
            focus: state.focus,
            filter_focus: None,
            detail_input: None,
            page_size_focus: false,
        },
    }
}

impl FocusState {
    /// A field takes the keyboard from whichever had it.
    pub fn focus_input(&mut self, target: InputTarget)
        ensures
            *final(self) == focused_on(*old(self), target),
    {
        self.filter_focus = None;
        self.detail_input = None;
        self.page_size_focus = false;
        match target {
            InputTarget::WhereDraft => {
                self.filter_focus = Some(FilterFocus::Where);
                self.focus = Focus::Filter;
            },
            InputTarget::DetailSearch => {
                self.detail_input = Some(DetailInput::Search);
                self.focus = Focus::Detail;
            },
            InputTarget::DetailField(index) => {
                self.detail_input = Some(DetailInput::Field(index));
                self.focus = Focus::Detail;
            },
            InputTarget::PageSize => {
                self.page_size_focus = true;
                self.focus = Focus::PageSize;
            },
            InputTarget::PaletteQuery => {},
        }
    }
}

/// Never more than one field has the keyboard.
pub proof fn one_field_has_the_keyboard(state: FocusState, target: InputTarget)
    ensures
        ({
            let after = focused_on(state, target);
            &&& after.filter_focus is Some ==> after.detail_input is None && !after.page_size_focus
            &&& after.detail_input is Some ==> after.filter_focus is None && !after.page_size_focus
            &&& after.page_size_focus ==> after.filter_focus is None && after.detail_input is None
        }),
{
}

/// A text on one line: its line breaks as spaces.
pub open spec fn spaced(text: Seq<char>) -> Seq<char> {
    Seq::new(
        text.len(),
        |i: int|
            if text[i] == '\n' || text[i] == '\r' {
                ' '
            } else {
                text[i]
            },
    )
}

pub(crate) fn to_spaced(text: &str) -> (line: String)
    ensures
        line@ == spaced(text@),
{
    let chars = chars_of(text);
    let mut line: String = String::new();
    let mut i: usize = 0;
    while i < chars.len()
        invariant
            chars@ == text@,
            i <= chars@.len(),
            line@ == spaced(text@.take(i as int)),
        decreases chars@.len() - i,
    {
        let c = chars[i];
        line.push(
            if c == '\n' || c == '\r' {
                ' '
            } else {
                c
            },
        );
        i += 1;
        assert(line@ == spaced(text@.take(i as int)));
    }
    assert(text@.take(i as int) == text@);
    line
}

proof fn lemma_spaced_len(text: Seq<char>)
    ensures
        encode_utf8(spaced(text)).len() == encode_utf8(text).len(),
    decreases text.len(),
{
    if text.len() > 0 {
        lemma_spaced_len(text.drop_first());
        assert(spaced(text).drop_first() == spaced(text.drop_first()));
    }
}

/// Line breaks and spaces are as wide as each other, so every offset means the
/// same in both texts.
pub proof fn spacing_keeps_the_offsets(text: Seq<char>, at: int)
    ensures
        encode_utf8(spaced(text)).len() == encode_utf8(text).len(),
        is_char_boundary(encode_utf8(spaced(text)), at) == is_char_boundary(encode_utf8(text), at),
{
    lemma_spaced_len(text);
    lemma_boundary_is_prefix(text, at);
    lemma_boundary_is_prefix(spaced(text), at);
    assert forall|k: int| 0 <= k <= text.len() implies #[trigger] encode_utf8(
        text.take(k),
    ).len() == encode_utf8(spaced(text).take(k)).len() by {
        lemma_spaced_len(text.take(k));
        assert(spaced(text.take(k)) == spaced(text).take(k));
    }
    if is_char_boundary(encode_utf8(text), at) {
        let k = choose|k: int|
            0 <= k <= text.len() && #[trigger] encode_utf8(text.take(k)).len() == at;
        assert(encode_utf8(spaced(text).take(k)).len() == at);
    }
    if is_char_boundary(encode_utf8(spaced(text)), at) {
        let k = choose|k: int|
            0 <= k <= spaced(text).len() && #[trigger] encode_utf8(spaced(text).take(k)).len()
                == at;
        assert(encode_utf8(text.take(k)).len() == at);
    }
}

/// What a placeholder says, where there is one.
pub open spec fn hinted(placeholder: Option<&str>) -> Option<Seq<char>> {
    match placeholder {
        Some(hint) => Some(hint@),
        None => None,
    }
}

/// What a one-line field draws.
#[derive(Debug)]
pub enum SingleLine {
    Placeholder(String),
    Selected { before: String, selected: String, after: String },
    Plain(String),
    Caret { before: String, after: String },
}

pub open spec fn capped(at: usize, text: Seq<char>) -> int {
    if at <= encode_utf8(text).len() {
        at as int
    } else {
        encode_utf8(text).len() as int
    }
}

pub open spec fn piece(text: Seq<char>, from: int, to: int) -> Seq<char> {
    text_at(text, Range { start: from as usize, end: to as usize })
}

/// What a one-line field draws: a hint while it is empty and elsewhere has the
/// keyboard; the selection, where there is one; the caret only while it has the
/// keyboard.
pub open spec fn single_line_is(
    drawn: SingleLine,
    text: Seq<char>,
    selection: Range<usize>,
    cursor: usize,
    focused: bool,
    placeholder: Option<Seq<char>>,
) -> bool {
    let line = spaced(text);
    let start = capped(selection.start, text);
    let end = capped(selection.end, text);
    let caret = capped(cursor, text);
    let total = encode_utf8(line).len() as int;
    if text.len() == 0 && !focused && placeholder is Some {
        drawn matches SingleLine::Placeholder(hint) && hint@ == placeholder.unwrap()
    } else if start != end {
        drawn matches SingleLine::Selected { before, selected, after } && before@ == piece(
            line,
            0,
            start,
        ) && selected@ == piece(line, start, end) && after@ == piece(line, end, total)
    } else if !focused {
        drawn matches SingleLine::Plain(all) && all@ == line
    } else {
        drawn matches SingleLine::Caret { before, after } && before@ == piece(line, 0, caret)
            && after@ == piece(line, caret, total)
    }
}

pub fn render_single_line(
    text: &str,
    selection: &Range<usize>,
    cursor: usize,
    focused: bool,
    placeholder: Option<&str>,
) -> (drawn: SingleLine)
    requires
        selection.start <= selection.end,
        is_char_boundary(encode_utf8(text@), capped(selection.start, text@)),
        is_char_boundary(encode_utf8(text@), capped(selection.end, text@)),
        is_char_boundary(encode_utf8(text@), capped(cursor, text@)),
    ensures
        single_line_is(
            drawn,
            text@,
            *selection,
            cursor,
            focused,
            hinted(placeholder),
        ),
{
    if text.is_empty() && !focused {
        if let Some(hint) = placeholder {
            return SingleLine::Placeholder(hint.to_string());
        }
    }
    let line = to_spaced(text);
    let total: usize = line.as_str().as_bytes().len();
    proof {
        spacing_keeps_the_offsets(text@, capped(selection.start, text@));
        spacing_keeps_the_offsets(text@, capped(selection.end, text@));
        spacing_keeps_the_offsets(text@, capped(cursor, text@));
        encode_utf8_valid_utf8(line@);
        is_char_boundary_start_end_of_seq(encode_utf8(line@));
    }
    let start: usize = if selection.start <= total {
        selection.start
    } else {
        total
    };
    let end: usize = if selection.end <= total {
        selection.end
    } else {
        total
    };
    let caret: usize = if cursor <= total {
        cursor
    } else {
        total
    };
    if start != end {
        let before = slice(line.as_str(), 0, start);
        let selected = slice(line.as_str(), start, end);
        let after = slice(line.as_str(), end, total);
        proof {
            encode_utf8_decode_utf8(before@);
            encode_utf8_decode_utf8(selected@);
            encode_utf8_decode_utf8(after@);
        }
        return SingleLine::Selected {
            before: before.to_string(),
            selected: selected.to_string(),
            after: after.to_string(),
        };
    }
    if !focused {
        return SingleLine::Plain(line);
    }
    let before = slice(line.as_str(), 0, caret);
    let after = slice(line.as_str(), caret, total);
    proof {
        encode_utf8_decode_utf8(before@);
        encode_utf8_decode_utf8(after@);
    }
    SingleLine::Caret { before: before.to_string(), after: after.to_string() }
}

/// Where a line of a multiline field begins: after the lines before it and their
/// line breaks.
pub open spec fn line_start(lines: Seq<String>, i: int) -> int
    decreases i,
{
    if i <= 0 {
        0
    } else {
        line_start(lines, i - 1) + encode_utf8(lines[i - 1]@).len() + 1
    }
}

/// A line of a multiline field: the bytes it covers, and the caret's column
/// where the caret is on it.
#[derive(Debug, Clone, Copy, PartialEq, Eq, Structural)]
pub struct LineSpan {
    pub start: usize,
    pub end: usize,
    pub caret: Option<usize>,
}

pub open spec fn span_of(lines: Seq<String>, i: int, cursor: usize, shows_caret: bool) -> LineSpan {
    let start = line_start(lines, i);
    let end = start + encode_utf8(lines[i]@).len();
    LineSpan {
        start: start as usize,
        end: end as usize,
        caret: if shows_caret && start <= cursor <= end {
            Some((cursor - start) as usize)
        } else {
            None
        },
    }
}

proof fn lemma_line_start_grows(lines: Seq<String>, i: int, j: int)
    requires
        0 <= i <= j <= lines.len(),
    ensures
        line_start(lines, i) <= line_start(lines, j),
        i < j ==> line_start(lines, i) + encode_utf8(lines[i]@).len() < line_start(lines, j),
    decreases j - i,
{
    if i < j {
        lemma_line_start_grows(lines, i, j - 1);
    }
}

/// The lines of a multiline field: where each begins and ends, and which one the
/// caret is on. The caret only shows while the field has the keyboard and
/// nothing is selected.
pub fn line_spans(
    lines: &Vec<String>,
    cursor: usize,
    focused: bool,
    has_selection: bool,
) -> (spans: Vec<LineSpan>)
    requires
        line_start(lines@, lines@.len() as int) <= usize::MAX,
    ensures
        spans@.len() == lines@.len(),
        forall|i: int|
            0 <= i < spans@.len() ==> #[trigger] spans@[i] == span_of(
                lines@,
                i,
                cursor,
                focused && !has_selection,
            ),
{
    let shows_caret = focused && !has_selection;
    let mut spans: Vec<LineSpan> = Vec::new();
    let mut consumed: usize = 0;
    let mut i: usize = 0;
    while i < lines.len()
        invariant
            i <= lines@.len(),
            spans@.len() == i,
            consumed == line_start(lines@, i as int),
            line_start(lines@, lines@.len() as int) <= usize::MAX,
            shows_caret == (focused && !has_selection),
            forall|k: int|
                0 <= k < i ==> #[trigger] spans@[k] == span_of(lines@, k, cursor, shows_caret),
        decreases lines@.len() - i,
    {
        proof {
            lemma_line_start_grows(lines@, i as int, lines@.len() as int);
            lemma_line_start_grows(lines@, i + 1, lines@.len() as int);
        }
        let start: usize = consumed;
        let width: usize = lines[i].as_str().as_bytes().len();
        let end: usize = consumed + width;
        let caret = if shows_caret && cursor >= start && cursor <= end {
            Some(cursor - start)
        } else {
            None
        };
        spans.push(LineSpan { start, end, caret });
        consumed = end + 1;
        i += 1;
    }
    spans
}

/// The caret is drawn on one line at most.
pub proof fn the_caret_is_on_one_line(
    lines: Seq<String>,
    spans: Seq<LineSpan>,
    cursor: usize,
    shows_caret: bool,
    i: int,
    j: int,
)
    requires
        spans.len() == lines.len(),
        forall|k: int|
            0 <= k < spans.len() ==> #[trigger] spans[k] == span_of(lines, k, cursor, shows_caret),
        0 <= i < j < spans.len(),
    ensures
        !(spans[i].caret is Some && spans[j].caret is Some),
{
    lemma_line_start_grows(lines, i, j);
}

/// How tall a field with several lines is drawn.
#[derive(Debug, Clone, Copy, PartialEq, Eq, Structural)]
pub enum FieldHeight {
    /// As many lines as do not scroll.
    Capped,
    /// All of them.
    Full,
}

pub open spec fn lines_shown(count: nat, height: FieldHeight) -> nat {
    if count == 0 {
        1
    } else if height == FieldHeight::Capped && count > MAX_VISIBLE_LINES {
        MAX_VISIBLE_LINES as nat
    } else {
        count
    }
}

/// How many lines a field shows at once: its own, but at least one, and where
/// its height is capped at most as many as do not scroll.
pub fn visible_lines(count: usize, height: FieldHeight) -> (visible: usize)
    ensures
        visible == lines_shown(count as nat, height),
{
    if count == 0 {
        return 1;
    }
    match height {
        FieldHeight::Capped => if count > MAX_VISIBLE_LINES {
            MAX_VISIBLE_LINES
        } else {
            count
        },
        FieldHeight::Full => count,
    }
}

/// What a press in a field does to it, once it has the keyboard.
#[derive(Debug, Clone, Copy, PartialEq, Eq, Structural)]
pub enum Press {
    /// The string that the field talks to is gone.
    Nothing,
    /// Puts the caret there, and a drag selects from it.
    Select,
    /// Selects a word or a line; a drag does not grow it.
    SelectWhole,
}

/// A press in a field: one click starts a selection, more select what is
/// under them.
pub fn field_pressed(inputs: Inputs, target: InputTarget, click_count: usize) -> (press: Press)
    ensures
        press == (if !is_there(inputs, target) {
            Press::Nothing
        } else if click_count <= 1 {
            Press::Select
        } else {
            Press::SelectWhole
        }),
{
    if !has_input(inputs, target) {
        Press::Nothing
    } else if click_count <= 1 {
        Press::Select
    } else {
        Press::SelectWhole
    }
}

/// Whether a move of the mouse over a field grows its selection: only while a
/// press that started one is held.
pub fn field_dragged(inputs: Inputs, target: InputTarget, selecting: bool) -> (grows: bool)
    ensures
        grows == (is_there(inputs, target) && selecting),
{
    has_input(inputs, target) && selecting
}

/// A style, by its number in the colours of the language that a text is in.
pub type StyleId = u8;

/// Characters that are drawn in a style, by their bytes in the line.
#[derive(Debug, Clone, Copy, PartialEq, Eq, Structural)]
pub struct StyledSpan {
    pub start: usize,
    pub end: usize,
    pub style: StyleId,
}

/// A run of a line as it is drawn.
#[derive(Debug)]
pub enum Run {
    Caret,
    Piece { text: String, style: Option<StyleId>, selected: bool },
}

/// What a run draws.
pub enum RunView {
    Caret,
    Piece { text: Seq<char>, style: Option<StyleId>, selected: bool },
}

impl View for Run {
    type V = RunView;

    open spec fn view(&self) -> RunView {
        match *self {
            Run::Caret => RunView::Caret,
            Run::Piece { text, style, selected } => RunView::Piece {
                text: text@,
                style,
                selected,
            },
        }
    }
}

/// What each run draws.
pub open spec fn run_views(runs: Seq<Run>) -> Seq<RunView> {
    Seq::new(runs.len(), |i: int| runs[i]@)
}

/// What a line is drawn with: the colours of its characters, what of it is
/// selected, and where the caret is.
pub struct LineMarks {
    pub styles: Seq<StyledSpan>,
    pub selection: Option<Range<usize>>,
    pub caret: Option<usize>,
}

pub open spec fn least(a: usize, b: int) -> int {
    if a <= b {
        a as int
    } else {
        b
    }
}

/// Something begins or ends here: a style, the selection, or the caret.
pub open spec fn marks_cut(marks: LineMarks, total: int, at: int) -> bool {
    ||| exists|i: int|
        0 <= i < marks.styles.len() && (least((#[trigger] marks.styles[i]).start, total) == at
            || least(marks.styles[i].end, total) == at)
    ||| (marks.selection matches Some(selection) && (least(selection.start, total) == at || least(
        selection.end,
        total,
    ) == at))
    ||| (marks.caret matches Some(caret) && least(caret, total) == at)
}

/// A run ends here: at the end of the line, or where something changes between
/// two characters.
pub open spec fn is_cut(line: Seq<char>, marks: LineMarks, at: int) -> bool {
    let total = encode_utf8(line).len() as int;
    at == total || (marks_cut(marks, total, at) && is_char_boundary(encode_utf8(line), at))
}

/// The next place after `from` where a run ends.
pub open spec fn next_cut(line: Seq<char>, marks: LineMarks, from: int) -> int
    decreases encode_utf8(line).len() - from,
{
    if from + 1 >= encode_utf8(line).len() || is_cut(line, marks, from + 1) {
        from + 1
    } else {
        next_cut(line, marks, from + 1)
    }
}

/// The first style over a byte.
pub open spec fn style_over(styles: Seq<StyledSpan>, at: int, from: int) -> Option<StyleId>
    decreases styles.len() - from,
{
    if from >= styles.len() {
        None
    } else if styles[from].start <= at < styles[from].end {
        Some(styles[from].style)
    } else {
        style_over(styles, at, from + 1)
    }
}

pub open spec fn selects(selection: Option<Range<usize>>, at: int) -> bool {
    selection matches Some(selection) && selection.start <= at < selection.end
}

/// The runs of a line from `start` on: the caret where it stands, and the pieces
/// between the cuts.
pub open spec fn runs_from(line: Seq<char>, marks: LineMarks, start: int) -> Seq<RunView>
    decreases encode_utf8(line).len() - start,
    via runs_from_ends
{
    let total = encode_utf8(line).len() as int;
    let here = if marks.caret == Some(start as usize) && 0 <= start <= usize::MAX {
        seq![RunView::Caret]
    } else {
        Seq::empty()
    };
    if start >= total {
        here
    } else {
        let end = next_cut(line, marks, start);
        here + seq![
            RunView::Piece {
                text: piece(line, start, end),
                style: style_over(marks.styles, start, 0),
                selected: selects(marks.selection, start),
            },
        ] + runs_from(line, marks, end)
    }
}

#[via_fn]
proof fn runs_from_ends(line: Seq<char>, marks: LineMarks, start: int) {
    if start < encode_utf8(line).len() {
        lemma_next_cut(line, marks, start);
    }
}

proof fn lemma_next_cut(line: Seq<char>, marks: LineMarks, from: int)
    requires
        from < encode_utf8(line).len(),
    ensures
        from < next_cut(line, marks, from) <= encode_utf8(line).len(),
        is_cut(line, marks, next_cut(line, marks, from)),
    decreases encode_utf8(line).len() - from,
{
    if from + 1 < encode_utf8(line).len() && !is_cut(line, marks, from + 1) {
        lemma_next_cut(line, marks, from + 1);
    }
}

fn cuts_here(
    line: &str,
    styles: &Vec<StyledSpan>,
    selection: &Option<Range<usize>>,
    caret: Option<usize>,
    total: usize,
    at: usize,
) -> (cut: bool)
    requires
        total == encode_utf8(line@).len(),
        at <= total,
    ensures
        cut == is_cut(
            line@,
            (LineMarks { styles: styles@, selection: *selection, caret }),
            at as int,
        ),
{
    if at == total {
        return true;
    }
    if !line.is_char_boundary(at) {
        return false;
    }
    let ghost marks = LineMarks { styles: styles@, selection: *selection, caret };
    let mut i: usize = 0;
    while i < styles.len()
        invariant
            marks == (LineMarks { styles: styles@, selection: *selection, caret }),
            i <= styles@.len(),
            at < total,
            total == encode_utf8(line@).len(),
            is_char_boundary(encode_utf8(line@), at as int),
            forall|k: int|
                0 <= k < i ==> least((#[trigger] styles@[k]).start, total as int) != at && least(
                    styles@[k].end,
                    total as int,
                ) != at,
        decreases styles@.len() - i,
    {
        let span = styles[i];
        if span.start == at || span.end == at {
            assert(least(marks.styles[i as int].start, total as int) == at || least(
                marks.styles[i as int].end,
                total as int,
            ) == at);
            return true;
        }
        i += 1;
    }
    if let Some(selection) = selection {
        if selection.start == at || selection.end == at {
            return true;
        }
    }
    match caret {
        Some(caret) => caret == at,
        None => false,
    }
}

fn style_at(styles: &Vec<StyledSpan>, at: usize) -> (style: Option<StyleId>)
    ensures
        style == style_over(styles@, at as int, 0),
{
    let mut i: usize = 0;
    while i < styles.len()
        invariant
            i <= styles@.len(),
            style_over(styles@, at as int, 0) == style_over(styles@, at as int, i as int),
        decreases styles@.len() - i,
    {
        let span = styles[i];
        if span.start <= at && at < span.end {
            return Some(span.style);
        }
        i += 1;
    }
    None
}

fn push_run(runs: &mut Vec<Run>, run: Run)
    ensures
        run_views(final(runs)@) == run_views(old(runs)@).push(run@),
{
    runs.push(run);
    assert(run_views(runs@) == run_views(old(runs)@).push(run@));
}

/// Paint one line as coloured runs with in-flow caret and selection.
pub fn render_highlighted_line(
    line: &str,
    styles: &Vec<StyledSpan>,
    selection: &Option<Range<usize>>,
    caret: Option<usize>,
) -> (runs: Vec<Run>)
    ensures
        run_views(runs@) == runs_from(
            line@,
            (LineMarks { styles: styles@, selection: *selection, caret }),
            0,
        ),
{
    let ghost marks = LineMarks { styles: styles@, selection: *selection, caret };
    let total: usize = line.as_bytes().len();
    let mut runs: Vec<Run> = Vec::new();
    let mut start: usize = 0;
    proof {
        encode_utf8_valid_utf8(line@);
        is_char_boundary_start_end_of_seq(encode_utf8(line@));
        assert(run_views(runs@) + runs_from(line@, marks, 0) == runs_from(line@, marks, 0));
    }
    while start < total
        invariant
            marks == (LineMarks { styles: styles@, selection: *selection, caret }),
            total == encode_utf8(line@).len(),
            start <= total,
            is_char_boundary(encode_utf8(line@), start as int),
            is_char_boundary(encode_utf8(line@), total as int),
            run_views(runs@) + runs_from(line@, marks, start as int) == runs_from(
                line@,
                marks,
                0,
            ),
        decreases total - start,
    {
        let ghost before = run_views(runs@);
        let ghost rest_here = runs_from(line@, marks, start as int);
        if let Some(place) = caret {
            if place == start {
                push_run(&mut runs, Run::Caret);
            }
        }
        let mut end: usize = start + 1;
        while end < total && !cuts_here(line, styles, selection, caret, total, end)
            invariant
                marks == (LineMarks { styles: styles@, selection: *selection, caret }),
                total == encode_utf8(line@).len(),
                start < end <= total,
                next_cut(line@, marks, start as int) == next_cut(line@, marks, end - 1),
            decreases total - end,
        {
            end += 1;
        }
        proof {
            lemma_next_cut(line@, marks, start as int);
            assert(next_cut(line@, marks, start as int) == end);
            assert(is_cut(line@, marks, end as int));
        }
        let part = slice(line, start, end);
        proof {
            encode_utf8_decode_utf8(part@);
        }
        let selected = match selection {
            Some(chosen) => chosen.start <= start && start < chosen.end,
            None => false,
        };
        push_run(
            &mut runs,
            Run::Piece {
                text: part.to_string(),
                style: style_at(styles, start),
                selected,
            },
        );
        proof {
            assert(run_views(runs@) + runs_from(line@, marks, end as int) == before + rest_here);
        }
        start = end;
    }
    if let Some(place) = caret {
        if place == total {
            push_run(&mut runs, Run::Caret);
        }
    }
    assert(run_views(runs@) == runs_from(line@, marks, 0));
    runs
}

/// What a field with several lines draws.
#[derive(Debug)]
pub enum Multiline {
    Placeholder(String),
    /// How many characters the longest line has, and the runs of each.
    Lines { widest: usize, rows: Vec<Vec<Run>> },
}

/// The length of the longest of some lines.
pub open spec fn widest_of(lines: Seq<String>) -> nat
    decreases lines.len(),
{
    if lines.len() == 0 {
        0
    } else {
        let before = widest_of(lines.drop_last());
        if lines.last()@.len() > before {
            lines.last()@.len()
        } else {
            before
        }
    }
}

/// How a line is painted, but for the caret.
#[derive(Debug)]
pub struct LinePaint {
    pub styles: Vec<StyledSpan>,
    pub selection: Option<Range<usize>>,
}

/// What a line is drawn with once the caret is placed.
pub open spec fn with_caret(paint: LinePaint, caret: Option<usize>) -> LineMarks {
    LineMarks { styles: paint.styles@, selection: paint.selection, caret }
}

/// The runs of each line: its styles and its selection, and the caret where it
/// is.
pub open spec fn rows_are(
    rows: Seq<Vec<Run>>,
    lines: Seq<String>,
    paint: Seq<LinePaint>,
    spans: Seq<LineSpan>,
) -> bool {
    rows.len() == lines.len() && forall|i: int|
        0 <= i < rows.len() ==> run_views((#[trigger] rows[i])@) == runs_from(
            lines[i]@,
            with_caret(paint[i], spans[i].caret),
            0,
        )
}

pub open spec fn multiline_is(
    drawn: Multiline,
    lines: Seq<String>,
    paint: Seq<LinePaint>,
    cursor: usize,
    focused: bool,
    has_selection: bool,
    empty: bool,
    placeholder: Option<Seq<char>>,
) -> bool {
    if empty && !focused && placeholder is Some {
        drawn matches Multiline::Placeholder(hint) && hint@ == placeholder.unwrap()
    } else {
        drawn matches Multiline::Lines { widest, rows } && widest == widest_of(lines) && rows_are(
            rows@,
            lines,
            paint,
            Seq::new(
                lines.len(),
                |i: int| span_of(lines, i, cursor, focused && !has_selection),
            ),
        )
    }
}

fn widest_line(lines: &Vec<String>) -> (widest: usize)
    ensures
        widest == widest_of(lines@),
{
    let mut widest: usize = 0;
    let mut i: usize = 0;
    assert(lines@.take(0) == Seq::<String>::empty());
    while i < lines.len()
        invariant
            i <= lines@.len(),
            widest == widest_of(lines@.take(i as int)),
        decreases lines@.len() - i,
    {
        let count: usize = chars_of(lines[i].as_str()).len();
        assert(lines@.take(i + 1).drop_last() == lines@.take(i as int));
        if count > widest {
            widest = count;
        }
        i += 1;
    }
    assert(lines@.take(i as int) == lines@);
    widest
}

/// A field with several lines: a hint while it is empty and elsewhere has the
/// keyboard, else each line with its styles, the selection and the caret.
/// `paint` says how each line is painted but for the caret.
pub fn render_multiline(
    lines: &Vec<String>,
    paint: &Vec<LinePaint>,
    cursor: usize,
    focused: bool,
    has_selection: bool,
    empty: bool,
    placeholder: Option<&str>,
) -> (drawn: Multiline)
    requires
        line_start(lines@, lines@.len() as int) <= usize::MAX,
        paint@.len() == lines@.len(),
    ensures
        multiline_is(
            drawn,
            lines@,
            paint@,
            cursor,
            focused,
            has_selection,
            empty,
            hinted(placeholder),
        ),
{
    if empty && !focused {
        if let Some(hint) = placeholder {
            return Multiline::Placeholder(hint.to_string());
        }
    }
    let spans = line_spans(lines, cursor, focused, has_selection);
    let mut rows: Vec<Vec<Run>> = Vec::new();
    let mut i: usize = 0;
    while i < lines.len()
        invariant
            i <= lines@.len(),
            lines@.len() == paint@.len() == spans@.len(),
            rows@.len() == i,
            forall|k: int|
                0 <= k < i ==> run_views((#[trigger] rows@[k])@) == runs_from(
                    lines@[k]@,
                    with_caret(paint@[k], spans@[k].caret),
                    0,
                ),
        decreases lines@.len() - i,
    {
        rows.push(
            render_highlighted_line(
                lines[i].as_str(),
                &paint[i].styles,
                &paint[i].selection,
                spans[i].caret,
            ),
        );
        i += 1;
    }
    proof {
        let carets = Seq::new(
            lines@.len(),
            |k: int| span_of(lines@, k, cursor, focused && !has_selection),
        );
        assert forall|k: int| 0 <= k < rows@.len() implies run_views((#[trigger] rows@[k])@)
            == runs_from(lines@[k]@, with_caret(paint@[k], carets[k].caret), 0) by {
            assert(spans@[k] == span_of(lines@, k, cursor, focused && !has_selection));
        }
    }
    Multiline::Lines { widest: widest_line(lines), rows }
}

/// A text input, as far as the field that shows it reads it.
#[derive(Debug)]
pub struct FieldInput {
    pub text: String,
    pub multiline: bool,
    pub selection: Range<usize>,
    pub cursor: usize,
    pub has_selection: bool,
    /// Its lines, and how each is painted but for the caret.
    pub lines: Vec<String>,
    pub paint: Vec<LinePaint>,
}

impl FieldInput {
    /// The selection and the caret stand between characters.
    pub open spec fn on_boundaries(&self) -> bool {
        let text = self.text@;
        &&& self.selection.start <= self.selection.end
        &&& is_char_boundary(encode_utf8(text), capped(self.selection.start, text))
        &&& is_char_boundary(encode_utf8(text), capped(self.selection.end, text))
        &&& is_char_boundary(encode_utf8(text), capped(self.cursor, text))
    }

    /// Each line is painted.
    pub open spec fn painted(&self) -> bool {
        &&& line_start(self.lines@, self.lines@.len() as int) <= usize::MAX
        &&& self.paint@.len() == self.lines@.len()
    }

    pub open spec fn wf(&self) -> bool {
        if self.multiline {
            self.painted()
        } else {
            self.on_boundaries()
        }
    }
}

/// How a field is framed.
#[derive(Debug)]
pub struct FieldFrame {
    /// The name that its scroll position goes by, and the field's number where
    /// several share it.
    pub scroll_id: String,
    pub scroll_index: Option<usize>,
    /// The border is lit: the field has the keyboard.
    pub lit: bool,
}

pub open spec fn frame_is(frame: FieldFrame, target: InputTarget, focused: bool) -> bool {
    &&& frame.scroll_id@ == (match target {
        InputTarget::WhereDraft => "where-scroll"@,
        InputTarget::DetailSearch => "detail-search-scroll"@,
        InputTarget::PageSize => "page-size-scroll"@,
        InputTarget::PaletteQuery => "palette-query-scroll"@,
        InputTarget::DetailField(_) => "detail-field-scroll"@,
    })
    &&& frame.scroll_index == (match target {
        InputTarget::DetailField(index) => Some(index),
        _ => None,
    })
    &&& frame.lit == focused
}

fn field_frame(target: InputTarget, focused: bool) -> (frame: FieldFrame)
    ensures
        frame_is(frame, target, focused),
{
    FieldFrame {
        scroll_id: match target {
            InputTarget::WhereDraft => "where-scroll".to_string(),
            InputTarget::DetailSearch => "detail-search-scroll".to_string(),
            InputTarget::PageSize => "page-size-scroll".to_string(),
            InputTarget::PaletteQuery => "palette-query-scroll".to_string(),
            InputTarget::DetailField(_) => "detail-field-scroll".to_string(),
        },
        scroll_index: match target {
            InputTarget::DetailField(index) => Some(index),
            _ => None,
        },
        lit: focused,
    }
}

/// A field as it is drawn.
#[derive(Debug)]
pub enum TextField {
    One(SingleLineField),
    Many(MultilineField),
}

/// A one-line field as it is drawn.
#[derive(Debug)]
pub struct SingleLineField {
    pub frame: FieldFrame,
    /// The palette's query is drawn on the palette's own surface, in its font.
    pub borderless: bool,
    /// In pixels before zoom.
    pub height: usize,
    pub body: SingleLine,
}

/// A field with several lines as it is drawn.
#[derive(Debug)]
pub struct MultilineField {
    pub frame: FieldFrame,
    /// The field is as tall as this many lines: one that fits its lines has
    /// nothing to scroll to.
    pub visible: usize,
    pub scrolls: bool,
    pub body: Multiline,
}

pub open spec fn single_field_is(
    field: SingleLineField,
    input: FieldInput,
    target: InputTarget,
    focused: bool,
    placeholder: Option<Seq<char>>,
) -> bool {
    &&& frame_is(field.frame, target, focused)
    &&& field.borderless == (target == InputTarget::PaletteQuery)
    &&& field.height == (if target == InputTarget::PaletteQuery {
        QUERY_HEIGHT
    } else {
        SINGLE_LINE_HEIGHT
    })
    &&& single_line_is(
        field.body,
        input.text@,
        input.selection,
        input.cursor,
        focused,
        placeholder,
    )
}

pub open spec fn multiline_field_is(
    field: MultilineField,
    input: FieldInput,
    target: InputTarget,
    focused: bool,
    placeholder: Option<Seq<char>>,
) -> bool {
    &&& frame_is(field.frame, target, focused)
    &&& field.visible == lines_shown(input.lines@.len(), FieldHeight::Capped)
    &&& field.scrolls == (input.lines@.len() > MAX_VISIBLE_LINES)
    &&& multiline_is(
        field.body,
        input.lines@,
        input.paint@,
        input.cursor,
        focused,
        input.has_selection,
        input.text@.len() == 0,
        placeholder,
    )
}

pub fn single_line_text_field(
    input: &FieldInput,
    target: InputTarget,
    focused: bool,
    placeholder: Option<&str>,
) -> (field: SingleLineField)
    requires
        input.on_boundaries(),
    ensures
        single_field_is(field, *input, target, focused, hinted(placeholder)),
{
    let borderless = match target {
        InputTarget::PaletteQuery => true,
        _ => false,
    };
    SingleLineField {
        frame: field_frame(target, focused),
        borderless,
        height: if borderless {
            QUERY_HEIGHT
        } else {
            SINGLE_LINE_HEIGHT
        },
        body: render_single_line(
            input.text.as_str(),
            &input.selection,
            input.cursor,
            focused,
            placeholder,
        ),
    }
}

pub fn multiline_text_field(
    input: &FieldInput,
    target: InputTarget,
    focused: bool,
    placeholder: Option<&str>,
) -> (field: MultilineField)
    requires
        input.painted(),
    ensures
        multiline_field_is(field, *input, target, focused, hinted(placeholder)),
{
    let count: usize = input.lines.len();
    MultilineField {
        frame: field_frame(target, focused),
        visible: visible_lines(count, FieldHeight::Capped),
        scrolls: count > MAX_VISIBLE_LINES,
        body: render_multiline(
            &input.lines,
            &input.paint,
            input.cursor,
            focused,
            input.has_selection,
            input.text.as_str().is_empty(),
            placeholder,
        ),
    }
}

/// Full-featured field bound to an [`InputTarget`].
pub fn text_field(
    input: &FieldInput,
    target: InputTarget,
    focused: bool,
    placeholder: Option<&str>,
) -> (field: TextField)
    requires
        input.wf(),
    ensures
        match field {
            TextField::One(field) => !input.multiline && single_field_is(
                field,
                *input,
                target,
                focused,
                hinted(placeholder),
            ),
            TextField::Many(field) => input.multiline && multiline_field_is(
                field,
                *input,
                target,
                focused,
                hinted(placeholder),
            ),
        },
{
    if input.multiline {
        TextField::Many(multiline_text_field(input, target, focused, placeholder))
    } else {
        TextField::One(single_line_text_field(input, target, focused, placeholder))
    }
}

/// A field only scrolls where it does not show all its lines: one that fits
/// them has nothing to scroll to.
pub proof fn a_field_that_fits_does_not_scroll(
    field: MultilineField,
    input: FieldInput,
    target: InputTarget,
    focused: bool,
    placeholder: Option<Seq<char>>,
)
    requires
        multiline_field_is(field, input, target, focused, placeholder),
    ensures
        field.scrolls <==> field.visible < input.lines@.len(),
        field.visible <= MAX_VISIBLE_LINES,
{
}

/// The bytes that the runs draw, the caret aside.
pub open spec fn drawn_bytes(runs: Seq<RunView>) -> Seq<u8>
    decreases runs.len(),
{
    if runs.len() == 0 {
        Seq::empty()
    } else {
        (match runs[0] {
            RunView::Caret => Seq::<u8>::empty(),
            RunView::Piece { text, .. } => encode_utf8(text),
        }) + drawn_bytes(runs.drop_first())
    }
}

proof fn lemma_drawn_concat(a: Seq<RunView>, b: Seq<RunView>)
    ensures
        drawn_bytes(a + b) == drawn_bytes(a) + drawn_bytes(b),
    decreases a.len(),
{
    if a.len() == 0 {
        assert(a + b == b);
        assert(drawn_bytes(a) + drawn_bytes(b) == drawn_bytes(b));
    } else {
        lemma_drawn_concat(a.drop_first(), b);
        assert((a + b).drop_first() == a.drop_first() + b);
        assert((a + b)[0] == a[0]);
        assert(drawn_bytes(a + b) == drawn_bytes(a) + drawn_bytes(b));
    }
}

proof fn lemma_drawn_one(run: RunView)
    ensures
        drawn_bytes(seq![run]) == (match run {
            RunView::Caret => Seq::<u8>::empty(),
            RunView::Piece { text, .. } => encode_utf8(text),
        }),
{
    assert(seq![run].drop_first() == Seq::<RunView>::empty());
    reveal_with_fuel(drawn_bytes, 2);
    assert(drawn_bytes(seq![run]) == (match run {
        RunView::Caret => Seq::<u8>::empty(),
        RunView::Piece { text, .. } => encode_utf8(text),
    }) + Seq::<u8>::empty());
}

proof fn lemma_piece_bytes(line: Seq<char>, from: int, to: int)
    requires
        0 <= from <= to <= encode_utf8(line).len() <= usize::MAX,
        is_char_boundary(encode_utf8(line), from),
        is_char_boundary(encode_utf8(line), to),
    ensures
        encode_utf8(piece(line, from, to)) == encode_utf8(line).subrange(from, to),
{
    let bytes = encode_utf8(line);
    encode_utf8_valid_utf8(line);
    lemma_part_is_valid(bytes, from, to);
    vstd::utf8::decode_utf8_encode_utf8(bytes.subrange(from, to));
}

proof fn lemma_runs_draw(line: Seq<char>, marks: LineMarks, start: int)
    requires
        0 <= start <= encode_utf8(line).len() <= usize::MAX,
        is_char_boundary(encode_utf8(line), start),
    ensures
        drawn_bytes(runs_from(line, marks, start)) == encode_utf8(line).subrange(
            start,
            encode_utf8(line).len() as int,
        ),
    decreases encode_utf8(line).len() - start,
{
    let total = encode_utf8(line).len() as int;
    let bytes = encode_utf8(line);
    let here = if marks.caret == Some(start as usize) {
        seq![RunView::Caret]
    } else {
        Seq::empty()
    };
    if marks.caret == Some(start as usize) {
        lemma_drawn_one(RunView::Caret);
    }
    assert(drawn_bytes(here) == Seq::<u8>::empty());
    encode_utf8_valid_utf8(line);
    is_char_boundary_start_end_of_seq(bytes);
    if start < total {
        lemma_next_cut(line, marks, start);
        let end = next_cut(line, marks, start);
        let run = RunView::Piece {
            text: piece(line, start, end),
            style: style_over(marks.styles, start, 0),
            selected: selects(marks.selection, start),
        };
        lemma_runs_draw(line, marks, end);
        lemma_drawn_concat(here + seq![run], runs_from(line, marks, end));
        lemma_drawn_concat(here, seq![run]);
        lemma_drawn_one(run);
        lemma_piece_bytes(line, start, end);
        assert(drawn_bytes(runs_from(line, marks, start)) == bytes.subrange(start, end)
            + bytes.subrange(end, total));
        assert(bytes.subrange(start, end) + bytes.subrange(end, total) == bytes.subrange(
            start,
            total,
        ));
    } else {
        assert(bytes.subrange(start, total) == Seq::<u8>::empty());
    }
}

/// However a line is coloured, selected and split by the caret, its runs draw
/// the whole line and nothing else.
pub proof fn runs_draw_the_whole_line(line: Seq<char>, marks: LineMarks)
    requires
        encode_utf8(line).len() <= usize::MAX,
    ensures
        drawn_bytes(runs_from(line, marks, 0)) == encode_utf8(line),
{
    encode_utf8_valid_utf8(line);
    is_char_boundary_start_end_of_seq(encode_utf8(line));
    lemma_runs_draw(line, marks, 0);
    assert(encode_utf8(line).subrange(0, encode_utf8(line).len() as int) == encode_utf8(line));
}

proof fn lemma_style_is_first(styles: Seq<StyledSpan>, at: int, from: int)
    requires
        0 <= from <= styles.len(),
    ensures
        match style_over(styles, at, from) {
            Some(style) => exists|i: int|
                from <= i < styles.len() && (#[trigger] styles[i]).start <= at < styles[i].end
                    && styles[i].style == style && (forall|j: int|
                    from <= j < i ==> !((#[trigger] styles[j]).start <= at < styles[j].end)),
            None => forall|i: int|
                from <= i < styles.len() ==> !((#[trigger] styles[i]).start <= at
                    < styles[i].end),
        },
    decreases styles.len() - from,
{
    if from < styles.len() && !(styles[from].start <= at < styles[from].end) {
        lemma_style_is_first(styles, at, from + 1);
        if let Some(style) = style_over(styles, at, from + 1) {
            let i = choose|i: int|
                from + 1 <= i < styles.len() && (#[trigger] styles[i]).start <= at < styles[i].end
                    && styles[i].style == style && (forall|j: int|
                    from + 1 <= j < i ==> !((#[trigger] styles[j]).start <= at < styles[j].end));
            assert forall|j: int| from <= j < i implies !((#[trigger] styles[j]).start <= at
                < styles[j].end) by {
            }
        }
    }
}

/// A character has the style of the first span that covers it, and none where none
/// does.
pub proof fn the_first_style_wins(styles: Seq<StyledSpan>, at: int)
    ensures
        match style_over(styles, at, 0) {
            Some(style) => exists|i: int|
                0 <= i < styles.len() && (#[trigger] styles[i]).start <= at < styles[i].end
                    && styles[i].style == style && (forall|j: int|
                    0 <= j < i ==> !((#[trigger] styles[j]).start <= at < styles[j].end)),
            None => forall|i: int|
                0 <= i < styles.len() ==> !((#[trigger] styles[i]).start <= at < styles[i].end),
        },
{
    lemma_style_is_first(styles, at, 0);
}

/// The marks of a line begin and end between its characters.
pub open spec fn marks_fit(line: Seq<char>, marks: LineMarks) -> bool {
    let bytes = encode_utf8(line);
    &&& forall|i: int|
        0 <= i < marks.styles.len() ==> {
            &&& (#[trigger] marks.styles[i]).start < bytes.len() ==> is_char_boundary(
                bytes,
                marks.styles[i].start as int,
            )
            &&& marks.styles[i].end < bytes.len() ==> is_char_boundary(
                bytes,
                marks.styles[i].end as int,
            )
        }
    &&& marks.selection matches Some(selection) ==> {
        &&& selection.start < bytes.len() ==> is_char_boundary(bytes, selection.start as int)
        &&& selection.end < bytes.len() ==> is_char_boundary(bytes, selection.end as int)
    }
}

proof fn lemma_no_cut_between(line: Seq<char>, marks: LineMarks, from: int, at: int)
    requires
        from < at < next_cut(line, marks, from),
        from < encode_utf8(line).len(),
    ensures
        !is_cut(line, marks, at),
    decreases at - from,
{
    lemma_next_cut(line, marks, from);
    if at > from + 1 {
        lemma_no_cut_between(line, marks, from + 1, at);
    }
}

proof fn lemma_same_style(
    line: Seq<char>,
    marks: LineMarks,
    start: int,
    at: int,
    from: int,
)
    requires
        0 <= start <= at < next_cut(line, marks, start),
        start < encode_utf8(line).len(),
        0 <= from <= marks.styles.len(),
        marks_fit(line, marks),
    ensures
        style_over(marks.styles, at, from) == style_over(marks.styles, start, from),
    decreases marks.styles.len() - from,
{
    if from < marks.styles.len() {
        lemma_next_cut(line, marks, start);
        let total = encode_utf8(line).len() as int;
        let span = marks.styles[from];
        if start < span.start <= at {
            lemma_no_cut_between(line, marks, start, span.start as int);
            assert(least(marks.styles[from].start, total) == span.start);
            assert(marks_cut(marks, total, span.start as int));
        }
        if start < span.end <= at {
            lemma_no_cut_between(line, marks, start, span.end as int);
            assert(least(marks.styles[from].end, total) == span.end);
            assert(marks_cut(marks, total, span.end as int));
        }
        lemma_same_style(line, marks, start, at, from + 1);
    }
}

/// A piece has the style of a byte, and is selected exactly when the byte is.
pub open spec fn is_drawn_as(run: RunView, marks: LineMarks, at: int) -> bool {
    &&& run->style == style_over(marks.styles, at, 0)
    &&& run->selected <==> (marks.selection matches Some(selection) && selection.start <= at
        < selection.end)
}

/// A run of a drawn line, from one byte of it to another: the caret, which takes no
/// room and stands where it is; or a piece, every byte of which has the style and
/// the selection that it is drawn with.
pub open spec fn is_run_at(
    run: RunView,
    line: Seq<char>,
    marks: LineMarks,
    from: int,
    to: int,
) -> bool {
    &&& 0 <= from <= to <= encode_utf8(line).len()
    &&& run is Caret ==> from == to && marks.caret == Some(from as usize)
    &&& run is Piece ==> {
        &&& from < to
        &&& encode_utf8(run->text) == encode_utf8(line).subrange(from, to)
        &&& forall|at: int| from <= at < to ==> #[trigger] is_drawn_as(run, marks, at)
    }
}

/// Every character of a line is drawn in its own style, and as selected exactly
/// when it is.
pub proof fn each_character_is_drawn_in_its_style(line: Seq<char>, marks: LineMarks) -> (places:
    Seq<int>)
    requires
        encode_utf8(line).len() <= usize::MAX,
        marks_fit(line, marks),
    ensures
        ({
            let runs = runs_from(line, marks, 0);
            &&& places.len() == runs.len() + 1
            &&& places[0] == 0
            &&& places.last() == encode_utf8(line).len()
            &&& forall|k: int|
                #![trigger runs[k]]
                0 <= k < runs.len() ==> is_run_at(runs[k], line, marks, places[k], places[k + 1])
        }),
{
    encode_utf8_valid_utf8(line);
    is_char_boundary_start_end_of_seq(encode_utf8(line));
    lemma_run_places(line, marks, 0)
}

proof fn lemma_run_places(line: Seq<char>, marks: LineMarks, start: int) -> (places: Seq<int>)
    requires
        0 <= start <= encode_utf8(line).len() <= usize::MAX,
        is_char_boundary(encode_utf8(line), start),
        marks_fit(line, marks),
    ensures
        places.len() == runs_from(line, marks, start).len() + 1,
        places[0] == start,
        places.last() == encode_utf8(line).len(),
        forall|k: int|
            #![trigger runs_from(line, marks, start)[k]]
            0 <= k < runs_from(line, marks, start).len() ==> is_run_at(
                runs_from(line, marks, start)[k],
                line,
                marks,
                places[k],
                places[k + 1],
            ),
    decreases encode_utf8(line).len() - start,
{
    let total = encode_utf8(line).len() as int;
    let runs = runs_from(line, marks, start);
    let caret = marks.caret == Some(start as usize);
    if start >= total {
        if caret {
            assert(runs == seq![RunView::Caret]);
            seq![start, start]
        } else {
            assert(runs.len() == 0);
            seq![start]
        }
    } else {
        encode_utf8_valid_utf8(line);
        is_char_boundary_start_end_of_seq(encode_utf8(line));
        lemma_next_cut(line, marks, start);
        let end = next_cut(line, marks, start);
        let rest = lemma_run_places(line, marks, end);
        let more = runs_from(line, marks, end);
        lemma_piece_bytes(line, start, end);
        let run = RunView::Piece {
            text: piece(line, start, end),
            style: style_over(marks.styles, start, 0),
            selected: selects(marks.selection, start),
        };
        assert(is_run_at(run, line, marks, start, end)) by {
            assert forall|at: int| start <= at < end implies #[trigger] is_drawn_as(
                run,
                marks,
                at,
            ) by {
                lemma_same_style(line, marks, start, at, 0);
                if let Some(selection) = marks.selection {
                    if start < selection.start <= at {
                        lemma_no_cut_between(line, marks, start, selection.start as int);
                        assert(least(selection.start, total) == selection.start);
                    }
                    if start < selection.end <= at {
                        lemma_no_cut_between(line, marks, start, selection.end as int);
                        assert(least(selection.end, total) == selection.end);
                    }
                }
            }
        }
        let here = if caret {
            seq![RunView::Caret]
        } else {
            Seq::<RunView>::empty()
        };
        let first = if caret {
            seq![start, start]
        } else {
            seq![start]
        };
        let places = first + rest;
        let n = here.len() as int;
        assert(runs == here + seq![run] + more);
        assert forall|k: int| #![trigger runs[k]] 0 <= k < runs.len() implies is_run_at(
            runs[k],
            line,
            marks,
            places[k],
            places[k + 1],
        ) by {
            if k < n {
                assert(runs[k] == RunView::Caret);
            } else if k == n {
                assert(runs[k] == run);
                assert(places[k + 1] == rest[0]);
            } else {
                assert(runs[k] == more[k - n - 1]);
                assert(places[k] == rest[k - n - 1]);
                assert(places[k + 1] == rest[k - n]);
            }
        }
        assert(places.last() == rest.last());
        places
    }
}

/// A line starts where the text before it and its line break end.
pub proof fn a_line_starts_after_the_one_above(lines: Seq<String>, i: int)
    requires
        0 <= i < lines.len(),
    ensures
        i == 0 ==> line_start(lines, i) == 0,
        i > 0 ==> line_start(lines, i) == encode_utf8(joined(texts(lines.take(i)))).len() + 1,
    decreases i,
{
    if i > 0 {
        a_line_starts_after_the_one_above(lines, i - 1);
        let line = lines[i - 1]@;
        let one = seq![line];
        let above = texts(lines.take(i - 1));
        assert(texts(lines.take(i)) == above + one);
        assert(joined(one) == line);
        if i > 1 {
            lines_are_joined_by_line_breaks(above, one);
            let text = joined(above);
            assert(text.push('\n') + line == text + seq!['\n'] + line);
            lemma_bytes_concat(text + seq!['\n'], line);
            lemma_bytes_concat(text, seq!['\n']);
            lemma_line_break_is_a_byte();
        } else {
            assert(above + one == one);
        }
    }
}

proof fn lemma_line_break_is_a_byte()
    ensures
        encode_utf8(seq!['\n']).len() == 1,
{
    let text = seq!['\n'];
    reveal_with_fuel(encode_utf8, 2);
    assert(text.drop_first() == Seq::<char>::empty());
}

/// The caret is drawn in the line that holds it, as far in as it stands, and in no
/// field that does not show it.
pub proof fn the_caret_is_drawn_in_its_line(
    lines: Seq<String>,
    i: int,
    cursor: usize,
    shows_caret: bool,
)
    requires
        0 <= i < lines.len(),
        line_start(lines, lines.len() as int) <= usize::MAX,
    ensures
        ({
            let span = span_of(lines, i, cursor, shows_caret);
            &&& span.start == line_start(lines, i)
            &&& span.end == line_start(lines, i) + encode_utf8(lines[i]@).len()
            &&& span.caret is Some <==> shows_caret && span.start <= cursor <= span.end
            &&& span.caret is Some ==> span.start + span.caret->0 == cursor
        }),
{
    lemma_line_start_nonnegative(lines, i);
    lemma_line_start_grows(lines, i, lines.len() as int);
}

proof fn lemma_line_start_nonnegative(lines: Seq<String>, i: int)
    ensures
        line_start(lines, i) >= 0,
    decreases i,
{
    if i > 0 {
        lemma_line_start_nonnegative(lines, i - 1);
    }
}

/// On one line a line break is drawn as a space, and every other character as it
/// is.
pub proof fn a_line_break_is_drawn_as_a_space(text: Seq<char>, i: int)
    requires
        0 <= i < text.len(),
    ensures
        spaced(text).len() == text.len(),
        spaced(text)[i] == (if text[i] as int == 10 || text[i] as int == 13 {
            ' '
        } else {
            text[i]
        }),
{
}

/// A field shows at least one line, and all that it has unless it is capped at
/// eight.
pub proof fn a_field_shows_its_lines(count: nat)
    ensures
        lines_shown(0, FieldHeight::Capped) == 1,
        lines_shown(0, FieldHeight::Full) == 1,
        count > 0 ==> lines_shown(count, FieldHeight::Full) == count,
        1 <= count <= 8 ==> lines_shown(count, FieldHeight::Capped) == count,
        count > 8 ==> lines_shown(count, FieldHeight::Capped) == 8,
{
}

/// The widest line is one of the lines, and none is wider.
pub proof fn no_line_is_wider_than_the_widest(lines: Seq<String>)
    ensures
        forall|i: int| 0 <= i < lines.len() ==> (#[trigger] lines[i])@.len() <= widest_of(lines),
        lines.len() > 0 ==> exists|i: int|
            0 <= i < lines.len() && (#[trigger] lines[i])@.len() == widest_of(lines),
        lines.len() == 0 ==> widest_of(lines) == 0,
    decreases lines.len(),
{
    if lines.len() > 0 {
        let fewer = lines.drop_last();
        no_line_is_wider_than_the_widest(fewer);
        assert(lines[lines.len() - 1] == lines.last());
        assert forall|i: int| 0 <= i < lines.len() implies (#[trigger] lines[i])@.len()
            <= widest_of(lines) by {
            if i < fewer.len() {
                assert(fewer[i] == lines[i]);
            }
        }
        if lines.last()@.len() <= widest_of(fewer) && fewer.len() > 0 {
            let i = choose|i: int|
                0 <= i < fewer.len() && (#[trigger] fewer[i])@.len() == widest_of(fewer);
            assert(lines[i] == fewer[i]);
        }
    }
}

/// A field is there to type into while what it belongs to is.
pub proof fn a_field_is_there_with_its_surface(inputs: Inputs, index: usize)
    ensures
        is_there(inputs, InputTarget::WhereDraft) <==> inputs.is_table,
        is_there(inputs, InputTarget::PageSize) <==> inputs.is_table,
        is_there(inputs, InputTarget::DetailSearch) <==> inputs.draft_fields is Some,
        is_there(inputs, InputTarget::DetailField(index)) <==> inputs.draft_fields is Some && index
            < inputs.draft_fields->0,
        is_there(inputs, InputTarget::PaletteQuery) <==> inputs.palette_open,
{
}

/// What is focused is the field that was asked for.
pub proof fn the_field_asked_for_has_the_keyboard(state: FocusState, index: usize)
    ensures
        focused_on(state, InputTarget::WhereDraft).focus is Filter && focused_on(
            state,
            InputTarget::WhereDraft,
        ).filter_focus == Some(FilterFocus::Where),
        focused_on(state, InputTarget::DetailSearch).focus is Detail && focused_on(
            state,
            InputTarget::DetailSearch,
        ).detail_input == Some(DetailInput::Search),
        focused_on(state, InputTarget::DetailField(index)).focus is Detail && focused_on(
            state,
            InputTarget::DetailField(index),
        ).detail_input == Some(DetailInput::Field(index)),
        focused_on(state, InputTarget::PageSize).focus is PageSize && focused_on(
            state,
            InputTarget::PageSize,
        ).page_size_focus,
        focused_on(state, InputTarget::PaletteQuery).focus == state.focus,
{
}

/// A one-line field shows its placeholder only while it is empty and nobody types
/// in it. It is drawn whole; a caret or a highlight splits it where it stands.
pub proof fn a_single_line_is_drawn_whole(
    drawn: SingleLine,
    text: Seq<char>,
    selection: Range<usize>,
    cursor: usize,
    focused: bool,
    placeholder: Option<Seq<char>>,
)
    requires
        encode_utf8(text).len() <= usize::MAX,
        selection.start <= selection.end <= encode_utf8(text).len(),
        cursor <= encode_utf8(text).len(),
        is_char_boundary(encode_utf8(text), selection.start as int),
        is_char_boundary(encode_utf8(text), selection.end as int),
        is_char_boundary(encode_utf8(text), cursor as int),
        single_line_is(drawn, text, selection, cursor, focused, placeholder),
    ensures
        drawn is Placeholder <==> text.len() == 0 && !focused && placeholder is Some,
        drawn is Placeholder ==> drawn->Placeholder_0@ == placeholder->0,
        drawn is Plain ==> drawn->Plain_0@ == spaced(text) && !focused,
        drawn is Caret ==> focused && selection.start == selection.end && encode_utf8(
            drawn->Caret_before@,
        ) == encode_utf8(spaced(text)).take(cursor as int) && encode_utf8(drawn->Caret_after@)
            == encode_utf8(spaced(text)).skip(cursor as int),
        drawn is Selected ==> selection.start < selection.end && encode_utf8(
            drawn->Selected_before@,
        ) == encode_utf8(spaced(text)).take(selection.start as int) && encode_utf8(
            drawn->selected@,
        ) == encode_utf8(spaced(text)).subrange(selection.start as int, selection.end as int)
            && encode_utf8(drawn->Selected_after@) == encode_utf8(spaced(text)).skip(
            selection.end as int,
        ),
{
    let line = spaced(text);
    let bytes = encode_utf8(line);
    spacing_keeps_the_offsets(text, selection.start as int);
    spacing_keeps_the_offsets(text, selection.end as int);
    spacing_keeps_the_offsets(text, cursor as int);
    encode_utf8_valid_utf8(line);
    is_char_boundary_start_end_of_seq(bytes);
    let total = bytes.len() as int;
    lemma_piece_bytes(line, 0, selection.start as int);
    lemma_piece_bytes(line, selection.start as int, selection.end as int);
    lemma_piece_bytes(line, selection.end as int, total);
    lemma_piece_bytes(line, 0, cursor as int);
    lemma_piece_bytes(line, cursor as int, total);
}

/// The palette's query has a frame of its own, taller and without a border. A field
/// is lit while it has the keyboard, and the scroll of a detail field is its own.
pub proof fn a_field_is_framed_as_it_is(
    field: SingleLineField,
    input: FieldInput,
    target: InputTarget,
    focused: bool,
    placeholder: Option<Seq<char>>,
)
    requires
        single_field_is(field, input, target, focused, placeholder),
    ensures
        field.borderless <==> target is PaletteQuery,
        field.height == (if target is PaletteQuery {
            36int
        } else {
            28
        }),
        field.frame.lit == focused,
        field.frame.scroll_index is Some <==> target is DetailField,
        target matches InputTarget::DetailField(index) ==> field.frame.scroll_index == Some(index),
{
}

/// A field of several lines draws each of them, in order; its placeholder stands in
/// only while it is empty and nobody types in it.
pub proof fn every_line_of_a_field_is_drawn(
    drawn: Multiline,
    lines: Seq<String>,
    paint: Seq<LinePaint>,
    cursor: usize,
    focused: bool,
    has_selection: bool,
    empty: bool,
    placeholder: Option<Seq<char>>,
    i: int,
)
    requires
        multiline_is(
            drawn,
            lines,
            paint,
            cursor,
            focused,
            has_selection,
            empty,
            placeholder,
        ),
        0 <= i < lines.len(),
    ensures
        drawn is Placeholder <==> empty && !focused && placeholder is Some,
        drawn is Placeholder ==> drawn->Placeholder_0@ == placeholder->0,
        drawn matches Multiline::Lines { widest, rows } ==> rows@.len() == lines.len() && widest
            == widest_of(lines) && run_views(rows@[i]@) == runs_from(
            lines[i]@,
            (LineMarks {
                styles: paint[i].styles@,
                selection: paint[i].selection,
                caret: span_of(lines, i, cursor, focused && !has_selection).caret,
            }),
            0,
        ),
{
    if let Multiline::Lines { widest, rows } = drawn {
        assert(run_views(rows@[i]@) == runs_from(
            lines[i]@,
            with_caret(
                paint[i],
                span_of(lines, i, cursor, focused && !has_selection).caret,
            ),
            0,
        ));
    }
}

/// No two kinds of field scroll together: each has an id of its own.
pub proof fn fields_scroll_apart(
    a: FieldFrame,
    b: FieldFrame,
    target: InputTarget,
    other: InputTarget,
    focused: bool,
)
    requires
        frame_is(a, target, focused),
        frame_is(b, other, focused),
    ensures
        a.scroll_id@ == b.scroll_id@ && a.scroll_index == b.scroll_index ==> target == other,
        target is WhereDraft ==> a.scroll_id@ == seq!['w', 'h', 'e', 'r', 'e', '-', 's', 'c', 'r', 'o', 'l', 'l'],
        target is DetailSearch ==> a.scroll_id@ == seq!['d', 'e', 't', 'a', 'i', 'l', '-', 's', 'e', 'a', 'r', 'c', 'h', '-', 's', 'c', 'r', 'o', 'l', 'l'],
        target is PageSize ==> a.scroll_id@ == seq!['p', 'a', 'g', 'e', '-', 's', 'i', 'z', 'e', '-', 's', 'c', 'r', 'o', 'l', 'l'],
        target is PaletteQuery ==> a.scroll_id@ == seq!['p', 'a', 'l', 'e', 't', 't', 'e', '-', 'q', 'u', 'e', 'r', 'y', '-', 's', 'c', 'r', 'o', 'l', 'l'],
        target is DetailField ==> a.scroll_id@ == seq!['d', 'e', 't', 'a', 'i', 'l', '-', 'f', 'i', 'e', 'l', 'd', '-', 's', 'c', 'r', 'o', 'l', 'l'],
{
    reveal_strlit("where-scroll");
    reveal_strlit("detail-search-scroll");
    reveal_strlit("page-size-scroll");
    reveal_strlit("palette-query-scroll");
    reveal_strlit("detail-field-scroll");
    assert("where-scroll"@ == seq!['w', 'h', 'e', 'r', 'e', '-', 's', 'c', 'r', 'o', 'l', 'l']);
    assert("detail-search-scroll"@ == seq!['d', 'e', 't', 'a', 'i', 'l', '-', 's', 'e', 'a', 'r', 'c', 'h', '-', 's', 'c', 'r', 'o', 'l', 'l']);
    assert("page-size-scroll"@ == seq!['p', 'a', 'g', 'e', '-', 's', 'i', 'z', 'e', '-', 's', 'c', 'r', 'o', 'l', 'l']);
    assert("palette-query-scroll"@ == seq!['p', 'a', 'l', 'e', 't', 't', 'e', '-', 'q', 'u', 'e', 'r', 'y', '-', 's', 'c', 'r', 'o', 'l', 'l']);
    assert("detail-field-scroll"@ == seq!['d', 'e', 't', 'a', 'i', 'l', '-', 'f', 'i', 'e', 'l', 'd', '-', 's', 'c', 'r', 'o', 'l', 'l']);
    assert("where-scroll"@.len() == 12 && "detail-search-scroll"@.len() == 20);
    assert("page-size-scroll"@.len() == 16 && "palette-query-scroll"@.len() == 20);
    assert("detail-field-scroll"@.len() == 19);
    assert("detail-search-scroll"@[0] == 'd' && "palette-query-scroll"@[0] == 'p');
}

} // verus!
