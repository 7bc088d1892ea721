//! Right-hand detail panel for the selected row.
use crate::clock::{now_utc, reading_seconds, utc_text};
use crate::context_menu::RowFormat;
use crate::domain::Tone;
use crate::text::{
    a_text_is_its_lines, ascii_lowercase, contains, contains_char, decimal, lemma_places_step,
    lines_of, listed, lowercase, occurs, occurs_at, opt, places_where, push_decimal, split_lines,
    texts, to_ascii_lowercase, to_lowercase, toggle, toggled,
};
use crate::text_field::{
    lines_shown, render_highlighted_line, run_views, runs_from, visible_lines, DetailInput,
    FieldHeight, LineMarks, Run, RunView, StyledSpan, MAX_VISIBLE_LINES,
};
use vstd::prelude::*;
use vstd::string::*;
use vstd::utf8::{encode_utf8, is_char_boundary};

verus! {

/// Whether a type's name is that of a date or a time.
pub open spec fn temporal(column_type: Seq<char>) -> bool {
    let lower = ascii_lowercase(column_type);
    occurs(lower, "timestamp"@) || occurs(lower, "datetime"@) || occurs(lower, "date"@) || occurs(
        lower,
        "time"@,
    )
}

/// Whether the engine's name for a column is a date or a time.
///
/// Read off the type rather than the value: a `timestamptz` that happens to be
/// NULL in this row is still a timestamp column, and the field has to offer
/// the same thing either way.
pub fn is_temporal_type(column_type: &str) -> (is: bool)
    ensures
        is == temporal(column_type@),
{
    let lower = to_ascii_lowercase(column_type);
    contains(lower.as_str(), "timestamp") || contains(lower.as_str(), "datetime") || contains(
        lower.as_str(),
        "date",
    ) || contains(lower.as_str(), "time")
}

pub open spec fn height_of(name: Seq<char>, collapsed: Seq<Seq<char>>) -> FieldHeight {
    if collapsed.contains(name) {
        FieldHeight::Capped
    } else {
        FieldHeight::Full
    }
}

/// How tall to draw one field: all of it, unless it has been folded down.
pub fn field_height(name: &str, collapsed: &Vec<String>) -> (height: FieldHeight)
    ensures
        height == height_of(name@, texts(collapsed@)),
{
    if listed(collapsed, name) {
        FieldHeight::Capped
    } else {
        FieldHeight::Full
    }
}

/// Fold a field down, or open it up again.
pub fn toggle_detail_collapsed(collapsed: &mut Vec<String>, name: &str)
    ensures
        texts(final(collapsed)@) == toggled(texts(old(collapsed)@), name@),
{
    toggle(collapsed, name);
}

/// Folding a field changes how tall it is and says nothing about the next.
pub proof fn folding_one_field_leaves_the_rest(
    collapsed: Seq<Seq<char>>,
    name: Seq<char>,
    other: Seq<char>,
)
    ensures
        height_of(name, toggled(collapsed, name)) != height_of(name, collapsed),
        other != name ==> height_of(other, toggled(collapsed, name)) == height_of(other, collapsed),
{
    crate::text::toggling_flips_one(collapsed, name, other);
}

pub open spec fn folds(lines: nat, display: Seq<char>, read_only: bool) -> bool {
    (if read_only {
        lines_of(display).len()
    } else {
        lines
    }) > MAX_VISIBLE_LINES
}

/// Whether a field is long enough for folding to change anything.
///
/// A value that fits inside the cap gets no toggle: a control that does
/// nothing is worse than no control, and most columns in a row are one line.
///
/// A read-only field is measured by what it paints: a one-line JSON blob that
/// pretty-prints to thirty is thirty lines on screen, whatever its buffer says.
pub fn foldable(lines: usize, display: &str, read_only: bool) -> (folds: bool)
    ensures
        folds == self::folds(lines as nat, display@, read_only),
{
    if read_only {
        let count = split_lines(display);
        assert(count@.len() == texts(count@).len());
        count.len() > MAX_VISIBLE_LINES
    } else {
        lines > MAX_VISIBLE_LINES
    }
}

/// A field that can be folded is drawn shorter for it, and one that cannot is
/// drawn the same either way.
pub proof fn folding_shortens_what_it_can(lines: nat)
    ensures
        lines > MAX_VISIBLE_LINES ==> lines_shown(lines, FieldHeight::Capped) < lines_shown(
            lines,
            FieldHeight::Full,
        ),
        lines <= MAX_VISIBLE_LINES ==> lines_shown(lines, FieldHeight::Capped) == lines_shown(
            lines,
            FieldHeight::Full,
        ),
{
}

/// What kind of value a field holds on the server.
#[derive(Debug, Clone, Copy, PartialEq, Eq, Structural)]
pub enum ValueClass {
    Text,
    Json,
    Uuid,
    Temporal,
    Decimal,
    Null,
    Default,
    Other,
}

/// Whether an empty string is something that a field of that kind can be told to
/// hold.
pub open spec fn takes_empty(value: ValueClass) -> bool {
    value != ValueClass::Other
}

pub fn allows_empty_token(value: ValueClass) -> (allows: bool)
    ensures
        allows == takes_empty(value),
{
    match value {
        ValueClass::Text
        | ValueClass::Json
        | ValueClass::Uuid
        | ValueClass::Temporal
        | ValueClass::Decimal
        | ValueClass::Null
        | ValueClass::Default => true,
        ValueClass::Other => false,
    }
}

/// What the write-token dropdown offers for one field.
#[derive(Debug, Clone, Copy, PartialEq, Eq, Structural)]
pub struct TokenMenu {
    pub open: bool,
    pub allow_empty: bool,
    /// A bulk edit gets a `MIXED` entry: the way back out of having typed over
    /// a field you meant to leave alone.
    pub bulk: bool,
    /// A date or timestamp column also gets `now` and `today`, and wears a
    /// calendar instead of a chevron.
    pub temporal: bool,
}

/// A row of the dropdown.
#[derive(Debug)]
pub enum TokenRow {
    /// A time to write: now, or today's date.
    Time { date_only: bool, label: String, hint: String },
    /// Times are values, tokens are not: a rule keeps the two apart.
    Separator,
    Token { token: String, hint: String },
}

/// What a row of the dropdown shows.
pub enum TokenRowView {
    Time { date_only: bool, label: Seq<char>, hint: Seq<char> },
    Separator,
    Token { token: Seq<char>, hint: Seq<char> },
}

impl View for TokenRow {
    type V = TokenRowView;

    open spec fn view(&self) -> TokenRowView {
        match *self {
            TokenRow::Time { date_only, label, hint } => TokenRowView::Time {
                date_only,
                label: label@,
                hint: hint@,
            },
            TokenRow::Separator => TokenRowView::Separator,
            TokenRow::Token { token, hint } => TokenRowView::Token { token: token@, hint: hint@ },
        }
    }
}

/// What each row of the dropdown shows.
pub open spec fn token_views(rows: Seq<TokenRow>) -> Seq<TokenRowView> {
    Seq::new(rows.len(), |i: int| rows[i]@)
}

/// The rows of the dropdown: the times for a date column, then the tokens that
/// the field takes.
pub open spec fn token_rows(menu: TokenMenu) -> Seq<TokenRowView> {
    let times = seq![
        TokenRowView::Time {
            date_only: false,
            label: "now"@,
            hint: "Current timestamp (UTC)"@,
        },
        TokenRowView::Time { date_only: true, label: "today"@, hint: "Today's date (UTC)"@ },
        TokenRowView::Separator,
    ];
    let null = TokenRowView::Token { token: "NULL"@, hint: "SQL NULL"@ };
    let empty = TokenRowView::Token { token: "EMPTY"@, hint: "Empty string"@ };
    let default = TokenRowView::Token { token: "DEFAULT"@, hint: "Column default"@ };
    let mixed = TokenRowView::Token { token: "MIXED"@, hint: "Leave each row's own"@ };
    (if menu.temporal {
        times
    } else {
        Seq::empty()
    }) + seq![null] + (if menu.allow_empty {
        seq![empty]
    } else {
        Seq::empty()
    }) + seq![default] + (if menu.bulk {
        seq![mixed]
    } else {
        Seq::empty()
    })
}

fn push_token(rows: &mut Vec<TokenRow>, token: &str, hint: &str)
    ensures
        token_views(final(rows)@) == token_views(old(rows)@) + seq![
            TokenRowView::Token { token: token@, hint: hint@ },
        ],
{
    rows.push(TokenRow::Token { token: token.to_string(), hint: hint.to_string() });
    assert(token_views(rows@) == token_views(old(rows)@) + seq![
        TokenRowView::Token { token: token@, hint: hint@ },
    ]);
}

pub fn special_value_menu(menu: &TokenMenu) -> (rows: Vec<TokenRow>)
    ensures
        token_views(rows@) == token_rows(*menu),
{
    let mut rows: Vec<TokenRow> = Vec::new();
    if menu.temporal {
        rows.push(
            TokenRow::Time {
                date_only: false,
                label: "now".to_string(),
                hint: "Current timestamp (UTC)".to_string(),
            },
        );
        rows.push(
            TokenRow::Time {
                date_only: true,
                label: "today".to_string(),
                hint: "Today's date (UTC)".to_string(),
            },
        );
        rows.push(TokenRow::Separator);
    }
    assert(token_views(rows@) == (if menu.temporal {
        seq![
            TokenRowView::Time {
                date_only: false,
                label: "now"@,
                hint: "Current timestamp (UTC)"@,
            },
            TokenRowView::Time { date_only: true, label: "today"@, hint: "Today's date (UTC)"@ },
            TokenRowView::Separator,
        ]
    } else {
        Seq::empty()
    }));
    push_token(&mut rows, "NULL", "SQL NULL");
    if menu.allow_empty {
        push_token(&mut rows, "EMPTY", "Empty string");
    }
    push_token(&mut rows, "DEFAULT", "Column default");
    if menu.bulk {
        push_token(&mut rows, "MIXED", "Leave each row's own");
    }
    assert(token_views(rows@) == token_rows(*menu));
    rows
}

/// What picking a time writes into the field: the moment, or its date.
pub fn picked_time(date_only: bool) -> (text: String)
    ensures
        exists|reading: Option<u64>|
            text@ == #[trigger] utc_text(reading_seconds(reading), date_only),
{
    now_utc(date_only)
}

/// The button inside a field that opens what can be written to it. It lives in
/// the box, which is what makes a column with a short list of legal values read
/// as a control you pick from, and puts the menu under the value it rewrites.
#[derive(Debug)]
pub struct ValueControl {
    /// The chevron; a date has a calendar in its place.
    pub chevron: Option<String>,
    pub tone: Tone,
    /// The dropdown, while it is open.
    pub menu: Option<Vec<TokenRow>>,
}

pub fn value_field(menu: &TokenMenu) -> (control: ValueControl)
    ensures
        opt(control.chevron) == (if menu.temporal {
            None
        } else {
            Some("⌄"@)
        }),
        control.tone == (if menu.open {
            Tone::Text
        } else {
            Tone::Faint
        }),
        control.menu is Some <==> menu.open,
        control.menu matches Some(rows) ==> token_views(rows@) == token_rows(*menu),
{
    ValueControl {
        chevron: if menu.temporal {
            None
        } else {
            Some("⌄".to_string())
        },
        tone: if menu.open {
            Tone::Text
        } else {
            Tone::Faint
        },
        menu: if menu.open {
            Some(special_value_menu(menu))
        } else {
            None
        },
    }
}

/// A glyph or a short label, and what it is drawn in.
#[derive(Debug)]
pub struct Mark {
    pub label: String,
    pub tone: Tone,
}

pub open spec fn mark_view(mark: Option<Mark>) -> Option<(Seq<char>, Tone)> {
    match mark {
        Some(mark) => Some((mark.label@, mark.tone)),
        None => None,
    }
}

/// The line above one field: its name, and whatever controls it earns.
#[derive(Debug)]
pub struct FieldHeader {
    pub index: usize,
    pub name: String,
    pub label_tone: Tone,
    /// The height toggle, for a field with more lines than a folded box would
    /// hold.
    pub fold: Option<Mark>,
    /// The key has no value menu, so its slot carries the one thing it does
    /// offer.
    pub copy: Option<Mark>,
    /// The engine's name for the column's type, drawn opposite the name.
    pub column_type: Option<String>,
}

/// What the line above a field shows.
pub struct FieldHeaderView {
    pub index: int,
    pub name: Seq<char>,
    pub label_tone: Tone,
    pub fold: Option<(Seq<char>, Tone)>,
    pub copy: Option<(Seq<char>, Tone)>,
    pub column_type: Option<Seq<char>>,
}

impl View for FieldHeader {
    type V = FieldHeaderView;

    open spec fn view(&self) -> FieldHeaderView {
        FieldHeaderView {
            index: self.index as int,
            name: self.name@,
            label_tone: self.label_tone,
            fold: mark_view(self.fold),
            copy: mark_view(self.copy),
            column_type: opt(self.column_type),
        }
    }
}

pub open spec fn header_view(
    index: int,
    name: Seq<char>,
    is_pk: bool,
    column_type: Option<Seq<char>>,
    fold: Option<FieldHeight>,
    just_copied: bool,
) -> FieldHeaderView {
    FieldHeaderView {
        index,
        name,
        label_tone: if is_pk {
            Tone::Warning
        } else {
            Tone::Muted
        },
        fold: match fold {
            Some(FieldHeight::Full) => Some(("⤡"@, Tone::Text)),
            Some(FieldHeight::Capped) => Some(("⤢"@, Tone::Faint)),
            None => None,
        },
        copy: if !is_pk {
            None
        } else if just_copied {
            Some(("✓ Copied"@, Tone::Success))
        } else {
            Some(("⧉"@, Tone::Faint))
        },
        column_type: match column_type {
            Some(column_type) => Some(lowercase(column_type)),
            None => None,
        },
    }
}

pub fn field_header(
    index: usize,
    name: &str,
    is_pk: bool,
    column_type: &Option<String>,
    fold: Option<FieldHeight>,
    just_copied: bool,
) -> (header: FieldHeader)
    ensures
        header@ == header_view(index as int, name@, is_pk, opt(*column_type), fold, just_copied),
{
    FieldHeader {
        index,
        name: name.to_string(),
        label_tone: if is_pk {
            Tone::Warning
        } else {
            Tone::Muted
        },
        fold: match fold {
            Some(FieldHeight::Full) => Some(Mark { label: "⤡".to_string(), tone: Tone::Text }),
            Some(FieldHeight::Capped) => Some(
                Mark { label: "⤢".to_string(), tone: Tone::Faint },
            ),
            None => None,
        },
        copy: if !is_pk {
            None
        } else if just_copied {
            Some(Mark { label: "✓ Copied".to_string(), tone: Tone::Success })
        } else {
            Some(Mark { label: "⧉".to_string(), tone: Tone::Faint })
        },
        column_type: match column_type {
            Some(column_type) => Some(to_lowercase(column_type.as_str())),
            None => None,
        },
    }
}

/// Every style of a line begins and ends between two characters, or past the
/// line's end.
pub open spec fn styles_fit(line: Seq<char>, styles: Seq<StyledSpan>) -> bool {
    let bytes = encode_utf8(line);
    forall|i: int|
        0 <= i < styles.len() ==> {
            &&& (#[trigger] styles[i]).start < bytes.len() ==> is_char_boundary(
                bytes,
                styles[i].start as int,
            )
            &&& styles[i].end < bytes.len() ==> is_char_boundary(bytes, styles[i].end as int)
        }
}

/// The runs of a line that is drawn and not typed into; an empty one holds its
/// height with a space.
pub open spec fn chunks(line: Seq<char>, styles: Seq<StyledSpan>) -> Seq<RunView> {
    if line.len() == 0 {
        seq![RunView::Piece { text: " "@, style: None, selected: false }]
    } else {
        runs_from(line, LineMarks { styles, selection: None, caret: None }, 0)
    }
}

pub fn read_only_line_chunks(line: &str, styles: &Vec<StyledSpan>) -> (runs: Vec<Run>)
    requires
        styles_fit(line@, styles@),
    ensures
        run_views(runs@) == chunks(line@, styles@),
{
    if line.is_empty() {
        let mut runs: Vec<Run> = Vec::new();
        runs.push(Run::Piece { text: " ".to_string(), style: None, selected: false });
        assert(run_views(runs@) == chunks(line@, styles@));
        return runs;
    }
    render_highlighted_line(line, styles, &None, None)
}

/// A value drawn rather than edited: today, the primary key.
///
/// It is still clickable, and clicking copies it. A read-only box takes no
/// caret, so selecting the text by hand is not on offer; without this the
/// key would be the one value on the row that cannot be taken anywhere.
#[derive(Debug)]
pub enum ReadOnlyField {
    Line(String),
    Lines(Vec<Vec<Run>>),
}

/// What a value drawn rather than edited shows.
pub enum ReadOnlyView {
    Line(Seq<char>),
    Lines(Seq<Seq<RunView>>),
}

/// The runs of each of some lines.
pub open spec fn rows_view(rows: Seq<Vec<Run>>) -> Seq<Seq<RunView>> {
    Seq::new(rows.len(), |i: int| run_views(rows[i]@))
}

impl View for ReadOnlyField {
    type V = ReadOnlyView;

    open spec fn view(&self) -> ReadOnlyView {
        match *self {
            ReadOnlyField::Line(text) => ReadOnlyView::Line(text@),
            ReadOnlyField::Lines(rows) => ReadOnlyView::Lines(rows_view(rows@)),
        }
    }
}

/// The styles of the lines fit them, as far as there are any.
pub open spec fn all_fit(lines: Seq<Seq<char>>, styles: Seq<Vec<StyledSpan>>) -> bool {
    forall|i: int|
        0 <= i < lines.len() && i < styles.len() ==> styles_fit(
            lines[i],
            (#[trigger] styles[i])@,
        )
}

/// The styles of a line, where it has any.
pub open spec fn styles_at(styles: Seq<Vec<StyledSpan>>, i: int) -> Seq<StyledSpan> {
    if i < styles.len() {
        styles[i]@
    } else {
        Seq::empty()
    }
}

/// A value drawn rather than edited: on one line where it is one, else as many
/// of its lines as its height shows.
pub open spec fn read_only_view(
    display: Seq<char>,
    styles: Seq<Vec<StyledSpan>>,
    height: FieldHeight,
) -> ReadOnlyView {
    if !display.contains('\n') && !display.contains('\r') {
        ReadOnlyView::Line(display)
    } else {
        let lines = lines_of(display);
        ReadOnlyView::Lines(
            Seq::new(
                lines_shown(lines.len(), height),
                |i: int| chunks(lines[i], styles_at(styles, i)),
            ),
        )
    }
}

/// `display` is what the value is shown as, and `styles` how each line of that
/// is coloured, as far as it is.
pub fn read_only_field(
    display: &str,
    styles: &Vec<Vec<StyledSpan>>,
    height: FieldHeight,
) -> (field: ReadOnlyField)
    requires
        all_fit(lines_of(display@), styles@),
    ensures
        field@ == read_only_view(display@, styles@, height),
{
    if !contains_char(display, '\n') && !contains_char(display, '\r') {
        return ReadOnlyField::Line(display.to_string());
    }
    let lines = split_lines(display);
    assert(lines@.len() == texts(lines@).len());
    proof {
        a_text_is_its_lines(display@);
    }
    let visible: usize = visible_lines(lines.len(), height);
    let plain: Vec<StyledSpan> = Vec::new();
    let mut rows: Vec<Vec<Run>> = Vec::new();
    let mut i: usize = 0;
    while i < visible
        invariant
            texts(lines@) == lines_of(display@),
            lines@.len() == texts(lines@).len(),
            all_fit(lines_of(display@), styles@),
            plain@ == Seq::<StyledSpan>::empty(),
            i <= visible <= lines@.len(),
            rows_view(rows@) == Seq::new(
                i as nat,
                |k: int| chunks(lines_of(display@)[k], styles_at(styles@, k)),
            ),
        decreases visible - i,
    {
        assert(lines@[i as int]@ == texts(lines@)[i as int]);
        let ghost before = rows@;
        let row = if i < styles.len() {
            assert(styles_fit(lines_of(display@)[i as int], styles@[i as int]@));
            read_only_line_chunks(lines[i].as_str(), &styles[i])
        } else {
            read_only_line_chunks(lines[i].as_str(), &plain)
        };
        rows.push(row);
        i += 1;
        assert(rows_view(rows@) == rows_view(before).push(run_views(row@)));
        assert(rows_view(rows@) == Seq::new(
            i as nat,
            |k: int| chunks(lines_of(display@)[k], styles_at(styles@, k)),
        ));
    }
    ReadOnlyField::Lines(rows)
}

/// A field of the row in the panel.
#[derive(Debug)]
pub struct DraftField {
    pub name: String,
    pub is_pk: bool,
    /// How many lines its editor has.
    pub lines: usize,
    /// What its value is shown as where it is not typed into.
    pub display: String,
    /// How each line of that is coloured, as far as it is.
    pub styles: Vec<Vec<StyledSpan>>,
}

/// What a field is for typing or reading.
#[derive(Debug)]
pub enum FieldBody {
    ReadOnly { field: ReadOnlyField, just_copied: bool },
    Editor { focused: bool, height: FieldHeight, menu: Option<TokenMenu> },
}

/// What a field shows.
pub enum FieldBodyView {
    ReadOnly { field: ReadOnlyView, just_copied: bool },
    Editor { focused: bool, height: FieldHeight, menu: Option<TokenMenu> },
}

impl View for FieldBody {
    type V = FieldBodyView;

    open spec fn view(&self) -> FieldBodyView {
        match *self {
            FieldBody::ReadOnly { field, just_copied } => FieldBodyView::ReadOnly {
                field: field@,
                just_copied,
            },
            FieldBody::Editor { focused, height, menu } => FieldBodyView::Editor {
                focused,
                height,
                menu,
            },
        }
    }
}

/// An item of the panel's body.
#[derive(Debug)]
pub enum BodyItem {
    /// Says what writing to the fields is about to do.
    Banner { title: String, text: String },
    /// The field that searches the others, and what it says while it is empty.
    Search { text: String, placeholder: String, focused: bool },
    Field { header: FieldHeader, body: FieldBody },
    Message { text: String, tone: Tone },
}

/// What an item of the panel's body shows.
pub enum BodyItemView {
    Banner { title: Seq<char>, text: Seq<char> },
    Search { text: Seq<char>, placeholder: Seq<char>, focused: bool },
    Field { header: FieldHeaderView, body: FieldBodyView },
    Message { text: Seq<char>, tone: Tone },
}

impl View for BodyItem {
    type V = BodyItemView;

    open spec fn view(&self) -> BodyItemView {
        match *self {
            BodyItem::Banner { title, text } => BodyItemView::Banner { title: title@, text: text@ },
            BodyItem::Search { text, placeholder, focused } => BodyItemView::Search {
                text: text@,
                placeholder: placeholder@,
                focused,
            },
            BodyItem::Field { header, body } => BodyItemView::Field { header: header@, body: body@ },
            BodyItem::Message { text, tone } => BodyItemView::Message { text: text@, tone },
        }
    }
}

/// What each item of the panel's body shows.
pub open spec fn item_views(items: Seq<BodyItem>) -> Seq<BodyItemView> {
    Seq::new(items.len(), |i: int| items[i]@)
}

fn push_item(items: &mut Vec<BodyItem>, item: BodyItem)
    ensures
        item_views(final(items)@) == item_views(old(items)@).push(item@),
{
    items.push(item);
    assert(item_views(items@) == item_views(old(items)@).push(item@));
}

/// The row in the panel, and what of the panel bears on it.
#[derive(Debug)]
pub struct RowDraft {
    pub fields: Vec<DraftField>,
    /// How many rows are edited at once.
    pub row_count: usize,
    /// Whether that is a bulk edit.
    pub bulk: bool,
    pub field_search: String,
    /// What came of the last write, and whether it went well.
    pub message: Option<(bool, String)>,
    /// The kinds of the stored values. They only decide which tokens are on
    /// offer; the values on screen come from the draft.
    pub originals: Vec<ValueClass>,
    pub column_types: Vec<String>,
    /// The field whose dropdown is open.
    pub open_menu: Option<usize>,
    pub detail_input: Option<DetailInput>,
    pub copied: Option<usize>,
    pub collapsed: Vec<String>,
}

impl RowDraft {
    /// The colours of what is drawn and not typed into fit it.
    pub open spec fn wf(&self) -> bool {
        forall|i: int|
            0 <= i < self.fields@.len() ==> all_fit(
                lines_of((#[trigger] self.fields@[i]).display@),
                self.fields@[i].styles@,
            )
    }
}

pub open spec fn type_at(column_types: Seq<String>, index: int) -> Option<Seq<char>> {
    if index < column_types.len() {
        Some(column_types[index]@)
    } else {
        None
    }
}

fn type_of(column_types: &Vec<String>, index: usize) -> (column_type: Option<String>)
    ensures
        opt(column_type) == type_at(column_types@, index as int),
{
    if index < column_types.len() {
        Some(column_types[index].as_str().to_string())
    } else {
        None
    }
}

pub open spec fn fold_of(field: DraftField, read_only: bool, height: FieldHeight) -> Option<
    FieldHeight,
> {
    if folds(field.lines as nat, field.display@, read_only) {
        Some(height)
    } else {
        None
    }
}

/// A field of the draft: a key is drawn and not typed into, the others get an
/// editor and what can be written to them.
pub open spec fn field_item(draft: RowDraft, index: int) -> BodyItemView {
    let field = draft.fields@[index];
    let height = height_of(field.name@, texts(draft.collapsed@));
    let just_copied = draft.copied == Some(index as usize);
    let column_type = type_at(draft.column_types@, index);
    BodyItemView::Field {
        header: header_view(
            index,
            field.name@,
            field.is_pk,
            column_type,
            fold_of(field, field.is_pk, height),
            just_copied,
        ),
        body: if field.is_pk {
            FieldBodyView::ReadOnly {
                field: read_only_view(field.display@, field.styles@, height),
                just_copied,
            }
        } else {
            FieldBodyView::Editor {
                focused: draft.detail_input == Some(DetailInput::Field(index as usize)),
                height,
                menu: Some(
                    TokenMenu {
                        open: draft.open_menu == Some(index as usize),
                        allow_empty: index < draft.originals@.len() ==> takes_empty(
                            draft.originals@[index],
                        ),
                        bulk: draft.bulk,
                        temporal: column_type matches Some(column_type) && temporal(column_type),
                    },
                ),
            }
        },
    }
}

fn is_place(place: Option<usize>, index: usize) -> (here: bool)
    ensures
        here == (place == Some(index)),
{
    match place {
        Some(at) => at == index,
        None => false,
    }
}

fn types_into(input: Option<DetailInput>, index: usize) -> (here: bool)
    ensures
        here == (input == Some(DetailInput::Field(index))),
{
    match input {
        Some(DetailInput::Field(at)) => at == index,
        _ => false,
    }
}

fn render_field(draft: &RowDraft, index: usize) -> (item: BodyItem)
    requires
        draft.wf(),
        index < draft.fields@.len(),
    ensures
        item@ == field_item(*draft, index as int),
{
    let field = &draft.fields[index];
    let height = field_height(field.name.as_str(), &draft.collapsed);
    let just_copied = is_place(draft.copied, index);
    let column_type = type_of(&draft.column_types, index);
    let fold = if foldable(field.lines, field.display.as_str(), field.is_pk) {
        Some(height)
    } else {
        None
    };
    let header = field_header(
        index,
        field.name.as_str(),
        field.is_pk,
        &column_type,
        fold,
        just_copied,
    );
    if field.is_pk {
        return BodyItem::Field {
            header,
            body: FieldBody::ReadOnly {
                field: read_only_field(field.display.as_str(), &field.styles, height),
                just_copied,
            },
        };
    }
    let allow_empty = if index < draft.originals.len() {
        allows_empty_token(draft.originals[index])
    } else {
        true
    };
    let temporal = match &column_type {
        Some(column_type) => is_temporal_type(column_type.as_str()),
        None => false,
    };
    BodyItem::Field {
        header,
        body: FieldBody::Editor {
            focused: types_into(draft.detail_input, index),
            height,
            menu: Some(
                TokenMenu {
                    open: is_place(draft.open_menu, index),
                    allow_empty,
                    bulk: draft.bulk,
                    temporal,
                },
            ),
        },
    }
}

/// Whether a field is among those searched for.
pub open spec fn found(field: DraftField, search: Seq<char>) -> bool {
    occurs(ascii_lowercase(field.name@), ascii_lowercase(search))
}

/// The fields among the first `upto` that are searched for, in order.
pub open spec fn field_items(draft: RowDraft, upto: int) -> Seq<BodyItemView>
    decreases upto,
{
    if upto <= 0 {
        Seq::empty()
    } else if found(draft.fields@[upto - 1], draft.field_search@) {
        field_items(draft, upto - 1).push(field_item(draft, upto - 1))
    } else {
        field_items(draft, upto - 1)
    }
}

/// Says what editing a selection is about to do. The fields alone do not: `MIXED`
/// looks like a value until you are told it means "left alone", and a box
/// showing one shared value gives no hint that typing in it rewrites forty rows.
pub open spec fn bulk_words(rows: nat) -> BodyItemView {
    BodyItemView::Banner {
        title: "Editing "@ + decimal(rows) + " rows"@,
        text: "A field you change is written to all of them. "@
            + "MIXED means they differ — leave it to keep each row's own value."@,
    }
}

pub fn bulk_banner(rows: usize) -> (banner: BodyItem)
    ensures
        banner@ == bulk_words(rows as nat),
{
    let mut title: String = "Editing ".to_string();
    push_decimal(&mut title, rows as u64);
    title.append(" rows");
    let mut text: String = "A field you change is written to all of them. ".to_string();
    text.append("MIXED means they differ — leave it to keep each row's own value.");
    BodyItem::Banner { title, text }
}

/// Says what a row that is not on the server yet comes to.
pub open spec fn insert_words() -> BodyItemView {
    BodyItemView::Banner {
        title: "New row"@,
        text: "Nothing is written until you commit. A field left "@
            + "reading DEFAULT is left out, so the column's own default fires."@,
    }
}

/// The body of the panel. Flat, because the scroll position addresses its
/// children by their place: the banner, the search box, then one per field that
/// is searched for.
pub open spec fn draft_items(draft: RowDraft) -> Seq<BodyItemView> {
    (if draft.bulk {
        seq![bulk_words(draft.row_count as nat)]
    } else {
        Seq::empty()
    }).push(
        BodyItemView::Search {
            text: draft.field_search@,
            placeholder: "Search for field…"@,
            focused: draft.detail_input == Some(DetailInput::Search),
        },
    ) + field_items(draft, draft.fields@.len() as int) + (match draft.message {
        Some((ok, text)) => seq![
            BodyItemView::Message {
                text: text@,
                tone: if ok {
                    Tone::Success
                } else {
                    Tone::Danger
                },
            },
        ],
        None => Seq::empty(),
    })
}

pub fn render_table_draft(draft: &RowDraft) -> (items: Vec<BodyItem>)
    requires
        draft.wf(),
    ensures
        item_views(items@) == draft_items(*draft),
{
    let mut items: Vec<BodyItem> = Vec::new();
    assert(item_views(items@) == Seq::<BodyItemView>::empty());
    if draft.bulk {
        push_item(&mut items, bulk_banner(draft.row_count));
        assert(item_views(items@) == seq![bulk_words(draft.row_count as nat)]);
    }
    let searching = match draft.detail_input {
        Some(DetailInput::Search) => true,
        _ => false,
    };
    push_item(
        &mut items,
        BodyItem::Search {
            text: draft.field_search.as_str().to_string(),
            placeholder: "Search for field…".to_string(),
            focused: searching,
        },
    );
    let search = to_ascii_lowercase(draft.field_search.as_str());
    let ghost head = item_views(items@);
    let mut i: usize = 0;
    assert(head == head + Seq::<BodyItemView>::empty());
    while i < draft.fields.len()
        invariant
            draft.wf(),
            search@ == ascii_lowercase(draft.field_search@),
            i <= draft.fields@.len(),
            item_views(items@) == head + field_items(*draft, i as int),
        decreases draft.fields@.len() - i,
    {
        let name = to_ascii_lowercase(draft.fields[i].name.as_str());
        if contains(name.as_str(), search.as_str()) {
            push_item(&mut items, render_field(draft, i));
        }
        i += 1;
        assert(item_views(items@) == head + field_items(*draft, i as int));
    }
    let ghost so_far = item_views(items@);
    match &draft.message {
        Some((ok, text)) => {
            push_item(
                &mut items,
                BodyItem::Message {
                    text: text.as_str().to_string(),
                    tone: if *ok {
                        Tone::Success
                    } else {
                        Tone::Danger
                    },
                },
            );
        },
        None => {},
    }
    assert(item_views(items@) == draft_items(*draft));
    items
}

proof fn lemma_all_fields(draft: RowDraft, upto: int)
    requires
        draft.field_search@.len() == 0,
        0 <= upto <= draft.fields@.len(),
    ensures
        field_items(draft, upto) == Seq::new(upto as nat, |i: int| field_item(draft, i)),
    decreases upto,
{
    if upto > 0 {
        lemma_all_fields(draft, upto - 1);
        let name = ascii_lowercase(draft.fields@[upto - 1].name@);
        crate::text::the_empty_text_occurs_everywhere(name);
        assert(ascii_lowercase(draft.field_search@) == Seq::<char>::empty());
    }
    assert(field_items(draft, upto) == Seq::new(upto as nat, |i: int| field_item(draft, i)));
}

/// With nothing searched for, every field is in the panel, in its order.
pub proof fn an_empty_search_shows_every_field(draft: RowDraft)
    requires
        draft.field_search@.len() == 0,
    ensures
        field_items(draft, draft.fields@.len() as int) == Seq::new(
            draft.fields@.len(),
            |i: int| field_item(draft, i),
        ),
{
    lemma_all_fields(draft, draft.fields@.len() as int);
}

/// A row that is not on the server yet, and what of the panel bears on it.
#[derive(Debug)]
pub struct InsertDraft {
    pub fields: Vec<DraftField>,
    pub column_types: Vec<String>,
    pub detail_input: Option<DetailInput>,
    pub collapsed: Vec<String>,
}

/// A field of a new row. It has no key to copy: it has no identity until the
/// server gives it one.
pub open spec fn insert_item(insert: InsertDraft, index: int) -> BodyItemView {
    let field = insert.fields@[index];
    let height = height_of(field.name@, texts(insert.collapsed@));
    BodyItemView::Field {
        header: header_view(
            index,
            field.name@,
            false,
            type_at(insert.column_types@, index),
            fold_of(field, false, height),
            false,
        ),
        body: FieldBodyView::Editor {
            focused: insert.detail_input == Some(DetailInput::Field(index as usize)),
            height,
            menu: None,
        },
    }
}

/// The editors for a row that is not on the server yet, under the words that
/// say so.
///
/// Every field starts reading `DEFAULT`, which is not a value but an absence:
/// a column left saying it is left out of the INSERT entirely, so the table's
/// own default, sequence or generated value is what lands.
pub fn render_insert_draft(insert: &InsertDraft) -> (items: Vec<BodyItem>)
    ensures
        item_views(items@) == seq![insert_words()] + Seq::new(
            insert.fields@.len(),
            |i: int| insert_item(*insert, i),
        ),
{
    let mut items: Vec<BodyItem> = Vec::new();
    let mut text: String = "Nothing is written until you commit. A field left ".to_string();
    text.append("reading DEFAULT is left out, so the column's own default fires.");
    push_item(&mut items, BodyItem::Banner { title: "New row".to_string(), text });
    let ghost head = item_views(items@);
    assert(head == seq![insert_words()]);
    let mut i: usize = 0;
    while i < insert.fields.len()
        invariant
            i <= insert.fields@.len(),
            item_views(items@) == head + Seq::new(i as nat, |k: int| insert_item(*insert, k)),
        decreases insert.fields@.len() - i,
    {
        let field = &insert.fields[i];
        let height = field_height(field.name.as_str(), &insert.collapsed);
        let fold = if foldable(field.lines, field.display.as_str(), false) {
            Some(height)
        } else {
            None
        };
        let header = field_header(
            i,
            field.name.as_str(),
            false,
            &type_of(&insert.column_types, i),
            fold,
            false,
        );
        let focused = types_into(insert.detail_input, i);
        push_item(
            &mut items,
            BodyItem::Field { header, body: FieldBody::Editor { focused, height, menu: None } },
        );
        i += 1;
        assert(item_views(items@) == head + Seq::new(i as nat, |k: int| insert_item(*insert, k)));
    }
    items
}

/// What the panel shows.
#[derive(Debug)]
pub enum DetailPanel {
    /// Put away: a rail that opens it.
    Strip { glyph: String },
    Open {
        title: String,
        /// What opens the panel's own menu, lit while that is open.
        menu_glyph: String,
        menu_lit: bool,
        menu: Option<Vec<DetailMenuRow>>,
        body: DetailBody,
    },
}

/// What the panel holds under its title.
#[derive(Debug)]
pub enum DetailBody {
    Items(Vec<BodyItem>),
    /// What stands in for them.
    Caption(String),
}

/// The tab in front, as far as the panel reads it.
#[derive(Debug)]
pub struct DetailTab {
    /// The staged insert that is being edited.
    pub insert: Option<InsertDraft>,
    pub draft: Option<RowDraft>,
    pub selected_row: Option<usize>,
}

/// What the panel holds. A staged insert takes it over: it has no stored row
/// behind it, so the ordinary draft has nothing to reconcile against.
pub open spec fn body_is(body: DetailBody, tab: Option<DetailTab>) -> bool {
    match tab {
        Some(tab) => match (tab.insert, tab.draft) {
            (Some(insert), _) => body matches DetailBody::Items(items) && item_views(items@)
                == seq![insert_words()] + Seq::new(
                insert.fields@.len(),
                |i: int| insert_item(insert, i),
            ),
            (None, Some(draft)) => body matches DetailBody::Items(items) && item_views(items@)
                == draft_items(draft),
            (None, None) => body matches DetailBody::Caption(caption) && caption@ == (
            if tab.selected_row is Some {
                "Loading row…"@
            } else {
                "No row selected."@
            }),
        },
        None => body matches DetailBody::Caption(caption) && caption@ == "No row selected."@,
    }
}

fn panel_body(tab: &Option<DetailTab>) -> (body: DetailBody)
    requires
        tab matches Some(tab) ==> (tab.draft matches Some(draft) ==> draft.wf()),
    ensures
        body_is(body, *tab),
{
    match tab {
        Some(tab) => match (&tab.insert, &tab.draft) {
            (Some(insert), _) => DetailBody::Items(render_insert_draft(insert)),
            (None, Some(draft)) => DetailBody::Items(render_table_draft(draft)),
            (None, None) => if tab.selected_row.is_some() {
                DetailBody::Caption("Loading row…".to_string())
            } else {
                DetailBody::Caption("No row selected.".to_string())
            },
        },
        None => DetailBody::Caption("No row selected.".to_string()),
    }
}

/// What the panel shows: the rail that opens it, or its title, its menu and what
/// it holds.
pub open spec fn panel_is(
    panel: DetailPanel,
    open: bool,
    menu_open: bool,
    tab: Option<DetailTab>,
) -> bool {
    match panel {
        DetailPanel::Strip { glyph } => !open && glyph@ == "◂"@,
        DetailPanel::Open { title, menu_glyph, menu_lit, menu, body } => {
            &&& open
            &&& title@ == "Row details"@
            &&& menu_glyph@ == "⋮"@
            &&& menu_lit == menu_open
            &&& menu is Some <==> menu_open
            &&& menu matches Some(rows) ==> menu_views(rows@) == menu_rows()
            &&& body_is(body, tab)
        },
    }
}

pub fn render_detail_sidebar(open: bool, menu_open: bool, tab: &Option<DetailTab>) -> (panel:
    DetailPanel)
    requires
        tab matches Some(tab) ==> (tab.draft matches Some(draft) ==> draft.wf()),
    ensures
        panel_is(panel, open, menu_open, *tab),
{
    if !open {
        return DetailPanel::Strip { glyph: "◂".to_string() };
    }
    DetailPanel::Open {
        title: "Row details".to_string(),
        menu_glyph: "⋮".to_string(),
        menu_lit: menu_open,
        menu: render_detail_menu(menu_open),
        body: panel_body(tab),
    }
}

/// The strip between the grid and the panel, and whether it is lit. Nothing when
/// the panel is put away: the rail it leaves behind is a button, and has no
/// width to drag.
pub fn render_detail_resize(open: bool, dragging: bool) -> (strip: Option<bool>)
    ensures
        strip == (if open {
            Some(dragging)
        } else {
            None
        }),
{
    if open {
        Some(dragging)
    } else {
        None
    }
}

/// What a row of the panel's own menu does.
#[derive(Debug, Clone, Copy, PartialEq, Eq, Structural)]
pub enum DetailMenuAction {
    Copy(RowFormat),
    Hide,
    /// A rule between rows; it does nothing.
    Separator,
}

/// A row of the panel's own menu.
#[derive(Debug)]
pub struct DetailMenuRow {
    pub label: String,
    pub action: DetailMenuAction,
}

/// What each row of the menu is called and does.
pub open spec fn menu_views(rows: Seq<DetailMenuRow>) -> Seq<(Seq<char>, DetailMenuAction)> {
    Seq::new(rows.len(), |i: int| (rows[i].label@, rows[i].action))
}

/// What the panel's own menu offers: taking the row somewhere else, and putting
/// the panel away.
pub open spec fn menu_rows() -> Seq<(Seq<char>, DetailMenuAction)> {
    seq![
        ("Copy Row as JSON"@, DetailMenuAction::Copy(RowFormat::Json)),
        ("Copy Row as INSERT"@, DetailMenuAction::Copy(RowFormat::Insert)),
        (""@, DetailMenuAction::Separator),
        ("Hide Panel"@, DetailMenuAction::Hide),
    ]
}

/// The panel's `⋮` menu.
pub fn render_detail_menu(open: bool) -> (rows: Option<Vec<DetailMenuRow>>)
    ensures
        rows is Some <==> open,
        rows matches Some(rows) ==> menu_views(rows@) == menu_rows(),
{
    if !open {
        return None;
    }
    let mut rows: Vec<DetailMenuRow> = Vec::new();
    rows.push(
        DetailMenuRow {
            label: "Copy Row as JSON".to_string(),
            action: DetailMenuAction::Copy(RowFormat::Json),
        },
    );
    rows.push(
        DetailMenuRow {
            label: "Copy Row as INSERT".to_string(),
            action: DetailMenuAction::Copy(RowFormat::Insert),
        },
    );
    rows.push(DetailMenuRow { label: "".to_string(), action: DetailMenuAction::Separator });
    rows.push(
        DetailMenuRow { label: "Hide Panel".to_string(), action: DetailMenuAction::Hide },
    );
    assert(menu_views(rows@) == menu_rows());
    Some(rows)
}

/// A column is one of dates or times exactly when its type says "date" or "time",
/// in either case.
pub proof fn dates_and_times_are_temporal(column_type: Seq<char>)
    ensures
        temporal(column_type) <==> occurs(ascii_lowercase(column_type), seq!['d', 'a', 't', 'e']) || occurs(
            ascii_lowercase(column_type),
            seq!['t', 'i', 'm', 'e'],
        ),
{
    reveal_strlit("timestamp");
    reveal_strlit("datetime");
    reveal_strlit("date");
    reveal_strlit("time");
    assert("date"@ == seq!['d', 'a', 't', 'e']);
    assert("time"@ == seq!['t', 'i', 'm', 'e']);
    let lower = ascii_lowercase(column_type);
    if occurs(lower, "timestamp"@) {
        let at = choose|at: int| #[trigger] occurs_at(lower, "timestamp"@, at);
        let here = lower.subrange(at, at + 9);
        assert(here == "timestamp"@);
        assert forall|i: int| 0 <= i < 4 implies lower[at + i] == "time"@[i] by {
            assert(lower[at + i] == here[i]);
        }
        assert(lower.subrange(at, at + 4) == "time"@);
        assert(occurs_at(lower, "time"@, at));
    }
    if occurs(lower, "datetime"@) {
        let at = choose|at: int| #[trigger] occurs_at(lower, "datetime"@, at);
        let here = lower.subrange(at, at + 8);
        assert(here == "datetime"@);
        assert forall|i: int| 0 <= i < 4 implies lower[at + i] == "date"@[i] by {
            assert(lower[at + i] == here[i]);
        }
        assert(lower.subrange(at, at + 4) == "date"@);
        assert(occurs_at(lower, "date"@, at));
    }
}

/// What is written as text can be the empty text; a number or a flag cannot.
pub proof fn what_is_text_can_be_empty(value: ValueClass)
    ensures
        value is Text || value is Json || value is Uuid || value is Temporal || value is Decimal
            || value is Null || value is Default ==> takes_empty(value),
        value is Other ==> !takes_empty(value),
{
}

/// NULL and DEFAULT are always offered; EMPTY where the column takes it, MIXED
/// where several rows are edited at once, and the time of day where the column is
/// one of times, above the rest.
pub proof fn the_special_values_suit_the_column(menu: TokenMenu)
    ensures
        ({
            let rows = token_rows(menu);
            let token = |word: Seq<char>|
                exists|i: int|
                    0 <= i < rows.len() && #[trigger] rows[i] is Token && rows[i]->token == word;
            &&& token(seq!['N', 'U', 'L', 'L'])
            &&& token(seq!['D', 'E', 'F', 'A', 'U', 'L', 'T'])
            &&& token(seq!['E', 'M', 'P', 'T', 'Y']) <==> menu.allow_empty
            &&& token(seq!['M', 'I', 'X', 'E', 'D']) <==> menu.bulk
            &&& menu.temporal ==> {
                &&& rows[0] is Time && !rows[0]->date_only && rows[0]->label == seq!['n', 'o', 'w']
                &&& rows[1] is Time && rows[1]->date_only && rows[1]->label == seq!['t', 'o', 'd', 'a', 'y']
                &&& rows[2] is Separator
            }
            &&& (exists|i: int| 0 <= i < rows.len() && #[trigger] rows[i] is Time)
                <==> menu.temporal
        }),
{
    reveal_strlit("NULL");
    reveal_strlit("EMPTY");
    reveal_strlit("DEFAULT");
    reveal_strlit("MIXED");
    reveal_strlit("now");
    reveal_strlit("today");
    assert("NULL"@ == seq!['N', 'U', 'L', 'L']);
    assert("EMPTY"@ == seq!['E', 'M', 'P', 'T', 'Y']);
    assert("DEFAULT"@ == seq!['D', 'E', 'F', 'A', 'U', 'L', 'T']);
    assert("MIXED"@ == seq!['M', 'I', 'X', 'E', 'D']);
    assert("now"@ == seq!['n', 'o', 'w']);
    assert("today"@ == seq!['t', 'o', 'd', 'a', 'y']);
    assert("NULL"@.len() == 4 && "EMPTY"@.len() == 5 && "DEFAULT"@.len() == 7);
    assert("MIXED"@[0] == 'M' && "EMPTY"@[0] == 'E');
    let rows = token_rows(menu);
    let top: int = if menu.temporal {
        3
    } else {
        0
    };
    let default: int = if menu.allow_empty {
        top + 2
    } else {
        top + 1
    };
    assert(rows[top]->token == "NULL"@);
    assert(rows[default]->token == "DEFAULT"@);
    assert(menu.allow_empty ==> rows[top + 1]->token == "EMPTY"@);
    assert(menu.bulk ==> rows[default + 1]->token == "MIXED"@);
    assert(menu.temporal ==> rows[0] is Time);
}

/// A heading says of a field which it is and what type it has. A key stands out and
/// can be copied; only a field that is long enough can be folded.
pub proof fn a_heading_says_what_its_field_is(
    index: int,
    name: Seq<char>,
    is_pk: bool,
    column_type: Option<Seq<char>>,
    fold: Option<FieldHeight>,
    just_copied: bool,
)
    ensures
        ({
            let header = header_view(index, name, is_pk, column_type, fold, just_copied);
            &&& header.index == index
            &&& header.name == name
            &&& header.label_tone == (if is_pk {
                Tone::Warning
            } else {
                Tone::Muted
            })
            &&& header.fold is Some <==> fold is Some
            &&& fold == Some(FieldHeight::Full) ==> header.fold->0 == (seq!['⤡'], Tone::Text)
            &&& fold == Some(FieldHeight::Capped) ==> header.fold->0 == (seq!['⤢'], Tone::Faint)
            &&& header.copy is Some <==> is_pk
            &&& is_pk && just_copied ==> (header.copy->0).1 == Tone::Success
            &&& is_pk && !just_copied ==> header.copy->0 == (seq!['⧉'], Tone::Faint)
            &&& header.column_type is Some <==> column_type is Some
            &&& column_type is Some ==> header.column_type->0 == lowercase(column_type->0)
        }),
{
    reveal_strlit("⤡");
    reveal_strlit("⤢");
    reveal_strlit("⧉");
    assert("⤡"@ == seq!['⤡']);
    assert("⤢"@ == seq!['⤢']);
    assert("⧉"@ == seq!['⧉']);
}

/// A field is folded while its name is on the list, and can be while it has more
/// than eight lines; what is only read counts the lines that it shows.
pub proof fn a_field_is_folded_by_its_name(
    name: Seq<char>,
    collapsed: Seq<Seq<char>>,
    lines: nat,
    display: Seq<char>,
)
    ensures
        height_of(name, collapsed) is Capped <==> collapsed.contains(name),
        folds(lines, display, true) <==> lines_of(display).len() > 8,
        folds(lines, display, false) <==> lines > 8,
{
}

/// A key is read only; every other field is an editor with its menu. The field that
/// types, the menu that is open and the field that was just copied are each told
/// apart by their place.
pub proof fn a_field_is_drawn_as_what_it_is(draft: RowDraft, index: int)
    requires
        0 <= index < draft.fields@.len() <= usize::MAX,
    ensures
        ({
            let field = draft.fields@[index];
            let has_type = index < draft.column_types@.len();
            &&& field_item(draft, index) matches BodyItemView::Field { header, body }
            &&& header.index == index
            &&& header.name == field.name@
            &&& header.copy is Some <==> field.is_pk
            &&& header.column_type is Some <==> has_type
            &&& has_type ==> header.column_type->0 == lowercase(draft.column_types@[index]@)
            &&& field.is_pk <==> body is ReadOnly
            &&& field.is_pk ==> body->just_copied == (draft.copied == Some(index as usize))
            &&& field.is_pk ==> (header.fold is Some <==> lines_of(field.display@).len() > 8)
            &&& !field.is_pk ==> {
                &&& header.fold is Some <==> field.lines > 8
                &&& body->focused <==> draft.detail_input == Some(
                    DetailInput::Field(index as usize),
                )
                &&& body->Editor_height is Capped <==> texts(draft.collapsed@).contains(
                    field.name@,
                )
                &&& body->menu is Some
                &&& (body->menu->0).open <==> draft.open_menu == Some(index as usize)
                &&& (body->menu->0).bulk == draft.bulk
                &&& (body->menu->0).temporal <==> has_type && temporal(
                    draft.column_types@[index]@,
                )
                &&& index < draft.originals@.len() && draft.originals@[index] is Other ==> !(
                body->menu->0).allow_empty
                &&& index >= draft.originals@.len() || !(draft.originals@[index] is Other) ==> (
                body->menu->0).allow_empty
            }
        }),
{
}

/// Whether a field's name holds what is searched for, whatever the case.
pub open spec fn field_is_found(draft: RowDraft) -> spec_fn(int) -> bool {
    |i: int| occurs(ascii_lowercase(draft.fields@[i].name@), ascii_lowercase(draft.field_search@))
}

proof fn lemma_fields_found(draft: RowDraft, upto: int) -> (places: Seq<int>)
    requires
        0 <= upto <= draft.fields@.len(),
    ensures
        places_where(places, upto, field_is_found(draft)),
        field_items(draft, upto) == Seq::new(places.len(), |k: int| field_item(draft, places[k])),
    decreases upto,
{
    let holds = field_is_found(draft);
    let places = if upto == 0 {
        Seq::<int>::empty()
    } else {
        let n = upto - 1;
        let before = lemma_fields_found(draft, n);
        lemma_places_step(before, n, holds);
        if holds(n) {
            before.push(n)
        } else {
            before
        }
    };
    assert(field_items(draft, upto) == Seq::new(
        places.len(),
        |k: int| field_item(draft, places[k]),
    ));
    places
}

/// A search shows the fields whose name holds it, whatever the case, each once, in
/// the order of the columns, and no other.
pub proof fn fields_are_found_by_name(draft: RowDraft)
    ensures
        exists|places: Seq<int>| #[trigger]
            places_where(places, draft.fields@.len() as int, field_is_found(draft))
                && field_items(draft, draft.fields@.len() as int) == Seq::new(
                places.len(),
                |k: int| field_item(draft, places[k]),
            ),
{
    let places = lemma_fields_found(draft, draft.fields@.len() as int);
}

/// The panel opens with the search, under a word on how many rows are edited where
/// there are several, and ends with what came of the last change.
pub proof fn a_draft_is_drawn_from_its_search_down(draft: RowDraft)
    ensures
        ({
            let items = draft_items(draft);
            let fields = field_items(draft, draft.fields@.len() as int);
            let top: int = if draft.bulk {
                1
            } else {
                0
            };
            let said: int = if draft.message is Some {
                1
            } else {
                0
            };
            &&& items.len() == top + 1 + fields.len() + said
            &&& draft.bulk ==> items[0] is Banner && items[0]->title == seq!['E', 'd', 'i', 't', 'i', 'n', 'g', ' '] + decimal(
                draft.row_count as nat,
            ) + seq![' ', 'r', 'o', 'w', 's']
            &&& items[top] is Search && items[top]->Search_text == draft.field_search@ && (
            items[top]->focused <==> draft.detail_input == Some(DetailInput::Search))
            &&& items.subrange(top + 1, top + 1 + fields.len()) == fields
            &&& draft.message is Some ==> items.last() is Message && items.last()->Message_text
                == (draft.message->0).1@ && items.last()->tone == (if (draft.message->0).0 {
                Tone::Success
            } else {
                Tone::Danger
            })
        }),
{
    reveal_strlit("Editing ");
    reveal_strlit(" rows");
    assert("Editing "@ == seq!['E', 'd', 'i', 't', 'i', 'n', 'g', ' ']);
    assert(" rows"@ == seq![' ', 'r', 'o', 'w', 's']);
    let items = draft_items(draft);
    let fields = field_items(draft, draft.fields@.len() as int);
    let top: int = if draft.bulk {
        1
    } else {
        0
    };
    assert(items.subrange(top + 1, top + 1 + fields.len()) == fields);
}

/// In a new row every field is an editor, keys too, and has no menu.
pub proof fn every_field_of_a_new_row_is_an_editor(insert: InsertDraft, index: int)
    requires
        0 <= index < insert.fields@.len() <= usize::MAX,
    ensures
        ({
            let field = insert.fields@[index];
            &&& insert_item(insert, index) matches BodyItemView::Field { header, body }
            &&& header.index == index
            &&& header.name == field.name@
            &&& header.copy is None
            &&& header.fold is Some <==> field.lines > 8
            &&& body is Editor
            &&& body->menu is None
            &&& body->focused <==> insert.detail_input == Some(DetailInput::Field(index as usize))
            &&& body->Editor_height is Capped <==> texts(insert.collapsed@).contains(field.name@)
        }),
{
}

/// A value of one line is drawn as it is, and one of several line by line: all of
/// them, or the first eight where it is folded.
pub proof fn a_value_is_drawn_line_by_line(
    display: Seq<char>,
    styles: Seq<Vec<StyledSpan>>,
    height: FieldHeight,
)
    ensures
        ({
            let view = read_only_view(display, styles, height);
            let lines = lines_of(display);
            &&& view is Line <==> !display.contains('\n') && !display.contains('\r')
            &&& view is Line ==> view->Line_0 == display
            &&& view is Lines && (height is Full || lines.len() <= 8) ==> view->Lines_0.len()
                == lines.len()
            &&& view is Lines && height is Capped && lines.len() > 8 ==> view->Lines_0.len() == 8
            &&& view is Lines ==> forall|i: int|
                0 <= i < view->Lines_0.len() ==> #[trigger] view->Lines_0[i] == chunks(
                    lines[i],
                    if i < styles.len() {
                        styles[i]@
                    } else {
                        Seq::empty()
                    },
                )
        }),
{
    a_text_is_its_lines(display);
}

/// The menu copies the row as what its entry says, and hides the panel.
pub proof fn the_menu_does_what_it_says()
    ensures
        menu_rows().len() == 4,
        menu_rows()[0] == (seq!['C', 'o', 'p', 'y', ' ', 'R', 'o', 'w', ' ', 'a', 's', ' ', 'J', 'S', 'O', 'N'], DetailMenuAction::Copy(RowFormat::Json)),
        menu_rows()[1] == (seq!['C', 'o', 'p', 'y', ' ', 'R', 'o', 'w', ' ', 'a', 's', ' ', 'I', 'N', 'S', 'E', 'R', 'T'], DetailMenuAction::Copy(RowFormat::Insert)),
        menu_rows()[2].1 is Separator,
        menu_rows()[3] == (seq!['H', 'i', 'd', 'e', ' ', 'P', 'a', 'n', 'e', 'l'], DetailMenuAction::Hide),
{
    reveal_strlit("Copy Row as JSON");
    reveal_strlit("Copy Row as INSERT");
    reveal_strlit("Hide Panel");
    assert("Copy Row as JSON"@ == seq!['C', 'o', 'p', 'y', ' ', 'R', 'o', 'w', ' ', 'a', 's', ' ', 'J', 'S', 'O', 'N']);
    assert("Copy Row as INSERT"@ == seq!['C', 'o', 'p', 'y', ' ', 'R', 'o', 'w', ' ', 'a', 's', ' ', 'I', 'N', 'S', 'E', 'R', 'T']);
    assert("Hide Panel"@ == seq!['H', 'i', 'd', 'e', ' ', 'P', 'a', 'n', 'e', 'l']);
}

/// A row that is being added is what the panel shows, before one that is being
/// edited; without either there are words.
pub proof fn a_new_row_goes_before_an_edited_one(body: DetailBody, tab: Option<DetailTab>)
    requires
        body_is(body, tab),
    ensures
        body is Items <==> tab is Some && (tab->0.insert is Some || tab->0.draft is Some),
        tab is Some && tab->0.insert is Some ==> body->Items_0@.len() == 1
            + tab->0.insert->0.fields@.len(),
        tab is Some && tab->0.insert is None && tab->0.draft is Some ==> item_views(
            body->Items_0@,
        ) == draft_items(tab->0.draft->0),
        body is Caption ==> body->Caption_0@ == (if tab is Some && tab->0.selected_row is Some {
            seq!['L', 'o', 'a', 'd', 'i', 'n', 'g', ' ', 'r', 'o', 'w', '…']
        } else {
            seq!['N', 'o', ' ', 'r', 'o', 'w', ' ', 's', 'e', 'l', 'e', 'c', 't', 'e', 'd', '.']
        }),
{
    reveal_strlit("Loading row…");
    reveal_strlit("No row selected.");
    assert("Loading row…"@ == seq!['L', 'o', 'a', 'd', 'i', 'n', 'g', ' ', 'r', 'o', 'w', '…']);
    assert("No row selected."@ == seq!['N', 'o', ' ', 'r', 'o', 'w', ' ', 's', 'e', 'l', 'e', 'c', 't', 'e', 'd', '.']);
    if tab is Some && tab->0.insert is Some {
        assert(item_views(body->Items_0@).len() == 1 + tab->0.insert->0.fields@.len());
    }
}

/// The panel is a strip while it is closed, and has its menu on while that is open.
pub proof fn a_closed_panel_is_a_strip(
    panel: DetailPanel,
    open: bool,
    menu_open: bool,
    tab: Option<DetailTab>,
)
    requires
        panel_is(panel, open, menu_open, tab),
    ensures
        panel is Strip <==> !open,
        open ==> (panel->menu is Some <==> menu_open),
        open ==> panel->menu_lit == menu_open,
        open ==> body_is(panel->body, tab),
{
}

} // verus!
