//! The result grid.
//!
//! Staged inserts are drawn under the stored rows: indices past the result
//! belong to the inserts, which is what lets one list draw both. A cell the user
//! has edited shows what it will become, not what the server last said.
use crate::domain::Tone;
use crate::text::{
    chars_of, decimal, decimal_text, digit, lemma_decimal_len, lowercase, opt, same,
    string_of_range, to_lowercase,
};
use crate::text_field::{spaced, to_spaced};
use vstd::prelude::*;
use vstd::string::*;

verus! {

/// As many characters of a value as a cell shows.
pub const CELL_CHARS: usize = 200;

/// A kind of value, by its number in the colours of values.
pub type KindId = u8;

/// A stored value.
#[derive(Debug)]
pub struct GridValue {
    /// What a cell shows of it, on one line.
    pub text: String,
    pub null: bool,
    pub kind: KindId,
    /// Its kind is set to the right, as numbers are.
    pub right_aligned: bool,
    /// It refers to a row of another table.
    pub links: bool,
}

/// A value that will be written, and the column it goes to.
#[derive(Debug)]
pub struct StagedValue {
    pub column: String,
    pub new_text: String,
}

/// A stored row.
#[derive(Debug)]
pub struct StoredRow {
    pub values: Vec<GridValue>,
    /// It is part of the selection.
    pub selected: bool,
    /// It is on its way out.
    pub staged_delete: bool,
    /// The columns of it that will be written.
    pub staged_edit: Option<Vec<StagedValue>>,
}

/// A field of a row that is not on the server yet.
#[derive(Debug)]
pub struct InsertField {
    pub name: String,
    pub text: String,
}

/// A column of the result.
#[derive(Debug)]
pub struct GridColumn {
    pub name: String,
    pub column_type: String,
}

/// A column of the table that the result was read from.
#[derive(Debug)]
pub struct ColumnMeta {
    pub name: String,
    pub is_primary_key: bool,
}

/// The result in front.
#[derive(Debug)]
pub struct GridInput {
    pub columns: Vec<GridColumn>,
    pub structure: Vec<ColumnMeta>,
    /// The columns that are shown, in the order that they are shown in.
    pub visible: Vec<usize>,
    pub rows: Vec<StoredRow>,
    pub inserts: Vec<Vec<InsertField>>,
    pub editing_insert: Option<usize>,
    /// The sorted column and whether it goes up, by its place in the result: a
    /// query can return two columns of one name and only one of them is sorted.
    pub sort: Option<(usize, bool)>,
    /// The column in hand, and whether the press has travelled far enough to be
    /// a drag.
    pub moving: Option<(usize, bool)>,
    pub lead_row: Option<usize>,
    pub selected_cell: Option<(usize, usize)>,
    pub copied_cell: Option<(usize, usize)>,
    pub editing_cell: Option<(usize, usize)>,
}

impl GridInput {
    /// Every shown column is one of the result's.
    pub open spec fn wf(&self) -> bool {
        &&& self.rows@.len() + self.inserts@.len() <= usize::MAX
        &&& forall|i: int|
            0 <= i < self.visible@.len() ==> (#[trigger] self.visible@[i]) < self.columns@.len()
    }
}

pub open spec fn empty_text(connected: bool) -> Seq<char> {
    if connected {
        "Pick a table, or press ⌘E to write a query."@
    } else {
        "Connect to a database to get started."@
    }
}

/// What stands in for a grid.
pub fn empty_state(connected: bool) -> (message: String)
    ensures
        message@ == empty_text(connected),
{
    if connected {
        "Pick a table, or press ⌘E to write a query.".to_string()
    } else {
        "Connect to a database to get started.".to_string()
    }
}

/// A staged value on one row of the grid: its line breaks as spaces, and no more
/// of it than a cell shows.
pub open spec fn one_cell(text: Seq<char>) -> Seq<char> {
    if text.len() > CELL_CHARS {
        spaced(text).take(CELL_CHARS as int)
    } else {
        spaced(text)
    }
}

/// A staged value flattened to fit one grid row, the way a stored value is.
pub fn one_line_cell(text: &str) -> (cell: String)
    ensures
        cell@ == one_cell(text@),
{
    let flat = to_spaced(text);
    let chars = chars_of(flat.as_str());
    if chars.len() > CELL_CHARS {
        let cell = string_of_range(&chars, 0, CELL_CHARS);
        assert(cell@ == one_cell(text@));
        cell
    } else {
        flat
    }
}

/// A staged value never breaks out of its row.
pub proof fn a_staged_value_fits_its_row(text: Seq<char>)
    ensures
        one_cell(text).len() <= CELL_CHARS,
        !one_cell(text).contains('\n'),
        !one_cell(text).contains('\r'),
{
    assert forall|i: int| 0 <= i < one_cell(text).len() implies (#[trigger] one_cell(text)[i])
        != '\n' && one_cell(text)[i] != '\r' by {
        assert(one_cell(text)[i] == spaced(text)[i]);
    }
}

/// What a cell's text is drawn in.
#[derive(Debug, Clone, Copy, PartialEq, Eq, Structural)]
pub enum CellTone {
    /// The colour of its kind of value.
    Value,
    Null,
    /// It will be written.
    Pending,
    /// It points at another table; underlined, the way a link is anywhere else.
    Link,
    /// Its row is on its way out; struck through.
    Deleted,
}

/// What a cell is filled with.
#[derive(Debug, Clone, Copy, PartialEq, Eq, Structural)]
pub enum CellFill {
    Plain,
    Selected,
    /// A copy answers where it was asked for.
    Copied,
}

#[derive(Debug)]
pub struct Cell {
    pub text: String,
    pub tone: CellTone,
    pub underlined: bool,
    pub struck: bool,
    pub fill: CellFill,
    /// The kind of the stored value; a missing one is a NULL.
    pub kind: Option<KindId>,
    /// The text is set to the right.
    pub right_aligned: bool,
    /// The cell is open for typing, and draws an editor.
    pub editing: bool,
}

/// What a cell shows.
pub struct CellView {
    pub text: Seq<char>,
    pub tone: CellTone,
    pub underlined: bool,
    pub struck: bool,
    pub fill: CellFill,
    pub kind: Option<KindId>,
    pub right_aligned: bool,
    pub editing: bool,
}

impl View for Cell {
    type V = CellView;

    open spec fn view(&self) -> CellView {
        CellView {
            text: self.text@,
            tone: self.tone,
            underlined: self.underlined,
            struck: self.struck,
            fill: self.fill,
            kind: self.kind,
            right_aligned: self.right_aligned,
            editing: self.editing,
        }
    }
}

/// The first of some staged values that goes to a column, from `from` on.
pub open spec fn staged_from(
    staged: Seq<StagedValue>,
    column: Seq<char>,
    from: int,
) -> Option<Seq<char>>
    decreases staged.len() - from,
{
    if from >= staged.len() {
        None
    } else if staged[from].column@ == column {
        Some(staged[from].new_text@)
    } else {
        staged_from(staged, column, from + 1)
    }
}

/// What a row's column will be written as, if it will be.
pub open spec fn pending_for(row: StoredRow, column: Seq<char>) -> Option<Seq<char>> {
    match row.staged_edit {
        Some(staged) => staged_from(staged@, column, 0),
        None => None,
    }
}

fn pending_text(row: &StoredRow, column: &str) -> (pending: Option<String>)
    ensures
        opt(pending) == pending_for(*row, column@),
{
    let staged = match &row.staged_edit {
        Some(staged) => staged,
        None => return None,
    };
    let mut i: usize = 0;
    while i < staged.len()
        invariant
            i <= staged@.len(),
            row.staged_edit == Some(*staged),
            staged_from(staged@, column@, 0) == staged_from(staged@, column@, i as int),
        decreases staged@.len() - i,
    {
        if same(staged[i].column.as_str(), column) {
            return Some(staged[i].new_text.as_str().to_string());
        }
        i += 1;
    }
    None
}

/// A stored row's cell. A staged change wins over the stored value: after
/// typing into a cell, seeing the old value still there reads as the edit having
/// been dropped.
pub open spec fn cell_of(input: GridInput, index: int, column: int) -> CellView {
    let row = input.rows@[index];
    let value = if column < row.values@.len() {
        Some(row.values@[column])
    } else {
        None
    };
    let pending = pending_for(row, input.columns@[column].name@);
    let null = value matches Some(value) ==> value.null;
    let links = value matches Some(value) && value.links;
    let here = Some((index as usize, column as usize));
    CellView {
        text: match pending {
            Some(new_text) => one_cell(new_text),
            None => if null {
                "NULL"@
            } else {
                value.unwrap().text@
            },
        },
        tone: if row.staged_delete {
            CellTone::Deleted
        } else if pending is Some {
            CellTone::Pending
        } else if links {
            CellTone::Link
        } else if null {
            CellTone::Null
        } else {
            CellTone::Value
        },
        underlined: links && pending is None,
        struck: row.staged_delete,
        fill: if input.copied_cell == here {
            CellFill::Copied
        } else if input.selected_cell == here || row_selected(input, index) {
            CellFill::Selected
        } else {
            CellFill::Plain
        },
        kind: match value {
            Some(value) => Some(value.kind),
            None => None,
        },
        right_aligned: value matches Some(value) && value.right_aligned,
        editing: input.editing_cell == here,
    }
}

pub open spec fn row_selected(input: GridInput, index: int) -> bool {
    input.rows@[index].selected || input.lead_row == Some(index as usize)
}

fn is_at(place: Option<(usize, usize)>, row: usize, column: usize) -> (here: bool)
    ensures
        here == (place == Some((row, column))),
{
    match place {
        Some((r, c)) => r == row && c == column,
        None => false,
    }
}

fn is_row(place: Option<usize>, row: usize) -> (here: bool)
    ensures
        here == (place == Some(row)),
{
    match place {
        Some(r) => r == row,
        None => false,
    }
}

pub fn render_cell(input: &GridInput, index: usize, column: usize) -> (cell: Cell)
    requires
        index < input.rows@.len(),
        column < input.columns@.len(),
    ensures
        cell@ == cell_of(*input, index as int, column as int),
{
    let row = &input.rows[index];
    let pending = pending_text(row, input.columns[column].name.as_str());
    let (null, links, kind, right_aligned) = if column < row.values.len() {
        let value = &row.values[column];
        (value.null, value.links, Some(value.kind), value.right_aligned)
    } else {
        (true, false, None, false)
    };
    let staged = pending.is_some();
    let text = match pending {
        Some(new_text) => one_line_cell(new_text.as_str()),
        None => if null {
            "NULL".to_string()
        } else {
            row.values[column].text.as_str().to_string()
        },
    };
    Cell {
        text,
        tone: if row.staged_delete {
            CellTone::Deleted
        } else if staged {
            CellTone::Pending
        } else if links {
            CellTone::Link
        } else if null {
            CellTone::Null
        } else {
            CellTone::Value
        },
        underlined: links && !staged,
        struck: row.staged_delete,
        fill: if is_at(input.copied_cell, index, column) {
            CellFill::Copied
        } else if is_at(input.selected_cell, index, column) || row.selected || is_row(
            input.lead_row,
            index,
        ) {
            CellFill::Selected
        } else {
            CellFill::Plain
        },
        kind,
        right_aligned,
        editing: is_at(input.editing_cell, index, column),
    }
}

/// Typing into a cell is seen there whatever the server last said: as the new
/// text, and never as a NULL or a link.
pub proof fn a_staged_change_wins(input: GridInput, index: int, column: int, new_text: Seq<char>)
    requires
        pending_for(input.rows@[index], input.columns@[column].name@) == Some(new_text),
    ensures
        cell_of(input, index, column).text == one_cell(new_text),
        !cell_of(input, index, column).underlined,
        cell_of(input, index, column).tone == (if input.rows@[index].staged_delete {
            CellTone::Deleted
        } else {
            CellTone::Pending
        }),
{
}

proof fn lemma_staged_at(staged: Seq<StagedValue>, column: Seq<char>, from: int, k: int)
    requires
        0 <= from <= k < staged.len(),
        staged[k].column@ == column,
        forall|j: int| from <= j < k ==> (#[trigger] staged[j]).column@ != column,
    ensures
        staged_from(staged, column, from) == Some(staged[k].new_text@),
    decreases k - from,
{
    if from < k {
        lemma_staged_at(staged, column, from + 1, k);
    }
}

proof fn lemma_not_staged(staged: Seq<StagedValue>, column: Seq<char>, from: int)
    requires
        0 <= from,
        forall|j: int| from <= j < staged.len() ==> (#[trigger] staged[j]).column@ != column,
    ensures
        staged_from(staged, column, from) is None,
    decreases staged.len() - from,
{
    if from < staged.len() {
        lemma_not_staged(staged, column, from + 1);
    }
}

/// Every staged change of a row is seen in the cell of the column it goes to,
/// wherever it stands among the row's changes; of two that go to one column the
/// first is.
pub proof fn every_staged_change_is_seen(
    input: GridInput,
    index: int,
    column: int,
    staged: Seq<StagedValue>,
    k: int,
)
    requires
        input.rows@[index].staged_edit matches Some(list) && list@ == staged,
        0 <= k < staged.len(),
        staged[k].column@ == input.columns@[column].name@,
        forall|j: int|
            0 <= j < k ==> (#[trigger] staged[j]).column@ != input.columns@[column].name@,
    ensures
        ({
            let cell = cell_of(input, index, column);
            let written = staged[k].new_text@;
            &&& cell.text.len() == (if written.len() < 200 {
                written.len()
            } else {
                200
            })
            &&& forall|i: int|
                0 <= i < cell.text.len() ==> #[trigger] cell.text[i] == (if written[i] == '\n'
                    || written[i] == '\r' {
                    ' '
                } else {
                    written[i]
                })
            &&& !cell.underlined
            &&& cell.tone == CellTone::Pending <==> !input.rows@[index].staged_delete
        }),
{
    lemma_staged_at(staged, input.columns@[column].name@, 0, k);
    assert(spaced(staged[k].new_text@).len() == staged[k].new_text@.len());
}

/// A cell that no staged change goes to shows what is stored, and a missing value
/// is a NULL.
pub proof fn a_cell_without_a_change_shows_what_is_stored(input: GridInput, index: int, column: int)
    requires
        0 <= column,
        input.rows@[index].staged_edit matches Some(staged) ==> forall|j: int|
            0 <= j < staged@.len() ==> (#[trigger] staged@[j]).column@
                != input.columns@[column].name@,
    ensures
        ({
            let values = input.rows@[index].values@;
            let cell = cell_of(input, index, column);
            &&& column < values.len() && !values[column].null ==> cell.text == values[column].text@
            &&& column >= values.len() || values[column].null ==> cell.text == seq![
                'N',
                'U',
                'L',
                'L',
            ]
            &&& cell.tone != CellTone::Pending
            &&& cell.underlined <==> column < values.len() && values[column].links
        }),
{
    reveal_strlit("NULL");
    assert("NULL"@ == seq!['N', 'U', 'L', 'L']);
    if let Some(staged) = input.rows@[index].staged_edit {
        lemma_not_staged(staged@, input.columns@[column].name@, 0);
    }
}

/// A row on its way out is struck through in every cell, and no other row is in
/// any.
pub proof fn a_row_on_its_way_out_is_struck_through(input: GridInput, index: int, column: int)
    ensures
        cell_of(input, index, column).struck <==> input.rows@[index].staged_delete,
        cell_of(input, index, column).tone == CellTone::Deleted
            <==> input.rows@[index].staged_delete,
{
}

/// A copy answers in the one cell it was asked for, and typing goes on in the one
/// cell that was opened. The selection is seen in the selected cell and across the
/// selected rows, and nowhere else.
pub proof fn a_cell_is_marked_where_it_is(input: GridInput, index: usize, column: usize)
    ensures
        ({
            let cell = cell_of(input, index as int, column as int);
            let row = input.rows@[index as int];
            &&& cell.fill == CellFill::Copied <==> (input.copied_cell matches Some((r, c)) && r
                == index && c == column)
            &&& cell.editing <==> (input.editing_cell matches Some((r, c)) && r == index && c
                == column)
            &&& cell.fill == CellFill::Plain ==> !row.selected && input.lead_row != Some(index)
                && input.selected_cell != Some((index, column))
            &&& cell.fill == CellFill::Selected ==> row.selected || input.lead_row == Some(index)
                || input.selected_cell == Some((index, column))
        }),
{
}

/// A NULL is visibly not the word: nothing stored is drawn as a NULL but a
/// NULL, and a NULL is, unless something is staged for it or it is a link.
pub proof fn a_null_is_not_the_word(input: GridInput, index: int, column: int)
    requires
        0 <= column,
    ensures
        ({
            let row = input.rows@[index];
            let stored = column < row.values@.len() && !row.values@[column].null;
            let cell = cell_of(input, index, column);
            &&& cell.tone == CellTone::Null ==> !stored
            &&& !stored && pending_for(row, input.columns@[column].name@) is None ==> cell.text
                == "NULL"@ && (cell.tone == CellTone::Null || cell.struck || cell.underlined)
        }),
{
}

/// A stored value that nothing is staged for is seen in its cell as it is, in the
/// colour of its kind and on the side that its kind is set to.
pub proof fn a_stored_value_is_seen(input: GridInput, index: int, column: int)
    requires
        0 <= column < input.rows@[index].values@.len(),
        !input.rows@[index].values@[column].null,
        pending_for(input.rows@[index], input.columns@[column].name@) is None,
    ensures
        ({
            let value = input.rows@[index].values@[column];
            let cell = cell_of(input, index, column);
            &&& cell.text == value.text@
            &&& cell.right_aligned == value.right_aligned
            &&& cell.kind == Some(value.kind)
            &&& !value.links && !input.rows@[index].staged_delete ==> cell.tone == CellTone::Value
        }),
{
}

#[derive(Debug)]
pub struct GridRow {
    /// What stands at the head of the row.
    pub gutter: String,
    pub gutter_tone: Tone,
    /// The row is lit.
    pub lit: bool,
    pub cells: Vec<Cell>,
}

/// What a row shows.
pub struct GridRowView {
    pub gutter: Seq<char>,
    pub gutter_tone: Tone,
    pub lit: bool,
    pub cells: Seq<CellView>,
}

/// What each cell shows.
pub open spec fn cell_views(cells: Seq<Cell>) -> Seq<CellView> {
    Seq::new(cells.len(), |i: int| cells[i]@)
}

impl View for GridRow {
    type V = GridRowView;

    open spec fn view(&self) -> GridRowView {
        GridRowView {
            gutter: self.gutter@,
            gutter_tone: self.gutter_tone,
            lit: self.lit,
            cells: cell_views(self.cells@),
        }
    }
}

/// What each row shows.
pub open spec fn row_views(rows: Seq<GridRow>) -> Seq<GridRowView> {
    Seq::new(rows.len(), |i: int| rows[i]@)
}

/// The head of a stored row: its number, or a mark where it is on its way out.
pub open spec fn stored_gutter(row: StoredRow, index: int) -> Seq<char> {
    if row.staged_delete {
        "−"@
    } else {
        decimal((index + 1) as nat)
    }
}

pub open spec fn stored_row(input: GridInput, index: int) -> GridRowView {
    let row = input.rows@[index];
    GridRowView {
        gutter: stored_gutter(row, index),
        gutter_tone: if row.staged_delete {
            Tone::Danger
        } else {
            Tone::Faint
        },
        lit: row_selected(input, index),
        cells: Seq::new(
            input.visible@.len(),
            |i: int| cell_of(input, index, input.visible@[i] as int),
        ),
    }
}

pub fn render_stored_row(input: &GridInput, index: usize) -> (row: GridRow)
    requires
        input.wf(),
        index < input.rows@.len(),
    ensures
        row@ == stored_row(*input, index as int),
{
    let mut cells: Vec<Cell> = Vec::new();
    let mut i: usize = 0;
    while i < input.visible.len()
        invariant
            input.wf(),
            index < input.rows@.len(),
            i <= input.visible@.len(),
            cell_views(cells@) == Seq::new(
                i as nat,
                |k: int| cell_of(*input, index as int, input.visible@[k] as int),
            ),
        decreases input.visible@.len() - i,
    {
        let ghost before = cells@;
        let cell = render_cell(input, index, input.visible[i]);
        cells.push(cell);
        i += 1;
        assert(cell_views(cells@) == cell_views(before).push(cell@));
        assert(cell_views(cells@) == Seq::new(
            i as nat,
            |k: int| cell_of(*input, index as int, input.visible@[k] as int),
        ));
    }
    let stored = &input.rows[index];
    let count: usize = input.rows.len();
    assert(index < count);
    GridRow {
        gutter: if stored.staged_delete {
            "−".to_string()
        } else {
            decimal_text(index as u64 + 1)
        },
        gutter_tone: if stored.staged_delete {
            Tone::Danger
        } else {
            Tone::Faint
        },
        lit: stored.selected || is_row(input.lead_row, index),
        cells,
    }
}

/// What the first field of that name says, from `from` on; nothing where there
/// is none.
pub open spec fn field_from(fields: Seq<InsertField>, name: Seq<char>, from: int) -> Seq<char>
    decreases fields.len() - from,
{
    if from >= fields.len() {
        Seq::empty()
    } else if fields[from].name@ == name {
        fields[from].text@
    } else {
        field_from(fields, name, from + 1)
    }
}

fn field_text(fields: &Vec<InsertField>, name: &str) -> (text: String)
    ensures
        text@ == field_from(fields@, name@, 0),
{
    let mut i: usize = 0;
    while i < fields.len()
        invariant
            i <= fields@.len(),
            field_from(fields@, name@, 0) == field_from(fields@, name@, i as int),
        decreases fields@.len() - i,
    {
        if same(fields[i].name.as_str(), name) {
            return fields[i].text.as_str().to_string();
        }
        i += 1;
    }
    let text: String = String::new();
    assert(text@ == Seq::<char>::empty());
    text
}

/// A row that is not on the server yet. It is marked and tinted, so that it
/// never looks like one that is.
#[derive(Debug)]
pub struct InsertRow {
    pub gutter: String,
    pub gutter_tone: Tone,
    pub being_edited: bool,
    pub cells: Vec<String>,
}

pub open spec fn insert_row_is(row: InsertRow, input: GridInput, at: int) -> bool {
    &&& row.gutter@ == "+"@
    &&& row.gutter_tone == Tone::Success
    &&& row.being_edited == (input.editing_insert == Some(at as usize))
    &&& row.cells@.len() == input.visible@.len()
    &&& forall|i: int|
        0 <= i < row.cells@.len() ==> (#[trigger] row.cells@[i])@ == field_from(
            input.inserts@[at]@,
            input.columns@[input.visible@[i] as int].name@,
            0,
        )
}

/// One staged insert, drawn as a row under the stored ones. `None` where there
/// is no such insert.
pub fn render_insert_row(input: &GridInput, at: usize) -> (row: Option<InsertRow>)
    requires
        input.wf(),
    ensures
        row is Some <==> at < input.inserts@.len(),
        row matches Some(row) ==> insert_row_is(row, *input, at as int),
{
    if at >= input.inserts.len() {
        return None;
    }
    let fields = &input.inserts[at];
    let mut cells: Vec<String> = Vec::new();
    let mut i: usize = 0;
    while i < input.visible.len()
        invariant
            input.wf(),
            at < input.inserts@.len(),
            *fields == input.inserts@[at as int],
            i <= input.visible@.len(),
            cells@.len() == i,
            forall|k: int|
                0 <= k < i ==> (#[trigger] cells@[k])@ == field_from(
                    fields@,
                    input.columns@[input.visible@[k] as int].name@,
                    0,
                ),
        decreases input.visible@.len() - i,
    {
        cells.push(field_text(fields, input.columns[input.visible[i]].name.as_str()));
        i += 1;
    }
    Some(
        InsertRow {
            gutter: "+".to_string(),
            gutter_tone: Tone::Success,
            being_edited: is_row(input.editing_insert, at),
            cells,
        },
    )
}

/// A row that is not on the server yet never looks like one that is.
pub proof fn a_new_row_never_looks_stored(input: GridInput, new: InsertRow, at: int, index: int)
    requires
        insert_row_is(new, input, at),
        0 <= index,
    ensures
        new.gutter@ != stored_gutter(input.rows@[index], index),
        new.gutter_tone != stored_row(input, index).gutter_tone,
{
    reveal_strlit("+");
    reveal_strlit("−");
    assert("+"@[0] == '+');
    assert("−"@[0] == '−');
    let n = (index + 1) as nat;
    lemma_decimal_len(n);
    assert(decimal(n).last() == digit(n % 10));
    if decimal(n) == "+"@ {
        assert(decimal(n).last() == '+');
    }
}

proof fn lemma_field_at(fields: Seq<InsertField>, name: Seq<char>, from: int, k: int)
    requires
        0 <= from <= k < fields.len(),
        fields[k].name@ == name,
        forall|j: int| from <= j < k ==> (#[trigger] fields[j]).name@ != name,
    ensures
        field_from(fields, name, from) == fields[k].text@,
    decreases k - from,
{
    if from < k {
        lemma_field_at(fields, name, from + 1, k);
    }
}

proof fn lemma_no_field(fields: Seq<InsertField>, name: Seq<char>, from: int)
    requires
        0 <= from,
        forall|j: int| from <= j < fields.len() ==> (#[trigger] fields[j]).name@ != name,
    ensures
        field_from(fields, name, from) == Seq::<char>::empty(),
    decreases fields.len() - from,
{
    if from < fields.len() {
        lemma_no_field(fields, name, from + 1);
    }
}

/// Every field of a new row is seen in the cell of its column, wherever it stands
/// among the fields, and a column without a field has an empty cell.
pub proof fn every_field_of_a_new_row_is_seen(row: InsertRow, input: GridInput, at: int, i: int)
    requires
        insert_row_is(row, input, at),
        0 <= i < input.visible@.len(),
    ensures
        row.cells@.len() == input.visible@.len(),
        ({
            let fields = input.inserts@[at]@;
            let name = input.columns@[input.visible@[i] as int].name@;
            &&& forall|k: int|
                #![trigger fields[k]]
                0 <= k < fields.len() && fields[k].name@ == name && (forall|j: int|
                    0 <= j < k ==> (#[trigger] fields[j]).name@ != name) ==> row.cells@[i]@
                    == fields[k].text@
            &&& (forall|j: int| 0 <= j < fields.len() ==> (#[trigger] fields[j]).name@ != name)
                ==> row.cells@[i]@.len() == 0
        }),
{
    let fields = input.inserts@[at]@;
    let name = input.columns@[input.visible@[i] as int].name@;
    assert(row.cells@[i]@ == field_from(fields, name, 0));
    assert forall|k: int|
        #![trigger fields[k]]
        0 <= k < fields.len() && fields[k].name@ == name && (forall|j: int|
            0 <= j < k ==> (#[trigger] fields[j]).name@ != name) implies row.cells@[i]@
        == fields[k].text@ by {
        lemma_field_at(fields, name, 0, k);
    }
    if forall|j: int| 0 <= j < fields.len() ==> (#[trigger] fields[j]).name@ != name {
        lemma_no_field(fields, name, 0);
    }
}

/// What a row of the list is: a stored one, or an insert under them.
#[derive(Debug)]
pub enum ListRow {
    Stored(GridRow),
    New(InsertRow),
}

pub open spec fn list_row_is(row: ListRow, input: GridInput, index: int) -> bool {
    match row {
        ListRow::Stored(row) => index < input.rows@.len() && row@ == stored_row(input, index),
        ListRow::New(row) => index >= input.rows@.len() && insert_row_is(
            row,
            input,
            index - input.rows@.len(),
        ),
    }
}

/// The rows of the list from `from` up to `to`. Each shows what is at its place:
/// the stored rows first, the inserts under them.
pub fn render_rows(input: &GridInput, from: usize, to: usize) -> (rows: Vec<ListRow>)
    requires
        input.wf(),
        from <= to <= input.rows@.len() + input.inserts@.len(),
    ensures
        rows@.len() == to - from,
        forall|i: int|
            0 <= i < rows@.len() ==> list_row_is(#[trigger] rows@[i], *input, from + i),
{
    let stored_rows: usize = input.rows.len();
    let mut rows: Vec<ListRow> = Vec::new();
    let mut index: usize = from;
    while index < to
        invariant
            input.wf(),
            stored_rows == input.rows@.len(),
            from <= index <= to <= input.rows@.len() + input.inserts@.len(),
            rows@.len() == index - from,
            forall|i: int|
                0 <= i < rows@.len() ==> list_row_is(#[trigger] rows@[i], *input, from + i),
        decreases to - index,
    {
        if index >= stored_rows {
            if let Some(row) = render_insert_row(input, index - stored_rows) {
                rows.push(ListRow::New(row));
            }
        } else {
            rows.push(ListRow::Stored(render_stored_row(input, index)));
        }
        index += 1;
    }
    rows
}

/// A column's heading.
#[derive(Debug)]
pub struct HeaderCell {
    pub name: String,
    pub column_type: String,
    pub tone: Tone,
    /// The column is in hand.
    pub lit: bool,
    /// Which way it is sorted, where it is.
    pub arrow: Option<String>,
}

/// What a heading shows.
pub struct HeaderView {
    pub name: Seq<char>,
    pub column_type: Seq<char>,
    pub tone: Tone,
    pub lit: bool,
    pub arrow: Option<Seq<char>>,
}

impl View for HeaderCell {
    type V = HeaderView;

    open spec fn view(&self) -> HeaderView {
        HeaderView {
            name: self.name@,
            column_type: self.column_type@,
            tone: self.tone,
            lit: self.lit,
            arrow: opt(self.arrow),
        }
    }
}

pub open spec fn is_key(structure: Seq<ColumnMeta>, name: Seq<char>) -> bool {
    exists|i: int|
        0 <= i < structure.len() && (#[trigger] structure[i]).name@ == name
            && structure[i].is_primary_key
}

fn has_key(structure: &Vec<ColumnMeta>, name: &str) -> (key: bool)
    ensures
        key == is_key(structure@, name@),
{
    let mut i: usize = 0;
    while i < structure.len()
        invariant
            i <= structure@.len(),
            forall|k: int|
                0 <= k < i ==> !((#[trigger] structure@[k]).name@ == name@
                    && structure@[k].is_primary_key),
        decreases structure@.len() - i,
    {
        if structure[i].is_primary_key && same(structure[i].name.as_str(), name) {
            return true;
        }
        i += 1;
    }
    false
}

pub open spec fn header_of(input: GridInput, column: int) -> HeaderView {
    let lit = input.moving == Some((column as usize, true));
    let sorted = input.sort matches Some((at, _)) && at == column;
    HeaderView {
        name: input.columns@[column].name@,
        column_type: lowercase(input.columns@[column].column_type@),
        tone: if lit || sorted {
            Tone::Text
        } else if is_key(input.structure@, input.columns@[column].name@) {
            Tone::Warning
        } else {
            Tone::Muted
        },
        lit,
        arrow: if sorted {
            Some(if input.sort.unwrap().1 {
                "↑"@
            } else {
                "↓"@
            })
        } else {
            None
        },
    }
}

/// The stored rows come first, each under its number and with a cell for each
/// shown column; what is past them are the inserts, in their order.
pub proof fn stored_rows_come_first(row: ListRow, input: GridInput, index: int)
    requires
        0 <= index < input.rows@.len() + input.inserts@.len(),
        list_row_is(row, input, index),
    ensures
        row is Stored <==> index < input.rows@.len(),
        row matches ListRow::Stored(stored) ==> {
            &&& stored.cells@.len() == input.visible@.len()
            &&& forall|i: int|
                0 <= i < stored.cells@.len() ==> (#[trigger] stored.cells@[i])@ == cell_of(
                    input,
                    index,
                    input.visible@[i] as int,
                )
            &&& !input.rows@[index].staged_delete ==> stored.gutter@ == decimal((index + 1) as nat)
            &&& stored.gutter_tone == Tone::Danger <==> input.rows@[index].staged_delete
            &&& stored.lit <==> input.rows@[index].selected || input.lead_row == Some(
                index as usize,
            )
        },
        row matches ListRow::New(new) ==> insert_row_is(new, input, index - input.rows@.len()),
{
    if let ListRow::Stored(stored) = row {
        assert(cell_views(stored.cells@) == stored_row(input, index).cells);
        assert forall|i: int| 0 <= i < stored.cells@.len() implies (#[trigger] stored.cells@[i])@
            == cell_of(input, index, input.visible@[i] as int) by {
            assert(cell_views(stored.cells@)[i] == stored.cells@[i]@);
        }
    }
}

/// Only the sorted column has an arrow, which points up as the order does; a
/// column in hand is lit; and a primary key is told by its colour unless it is
/// sorted or in hand.
pub proof fn a_heading_says_what_its_column_is(input: GridInput, column: usize)
    ensures
        ({
            let heading = header_of(input, column as int);
            let key = exists|i: int|
                0 <= i < input.structure@.len() && (#[trigger] input.structure@[i]).name@
                    == input.columns@[column as int].name@ && input.structure@[i].is_primary_key;
            &&& heading.name == input.columns@[column as int].name@
            &&& heading.column_type == lowercase(input.columns@[column as int].column_type@)
            &&& heading.arrow is Some <==> (input.sort matches Some((at, _)) && at == column)
            &&& heading.arrow == Some(seq!['↑']) <==> input.sort == Some((column, true))
            &&& heading.arrow == Some(seq!['↓']) <==> input.sort == Some((column, false))
            &&& heading.lit <==> (input.moving matches Some((at, moved)) && at == column && moved)
            &&& heading.tone == Tone::Warning <==> key && heading.arrow is None && !heading.lit
            &&& heading.tone == Tone::Muted <==> !key && heading.arrow is None && !heading.lit
        }),
{
    reveal_strlit("↑");
    reveal_strlit("↓");
    assert("↑"@ == seq!['↑']);
    assert("↓"@ == seq!['↓']);
    assert("↑"@[0] != "↓"@[0]);
}

/// The headings, in the order that the columns are shown in.
pub fn render_header(input: &GridInput) -> (headings: Vec<HeaderCell>)
    requires
        input.wf(),
    ensures
        headings@.len() == input.visible@.len(),
        forall|i: int|
            0 <= i < headings@.len() ==> (#[trigger] headings@[i])@ == header_of(
                *input,
                input.visible@[i] as int,
            ),
{
    let mut headings: Vec<HeaderCell> = Vec::new();
    let mut i: usize = 0;
    while i < input.visible.len()
        invariant
            input.wf(),
            i <= input.visible@.len(),
            headings@.len() == i,
            forall|k: int|
                0 <= k < i ==> (#[trigger] headings@[k])@ == header_of(
                    *input,
                    input.visible@[k] as int,
                ),
        decreases input.visible@.len() - i,
    {
        let column: usize = input.visible[i];
        let info = &input.columns[column];
        let lit = match input.moving {
            Some((at, moved)) => at == column && moved,
            None => false,
        };
        let sorted = match input.sort {
            Some((at, ascending)) => if at == column {
                Some(ascending)
            } else {
                None
            },
            None => None,
        };
        headings.push(
            HeaderCell {
                name: info.name.as_str().to_string(),
                column_type: to_lowercase(info.column_type.as_str()),
                tone: if lit || sorted.is_some() {
                    Tone::Text
                } else if has_key(&input.structure, info.name.as_str()) {
                    Tone::Warning
                } else {
                    Tone::Muted
                },
                lit,
                arrow: match sorted {
                    Some(ascending) => Some(
                        if ascending {
                            "↑".to_string()
                        } else {
                            "↓".to_string()
                        },
                    ),
                    None => None,
                },
            },
        );
        i += 1;
    }
    headings
}

/// The grid as it is drawn: its headings, how many rows its list has and the
/// ones in sight, or what stands in for it.
#[derive(Debug)]
pub enum Grid {
    Empty(String),
    Table { headings: Vec<HeaderCell>, row_count: usize, rows: Vec<ListRow> },
}

/// The grid of the tab in front, where it has a result with columns to show. The
/// rows in sight are those from `from` up to `to`.
pub fn render_grid(
    input: Option<&GridInput>,
    from: usize,
    to: usize,
    connected: bool,
) -> (grid: Grid)
    requires
        input matches Some(input) ==> input.wf() && from <= to <= input.rows@.len()
            + input.inserts@.len(),
    ensures
        match grid {
            Grid::Empty(message) => message@ == empty_text(connected) && (input matches Some(input)
                ==> input.visible@.len() == 0),
            Grid::Table { headings, row_count, rows } => {
                &&& input matches Some(input)
                &&& input.visible@.len() > 0
                &&& row_count == input.rows@.len() + input.inserts@.len()
                &&& headings@.len() == input.visible@.len()
                &&& forall|i: int|
                    0 <= i < headings@.len() ==> (#[trigger] headings@[i])@ == header_of(
                        *input,
                        input.visible@[i] as int,
                    )
                &&& rows@.len() == to - from
                &&& forall|i: int|
                    0 <= i < rows@.len() ==> list_row_is(#[trigger] rows@[i], *input, from + i)
            },
        },
{
    match input {
        Some(input) => if input.columns.len() == 0 || input.visible.len() == 0 {
            proof {
                if input.visible@.len() > 0 {
                    assert(input.visible@[0] < input.columns@.len());
                }
            }
            Grid::Empty(empty_state(connected))
        } else {
            Grid::Table {
                headings: render_header(input),
                row_count: input.rows.len() + input.inserts.len(),
                rows: render_rows(input, from, to),
            }
        },
        None => Grid::Empty(empty_state(connected)),
    }
}

/// What a press on a stored row does, before the menu where it opens one.
#[derive(Debug, Clone, Copy, PartialEq, Eq, Structural)]
pub enum RowPress {
    /// Opens the cell for typing.
    BeginEdit(usize, usize),
    /// Selects from here, as the modifiers say.
    Select(usize, Option<usize>),
    /// Selects this row alone.
    SelectAlone(usize, Option<usize>),
    /// Moves the cell cursor within the selection.
    FocusCell(usize, usize),
    /// Leaves the selection as it is.
    Nothing,
}

/// A press on a row or one of its cells. A second click on the same cell opens
/// it, the way a grid does.
pub fn row_pressed(row: usize, column: Option<usize>, click_count: usize) -> (press: RowPress)
    ensures
        press == (match column {
            Some(at) if click_count >= 2 => RowPress::BeginEdit(row, at),
            _ => RowPress::Select(row, column),
        }),
{
    match column {
        Some(at) => if click_count >= 2 {
            RowPress::BeginEdit(row, at)
        } else {
            RowPress::Select(row, column)
        },
        None => RowPress::Select(row, column),
    }
}

/// A press of the other button, which opens the row menu. Outside the selection
/// it moves it, or the menu would act on rows the pointer is nowhere near;
/// inside one only the cell cursor moves, so that the menu acts on the whole
/// range.
pub fn row_right_pressed(
    input: Option<&GridInput>,
    row: usize,
    column: Option<usize>,
) -> (press: RowPress)
    ensures
        ({
            let inside = input matches Some(input) && row < input.rows@.len()
                && input.rows@[row as int].selected;
            press == (if !inside {
                RowPress::SelectAlone(row, column)
            } else {
                match column {
                    Some(column) => RowPress::FocusCell(row, column),
                    None => RowPress::Nothing,
                }
            })
        }),
{
    let inside = match input {
        Some(input) => row < input.rows.len() && input.rows[row].selected,
        None => false,
    };
    if !inside {
        return RowPress::SelectAlone(row, column);
    }
    match column {
        Some(column) => RowPress::FocusCell(row, column),
        None => RowPress::Nothing,
    }
}

/// An empty pane says what to do next: connect, or open something.
pub proof fn an_empty_pane_says_what_to_do()
    ensures
        empty_text(false) == seq!['C', 'o', 'n', 'n', 'e', 'c', 't', ' ', 't', 'o', ' ', 'a', ' ', 'd', 'a', 't', 'a', 'b', 'a', 's', 'e', ' ', 't', 'o', ' ', 'g', 'e', 't', ' ', 's', 't', 'a', 'r', 't', 'e', 'd', '.'],
        empty_text(true) == seq!['P', 'i', 'c', 'k', ' ', 'a', ' ', 't', 'a', 'b', 'l', 'e', ',', ' ', 'o', 'r', ' ', 'p', 'r', 'e', 's', 's', ' ', '⌘', 'E', ' ', 't', 'o', ' ', 'w', 'r', 'i', 't', 'e', ' ', 'a', ' ', 'q', 'u', 'e', 'r', 'y', '.'],
{
    reveal_strlit("Connect to a database to get started.");
    reveal_strlit("Pick a table, or press ⌘E to write a query.");
    assert("Connect to a database to get started."@ == seq!['C', 'o', 'n', 'n', 'e', 'c', 't', ' ', 't', 'o', ' ', 'a', ' ', 'd', 'a', 't', 'a', 'b', 'a', 's', 'e', ' ', 't', 'o', ' ', 'g', 'e', 't', ' ', 's', 't', 'a', 'r', 't', 'e', 'd', '.']);
    assert("Pick a table, or press ⌘E to write a query."@ == seq!['P', 'i', 'c', 'k', ' ', 'a', ' ', 't', 'a', 'b', 'l', 'e', ',', ' ', 'o', 'r', ' ', 'p', 'r', 'e', 's', 's', ' ', '⌘', 'E', ' ', 't', 'o', ' ', 'w', 'r', 'i', 't', 'e', ' ', 'a', ' ', 'q', 'u', 'e', 'r', 'y', '.']);
}

} // verus!
