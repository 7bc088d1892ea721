//! The center column: tab bar, filters, content, and bottom bar.
use crate::domain::{TablePane, Tone};
use crate::grid::{empty_state, empty_text};
use crate::text::{decimal, decimal_text, listed, opt, texts};
use crate::text_field::{
    line_spans, line_start, render_highlighted_line, run_views, runs_from, span_of, with_caret,
    Focus, FocusState, LineMarks, LinePaint, Press, Run,
};
use vstd::prelude::*;
use vstd::string::*;

verus! {

/// The table tab in front, as far as the columns panel reads it.
#[derive(Debug)]
pub struct ColumnsTab {
    pub columns_open: bool,
    /// The result's columns, once there is one.
    pub columns: Option<Vec<String>>,
    pub hidden_columns: Vec<String>,
}

/// A column that can be hidden, and whether it is shown.
#[derive(Debug)]
pub struct ColumnToggle {
    pub name: String,
    pub visible: bool,
}

/// The columns panel as it is drawn.
#[derive(Debug)]
pub struct ColumnsPanel {
    pub caption: String,
    pub toggles: Vec<ColumnToggle>,
}

/// What the panel shows: each column of the result, and whether it is visible.
pub open spec fn toggles_are(
    toggles: Seq<ColumnToggle>,
    columns: Seq<String>,
    hidden: Seq<Seq<char>>,
) -> bool {
    toggles.len() == columns.len() && forall|i: int|
        0 <= i < toggles.len() ==> (#[trigger] toggles[i]).name@ == columns[i]@
            && toggles[i].visible == !hidden.contains(columns[i]@)
}

pub fn render_columns_panel(tab: Option<&ColumnsTab>) -> (panel: Option<ColumnsPanel>)
    ensures
        panel is Some <==> (tab matches Some(tab) && tab.columns_open && tab.columns is Some),
        panel matches Some(panel) ==> panel.caption@ == "Columns"@ && toggles_are(
            panel.toggles@,
            tab.unwrap().columns.unwrap()@,
            texts(tab.unwrap().hidden_columns@),
        ),
{
    let tab = match tab {
        Some(tab) => tab,
        None => return None,
    };
    if !tab.columns_open {
        return None;
    }
    let columns = match &tab.columns {
        Some(columns) => columns,
        None => return None,
    };
    let mut toggles: Vec<ColumnToggle> = Vec::new();
    let mut i: usize = 0;
    while i < columns.len()
        invariant
            i <= columns@.len(),
            toggles_are(toggles@, columns@.take(i as int), texts(tab.hidden_columns@)),
        decreases columns@.len() - i,
    {
        toggles.push(
            ColumnToggle {
                name: columns[i].as_str().to_string(),
                visible: !listed(&tab.hidden_columns, columns[i].as_str()),
            },
        );
        i += 1;
    }
    assert(columns@.take(i as int) == columns@);
    Some(ColumnsPanel { caption: "Columns".to_string(), toggles })
}

/// The tab in front, as far as what fills the column goes.
#[derive(Debug, Clone, Copy, PartialEq, Eq, Structural)]
pub enum FrontTab {
    Sql,
    Table(TablePane),
}

/// What fills the column.
#[derive(Debug)]
pub enum TabContent {
    Empty(String),
    /// The editor, the statements of the last run, and the grid.
    Query,
    Structure,
    Grid,
}

pub fn render_tab_content(tab: Option<FrontTab>, connected: bool) -> (content: TabContent)
    ensures
        match tab {
            None => content matches TabContent::Empty(message) && message@ == empty_text(connected),
            Some(FrontTab::Sql) => content is Query,
            Some(FrontTab::Table(TablePane::Structure)) => content is Structure,
            Some(FrontTab::Table(TablePane::Data)) => content is Grid,
        },
{
    match tab {
        None => TabContent::Empty(empty_state(connected)),
        Some(FrontTab::Sql) => TabContent::Query,
        Some(FrontTab::Table(TablePane::Structure)) => TabContent::Structure,
        Some(FrontTab::Table(TablePane::Data)) => TabContent::Grid,
    }
}

/// What a statement of the last run came to.
#[derive(Debug)]
pub struct StatementResult {
    pub label: String,
    pub has_rows: bool,
}

/// A statement's chip.
#[derive(Debug)]
pub struct StatementChip {
    pub label: String,
    pub selected: bool,
    /// A statement that returned no rows says so, so that a chip opening an
    /// empty grid is not a surprise.
    pub empty_mark: Option<String>,
}

pub open spec fn chips_are(
    chips: Seq<StatementChip>,
    results: Seq<StatementResult>,
    active: int,
) -> bool {
    chips.len() == results.len() && forall|i: int|
        0 <= i < chips.len() ==> {
            &&& (#[trigger] chips[i]).label@ == results[i].label@
            &&& chips[i].selected == (i == active)
            &&& opt(chips[i].empty_mark) == (if !results[i].has_rows && i != active {
                Some("·"@)
            } else {
                None
            })
        }
}

/// One chip per statement of the last run.
///
/// Hidden for a single statement: a strip with one entry is chrome that
/// says nothing.
pub fn render_statement_strip(results: &Vec<StatementResult>, active: usize) -> (strip: Option<
    Vec<StatementChip>,
>)
    ensures
        strip is Some <==> results@.len() >= 2,
        strip matches Some(chips) ==> chips_are(chips@, results@, active as int),
{
    if results.len() < 2 {
        return None;
    }
    let mut chips: Vec<StatementChip> = Vec::new();
    let mut i: usize = 0;
    while i < results.len()
        invariant
            i <= results@.len(),
            chips_are(chips@, results@.take(i as int), active as int),
        decreases results@.len() - i,
    {
        let statement = &results[i];
        chips.push(
            StatementChip {
                label: statement.label.as_str().to_string(),
                selected: i == active,
                empty_mark: if !statement.has_rows && i != active {
                    Some("·".to_string())
                } else {
                    None
                },
            },
        );
        i += 1;
    }
    assert(results@.take(i as int) == results@);
    Some(chips)
}

/// A column of the open table.
#[derive(Debug)]
pub struct StructureColumn {
    pub name: String,
    pub data_type: String,
    pub nullable: bool,
    pub is_primary_key: bool,
}

/// A line of the structure pane.
#[derive(Debug)]
pub struct StructureRow {
    pub name: String,
    pub data_type: String,
    pub null_text: String,
    /// A key is drawn in a colour of its own.
    pub key: bool,
}

pub open spec fn structure_rows_are(
    rows: Seq<StructureRow>,
    structure: Seq<StructureColumn>,
) -> bool {
    rows.len() == structure.len() && forall|i: int|
        0 <= i < rows.len() ==> {
            &&& (#[trigger] rows[i]).name@ == structure[i].name@
            &&& rows[i].data_type@ == structure[i].data_type@
            &&& rows[i].null_text@ == (if structure[i].nullable {
                "null"@
            } else {
                "not null"@
            })
            &&& rows[i].key == structure[i].is_primary_key
        }
}

/// The columns of the open table, or what stands in for them until they are
/// known.
pub fn render_structure(structure: Option<&Vec<StructureColumn>>, connected: bool) -> (shown: Result<
    Vec<StructureRow>,
    String,
>)
    ensures
        match shown {
            Ok(rows) => structure matches Some(structure) && structure@.len() > 0
                && structure_rows_are(rows@, structure@),
            Err(message) => message@ == empty_text(connected) && (structure matches Some(structure)
                ==> structure@.len() == 0),
        },
{
    let structure = match structure {
        Some(structure) => structure,
        None => return Err(empty_state(connected)),
    };
    if structure.len() == 0 {
        return Err(empty_state(connected));
    }
    let mut rows: Vec<StructureRow> = Vec::new();
    let mut i: usize = 0;
    while i < structure.len()
        invariant
            i <= structure@.len(),
            structure_rows_are(rows@, structure@.take(i as int)),
        decreases structure@.len() - i,
    {
        let column = &structure[i];
        rows.push(
            StructureRow {
                name: column.name.as_str().to_string(),
                data_type: column.data_type.as_str().to_string(),
                null_text: if column.nullable {
                    "null".to_string()
                } else {
                    "not null".to_string()
                },
                key: column.is_primary_key,
            },
        );
        i += 1;
    }
    assert(structure@.take(i as int) == structure@);
    Ok(rows)
}

/// The SQL editor, as far as what it draws goes.
#[derive(Debug)]
pub struct EditorInput {
    pub lines: Vec<String>,
    /// How each line is painted, but for the caret.
    pub paint: Vec<LinePaint>,
    pub cursor: usize,
    pub caret_line: usize,
    pub focused: bool,
    pub has_selection: bool,
    /// Nothing is written in it.
    pub empty: bool,
}

impl EditorInput {
    pub open spec fn wf(&self) -> bool {
        &&& line_start(self.lines@, self.lines@.len() as int) <= usize::MAX
        &&& self.paint@.len() == self.lines@.len()
    }
}

/// A line of the editor.
#[derive(Debug)]
pub struct EditorLine {
    pub number: String,
    pub runs: Vec<Run>,
    /// What could be written, on the caret's line while nothing is.
    pub hint: Option<String>,
}

pub open spec fn editor_line_is(line: EditorLine, input: EditorInput, i: int) -> bool {
    let span = span_of(input.lines@, i, input.cursor, input.focused && !input.has_selection);
    &&& line.number@ == decimal((i + 1) as nat)
    &&& run_views(line.runs@) == runs_from(
        input.lines@[i]@,
        with_caret(input.paint@[i], span.caret),
        0,
    )
    &&& match line.hint {
        Some(hint) => input.empty && i == input.caret_line && hint@ == "SELECT * FROM …"@,
        None => !(input.empty && i == input.caret_line),
    }
}

#[derive(Debug)]
pub struct Editor {
    pub caption: String,
    pub lines: Vec<EditorLine>,
    pub run_label: String,
    pub run_all_label: String,
    pub caret_tone: Tone,
}

/// The SQL editor on the tab in front.
pub fn render_editor(input: &EditorInput) -> (editor: Editor)
    requires
        input.wf(),
    ensures
        editor.caption@ == "SQL"@,
        editor.run_all_label@ == "Run all  ⌘⇧↵"@,
        editor.run_label@ == (if input.has_selection {
            "Run selection  ⌘↵"@
        } else {
            "Run  ⌘↵"@
        }),
        editor.caret_tone == (if input.focused {
            Tone::Accent
        } else {
            Tone::Faint
        }),
        editor.lines@.len() == input.lines@.len(),
        forall|i: int|
            0 <= i < editor.lines@.len() ==> editor_line_is(
                #[trigger] editor.lines@[i],
                *input,
                i,
            ),
{
    let spans = line_spans(&input.lines, input.cursor, input.focused, input.has_selection);
    let mut lines: Vec<EditorLine> = Vec::new();
    let count: usize = input.lines.len();
    let mut i: usize = 0;
    while i < count
        invariant
            input.wf(),
            count == input.lines@.len() == spans@.len(),
            i <= count,
            lines@.len() == i,
            forall|k: int|
                0 <= k < spans@.len() ==> #[trigger] spans@[k] == span_of(
                    input.lines@,
                    k,
                    input.cursor,
                    input.focused && !input.has_selection,
                ),
            forall|k: int| 0 <= k < i ==> editor_line_is(#[trigger] lines@[k], *input, k),
        decreases count - i,
    {
        let runs = render_highlighted_line(
            input.lines[i].as_str(),
            &input.paint[i].styles,
            &input.paint[i].selection,
            spans[i].caret,
        );
        lines.push(
            EditorLine {
                number: decimal_text(i as u64 + 1),
                runs,
                hint: if input.empty && i == input.caret_line {
                    Some("SELECT * FROM …".to_string())
                } else {
                    None
                },
            },
        );
        i += 1;
    }
    Editor {
        caption: "SQL".to_string(),
        run_all_label: "Run all  ⌘⇧↵".to_string(),
        lines,
        run_label: if input.has_selection {
            "Run selection  ⌘↵".to_string()
        } else {
            "Run  ⌘↵".to_string()
        },
        caret_tone: if input.focused {
            Tone::Accent
        } else {
            Tone::Faint
        },
    }
}

/// A press in the editor: it takes the keyboard, and the popup goes. One click
/// starts a selection, more select what is under them.
pub fn editor_pressed(
    is_sql: bool,
    click_count: usize,
    focus: &mut FocusState,
    completion: &mut Option<CompletionPopup>,
) -> (press: Press)
    ensures
        *final(focus) == (FocusState { focus: Focus::Editor, ..*old(focus) }),
        *final(completion) is None,
        press == (if !is_sql {
            Press::Nothing
        } else if click_count <= 1 {
            Press::Select
        } else {
            Press::SelectWhole
        }),
{
    focus.focus = Focus::Editor;
    *completion = None;
    if !is_sql {
        Press::Nothing
    } else if click_count <= 1 {
        Press::Select
    } else {
        Press::SelectWhole
    }
}

/// What could be written where the caret is.
#[derive(Debug)]
pub struct CompletionItem {
    pub label: String,
    pub kind_label: String,
}

#[derive(Debug)]
pub struct CompletionPopup {
    pub items: Vec<CompletionItem>,
    pub selected: usize,
}

/// A row of the popup.
#[derive(Debug)]
pub struct CompletionRow {
    pub label: String,
    pub kind_label: String,
    pub selected: bool,
}

pub open spec fn completion_rows_are(rows: Seq<CompletionRow>, popup: CompletionPopup) -> bool {
    rows.len() == popup.items@.len() && forall|i: int|
        0 <= i < rows.len() ==> {
            &&& (#[trigger] rows[i]).label@ == popup.items@[i].label@
            &&& rows[i].kind_label@ == popup.items@[i].kind_label@
            &&& rows[i].selected == (i == popup.selected)
        }
}

pub fn render_completion_popup(popup: &CompletionPopup) -> (rows: Vec<CompletionRow>)
    ensures
        completion_rows_are(rows@, *popup),
{
    let mut rows: Vec<CompletionRow> = Vec::new();
    let mut i: usize = 0;
    while i < popup.items.len()
        invariant
            i <= popup.items@.len(),
            rows@.len() == i,
            forall|k: int|
                0 <= k < i ==> {
                    &&& (#[trigger] rows@[k]).label@ == popup.items@[k].label@
                    &&& rows@[k].kind_label@ == popup.items@[k].kind_label@
                    &&& rows@[k].selected == (k == popup.selected)
                },
        decreases popup.items@.len() - i,
    {
        let item = &popup.items[i];
        rows.push(
            CompletionRow {
                label: item.label.as_str().to_string(),
                kind_label: item.kind_label.as_str().to_string(),
                selected: i == popup.selected,
            },
        );
        i += 1;
    }
    rows
}

/// A press on a row of the popup makes it the one that is taken.
pub fn completion_pressed(popup: &mut CompletionPopup, index: usize)
    ensures
        final(popup).selected == index,
        final(popup).items == old(popup).items,
{
    popup.selected = index;
}

/// Every column has its switch, in order, which is on while the column is not on
/// the list of those hidden.
pub proof fn a_switch_is_on_while_its_column_shows(
    toggles: Seq<ColumnToggle>,
    columns: Seq<String>,
    hidden: Seq<Seq<char>>,
    i: int,
)
    requires
        toggles_are(toggles, columns, hidden),
        0 <= i < columns.len(),
    ensures
        toggles.len() == columns.len(),
        toggles[i].name@ == columns[i]@,
        toggles[i].visible <==> !hidden.contains(columns[i]@),
{
}

/// Every statement has its chip, in order. The front one is lit, and another that
/// brought no rows is marked.
pub proof fn a_chip_says_how_its_statement_went(
    chips: Seq<StatementChip>,
    results: Seq<StatementResult>,
    active: int,
    i: int,
)
    requires
        chips_are(chips, results, active),
        0 <= i < results.len(),
    ensures
        chips.len() == results.len(),
        chips[i].label@ == results[i].label@,
        chips[i].selected <==> i == active,
        chips[i].empty_mark is Some <==> !results[i].has_rows && i != active,
{
}

/// Every column of a table has its row, in order, with its type, whether it may be
/// empty, and whether it is a key.
pub proof fn a_structure_row_is_read_off_its_column(
    rows: Seq<StructureRow>,
    structure: Seq<StructureColumn>,
    i: int,
)
    requires
        structure_rows_are(rows, structure),
        0 <= i < structure.len(),
    ensures
        rows.len() == structure.len(),
        rows[i].name@ == structure[i].name@,
        rows[i].data_type@ == structure[i].data_type@,
        rows[i].null_text@ == (if structure[i].nullable {
            seq!['n', 'u', 'l', 'l']
        } else {
            seq!['n', 'o', 't', ' ', 'n', 'u', 'l', 'l']
        }),
        rows[i].key <==> structure[i].is_primary_key,
{
    reveal_strlit("null");
    reveal_strlit("not null");
    assert("null"@ == seq!['n', 'u', 'l', 'l']);
    assert("not null"@ == seq!['n', 'o', 't', ' ', 'n', 'u', 'l', 'l']);
}

/// The lines of the editor are numbered from one, and the hint is on the caret's
/// line of an empty editor alone.
pub proof fn the_lines_are_numbered_from_one(line: EditorLine, input: EditorInput, i: int)
    requires
        0 <= i < input.lines@.len(),
        editor_line_is(line, input, i),
    ensures
        line.number@ == decimal((i + 1) as nat),
        line.hint is Some <==> input.empty && i == input.caret_line,
        run_views(line.runs@) == runs_from(
            input.lines@[i]@,
            (LineMarks {
                styles: input.paint@[i].styles@,
                selection: input.paint@[i].selection,
                caret: span_of(
                    input.lines@,
                    i,
                    input.cursor,
                    input.focused && !input.has_selection,
                ).caret,
            }),
            0,
        ),
{
}

/// Every completion has its row, in order, and the one that Enter takes is lit.
pub proof fn a_completion_row_is_its_item(
    rows: Seq<CompletionRow>,
    popup: CompletionPopup,
    i: int,
)
    requires
        completion_rows_are(rows, popup),
        0 <= i < popup.items@.len(),
    ensures
        rows.len() == popup.items@.len(),
        rows[i].label@ == popup.items@[i].label@,
        rows[i].kind_label@ == popup.items@[i].kind_label@,
        rows[i].selected <==> i == popup.selected,
{
}

} // verus!
