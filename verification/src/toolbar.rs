//! The toolbar over the grid: pane switcher, filters, paging, row summary.
//!
//! What the buttons here do is decide what the grid shows, and a control that
//! changes what you are looking at belongs on the same edge as the thing it
//! changes.
use crate::controls::{arrow_is, PageArrow};
use crate::domain::{at_end, ends_at, Page, ResultSource, TablePane};
use crate::text::{decimal, decimal_text, opt, push_decimal};
use vstd::prelude::*;
use vstd::string::*;

verus! {

/// The front tab, as far as the toolbar reads it.
#[derive(Debug)]
pub struct ToolbarTab {
    /// The result's own line, where there is a result.
    pub summary: Option<String>,
    /// How many rows are selected.
    pub selected: usize,
    pub kind: ToolbarKind,
}

#[derive(Debug)]
pub enum ToolbarKind {
    Table {
        pane: TablePane,
        filters_open: bool,
        columns_open: bool,
        page: Page,
        page_size_draft: String,
        /// Where the rows on screen came from, once there are any.
        source: Option<ResultSource>,
    },
    Sql,
}

/// Which edge of the grid a bar is on.
#[derive(Debug, Clone, Copy, PartialEq, Eq, Structural)]
pub enum BarEdge {
    Over,
    Under,
}

/// A button that stays lit while what it stands for is in force.
#[derive(Debug)]
pub struct ToolButton {
    pub label: String,
    pub active: bool,
}

pub open spec fn tool_is(button: ToolButton, label: Seq<char>, active: bool) -> bool {
    button.label@ == label && button.active == active
}

/// The controls that only a table has.
#[derive(Debug)]
pub struct TableTools {
    pub data: ToolButton,
    pub structure: ToolButton,
    pub filters: ToolButton,
    pub columns: ToolButton,
    pub add_row: String,
    pub back: PageArrow,
    pub forward: PageArrow,
    /// What stands in front of the rows-per-page field.
    pub page_size_caption: Option<String>,
    pub page_size: String,
    pub page_size_hint: String,
    pub page_size_focused: bool,
}

#[derive(Debug)]
pub enum Toolbar {
    NoTab { caption: String },
    Bar {
        summary: String,
        /// The result can be read again from here.
        reloads: bool,
        tools: Option<TableTools>,
    },
}

/// The page arithmetic fits the machine.
pub open spec fn fits(kind: ToolbarKind) -> bool {
    kind matches ToolbarKind::Table { source: Some(ResultSource::Table { page, .. }), .. }
        ==> page.offset + page.limit <= u64::MAX
}

/// The result's line, and how much of it is selected. Only worth saying past one
/// row: a single selected row is the row the detail sidebar already describes.
pub open spec fn summary_text(summary: Option<Seq<char>>, selected: nat) -> Seq<char> {
    let base = match summary {
        Some(line) => line,
        None => "No data"@,
    };
    if selected > 1 {
        base + " · "@ + decimal(selected) + " selected"@
    } else {
        base
    }
}

pub fn summary_line(summary: &Option<String>, selected: usize) -> (line: String)
    ensures
        line@ == summary_text(opt(*summary), selected as nat),
{
    let mut line: String = match summary {
        Some(text) => text.as_str().to_string(),
        None => "No data".to_string(),
    };
    if selected > 1 {
        line.append(" · ");
        push_decimal(&mut line, selected as u64);
        line.append(" selected");
    }
    line
}

/// Which of the two arrows lead nowhere: both, before there is a result.
pub open spec fn page_ends(page: Page, source: Option<ResultSource>) -> (bool, bool) {
    match source {
        Some(ResultSource::Table { page: shown, total_rows }) => (
            shown.offset == 0,
            ends_at(shown, total_rows),
        ),
        Some(ResultSource::Query) => (page.offset == 0, false),
        None => (true, true),
    }
}

pub open spec fn tools_of(
    tools: TableTools,
    kind: ToolbarKind,
    page_size_focus: bool,
    edge: BarEdge,
) -> bool {
    match kind {
        ToolbarKind::Table { pane, filters_open, columns_open, page, page_size_draft, source } => {
            &&& tool_is(tools.data, "Data"@, pane == TablePane::Data)
            &&& tool_is(tools.structure, "Structure"@, pane == TablePane::Structure)
            &&& tool_is(tools.filters, "Filters"@, filters_open)
            &&& tool_is(tools.columns, "Columns"@, columns_open)
            &&& tools.add_row@ == (if edge == BarEdge::Over {
                "Row"@
            } else {
                "+ Row"@
            })
            &&& arrow_is(tools.back, "‹"@, page_ends(page, source).0)
            &&& arrow_is(tools.forward, "›"@, page_ends(page, source).1)
            &&& opt(tools.page_size_caption) == (if edge == BarEdge::Over {
                None
            } else {
                Some("Rows / page"@)
            })
            &&& tools.page_size@ == page_size_draft@
            &&& tools.page_size_hint@ == decimal(page.limit as nat)
            &&& tools.page_size_focused == page_size_focus
        },
        ToolbarKind::Sql => false,
    }
}

/// What a bar shows for the front tab.
pub open spec fn toolbar_of(
    toolbar: Toolbar,
    tab: Option<ToolbarTab>,
    page_size_focus: bool,
    edge: BarEdge,
) -> bool {
    match (tab, toolbar) {
        (None, Toolbar::NoTab { caption }) => caption@ == "No tab selected"@,
        (Some(tab), Toolbar::Bar { summary, reloads, tools }) => {
            &&& summary@ == summary_text(opt(tab.summary), tab.selected as nat)
            &&& reloads == (edge == BarEdge::Over)
            &&& tools is Some <==> tab.kind is Table
            &&& tools matches Some(tools) ==> tools_of(tools, tab.kind, page_size_focus, edge)
        },
        _ => false,
    }
}

fn table_tools(kind: &ToolbarKind, page_size_focus: bool, edge: BarEdge) -> (tools: Option<
    TableTools,
>)
    requires
        fits(*kind),
    ensures
        tools is Some <==> *kind is Table,
        tools matches Some(tools) ==> tools_of(tools, *kind, page_size_focus, edge),
{
    match kind {
        ToolbarKind::Table { pane, filters_open, columns_open, page, page_size_draft, source } => {
            let (start, end) = match *source {
                Some(ResultSource::Table { page: shown, total_rows }) => (
                    shown.offset == 0,
                    at_end(shown, total_rows),
                ),
                Some(ResultSource::Query) => (page.offset == 0, false),
                None => (true, true),
            };
            let (add_row, page_size_caption) = match edge {
                BarEdge::Over => ("Row".to_string(), None),
                BarEdge::Under => ("+ Row".to_string(), Some("Rows / page".to_string())),
            };
            Some(
                TableTools {
                    data: ToolButton {
                        label: "Data".to_string(),
                        active: *pane == TablePane::Data,
                    },
                    structure: ToolButton {
                        label: "Structure".to_string(),
                        active: *pane == TablePane::Structure,
                    },
                    filters: ToolButton { label: "Filters".to_string(), active: *filters_open },
                    columns: ToolButton { label: "Columns".to_string(), active: *columns_open },
                    add_row,
                    back: PageArrow { glyph: "‹".to_string(), disabled: start },
                    forward: PageArrow { glyph: "›".to_string(), disabled: end },
                    page_size_caption,
                    page_size: page_size_draft.as_str().to_string(),
                    page_size_hint: decimal_text(page.limit as u64),
                    page_size_focused: page_size_focus,
                },
            )
        },
        ToolbarKind::Sql => None,
    }
}

fn bar(tab: &Option<ToolbarTab>, page_size_focus: bool, edge: BarEdge) -> (toolbar: Toolbar)
    requires
        *tab matches Some(tab) ==> fits(tab.kind),
    ensures
        toolbar_of(toolbar, *tab, page_size_focus, edge),
{
    match tab {
        None => Toolbar::NoTab { caption: "No tab selected".to_string() },
        Some(tab) => Toolbar::Bar {
            summary: summary_line(&tab.summary, tab.selected),
            reloads: edge == BarEdge::Over,
            tools: table_tools(&tab.kind, page_size_focus, edge),
        },
    }
}

/// The bar over the grid. `page_size_focus` says that the rows-per-page field
/// has the keyboard.
pub fn render_toolbar(tab: &Option<ToolbarTab>, page_size_focus: bool) -> (toolbar: Toolbar)
    requires
        *tab matches Some(tab) ==> fits(tab.kind),
    ensures
        toolbar_of(toolbar, *tab, page_size_focus, BarEdge::Over),
{
    bar(tab, page_size_focus, BarEdge::Over)
}

/// The bar under the grid.
pub fn render_bottom_bar(tab: &Option<ToolbarTab>, page_size_focus: bool) -> (toolbar: Toolbar)
    requires
        *tab matches Some(tab) ==> fits(tab.kind),
    ensures
        toolbar_of(toolbar, *tab, page_size_focus, BarEdge::Under),
{
    bar(tab, page_size_focus, BarEdge::Under)
}

/// What the rows-per-page dropdown offers. The field beside it still takes any
/// number; these are the ones worth one press rather than five keystrokes.
pub open spec fn page_size_presets() -> Seq<u32> {
    seq![100u32, 200u32, 500u32, 1_000u32, 5_000u32]
}

#[derive(Debug)]
pub struct PresetRow {
    pub size: u32,
    pub label: String,
    /// What marks the size in force.
    pub mark: Option<String>,
}

pub open spec fn preset_is(row: PresetRow, size: u32, limit: u32) -> bool {
    &&& row.size == size
    &&& row.label@ == decimal(size as nat)
    &&& opt(row.mark) == (if size == limit {
        Some("•"@)
    } else {
        None
    })
}

/// Rows per page, beside the field: what opens the dropdown, lit while it is open.
#[derive(Debug)]
pub struct PageSizeMenu {
    pub glyph: String,
    pub lit: bool,
    /// The dropdown while it is open: its title, and its rows.
    pub menu: Option<(String, Vec<PresetRow>)>,
}

/// Rows per page: a field to type into, wearing a select's chevron. The presets
/// are what almost everyone wants and are one press; the field is the only way to
/// ask for 37.
pub fn render_page_size(limit: u32, open: bool) -> (control: PageSizeMenu)
    ensures
        control.glyph@ == "⌄"@,
        control.lit == open,
        match control.menu {
            Some((title, rows)) => {
                &&& open
                &&& title@ == "Rows / page"@
                &&& rows@.len() == page_size_presets().len()
                &&& forall|i: int|
                    0 <= i < rows@.len() ==> preset_is(
                        #[trigger] rows@[i],
                        page_size_presets()[i],
                        limit,
                    )
            },
            None => !open,
        },
{
    let presets: [u32; 5] = [100, 200, 500, 1_000, 5_000];
    let mut rows: Vec<PresetRow> = Vec::new();
    let mut i: usize = 0;
    while i < 5
        invariant
            i <= 5,
            presets@ == page_size_presets(),
            rows@.len() == i,
            forall|k: int|
                0 <= k < i ==> preset_is(#[trigger] rows@[k], page_size_presets()[k], limit),
        decreases 5 - i,
    {
        let size: u32 = presets[i];
        rows.push(
            PresetRow {
                size,
                label: decimal_text(size as u64),
                mark: if size == limit {
                    Some("•".to_string())
                } else {
                    None
                },
            },
        );
        i += 1;
    }
    PageSizeMenu {
        glyph: "⌄".to_string(),
        lit: open,
        menu: if open {
            Some(("Rows / page".to_string(), rows))
        } else {
            None
        },
    }
}

/// The summary is that of the rows, and counts those that are selected where there
/// are several.
pub proof fn the_summary_counts_the_selection(summary: Option<Seq<char>>, selected: nat)
    ensures
        ({
            let base = if summary is Some {
                summary->0
            } else {
                seq!['N', 'o', ' ', 'd', 'a', 't', 'a']
            };
            &&& selected <= 1 ==> summary_text(summary, selected) == base
            &&& selected > 1 ==> summary_text(summary, selected) == base + seq![' ', '·', ' '] + decimal(
                selected,
            ) + seq![' ', 's', 'e', 'l', 'e', 'c', 't', 'e', 'd']
        }),
{
    reveal_strlit("No data");
    reveal_strlit(" · ");
    reveal_strlit(" selected");
    assert("No data"@ == seq!['N', 'o', ' ', 'd', 'a', 't', 'a']);
    assert(" · "@ == seq![' ', '·', ' ']);
    assert(" selected"@ == seq![' ', 's', 'e', 'l', 'e', 'c', 't', 'e', 'd']);
}

/// The arrows stop at the two ends of the rows that are shown. Before there are any
/// both do; what a query brought has no last page.
pub proof fn the_arrows_stop_at_the_ends(page: Page, shown: Page, total: i64)
    ensures
        page_ends(page, Some(ResultSource::Table { page: shown, total_rows: Some(total) })) == (
            shown.offset == 0,
            total <= shown.offset + shown.limit,
        ),
        page_ends(page, Some(ResultSource::Table { page: shown, total_rows: None })) == (
            shown.offset == 0,
            false,
        ),
        page_ends(page, Some(ResultSource::Query)) == (page.offset == 0, false),
        page_ends(page, None) == (true, true),
{
}

/// The buttons are lit by what they show, the arrows point back and forward, and
/// the field shows what is typed over the size in force.
pub proof fn the_tools_are_lit_by_what_they_show(
    tools: TableTools,
    kind: ToolbarKind,
    page_size_focus: bool,
    edge: BarEdge,
)
    requires
        kind is Table,
        tools_of(tools, kind, page_size_focus, edge),
    ensures
        tools.data.label@ == seq!['D', 'a', 't', 'a'] && (tools.data.active <==> kind->pane is Data),
        tools.structure.label@ == seq!['S', 't', 'r', 'u', 'c', 't', 'u', 'r', 'e'] && (tools.structure.active
            <==> kind->pane is Structure),
        tools.filters.label@ == seq!['F', 'i', 'l', 't', 'e', 'r', 's'] && tools.filters.active == kind->filters_open,
        tools.columns.label@ == seq!['C', 'o', 'l', 'u', 'm', 'n', 's'] && tools.columns.active == kind->columns_open,
        tools.back.glyph@ == seq!['‹'] && tools.back.disabled == page_ends(
            kind->page,
            kind->source,
        ).0,
        tools.forward.glyph@ == seq!['›'] && tools.forward.disabled == page_ends(
            kind->page,
            kind->source,
        ).1,
        tools.page_size@ == kind->page_size_draft@,
        tools.page_size_hint@ == decimal(kind->page.limit as nat),
        tools.page_size_focused == page_size_focus,
{
    reveal_strlit("Data");
    reveal_strlit("Structure");
    reveal_strlit("Filters");
    reveal_strlit("Columns");
    reveal_strlit("‹");
    reveal_strlit("›");
    assert("Data"@ == seq!['D', 'a', 't', 'a']);
    assert("Structure"@ == seq!['S', 't', 'r', 'u', 'c', 't', 'u', 'r', 'e']);
    assert("Filters"@ == seq!['F', 'i', 'l', 't', 'e', 'r', 's']);
    assert("Columns"@ == seq!['C', 'o', 'l', 'u', 'm', 'n', 's']);
    assert("‹"@ == seq!['‹']);
    assert("›"@ == seq!['›']);
}

/// A tab has a bar with what there is to say of its rows, and a table's has its
/// tools.
pub proof fn a_table_has_its_tools(
    toolbar: Toolbar,
    tab: Option<ToolbarTab>,
    page_size_focus: bool,
    edge: BarEdge,
)
    requires
        toolbar_of(toolbar, tab, page_size_focus, edge),
    ensures
        toolbar is NoTab <==> tab is None,
        tab is Some ==> toolbar->summary@ == summary_text(opt(tab->0.summary), tab->0.selected as nat),
        tab is Some ==> (toolbar->tools is Some <==> tab->0.kind is Table),
        tab is Some ==> (toolbar->reloads <==> edge is Over),
{
}

/// The sizes on offer are a hundred to five thousand, from small to large; the one
/// in force alone is marked, and each is labelled as it is.
pub proof fn the_size_in_force_is_marked(row: PresetRow, i: int, limit: u32)
    requires
        0 <= i < page_size_presets().len(),
        preset_is(row, page_size_presets()[i], limit),
    ensures
        row.size == page_size_presets()[i],
        row.label@ == decimal(row.size as nat),
        row.mark is Some <==> row.size == limit,
        page_size_presets() == seq![100u32, 200u32, 500u32, 1_000u32, 5_000u32],
        i > 0 ==> page_size_presets()[i - 1] < page_size_presets()[i],
{
}

} // verus!
