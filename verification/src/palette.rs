//! Command palette: go-to-table, actions and themes.
use crate::context_menu::RowFormat;
use crate::domain::{ConnectionId, Status, TableRef};
use crate::keys::Keystroke;
use crate::text::{
    ascii_uppercase, contains, lemma_places_step, lowercase, occurs, opt, places_where, same, texts,
    the_empty_text_occurs_everywhere, to_ascii_uppercase, to_lowercase,
};
use crate::text_field::{focused_on, FocusState, InputTarget};
use crate::text_input::{line_input, TextInput};
use vstd::prelude::*;
use vstd::string::*;

verus! {

#[derive(Debug, Clone, Copy, PartialEq, Eq, Structural)]
pub enum PaletteKind {
    GoToTable,
    Actions,
    Themes,
}

#[derive(Debug)]
pub struct Palette {
    pub kind: PaletteKind,
    pub query: TextInput,
    pub selected: usize,
}

impl Palette {
    pub fn new(kind: PaletteKind) -> (palette: Self)
        ensures
            palette.kind == kind,
            palette.query@ == line_input(Seq::empty()),
            palette.selected == 0,
    {
        Palette { kind, query: TextInput::new(false), selected: 0 }
    }
}

/// Everything the palette can do.
#[derive(Debug, Clone, Copy, PartialEq, Eq, Structural)]
pub enum ActionId {
    NewConnection,
    ImportTablePlus,
    ConnectActive,
    DisconnectActive,
    CloseConnection,
    NextConnection,
    PrevConnection,
    RefreshCatalog,
    RefreshResult,
    OpenSql,
    RunQuery,
    RunAllQueries,
    GoToTable,
    SearchTables,
    SelectAllRows,
    AddRow,
    DeleteRows,
    CopyRowsTsv,
    CopyRowsJson,
    CopyRowsInsert,
    ClearSort,
    CommitChanges,
    DiscardChanges,
    ToggleFilters,
    ToggleColumns,
    ToggleDetail,
    PagePrev,
    PageNext,
    FocusSidebar,
    ClearSql,
    ChangeTheme,
    CloseTab,
    NextTab,
    PrevTab,
    ZoomIn,
    ZoomOut,
    ZoomReset,
}

/// The headings that rows stand under.
#[derive(Debug, Clone, Copy, PartialEq, Eq, Structural)]
pub enum Section {
    Tables,
    Themes,
    Navigate,
    Connection,
    Query,
    Rows,
    View,
}

/// The actions in the order they are listed.
pub open spec fn action_order() -> Seq<ActionId> {
    seq![
        ActionId::GoToTable,
        ActionId::SearchTables,
        ActionId::FocusSidebar,
        ActionId::NextTab,
        ActionId::PrevTab,
        ActionId::CloseTab,
        ActionId::NewConnection,
        ActionId::ImportTablePlus,
        ActionId::ConnectActive,
        ActionId::DisconnectActive,
        ActionId::NextConnection,
        ActionId::PrevConnection,
        ActionId::CloseConnection,
        ActionId::RefreshCatalog,
        ActionId::OpenSql,
        ActionId::RunQuery,
        ActionId::RunAllQueries,
        ActionId::ClearSql,
        ActionId::RefreshResult,
        ActionId::PagePrev,
        ActionId::PageNext,
        ActionId::SelectAllRows,
        ActionId::AddRow,
        ActionId::DeleteRows,
        ActionId::CopyRowsTsv,
        ActionId::CopyRowsJson,
        ActionId::CopyRowsInsert,
        ActionId::ClearSort,
        ActionId::CommitChanges,
        ActionId::DiscardChanges,
        ActionId::ToggleFilters,
        ActionId::ToggleColumns,
        ActionId::ToggleDetail,
        ActionId::ChangeTheme,
        ActionId::ZoomIn,
        ActionId::ZoomOut,
        ActionId::ZoomReset,
    ]
}

pub open spec fn label_of(id: ActionId) -> Seq<char> {
    match id {
        ActionId::GoToTable => "Go to Table…"@,
        ActionId::SearchTables => "Search Tables"@,
        ActionId::FocusSidebar => "Focus Sidebar"@,
        ActionId::NextTab => "Next Tab"@,
        ActionId::PrevTab => "Previous Tab"@,
        ActionId::CloseTab => "Close Tab"@,
        ActionId::NewConnection => "New Connection"@,
        ActionId::ImportTablePlus => "Import from TablePlus"@,
        ActionId::ConnectActive => "Connect Active"@,
        ActionId::DisconnectActive => "Disconnect Active"@,
        ActionId::NextConnection => "Next Connection"@,
        ActionId::PrevConnection => "Previous Connection"@,
        ActionId::CloseConnection => "Close Connection"@,
        ActionId::RefreshCatalog => "Refresh Catalog"@,
        ActionId::OpenSql => "New SQL Tab"@,
        ActionId::RunQuery => "Run Query"@,
        ActionId::RunAllQueries => "Run All Queries"@,
        ActionId::ClearSql => "Clear SQL Editor"@,
        ActionId::RefreshResult => "Refresh Result"@,
        ActionId::PagePrev => "Previous Page"@,
        ActionId::PageNext => "Next Page"@,
        ActionId::SelectAllRows => "Select All Rows"@,
        ActionId::AddRow => "New Row"@,
        ActionId::DeleteRows => "Delete Selected Rows"@,
        ActionId::CopyRowsTsv => "Copy Rows as TSV"@,
        ActionId::CopyRowsJson => "Copy Rows as JSON"@,
        ActionId::CopyRowsInsert => "Copy Rows as INSERT"@,
        ActionId::ClearSort => "Clear Sort"@,
        ActionId::CommitChanges => "Commit Changes"@,
        ActionId::DiscardChanges => "Discard Changes"@,
        ActionId::ToggleFilters => "Toggle Filters"@,
        ActionId::ToggleColumns => "Toggle Columns"@,
        ActionId::ToggleDetail => "Toggle Row Detail"@,
        ActionId::ChangeTheme => "Change Theme…"@,
        ActionId::ZoomIn => "Zoom In"@,
        ActionId::ZoomOut => "Zoom Out"@,
        ActionId::ZoomReset => "Actual Size"@,
    }
}

pub open spec fn shortcut_of(id: ActionId) -> Option<Seq<char>> {
    match id {
        ActionId::GoToTable => Some("⌘P"@),
        ActionId::SearchTables => Some("⌘⇧F"@),
        ActionId::FocusSidebar => Some("Esc"@),
        ActionId::NextTab => Some("⌃⇥"@),
        ActionId::PrevTab => Some("⌃⇧⇥"@),
        ActionId::CloseTab => Some("⌘W"@),
        ActionId::NewConnection => Some("⌘N"@),
        ActionId::NextConnection => Some("⌘⌥]"@),
        ActionId::PrevConnection => Some("⌘⌥["@),
        ActionId::CloseConnection => Some("⌘⇧W"@),
        ActionId::OpenSql => Some("⌘E"@),
        ActionId::RunQuery => Some("⌘↵"@),
        ActionId::RunAllQueries => Some("⌘⇧↵"@),
        ActionId::ClearSql => Some("⌘K"@),
        ActionId::RefreshResult => Some("⌘R"@),
        ActionId::PagePrev => Some("⌘["@),
        ActionId::PageNext => Some("⌘]"@),
        ActionId::SelectAllRows => Some("⌘A"@),
        ActionId::DeleteRows => Some("⌘⌫"@),
        ActionId::CopyRowsTsv => Some("⌘C"@),
        ActionId::CommitChanges => Some("⌘S"@),
        ActionId::DiscardChanges => Some("⌘Z"@),
        ActionId::ChangeTheme => Some("⌘⇧T"@),
        ActionId::ZoomIn => Some("⌘+"@),
        ActionId::ZoomOut => Some("⌘-"@),
        ActionId::ZoomReset => Some("⌘0"@),
        _ => None,
    }
}

pub open spec fn section_of(id: ActionId) -> Section {
    match id {
        ActionId::GoToTable => Section::Navigate,
        ActionId::SearchTables => Section::Navigate,
        ActionId::FocusSidebar => Section::Navigate,
        ActionId::NextTab => Section::Navigate,
        ActionId::PrevTab => Section::Navigate,
        ActionId::CloseTab => Section::Navigate,
        ActionId::NewConnection => Section::Connection,
        ActionId::ImportTablePlus => Section::Connection,
        ActionId::ConnectActive => Section::Connection,
        ActionId::DisconnectActive => Section::Connection,
        ActionId::NextConnection => Section::Connection,
        ActionId::PrevConnection => Section::Connection,
        ActionId::CloseConnection => Section::Connection,
        ActionId::RefreshCatalog => Section::Connection,
        ActionId::OpenSql => Section::Query,
        ActionId::RunQuery => Section::Query,
        ActionId::RunAllQueries => Section::Query,
        ActionId::ClearSql => Section::Query,
        ActionId::RefreshResult => Section::Query,
        ActionId::PagePrev => Section::Query,
        ActionId::PageNext => Section::Query,
        ActionId::SelectAllRows => Section::Rows,
        ActionId::AddRow => Section::Rows,
        ActionId::DeleteRows => Section::Rows,
        ActionId::CopyRowsTsv => Section::Rows,
        ActionId::CopyRowsJson => Section::Rows,
        ActionId::CopyRowsInsert => Section::Rows,
        ActionId::ClearSort => Section::Rows,
        ActionId::CommitChanges => Section::Rows,
        ActionId::DiscardChanges => Section::Rows,
        ActionId::ToggleFilters => Section::View,
        ActionId::ToggleColumns => Section::View,
        ActionId::ToggleDetail => Section::View,
        ActionId::ChangeTheme => Section::View,
        ActionId::ZoomIn => Section::View,
        ActionId::ZoomOut => Section::View,
        ActionId::ZoomReset => Section::View,
    }
}

/// The actions in the order they are listed.
pub fn actions() -> (list: Vec<ActionId>)
    ensures
        list@ == action_order(),
{
    let list = vec![
        ActionId::GoToTable,
        ActionId::SearchTables,
        ActionId::FocusSidebar,
        ActionId::NextTab,
        ActionId::PrevTab,
        ActionId::CloseTab,
        ActionId::NewConnection,
        ActionId::ImportTablePlus,
        ActionId::ConnectActive,
        ActionId::DisconnectActive,
        ActionId::NextConnection,
        ActionId::PrevConnection,
        ActionId::CloseConnection,
        ActionId::RefreshCatalog,
        ActionId::OpenSql,
        ActionId::RunQuery,
        ActionId::RunAllQueries,
        ActionId::ClearSql,
        ActionId::RefreshResult,
        ActionId::PagePrev,
        ActionId::PageNext,
        ActionId::SelectAllRows,
        ActionId::AddRow,
        ActionId::DeleteRows,
        ActionId::CopyRowsTsv,
        ActionId::CopyRowsJson,
        ActionId::CopyRowsInsert,
        ActionId::ClearSort,
        ActionId::CommitChanges,
        ActionId::DiscardChanges,
        ActionId::ToggleFilters,
        ActionId::ToggleColumns,
        ActionId::ToggleDetail,
        ActionId::ChangeTheme,
        ActionId::ZoomIn,
        ActionId::ZoomOut,
        ActionId::ZoomReset,
    ];
    assert(list@ == action_order());
    list
}

impl ActionId {
    pub fn label(self) -> (label: &'static str)
        ensures
            label@ == label_of(self),
    {
        match self {
            ActionId::GoToTable => "Go to Table…",
            ActionId::SearchTables => "Search Tables",
            ActionId::FocusSidebar => "Focus Sidebar",
            ActionId::NextTab => "Next Tab",
            ActionId::PrevTab => "Previous Tab",
            ActionId::CloseTab => "Close Tab",
            ActionId::NewConnection => "New Connection",
            ActionId::ImportTablePlus => "Import from TablePlus",
            ActionId::ConnectActive => "Connect Active",
            ActionId::DisconnectActive => "Disconnect Active",
            ActionId::NextConnection => "Next Connection",
            ActionId::PrevConnection => "Previous Connection",
            ActionId::CloseConnection => "Close Connection",
            ActionId::RefreshCatalog => "Refresh Catalog",
            ActionId::OpenSql => "New SQL Tab",
            ActionId::RunQuery => "Run Query",
            ActionId::RunAllQueries => "Run All Queries",
            ActionId::ClearSql => "Clear SQL Editor",
            ActionId::RefreshResult => "Refresh Result",
            ActionId::PagePrev => "Previous Page",
            ActionId::PageNext => "Next Page",
            ActionId::SelectAllRows => "Select All Rows",
            ActionId::AddRow => "New Row",
            ActionId::DeleteRows => "Delete Selected Rows",
            ActionId::CopyRowsTsv => "Copy Rows as TSV",
            ActionId::CopyRowsJson => "Copy Rows as JSON",
            ActionId::CopyRowsInsert => "Copy Rows as INSERT",
            ActionId::ClearSort => "Clear Sort",
            ActionId::CommitChanges => "Commit Changes",
            ActionId::DiscardChanges => "Discard Changes",
            ActionId::ToggleFilters => "Toggle Filters",
            ActionId::ToggleColumns => "Toggle Columns",
            ActionId::ToggleDetail => "Toggle Row Detail",
            ActionId::ChangeTheme => "Change Theme…",
            ActionId::ZoomIn => "Zoom In",
            ActionId::ZoomOut => "Zoom Out",
            ActionId::ZoomReset => "Actual Size",
        }
    }

    pub fn shortcut(self) -> (shortcut: Option<&'static str>)
        ensures
            match (shortcut, shortcut_of(self)) {
                (Some(keys), Some(expected)) => keys@ == expected,
                (None, None) => true,
                _ => false,
            },
    {
        match self {
            ActionId::GoToTable => Some("⌘P"),
            ActionId::SearchTables => Some("⌘⇧F"),
            ActionId::FocusSidebar => Some("Esc"),
            ActionId::NextTab => Some("⌃⇥"),
            ActionId::PrevTab => Some("⌃⇧⇥"),
            ActionId::CloseTab => Some("⌘W"),
            ActionId::NewConnection => Some("⌘N"),
            ActionId::NextConnection => Some("⌘⌥]"),
            ActionId::PrevConnection => Some("⌘⌥["),
            ActionId::CloseConnection => Some("⌘⇧W"),
            ActionId::OpenSql => Some("⌘E"),
            ActionId::RunQuery => Some("⌘↵"),
            ActionId::RunAllQueries => Some("⌘⇧↵"),
            ActionId::ClearSql => Some("⌘K"),
            ActionId::RefreshResult => Some("⌘R"),
            ActionId::PagePrev => Some("⌘["),
            ActionId::PageNext => Some("⌘]"),
            ActionId::SelectAllRows => Some("⌘A"),
            ActionId::DeleteRows => Some("⌘⌫"),
            ActionId::CopyRowsTsv => Some("⌘C"),
            ActionId::CommitChanges => Some("⌘S"),
            ActionId::DiscardChanges => Some("⌘Z"),
            ActionId::ChangeTheme => Some("⌘⇧T"),
            ActionId::ZoomIn => Some("⌘+"),
            ActionId::ZoomOut => Some("⌘-"),
            ActionId::ZoomReset => Some("⌘0"),
            _ => None,
        }
    }

    pub fn section(self) -> (section: Section)
        ensures
            section == section_of(self),
    {
        match self {
            ActionId::GoToTable => Section::Navigate,
            ActionId::SearchTables => Section::Navigate,
            ActionId::FocusSidebar => Section::Navigate,
            ActionId::NextTab => Section::Navigate,
            ActionId::PrevTab => Section::Navigate,
            ActionId::CloseTab => Section::Navigate,
            ActionId::NewConnection => Section::Connection,
            ActionId::ImportTablePlus => Section::Connection,
            ActionId::ConnectActive => Section::Connection,
            ActionId::DisconnectActive => Section::Connection,
            ActionId::NextConnection => Section::Connection,
            ActionId::PrevConnection => Section::Connection,
            ActionId::CloseConnection => Section::Connection,
            ActionId::RefreshCatalog => Section::Connection,
            ActionId::OpenSql => Section::Query,
            ActionId::RunQuery => Section::Query,
            ActionId::RunAllQueries => Section::Query,
            ActionId::ClearSql => Section::Query,
            ActionId::RefreshResult => Section::Query,
            ActionId::PagePrev => Section::Query,
            ActionId::PageNext => Section::Query,
            ActionId::SelectAllRows => Section::Rows,
            ActionId::AddRow => Section::Rows,
            ActionId::DeleteRows => Section::Rows,
            ActionId::CopyRowsTsv => Section::Rows,
            ActionId::CopyRowsJson => Section::Rows,
            ActionId::CopyRowsInsert => Section::Rows,
            ActionId::ClearSort => Section::Rows,
            ActionId::CommitChanges => Section::Rows,
            ActionId::DiscardChanges => Section::Rows,
            ActionId::ToggleFilters => Section::View,
            ActionId::ToggleColumns => Section::View,
            ActionId::ToggleDetail => Section::View,
            ActionId::ChangeTheme => Section::View,
            ActionId::ZoomIn => Section::View,
            ActionId::ZoomOut => Section::View,
            ActionId::ZoomReset => Section::View,
        }
    }
}

/// An action's place in the list.
pub open spec fn listed_at(id: ActionId) -> int {
    match id {
        ActionId::GoToTable => 0,
        ActionId::SearchTables => 1,
        ActionId::FocusSidebar => 2,
        ActionId::NextTab => 3,
        ActionId::PrevTab => 4,
        ActionId::CloseTab => 5,
        ActionId::NewConnection => 6,
        ActionId::ImportTablePlus => 7,
        ActionId::ConnectActive => 8,
        ActionId::DisconnectActive => 9,
        ActionId::NextConnection => 10,
        ActionId::PrevConnection => 11,
        ActionId::CloseConnection => 12,
        ActionId::RefreshCatalog => 13,
        ActionId::OpenSql => 14,
        ActionId::RunQuery => 15,
        ActionId::RunAllQueries => 16,
        ActionId::ClearSql => 17,
        ActionId::RefreshResult => 18,
        ActionId::PagePrev => 19,
        ActionId::PageNext => 20,
        ActionId::SelectAllRows => 21,
        ActionId::AddRow => 22,
        ActionId::DeleteRows => 23,
        ActionId::CopyRowsTsv => 24,
        ActionId::CopyRowsJson => 25,
        ActionId::CopyRowsInsert => 26,
        ActionId::ClearSort => 27,
        ActionId::CommitChanges => 28,
        ActionId::DiscardChanges => 29,
        ActionId::ToggleFilters => 30,
        ActionId::ToggleColumns => 31,
        ActionId::ToggleDetail => 32,
        ActionId::ChangeTheme => 33,
        ActionId::ZoomIn => 34,
        ActionId::ZoomOut => 35,
        ActionId::ZoomReset => 36,
    }
}

/// Every action is listed, and each only once.
pub proof fn every_action_is_listed_once(id: ActionId, i: int)
    requires
        0 <= i < action_order().len(),
    ensures
        0 <= listed_at(id) < action_order().len(),
        action_order()[listed_at(id)] == id,
        listed_at(action_order()[i]) == i,
{
}

pub open spec fn section_name(section: Section) -> Seq<char> {
    match section {
        Section::Tables => "Tables"@,
        Section::Themes => "Themes"@,
        Section::Navigate => "Navigate"@,
        Section::Connection => "Connection"@,
        Section::Query => "Query"@,
        Section::Rows => "Rows"@,
        Section::View => "View"@,
    }
}

impl Section {
    pub fn name(self) -> (name: &'static str)
        ensures
            name@ == section_name(self),
    {
        match self {
            Section::Tables => "Tables",
            Section::Themes => "Themes",
            Section::Navigate => "Navigate",
            Section::Connection => "Connection",
            Section::Query => "Query",
            Section::Rows => "Rows",
            Section::View => "View",
        }
    }

    /// The heading that rows of the section stand under, in capitals.
    pub fn header(self) -> (header: String)
        ensures
            header@ == ascii_uppercase(section_name(self)),
    {
        to_ascii_uppercase(self.name())
    }
}

/// What decides which actions can be run.
#[derive(Debug, Clone, Copy)]
pub struct ActionContext {
    /// A connection is selected.
    pub has_active: bool,
    /// Its last known status is connected.
    pub active_connected: bool,
    /// There is a live connection to it.
    pub connected: bool,
    pub open_connections: usize,
    /// The front tab is a table's, or a query's.
    pub is_table: bool,
    pub is_sql: bool,
    /// The front tab has a result, and the result has rows.
    pub has_result: bool,
    pub has_rows: bool,
    pub has_selection: bool,
    pub is_sorted: bool,
    /// Edits or deletes are staged.
    pub has_changes: bool,
}

pub open spec fn enabled_in(context: ActionContext, id: ActionId) -> bool {
    match id {
        ActionId::ConnectActive => context.has_active && !context.active_connected,
        ActionId::DisconnectActive => context.connected,
        ActionId::RefreshCatalog => context.connected,
        ActionId::CloseConnection => context.has_active,
        ActionId::NextConnection => context.open_connections > 1,
        ActionId::PrevConnection => context.open_connections > 1,
        ActionId::RefreshResult => context.connected && (context.is_table || context.is_sql),
        ActionId::RunQuery => context.is_sql,
        ActionId::RunAllQueries => context.is_sql,
        ActionId::ClearSql => context.is_sql,
        ActionId::ToggleFilters => context.is_table,
        ActionId::ToggleColumns => context.is_table,
        ActionId::PagePrev => context.is_table,
        ActionId::PageNext => context.is_table,
        ActionId::SelectAllRows => context.has_result && context.has_rows,
        ActionId::DeleteRows => context.is_table && context.has_selection,
        ActionId::AddRow => context.is_table && context.has_result,
        ActionId::CopyRowsTsv => context.has_result && context.has_rows,
        ActionId::CopyRowsJson => context.has_result && context.has_rows,
        ActionId::CopyRowsInsert => context.has_result && context.has_rows,
        ActionId::ClearSort => context.is_sorted,
        ActionId::CommitChanges => context.has_changes,
        ActionId::DiscardChanges => context.has_changes,
        _ => true,
    }
}

/// Whether an action can be run where the app stands.
pub fn action_enabled(context: ActionContext, id: ActionId) -> (enabled: bool)
    ensures
        enabled == enabled_in(context, id),
{
    match id {
        ActionId::ConnectActive => context.has_active && !context.active_connected,
        ActionId::DisconnectActive | ActionId::RefreshCatalog => context.connected,
        ActionId::CloseConnection => context.has_active,
        // Nothing to step to with one open, or none.
        ActionId::NextConnection | ActionId::PrevConnection => context.open_connections > 1,
        ActionId::RefreshResult => context.connected && (context.is_table || context.is_sql),
        ActionId::RunQuery | ActionId::RunAllQueries | ActionId::ClearSql => context.is_sql,
        ActionId::ToggleFilters
        | ActionId::ToggleColumns
        | ActionId::PagePrev
        | ActionId::PageNext => context.is_table,
        // Selecting needs rows on screen, from either kind of tab.
        ActionId::SelectAllRows
        | ActionId::CopyRowsTsv
        | ActionId::CopyRowsJson
        | ActionId::CopyRowsInsert => context.has_result && context.has_rows,
        ActionId::DeleteRows => context.is_table && context.has_selection,
        ActionId::AddRow => context.is_table && context.has_result,
        ActionId::ClearSort => context.is_sorted,
        ActionId::CommitChanges | ActionId::DiscardChanges => context.has_changes,
        _ => true,
    }
}

/// One row of the palette: a table or a theme by its place among those on offer,
/// or an action.
#[derive(Debug, Clone, Copy, PartialEq, Eq, Structural)]
pub enum PaletteRow {
    Table(usize),
    Action { id: ActionId, enabled: bool },
    Theme(usize),
}

pub open spec fn row_section(row: PaletteRow) -> Section {
    match row {
        PaletteRow::Table(_) => Section::Tables,
        PaletteRow::Theme(_) => Section::Themes,
        PaletteRow::Action { id, .. } => section_of(id),
    }
}

impl PaletteRow {
    pub fn section(&self) -> (section: Section)
        ensures
            section == row_section(*self),
    {
        match self {
            PaletteRow::Table(_) => Section::Tables,
            PaletteRow::Theme(_) => Section::Themes,
            PaletteRow::Action { id, .. } => id.section(),
        }
    }
}

/// A table that can be gone to, under its qualified name.
#[derive(Debug)]
pub struct TableEntry {
    pub table: TableRef,
    pub qualified: String,
}

#[derive(Debug)]
pub struct ThemeEntry {
    pub id: String,
    pub label: String,
}

/// What the palette can list.
#[derive(Debug)]
pub struct PaletteSource {
    /// The tables of the active connection; none before its catalog is there.
    pub tables: Vec<TableEntry>,
    pub context: ActionContext,
    pub themes: Vec<ThemeEntry>,
}

/// What the rows are matched by, in lower case: for each table its qualified and
/// its own name, for each action its label, for each theme its label and its id.
#[derive(Debug)]
pub struct Lowered {
    pub query: String,
    pub tables: Vec<(String, String)>,
    pub actions: Vec<String>,
    pub themes: Vec<(String, String)>,
}

/// What the rows are matched by.
pub struct LoweredView {
    pub query: Seq<char>,
    pub tables: Seq<(Seq<char>, Seq<char>)>,
    pub actions: Seq<Seq<char>>,
    pub themes: Seq<(Seq<char>, Seq<char>)>,
}

pub open spec fn pairs(list: Seq<(String, String)>) -> Seq<(Seq<char>, Seq<char>)> {
    Seq::new(list.len(), |i: int| (list[i].0@, list[i].1@))
}

impl View for Lowered {
    type V = LoweredView;

    open spec fn view(&self) -> LoweredView {
        LoweredView {
            query: self.query@,
            tables: pairs(self.tables@),
            actions: texts(self.actions@),
            themes: pairs(self.themes@),
        }
    }
}

/// An entry matches where either of its texts holds the query.
pub open spec fn pair_matches(pair: (Seq<char>, Seq<char>), query: Seq<char>) -> bool {
    query.len() == 0 || occurs(pair.0, query) || occurs(pair.1, query)
}

pub open spec fn label_matches(label: Seq<char>, query: Seq<char>) -> bool {
    query.len() == 0 || occurs(label, query)
}

/// The tables among the first `upto` that match.
pub open spec fn matching_tables(lowered: LoweredView, upto: int) -> Seq<PaletteRow>
    decreases upto,
{
    if upto <= 0 {
        Seq::empty()
    } else {
        let before = matching_tables(lowered, upto - 1);
        if pair_matches(lowered.tables[upto - 1], lowered.query) {
            before.push(PaletteRow::Table((upto - 1) as usize))
        } else {
            before
        }
    }
}

/// The themes among the first `upto` that match.
pub open spec fn matching_themes(lowered: LoweredView, upto: int) -> Seq<PaletteRow>
    decreases upto,
{
    if upto <= 0 {
        Seq::empty()
    } else {
        let before = matching_themes(lowered, upto - 1);
        if pair_matches(lowered.themes[upto - 1], lowered.query) {
            before.push(PaletteRow::Theme((upto - 1) as usize))
        } else {
            before
        }
    }
}

/// The actions among the first `upto` that match.
pub open spec fn matching_actions(
    lowered: LoweredView,
    context: ActionContext,
    upto: int,
) -> Seq<PaletteRow>
    decreases upto,
{
    if upto <= 0 {
        Seq::empty()
    } else {
        let before = matching_actions(lowered, context, upto - 1);
        if label_matches(lowered.actions[upto - 1], lowered.query) {
            let id = action_order()[upto - 1];
            before.push(PaletteRow::Action { id, enabled: enabled_in(context, id) })
        } else {
            before
        }
    }
}

/// The rows that match the query, in the order they are listed.
pub open spec fn matching(
    kind: PaletteKind,
    lowered: LoweredView,
    context: ActionContext,
) -> Seq<PaletteRow> {
    match kind {
        PaletteKind::GoToTable => matching_tables(lowered, lowered.tables.len() as int),
        PaletteKind::Actions => matching_actions(
            lowered,
            context,
            action_order().len() as int,
        ),
        PaletteKind::Themes => matching_themes(lowered, lowered.themes.len() as int),
    }
}

fn either_holds(pair: &(String, String), query: &str) -> (holds: bool)
    ensures
        holds == pair_matches((pair.0@, pair.1@), query@),
{
    query.is_empty() || contains(pair.0.as_str(), query) || contains(pair.1.as_str(), query)
}

/// The rows that match, from texts that are in lower case already.
pub fn matching_rows(kind: PaletteKind, lowered: &Lowered, context: ActionContext) -> (rows: Vec<
    PaletteRow,
>)
    requires
        lowered.actions@.len() == action_order().len(),
    ensures
        rows@ == matching(kind, lowered@, context),
{
    let query = lowered.query.as_str();
    let mut rows: Vec<PaletteRow> = Vec::new();
    let mut i: usize = 0;
    match kind {
        PaletteKind::GoToTable => {
            while i < lowered.tables.len()
                invariant
                    i <= lowered.tables@.len(),
                    query@ == lowered.query@,
                    rows@ == matching_tables(lowered@, i as int),
                decreases lowered.tables@.len() - i,
            {
                assert(lowered@.tables[i as int] == (
                    lowered.tables@[i as int].0@,
                    lowered.tables@[i as int].1@,
                ));
                if either_holds(&lowered.tables[i], query) {
                    rows.push(PaletteRow::Table(i));
                }
                i += 1;
            }
        },
        PaletteKind::Actions => {
            let order = actions();
            while i < order.len()
                invariant
                    i <= order@.len(),
                    order@ == action_order(),
                    lowered.actions@.len() == order@.len(),
                    query@ == lowered.query@,
                    rows@ == matching_actions(lowered@, context, i as int),
                decreases order@.len() - i,
            {
                assert(lowered@.actions[i as int] == lowered.actions@[i as int]@);
                if query.is_empty() || contains(lowered.actions[i].as_str(), query) {
                    let id = order[i];
                    rows.push(PaletteRow::Action { id, enabled: action_enabled(context, id) });
                }
                i += 1;
            }
        },
        PaletteKind::Themes => {
            while i < lowered.themes.len()
                invariant
                    i <= lowered.themes@.len(),
                    query@ == lowered.query@,
                    rows@ == matching_themes(lowered@, i as int),
                decreases lowered.themes@.len() - i,
            {
                assert(lowered@.themes[i as int] == (
                    lowered.themes@[i as int].0@,
                    lowered.themes@[i as int].1@,
                ));
                if either_holds(&lowered.themes[i], query) {
                    rows.push(PaletteRow::Theme(i));
                }
                i += 1;
            }
        },
    }
    rows
}

/// The source's texts in lower case. A theme's id is matched as it is.
pub open spec fn lowered_source(query: Seq<char>, source: PaletteSource) -> LoweredView {
    LoweredView {
        query: lowercase(query),
        tables: Seq::new(
            source.tables@.len(),
            |i: int|
                (
                    lowercase(source.tables@[i].qualified@),
                    lowercase(source.tables@[i].table.name@),
                ),
        ),
        actions: Seq::new(action_order().len(), |i: int| lowercase(label_of(action_order()[i]))),
        themes: Seq::new(
            source.themes@.len(),
            |i: int| (lowercase(source.themes@[i].label@), source.themes@[i].id@),
        ),
    }
}

fn lower_source(query: &str, source: &PaletteSource) -> (lowered: Lowered)
    ensures
        lowered@ == lowered_source(query@, *source),
        lowered.actions@.len() == action_order().len(),
{
    let mut tables: Vec<(String, String)> = Vec::new();
    let mut i: usize = 0;
    while i < source.tables.len()
        invariant
            i <= source.tables@.len(),
            tables@.len() == i,
            forall|k: int|
                0 <= k < i ==> (#[trigger] tables@[k]).0@ == lowercase(
                    source.tables@[k].qualified@,
                ) && tables@[k].1@ == lowercase(source.tables@[k].table.name@),
        decreases source.tables@.len() - i,
    {
        let entry = &source.tables[i];
        tables.push(
            (to_lowercase(entry.qualified.as_str()), to_lowercase(entry.table.name.as_str())),
        );
        i += 1;
    }
    let order = actions();
    let mut labels: Vec<String> = Vec::new();
    let mut a: usize = 0;
    while a < order.len()
        invariant
            a <= order@.len(),
            order@ == action_order(),
            labels@.len() == a,
            forall|k: int|
                0 <= k < a ==> (#[trigger] labels@[k])@ == lowercase(label_of(order@[k])),
        decreases order@.len() - a,
    {
        labels.push(to_lowercase(order[a].label()));
        a += 1;
    }
    let mut themes: Vec<(String, String)> = Vec::new();
    let mut t: usize = 0;
    while t < source.themes.len()
        invariant
            t <= source.themes@.len(),
            themes@.len() == t,
            forall|k: int|
                0 <= k < t ==> (#[trigger] themes@[k]).0@ == lowercase(source.themes@[k].label@)
                    && themes@[k].1@ == source.themes@[k].id@,
        decreases source.themes@.len() - t,
    {
        let entry = &source.themes[t];
        themes.push((to_lowercase(entry.label.as_str()), entry.id.as_str().to_string()));
        t += 1;
    }
    let lowered = Lowered { query: to_lowercase(query), tables, actions: labels, themes };
    proof {
        let expected = lowered_source(query@, *source);
        assert(lowered@.tables == expected.tables);
        assert(lowered@.actions == expected.actions);
        assert(lowered@.themes == expected.themes);
    }
    lowered
}

/// The rows that an open palette lists.
pub open spec fn rows_of(palette: Palette, source: PaletteSource) -> Seq<PaletteRow> {
    matching(palette.kind, lowered_source(palette.query@.text, source), source.context)
}

/// The rows that the palette lists for what has been typed.
pub fn palette_rows(kind: PaletteKind, query: &str, source: &PaletteSource) -> (rows: Vec<
    PaletteRow,
>)
    ensures
        rows@ == matching(kind, lowered_source(query@, *source), source.context),
{
    let lowered = lower_source(query, source);
    matching_rows(kind, &lowered, source.context)
}

proof fn lemma_all_tables_match(lowered: LoweredView, upto: int)
    requires
        lowered.query.len() == 0,
        0 <= upto,
    ensures
        matching_tables(lowered, upto).len() == upto,
        matching_themes(lowered, upto).len() == upto,
    decreases upto,
{
    if upto > 0 {
        lemma_all_tables_match(lowered, upto - 1);
    }
}

proof fn lemma_all_actions_match(lowered: LoweredView, context: ActionContext, upto: int)
    requires
        lowered.query.len() == 0,
        0 <= upto,
    ensures
        matching_actions(lowered, context, upto).len() == upto,
    decreases upto,
{
    if upto > 0 {
        lemma_all_actions_match(lowered, context, upto - 1);
    }
}

/// Nothing typed lists everything there is.
pub proof fn an_empty_query_lists_everything(lowered: LoweredView, context: ActionContext)
    requires
        lowered.query.len() == 0,
    ensures
        matching(PaletteKind::GoToTable, lowered, context).len() == lowered.tables.len(),
        matching(PaletteKind::Actions, lowered, context).len() == action_order().len(),
        matching(PaletteKind::Themes, lowered, context).len() == lowered.themes.len(),
{
    lemma_all_tables_match(lowered, lowered.tables.len() as int);
    lemma_all_tables_match(lowered, lowered.themes.len() as int);
    lemma_all_actions_match(lowered, context, action_order().len() as int);
}

proof fn lemma_rows_in_range(lowered: LoweredView, context: ActionContext, upto: int)
    requires
        0 <= upto <= usize::MAX,
    ensures
        forall|i: int|
            0 <= i < matching_tables(lowered, upto).len() ==> ((#[trigger] matching_tables(
                lowered,
                upto,
            )[i]) matches PaletteRow::Table(at) && at < upto),
        forall|i: int|
            0 <= i < matching_themes(lowered, upto).len() ==> ((#[trigger] matching_themes(
                lowered,
                upto,
            )[i]) matches PaletteRow::Theme(at) && at < upto),
        forall|i: int|
            0 <= i < matching_actions(lowered, context, upto).len() ==> (
            #[trigger] matching_actions(lowered, context, upto)[i]) is Action,
    decreases upto,
{
    if upto > 0 {
        lemma_rows_in_range(lowered, context, upto - 1);
    }
}

/// The lowered query stands in the qualified name or in the own name of the table
/// there, both lowered.
pub open spec fn table_is_named(source: PaletteSource, query: Seq<char>) -> spec_fn(int) -> bool {
    |i: int|
        occurs(lowercase(source.tables@[i].qualified@), lowercase(query)) || occurs(
            lowercase(source.tables@[i].table.name@),
            lowercase(query),
        )
}

/// The lowered query stands in the lowered label or in the id of the theme there.
pub open spec fn theme_is_named(source: PaletteSource, query: Seq<char>) -> spec_fn(int) -> bool {
    |i: int|
        occurs(lowercase(source.themes@[i].label@), lowercase(query)) || occurs(
            source.themes@[i].id@,
            lowercase(query),
        )
}

/// The lowered query stands in the lowered label of the action there.
pub open spec fn action_is_named(query: Seq<char>) -> spec_fn(int) -> bool {
    |i: int| occurs(lowercase(label_of(action_order()[i])), lowercase(query))
}

proof fn lemma_empty_query(hay: Seq<char>, query: Seq<char>)
    ensures
        query.len() == 0 ==> occurs(hay, query),
{
    the_empty_text_occurs_everywhere(hay);
    if query.len() == 0 {
        assert(query == Seq::<char>::empty());
    }
}

proof fn lemma_tables_found(source: PaletteSource, query: Seq<char>, upto: int) -> (places: Seq<int>)
    requires
        0 <= upto <= source.tables@.len() <= usize::MAX,
    ensures
        places_where(places, upto, table_is_named(source, query)),
        matching_tables(lowered_source(query, source), upto) == Seq::new(
            places.len(),
            |j: int| PaletteRow::Table(places[j] as usize),
        ),
    decreases upto,
{
    let lowered = lowered_source(query, source);
    if upto == 0 {
        let places = Seq::<int>::empty();
        assert(matching_tables(lowered, upto) == Seq::new(
            places.len(),
            |j: int| PaletteRow::Table(places[j] as usize),
        ));
        places
    } else {
        let n = upto - 1;
        let before = lemma_tables_found(source, query, n);
        lemma_places_step(before, n, table_is_named(source, query));
        lemma_empty_query(lowered.tables[n].0, lowered.query);
        let places = if table_is_named(source, query)(n) {
            before.push(n)
        } else {
            before
        };
        assert(matching_tables(lowered, upto) == Seq::new(
            places.len(),
            |j: int| PaletteRow::Table(places[j] as usize),
        ));
        places
    }
}

proof fn lemma_themes_found(source: PaletteSource, query: Seq<char>, upto: int) -> (places: Seq<int>)
    requires
        0 <= upto <= source.themes@.len() <= usize::MAX,
    ensures
        places_where(places, upto, theme_is_named(source, query)),
        matching_themes(lowered_source(query, source), upto) == Seq::new(
            places.len(),
            |j: int| PaletteRow::Theme(places[j] as usize),
        ),
    decreases upto,
{
    let lowered = lowered_source(query, source);
    if upto == 0 {
        let places = Seq::<int>::empty();
        assert(matching_themes(lowered, upto) == Seq::new(
            places.len(),
            |j: int| PaletteRow::Theme(places[j] as usize),
        ));
        places
    } else {
        let n = upto - 1;
        let before = lemma_themes_found(source, query, n);
        lemma_places_step(before, n, theme_is_named(source, query));
        lemma_empty_query(lowered.themes[n].0, lowered.query);
        let places = if theme_is_named(source, query)(n) {
            before.push(n)
        } else {
            before
        };
        assert(matching_themes(lowered, upto) == Seq::new(
            places.len(),
            |j: int| PaletteRow::Theme(places[j] as usize),
        ));
        places
    }
}

proof fn lemma_actions_found(
    source: PaletteSource,
    query: Seq<char>,
    context: ActionContext,
    upto: int,
) -> (places: Seq<int>)
    requires
        0 <= upto <= action_order().len(),
    ensures
        places_where(places, upto, action_is_named(query)),
        matching_actions(lowered_source(query, source), context, upto) == Seq::new(
            places.len(),
            |j: int|
                PaletteRow::Action {
                    id: action_order()[places[j]],
                    enabled: enabled_in(context, action_order()[places[j]]),
                },
        ),
    decreases upto,
{
    let lowered = lowered_source(query, source);
    if upto == 0 {
        let places = Seq::<int>::empty();
        assert(matching_actions(lowered, context, upto) == Seq::new(
            places.len(),
            |j: int|
                PaletteRow::Action {
                    id: action_order()[places[j]],
                    enabled: enabled_in(context, action_order()[places[j]]),
                },
        ));
        places
    } else {
        let n = upto - 1;
        let before = lemma_actions_found(source, query, context, n);
        lemma_places_step(before, n, action_is_named(query));
        lemma_empty_query(lowered.actions[n], lowered.query);
        let places = if action_is_named(query)(n) {
            before.push(n)
        } else {
            before
        };
        assert(matching_actions(lowered, context, upto) == Seq::new(
            places.len(),
            |j: int|
                PaletteRow::Action {
                    id: action_order()[places[j]],
                    enabled: enabled_in(context, action_order()[places[j]]),
                },
        ));
        places
    }
}

/// A table is found by its qualified name and by its own, whatever the case: it is
/// listed exactly when what is typed stands in one of them, and the rows are in
/// the order of the tables.
pub proof fn tables_are_found_by_either_name(query: Seq<char>, source: PaletteSource)
    requires
        source.tables@.len() <= usize::MAX,
    ensures
        ({
            let rows = matching(
                PaletteKind::GoToTable,
                lowered_source(query, source),
                source.context,
            );
            &&& forall|i: int|
                #![trigger source.tables@[i]]
                0 <= i < source.tables@.len() ==> (rows.contains(PaletteRow::Table(i as usize))
                    <==> occurs(lowercase(source.tables@[i].qualified@), lowercase(query))
                    || occurs(lowercase(source.tables@[i].table.name@), lowercase(query)))
            &&& exists|places: Seq<int>|
                #[trigger] places_where(
                    places,
                    source.tables@.len() as int,
                    table_is_named(source, query),
                ) && rows == Seq::new(
                    places.len(),
                    |j: int| PaletteRow::Table(places[j] as usize),
                )
        }),
{
    let rows = matching(PaletteKind::GoToTable, lowered_source(query, source), source.context);
    let places = lemma_tables_found(source, query, source.tables@.len() as int);
    assert(lowered_source(query, source).tables.len() == source.tables@.len());
    assert forall|i: int|
        #![trigger source.tables@[i]]
        0 <= i < source.tables@.len() implies (rows.contains(PaletteRow::Table(i as usize))
        <==> occurs(lowercase(source.tables@[i].qualified@), lowercase(query)) || occurs(
        lowercase(source.tables@[i].table.name@),
        lowercase(query),
    )) by {
        if rows.contains(PaletteRow::Table(i as usize)) {
            let j = choose|j: int|
                0 <= j < rows.len() && rows[j] == PaletteRow::Table(i as usize);
            assert(places[j] as usize == i as usize);
            assert(places[j] == i);
            assert(table_is_named(source, query)(places[j]));
        }
        if table_is_named(source, query)(i) {
            assert(places.contains(i));
            let j = choose|j: int| 0 <= j < places.len() && places[j] == i;
            assert(rows[j] == PaletteRow::Table(i as usize));
        }
    }
}

/// A theme is found by its label, whatever the case, and by its id; an action by
/// its label. The rows are in the order of what they list, and an action's says
/// whether it can be run.
pub proof fn themes_and_actions_are_found_by_name(query: Seq<char>, source: PaletteSource)
    requires
        source.themes@.len() <= usize::MAX,
    ensures
        exists|places: Seq<int>|
            #[trigger] places_where(
                places,
                source.themes@.len() as int,
                theme_is_named(source, query),
            ) && matching(PaletteKind::Themes, lowered_source(query, source), source.context)
                == Seq::new(places.len(), |j: int| PaletteRow::Theme(places[j] as usize)),
        exists|places: Seq<int>|
            #[trigger] places_where(places, action_order().len() as int, action_is_named(query))
                && matching(PaletteKind::Actions, lowered_source(query, source), source.context)
                == Seq::new(
                places.len(),
                |j: int|
                    PaletteRow::Action {
                        id: action_order()[places[j]],
                        enabled: enabled_in(source.context, action_order()[places[j]]),
                    },
            ),
{
    assert(lowered_source(query, source).themes.len() == source.themes@.len());
    let themes = lemma_themes_found(source, query, source.themes@.len() as int);
    let actions = lemma_actions_found(source, query, source.context, action_order().len() as int);
}

/// What an action waits for: a connection, another connection to go to, a query or
/// a table in front, rows, a selection, an order, or something staged. The rest can
/// always be run.
pub proof fn an_action_waits_for_what_it_acts_on(context: ActionContext, id: ActionId)
    ensures
        ({
            let on_connection = id == ActionId::DisconnectActive || id == ActionId::RefreshCatalog;
            let on_others = id == ActionId::NextConnection || id == ActionId::PrevConnection;
            let on_query = id == ActionId::RunQuery || id == ActionId::RunAllQueries || id
                == ActionId::ClearSql;
            let on_table = id == ActionId::ToggleFilters || id == ActionId::ToggleColumns || id
                == ActionId::PagePrev || id == ActionId::PageNext;
            let on_rows = id == ActionId::SelectAllRows || id == ActionId::CopyRowsTsv || id
                == ActionId::CopyRowsJson || id == ActionId::CopyRowsInsert;
            let on_staged = id == ActionId::CommitChanges || id == ActionId::DiscardChanges;
            let alone = id == ActionId::ConnectActive || id == ActionId::CloseConnection || id
                == ActionId::RefreshResult || id == ActionId::DeleteRows || id == ActionId::AddRow
                || id == ActionId::ClearSort;
            let enabled = enabled_in(context, id);
            &&& on_connection ==> (enabled <==> context.connected)
            &&& on_others ==> (enabled <==> context.open_connections >= 2)
            &&& on_query ==> (enabled <==> context.is_sql)
            &&& on_table ==> (enabled <==> context.is_table)
            &&& on_rows ==> (enabled <==> context.has_result && context.has_rows)
            &&& on_staged ==> (enabled <==> context.has_changes)
            &&& id == ActionId::ConnectActive ==> (enabled <==> context.has_active
                && !context.active_connected)
            &&& id == ActionId::CloseConnection ==> (enabled <==> context.has_active)
            &&& id == ActionId::RefreshResult ==> (enabled <==> context.connected && (
            context.is_table || context.is_sql))
            &&& id == ActionId::DeleteRows ==> (enabled <==> context.is_table
                && context.has_selection)
            &&& id == ActionId::AddRow ==> (enabled <==> context.is_table && context.has_result)
            &&& id == ActionId::ClearSort ==> (enabled <==> context.is_sorted)
            &&& !(on_connection || on_others || on_query || on_table || on_rows || on_staged
                || alone) ==> enabled
        }),
{
}

/// The actions of a section stand together, so that a list of all of them has each
/// heading once.
pub proof fn the_actions_of_a_section_stand_together(i: int, j: int, k: int)
    requires
        0 <= i < j < k < action_order().len(),
        section_of(action_order()[i]) == section_of(action_order()[k]),
    ensures
        section_of(action_order()[j]) == section_of(action_order()[i]),
{
}

/// Which theme is on, and which to go back to while others are tried on.
#[derive(Debug)]
pub struct ThemeState {
    pub current: String,
    pub previous: Option<String>,
}

/// What the theme state says.
pub struct ThemeView {
    pub current: Seq<char>,
    pub previous: Option<Seq<char>>,
}

impl View for ThemeState {
    type V = ThemeView;

    open spec fn view(&self) -> ThemeView {
        ThemeView { current: self.current@, previous: opt(self.previous) }
    }
}

impl ThemeView {
    /// The theme from before the picker is on again.
    pub open spec fn cancelled(self) -> ThemeView {
        match self.previous {
            Some(previous) => ThemeView { current: previous, previous: None },
            None => self,
        }
    }

    /// The picker is open: what is on now is what to go back to.
    pub open spec fn opened(self) -> ThemeView {
        ThemeView { current: self.current, previous: Some(self.current) }
    }

    /// A theme is tried on.
    pub open spec fn previewed(self, id: Seq<char>) -> ThemeView {
        ThemeView { current: id, previous: self.previous }
    }

    /// A theme is picked for good.
    pub open spec fn committed(self, id: Seq<char>) -> ThemeView {
        ThemeView { current: id, previous: None }
    }
}

impl ThemeState {
    pub fn cancel_theme_preview(&mut self)
        ensures
            final(self)@ == old(self)@.cancelled(),
    {
        let previous = match &self.previous {
            Some(previous) => Some(previous.as_str().to_string()),
            None => None,
        };
        if let Some(previous) = previous {
            self.current = previous;
            self.previous = None;
        }
    }

    pub fn open_preview(&mut self)
        ensures
            final(self)@ == old(self)@.opened(),
    {
        self.previous = Some(self.current.as_str().to_string());
    }

    pub fn preview_theme_id(&mut self, id: &str)
        ensures
            final(self)@ == old(self)@.previewed(id@),
    {
        self.current = id.to_string();
    }

    /// Picks a theme, which closes the palette.
    pub fn commit_theme_id(&mut self, open: &mut Option<Palette>, id: &str)
        ensures
            final(self)@ == old(self)@.committed(id@),
            *final(open) is None,
    {
        *open = None;
        self.current = id.to_string();
        self.previous = None;
    }
}

/// One theme after the other is tried on.
pub open spec fn tried_on(state: ThemeView, ids: Seq<Seq<char>>) -> ThemeView
    decreases ids.len(),
{
    if ids.len() == 0 {
        state
    } else {
        tried_on(state, ids.drop_last()).previewed(ids.last())
    }
}

proof fn lemma_trying_on_remembers(state: ThemeView, ids: Seq<Seq<char>>)
    ensures
        tried_on(state, ids).previous == state.previous,
    decreases ids.len(),
{
    if ids.len() > 0 {
        lemma_trying_on_remembers(state, ids.drop_last());
    }
}

/// Leaving the picker without picking puts back the theme from before, whatever
/// was tried on; a theme that was picked stays.
pub proof fn a_cancelled_preview_leaves_no_trace(
    state: ThemeView,
    ids: Seq<Seq<char>>,
    picked: Seq<char>,
)
    ensures
        tried_on(state.opened(), ids).cancelled() == (ThemeView {
            current: state.current,
            previous: None,
        }),
        tried_on(state.opened(), ids).committed(picked).cancelled().current == picked,
{
    lemma_trying_on_remembers(state.opened(), ids);
}

/// A theme's place in the list; the first where it is not listed.
pub open spec fn theme_place(themes: Seq<ThemeEntry>, id: Seq<char>, from: int) -> int
    decreases themes.len() - from,
{
    if from >= themes.len() {
        0
    } else if themes[from].id@ == id {
        from
    } else {
        theme_place(themes, id, from + 1)
    }
}

fn find_theme(themes: &Vec<ThemeEntry>, id: &str) -> (place: usize)
    ensures
        place == theme_place(themes@, id@, 0),
        place < themes@.len() || place == 0,
{
    let mut i: usize = 0;
    while i < themes.len()
        invariant
            i <= themes@.len(),
            theme_place(themes@, id@, 0) == theme_place(themes@, id@, i as int),
        decreases themes@.len() - i,
    {
        if same(themes[i].id.as_str(), id) {
            return i;
        }
        i += 1;
    }
    0
}

/// The picker starts on the theme that is on: the first of that id, or the top of
/// the list where none has it.
pub proof fn the_picker_starts_on_the_theme_that_is_on(
    themes: Seq<ThemeEntry>,
    id: Seq<char>,
    at: int,
)
    ensures
        0 <= at < themes.len() && themes[at].id@ == id && (forall|k: int|
            0 <= k < at ==> (#[trigger] themes[k]).id@ != id) ==> theme_place(themes, id, 0) == at,
        (forall|k: int| 0 <= k < themes.len() ==> (#[trigger] themes[k]).id@ != id) ==> theme_place(
            themes,
            id,
            0,
        ) == 0,
{
    lemma_theme_place(themes, id, 0);
}

proof fn lemma_theme_place(themes: Seq<ThemeEntry>, id: Seq<char>, from: int)
    requires
        0 <= from,
    ensures
        forall|at: int|
            #![trigger themes[at]]
            from <= at < themes.len() && themes[at].id@ == id && (forall|k: int|
                from <= k < at ==> (#[trigger] themes[k]).id@ != id) ==> theme_place(
                themes,
                id,
                from,
            ) == at,
        (forall|k: int| from <= k < themes.len() ==> (#[trigger] themes[k]).id@ != id)
            ==> theme_place(themes, id, from) == 0,
    decreases themes.len() - from,
{
    if from < themes.len() {
        lemma_theme_place(themes, id, from + 1);
    }
}

/// The theme that the cursor is on, where the rows are themes.
pub open spec fn theme_under(
    rows: Seq<PaletteRow>,
    themes: Seq<ThemeEntry>,
    selected: usize,
) -> Option<Seq<char>> {
    if selected < rows.len() {
        match rows[selected as int] {
            PaletteRow::Theme(at) if at < themes.len() => Some(themes[at as int].id@),
            _ => None,
        }
    } else {
        None
    }
}

fn theme_at<'a>(
    rows: &Vec<PaletteRow>,
    themes: &'a Vec<ThemeEntry>,
    selected: usize,
) -> (id: Option<&'a str>)
    ensures
        match (id, theme_under(rows@, themes@, selected)) {
            (Some(id), Some(expected)) => id@ == expected,
            (None, None) => true,
            _ => false,
        },
{
    if selected < rows.len() {
        match rows[selected] {
            PaletteRow::Theme(at) => {
                if at < themes.len() {
                    Some(themes[at].id.as_str())
                } else {
                    None
                }
            },
            _ => None,
        }
    } else {
        None
    }
}

/// The theme under the cursor is tried on; with none there nothing changes.
pub open spec fn preview_under(
    state: ThemeView,
    rows: Seq<PaletteRow>,
    themes: Seq<ThemeEntry>,
    selected: usize,
) -> ThemeView {
    match theme_under(rows, themes, selected) {
        Some(id) => state.previewed(id),
        None => state,
    }
}

/// Tries on the theme under the cursor.
pub fn preview_selected_theme(
    state: &mut ThemeState,
    rows: &Vec<PaletteRow>,
    themes: &Vec<ThemeEntry>,
    selected: usize,
)
    ensures
        final(state)@ == preview_under(old(state)@, rows@, themes@, selected),
{
    if let Some(id) = theme_at(rows, themes, selected) {
        state.preview_theme_id(id);
    }
}

pub open spec fn is_theme_picker(open: Option<Palette>) -> bool {
    open matches Some(palette) && palette.kind == PaletteKind::Themes
}

/// The theme state once the palette has gone: out of the theme picker, the theme
/// from before is back.
pub open spec fn left_palette(open: Option<Palette>, state: ThemeView) -> ThemeView {
    if is_theme_picker(open) {
        state.cancelled()
    } else {
        state
    }
}

fn picks_themes(open: &Option<Palette>) -> (picks: bool)
    ensures
        picks == is_theme_picker(*open),
{
    match open {
        Some(palette) => palette.kind == PaletteKind::Themes,
        None => false,
    }
}

/// Opens the palette, which takes the keyboard from the fields and closes the
/// list of connections. Leaving the theme picker without picking puts the theme
/// from before back; opening it remembers that theme, puts the cursor on it and
/// tries on what is there.
pub fn open_palette(
    open: &mut Option<Palette>,
    kind: PaletteKind,
    state: &mut ThemeState,
    focus: &mut FocusState,
    picker_open: &mut bool,
    themes: &Vec<ThemeEntry>,
)
    ensures
        !*final(picker_open),
        *final(focus) == focused_on(*old(focus), InputTarget::PaletteQuery),
        *final(open) is Some,
        ({
            let palette = (*final(open)).unwrap();
            &&& palette.kind == kind
            &&& palette.query@ == line_input(Seq::empty())
            &&& if kind == PaletteKind::Themes {
                let place = theme_place(themes@, old(state)@.current, 0);
                &&& palette.selected == place
                &&& final(state)@ == (if place < themes@.len() {
                    old(state)@.opened().previewed(themes@[place].id@)
                } else {
                    old(state)@.opened()
                })
            } else {
                &&& palette.selected == 0
                &&& final(state)@ == left_palette(*old(open), old(state)@)
            }
        }),
{
    if picks_themes(open) && kind != PaletteKind::Themes {
        state.cancel_theme_preview();
    }
    *picker_open = false;
    focus.focus_input(InputTarget::PaletteQuery);
    let mut palette = Palette::new(kind);
    if kind == PaletteKind::Themes {
        state.open_preview();
        palette.selected = find_theme(themes, state.current.as_str());
        if palette.selected < themes.len() {
            state.preview_theme_id(themes[palette.selected].id.as_str());
        }
    }
    *open = Some(palette);
}

/// Closes the palette. Out of the theme picker, the theme from before is back.
pub fn close_palette(open: &mut Option<Palette>, state: &mut ThemeState)
    ensures
        *final(open) is None,
        final(state)@ == left_palette(*old(open), old(state)@),
{
    let was_themes = picks_themes(open);
    *open = None;
    if was_themes {
        state.cancel_theme_preview();
    }
}

/// What a key does while the palette is open.
#[derive(Debug, Clone, Copy, PartialEq, Eq, Structural)]
pub enum PaletteKey {
    Close,
    Open(PaletteKind),
    /// The cursor moved; a theme picker tries on what is there.
    Moved,
    /// The row under the cursor, where there is one.
    Pick(Option<PaletteRow>),
    /// The query takes it, if it wants it.
    Edit,
}

pub open spec fn palette_key(key: Keystroke, palette: Palette, rows: Seq<PaletteRow>) -> PaletteKey {
    if key.key@ == "escape"@ {
        PaletteKey::Close
    } else if key.platform && key.key@ == "p"@ {
        PaletteKey::Open(
            if key.shift {
                PaletteKind::Actions
            } else {
                PaletteKind::GoToTable
            },
        )
    } else if key.key@ == "up"@ || key.key@ == "down"@ {
        PaletteKey::Moved
    } else if key.key@ == "enter"@ {
        PaletteKey::Pick(
            if palette.selected < rows.len() {
                Some(rows[palette.selected as int])
            } else {
                None
            },
        )
    } else {
        PaletteKey::Edit
    }
}

pub open spec fn cursor_after(key: Keystroke, selected: int, count: int) -> int {
    if key.key@ == "up"@ {
        if count == 0 {
            0
        } else if selected == 0 {
            count - 1
        } else {
            selected - 1
        }
    } else if count == 0 {
        0
    } else {
        (selected + 1) % count
    }
}

/// The arrows go around the rows, one at a time, and undo each other.
pub proof fn the_arrows_go_around_the_rows(up: Keystroke, down: Keystroke, selected: int, count: int)
    requires
        up.key@ == "up"@,
        down.key@ == "down"@,
        0 <= selected < count,
    ensures
        selected + 1 < count ==> cursor_after(down, selected, count) == selected + 1,
        cursor_after(down, count - 1, count) == 0,
        cursor_after(up, cursor_after(down, selected, count), count) == selected,
        cursor_after(down, cursor_after(up, selected, count), count) == selected,
        0 <= cursor_after(up, selected, count) < count,
        cursor_after(up, 0, 0) == 0,
        cursor_after(down, 0, 0) == 0,
{
    reveal_strlit("up");
    reveal_strlit("down");
    assert("up"@.len() != "down"@.len());
    if selected + 1 < count {
        vstd::arithmetic::div_mod::lemma_small_mod((selected + 1) as nat, count as nat);
    } else {
        vstd::arithmetic::div_mod::lemma_mod_self_0(count);
    }
    vstd::arithmetic::div_mod::lemma_mod_self_0(count);
    vstd::arithmetic::div_mod::lemma_small_mod(selected as nat, count as nat);
}

/// Enter picks the row under the cursor and nothing where the cursor is under the
/// last; Escape closes before anything else.
pub proof fn enter_picks_what_the_cursor_is_on(
    key: Keystroke,
    palette: Palette,
    rows: Seq<PaletteRow>,
)
    ensures
        key.key@ == "enter"@ && palette.selected < rows.len() ==> palette_key(key, palette, rows)
            == PaletteKey::Pick(Some(rows[palette.selected as int])),
        key.key@ == "enter"@ && palette.selected >= rows.len() ==> palette_key(key, palette, rows)
            == PaletteKey::Pick(None),
        key.key@ == "escape"@ <==> palette_key(key, palette, rows) == PaletteKey::Close,
        key.key@ == "up"@ || key.key@ == "down"@ <==> palette_key(key, palette, rows)
            == PaletteKey::Moved,
        key.key@ == "p"@ && key.platform ==> palette_key(key, palette, rows) == PaletteKey::Open(
            if key.shift {
                PaletteKind::Actions
            } else {
                PaletteKind::GoToTable
            },
        ),
{
    reveal_strlit("enter");
    reveal_strlit("escape");
    reveal_strlit("p");
    reveal_strlit("up");
    reveal_strlit("down");
    assert("enter"@.len() == 5);
    assert("escape"@.len() == 6);
    assert("p"@.len() == 1);
    assert("up"@.len() == 2);
    assert("down"@.len() == 4);
}

impl Palette {
    /// A key while the palette is open: Esc closes it, the arrows go around the
    /// rows that it lists, Enter picks, and anything else is typed.
    pub fn handle_palette_key(
        &mut self,
        keystroke: &Keystroke,
        source: &PaletteSource,
        state: &mut ThemeState,
    ) -> (does: PaletteKey)
        requires
            old(self).selected < usize::MAX,
        ensures
            does == palette_key(*keystroke, *old(self), rows_of(*old(self), *source)),
            final(self).kind == old(self).kind,
            final(self).query == old(self).query,
            final(self).selected == (if does == PaletteKey::Moved {
                cursor_after(
                    *keystroke,
                    old(self).selected as int,
                    rows_of(*old(self), *source).len() as int,
                )
            } else {
                old(self).selected as int
            }),
            final(state)@ == (if does == PaletteKey::Moved && old(self).kind
                == PaletteKind::Themes {
                preview_under(
                    old(state)@,
                    rows_of(*old(self), *source),
                    source.themes@,
                    final(self).selected,
                )
            } else {
                old(state)@
            }),
    {
        let rows = palette_rows(self.kind, self.query.text(), source);
        self.key_over_rows(keystroke, &rows, state, &source.themes)
    }

    /// A key over a list of rows.
    pub fn key_over_rows(
        &mut self,
        keystroke: &Keystroke,
        rows: &Vec<PaletteRow>,
        state: &mut ThemeState,
        themes: &Vec<ThemeEntry>,
    ) -> (does: PaletteKey)
        requires
            old(self).selected < usize::MAX,
        ensures
            does == palette_key(*keystroke, *old(self), rows@),
            final(self).kind == old(self).kind,
            final(self).query == old(self).query,
            final(self).selected == (if does == PaletteKey::Moved {
                cursor_after(*keystroke, old(self).selected as int, rows@.len() as int)
            } else {
                old(self).selected as int
            }),
            final(state)@ == (if does == PaletteKey::Moved && old(self).kind
                == PaletteKind::Themes {
                preview_under(old(state)@, rows@, themes@, final(self).selected)
            } else {
                old(state)@
            }),
    {
        let key = keystroke.key.as_str();
        let count: usize = rows.len();
        if same(key, "escape") {
            return PaletteKey::Close;
        }
        if keystroke.platform && same(key, "p") {
            return PaletteKey::Open(
                if keystroke.shift {
                    PaletteKind::Actions
                } else {
                    PaletteKind::GoToTable
                },
            );
        }
        if same(key, "up") {
            self.selected = if count == 0 {
                0
            } else if self.selected == 0 {
                count - 1
            } else {
                self.selected - 1
            };
            if self.kind == PaletteKind::Themes {
                preview_selected_theme(state, rows, themes, self.selected);
            }
            return PaletteKey::Moved;
        }
        if same(key, "down") {
            self.selected = if count == 0 {
                0
            } else {
                (self.selected + 1) % count
            };
            if self.kind == PaletteKind::Themes {
                preview_selected_theme(state, rows, themes, self.selected);
            }
            return PaletteKey::Moved;
        }
        if same(key, "enter") {
            return PaletteKey::Pick(
                if self.selected < count {
                    Some(rows[self.selected])
                } else {
                    None
                },
            );
        }
        PaletteKey::Edit
    }

    /// The query took a key: the cursor is back at the top, and a theme picker
    /// tries on what is there now.
    pub fn edited(&mut self, source: &PaletteSource, state: &mut ThemeState)
        ensures
            final(self).selected == 0,
            final(self).kind == old(self).kind,
            final(self).query == old(self).query,
            final(state)@ == (if old(self).kind == PaletteKind::Themes {
                preview_under(old(state)@, rows_of(*old(self), *source), source.themes@, 0)
            } else {
                old(state)@
            }),
    {
        self.selected = 0;
        if self.kind == PaletteKind::Themes {
            let rows = palette_rows(self.kind, self.query.text(), source);
            preview_selected_theme(state, &rows, &source.themes, 0);
        }
    }
}

/// What picking a row comes to.
#[derive(Debug, Clone, Copy, PartialEq, Eq, Structural)]
pub enum Picked {
    /// A disabled action: the palette stays as it is.
    Nothing,
    /// The palette closes first.
    OpenTable(usize),
    Run(ActionId),
    CommitTheme(usize),
}

/// Picks a row.
pub fn run_palette_row(row: PaletteRow) -> (picked: Picked)
    ensures
        picked == (match row {
            PaletteRow::Table(at) => Picked::OpenTable(at),
            PaletteRow::Action { id, enabled } => if enabled {
                Picked::Run(id)
            } else {
                Picked::Nothing
            },
            PaletteRow::Theme(at) => Picked::CommitTheme(at),
        }),
{
    match row {
        PaletteRow::Table(at) => Picked::OpenTable(at),
        PaletteRow::Action { id, enabled } => {
            if enabled {
                Picked::Run(id)
            } else {
                Picked::Nothing
            }
        },
        PaletteRow::Theme(at) => Picked::CommitTheme(at),
    }
}

/// What running an action asks of the app.
#[derive(Debug, Clone, Copy, PartialEq, Eq, Structural)]
pub enum Command {
    Nothing,
    OpenNewConnection,
    ImportTablePlus,
    Connect(ConnectionId),
    Disconnect(ConnectionId),
    CloseConnection,
    CycleConnection { forward: bool },
    RefreshCatalog,
    RefreshResult,
    OpenSql,
    CloseTab,
    NextTab,
    PrevTab,
    RunQuery,
    RunAllQueries,
    OpenPalette(PaletteKind),
    FocusSidebarSearch,
    SelectAllRows,
    DeleteRows,
    AddRow,
    CopyRows(RowFormat),
    ClearSort,
    SaveEdits,
    DiscardEdits,
    ToggleFilters,
    ToggleColumns,
    ToggleDetail,
    TurnPage { forward: bool },
    FocusSidebar,
    ClearSql,
    ZoomIn,
    ZoomOut,
    ZoomReset,
}

pub open spec fn command_of(id: ActionId, active: Option<ConnectionId>) -> Command {
    match id {
        ActionId::NewConnection => Command::OpenNewConnection,
        ActionId::ImportTablePlus => Command::ImportTablePlus,
        ActionId::ConnectActive => match active {
            Some(connection) => Command::Connect(connection),
            None => Command::Nothing,
        },
        ActionId::DisconnectActive => match active {
            Some(connection) => Command::Disconnect(connection),
            None => Command::Nothing,
        },
        ActionId::CloseConnection => Command::CloseConnection,
        ActionId::NextConnection => Command::CycleConnection { forward: true },
        ActionId::PrevConnection => Command::CycleConnection { forward: false },
        ActionId::RefreshCatalog => Command::RefreshCatalog,
        ActionId::RefreshResult => Command::RefreshResult,
        ActionId::OpenSql => Command::OpenSql,
        ActionId::CloseTab => Command::CloseTab,
        ActionId::NextTab => Command::NextTab,
        ActionId::PrevTab => Command::PrevTab,
        ActionId::RunQuery => Command::RunQuery,
        ActionId::RunAllQueries => Command::RunAllQueries,
        ActionId::GoToTable => Command::OpenPalette(PaletteKind::GoToTable),
        ActionId::SearchTables => Command::FocusSidebarSearch,
        ActionId::SelectAllRows => Command::SelectAllRows,
        ActionId::DeleteRows => Command::DeleteRows,
        ActionId::AddRow => Command::AddRow,
        ActionId::CopyRowsTsv => Command::CopyRows(RowFormat::Tsv),
        ActionId::CopyRowsJson => Command::CopyRows(RowFormat::Json),
        ActionId::CopyRowsInsert => Command::CopyRows(RowFormat::Insert),
        ActionId::ClearSort => Command::ClearSort,
        ActionId::CommitChanges => Command::SaveEdits,
        ActionId::DiscardChanges => Command::DiscardEdits,
        ActionId::ToggleFilters => Command::ToggleFilters,
        ActionId::ToggleColumns => Command::ToggleColumns,
        ActionId::ToggleDetail => Command::ToggleDetail,
        ActionId::PagePrev => Command::TurnPage { forward: false },
        ActionId::PageNext => Command::TurnPage { forward: true },
        ActionId::FocusSidebar => Command::FocusSidebar,
        ActionId::ClearSql => Command::ClearSql,
        ActionId::ChangeTheme => Command::OpenPalette(PaletteKind::Themes),
        ActionId::ZoomIn => Command::ZoomIn,
        ActionId::ZoomOut => Command::ZoomOut,
        ActionId::ZoomReset => Command::ZoomReset,
    }
}

/// Two actions that are not the same ask for different things, unless neither can
/// ask for anything.
pub proof fn no_two_actions_do_the_same(a: ActionId, b: ActionId, active: Option<ConnectionId>)
    requires
        a != b,
        command_of(a, active) == command_of(b, active),
    ensures
        command_of(a, active) == Command::Nothing,
        active is None,
{
}

/// Next goes forward and previous goes back; a connection is made and unmade where
/// the active one is; and an action that opens a palette opens its own.
pub proof fn an_action_does_what_it_is_called(active: Option<ConnectionId>)
    ensures
        command_of(ActionId::NextConnection, active) == (Command::CycleConnection { forward: true }),
        command_of(ActionId::PrevConnection, active) == (Command::CycleConnection { forward: false }),
        command_of(ActionId::NextTab, active) == Command::NextTab,
        command_of(ActionId::PrevTab, active) == Command::PrevTab,
        command_of(ActionId::PageNext, active) == (Command::TurnPage { forward: true }),
        command_of(ActionId::PagePrev, active) == (Command::TurnPage { forward: false }),
        command_of(ActionId::ZoomIn, active) == Command::ZoomIn,
        command_of(ActionId::ZoomOut, active) == Command::ZoomOut,
        command_of(ActionId::CommitChanges, active) == Command::SaveEdits,
        command_of(ActionId::DiscardChanges, active) == Command::DiscardEdits,
        command_of(ActionId::AddRow, active) == Command::AddRow,
        command_of(ActionId::DeleteRows, active) == Command::DeleteRows,
        command_of(ActionId::CopyRowsTsv, active) == Command::CopyRows(RowFormat::Tsv),
        command_of(ActionId::CopyRowsJson, active) == Command::CopyRows(RowFormat::Json),
        command_of(ActionId::CopyRowsInsert, active) == Command::CopyRows(RowFormat::Insert),
        command_of(ActionId::GoToTable, active) == Command::OpenPalette(PaletteKind::GoToTable),
        command_of(ActionId::ChangeTheme, active) == Command::OpenPalette(PaletteKind::Themes),
        active matches Some(connection) ==> command_of(ActionId::ConnectActive, active)
            == Command::Connect(connection) && command_of(ActionId::DisconnectActive, active)
            == Command::Disconnect(connection),
{
}

/// What running an action asks of the app.
pub fn run_action(id: ActionId, active: Option<ConnectionId>) -> (command: Command)
    ensures
        command == command_of(id, active),
{
    match id {
        ActionId::NewConnection => Command::OpenNewConnection,
        ActionId::ImportTablePlus => Command::ImportTablePlus,
        ActionId::ConnectActive => match active {
            Some(connection) => Command::Connect(connection),
            None => Command::Nothing,
        },
        ActionId::DisconnectActive => match active {
            Some(connection) => Command::Disconnect(connection),
            None => Command::Nothing,
        },
        ActionId::CloseConnection => Command::CloseConnection,
        ActionId::NextConnection => Command::CycleConnection { forward: true },
        ActionId::PrevConnection => Command::CycleConnection { forward: false },
        ActionId::RefreshCatalog => Command::RefreshCatalog,
        ActionId::RefreshResult => Command::RefreshResult,
        ActionId::OpenSql => Command::OpenSql,
        ActionId::CloseTab => Command::CloseTab,
        ActionId::NextTab => Command::NextTab,
        ActionId::PrevTab => Command::PrevTab,
        ActionId::RunQuery => Command::RunQuery,
        ActionId::RunAllQueries => Command::RunAllQueries,
        ActionId::GoToTable => Command::OpenPalette(PaletteKind::GoToTable),
        ActionId::SearchTables => Command::FocusSidebarSearch,
        ActionId::SelectAllRows => Command::SelectAllRows,
        ActionId::DeleteRows => Command::DeleteRows,
        ActionId::AddRow => Command::AddRow,
        ActionId::CopyRowsTsv => Command::CopyRows(RowFormat::Tsv),
        ActionId::CopyRowsJson => Command::CopyRows(RowFormat::Json),
        ActionId::CopyRowsInsert => Command::CopyRows(RowFormat::Insert),
        ActionId::ClearSort => Command::ClearSort,
        ActionId::CommitChanges => Command::SaveEdits,
        ActionId::DiscardChanges => Command::DiscardEdits,
        ActionId::ToggleFilters => Command::ToggleFilters,
        ActionId::ToggleColumns => Command::ToggleColumns,
        ActionId::ToggleDetail => Command::ToggleDetail,
        ActionId::PagePrev => Command::TurnPage { forward: false },
        ActionId::PageNext => Command::TurnPage { forward: true },
        ActionId::FocusSidebar => Command::FocusSidebar,
        ActionId::ClearSql => Command::ClearSql,
        ActionId::ChangeTheme => Command::OpenPalette(PaletteKind::Themes),
        ActionId::ZoomIn => Command::ZoomIn,
        ActionId::ZoomOut => Command::ZoomOut,
        ActionId::ZoomReset => Command::ZoomReset,
    }
}

/// The filter of the front tab, where that is a table.
#[derive(Debug)]
pub struct FilterDraft {
    pub open: bool,
    pub draft: TextInput,
    /// The filter in force.
    pub clause: String,
}

/// ⌘F: the palette closes, and the front table's filter opens with the keyboard
/// in it, starting from the filter in force. Without a table there is nothing to
/// filter.
pub fn cmd_find(
    open: &mut Option<Palette>,
    state: &mut ThemeState,
    focus: &mut FocusState,
    front: Option<FilterDraft>,
) -> (found: Result<FilterDraft, Status>)
    ensures
        *final(open) is None,
        final(state)@ == left_palette(*old(open), old(state)@),
        match (front, found) {
            (Some(before), Ok(after)) => {
                &&& *final(focus) == focused_on(*old(focus), InputTarget::WhereDraft)
                &&& after.open
                &&& after.clause@ == before.clause@
                &&& after.draft@ == (if before.draft@.text.len() == 0 && before.clause@.len() > 0 {
                    line_input(before.clause@)
                } else {
                    before.draft@
                })
            },
            (None, Err(status)) => *final(focus) == *old(focus) && status.info_is(
                "Open a table to filter"@,
            ),
            _ => false,
        },
{
    close_palette(open, state);
    match front {
        Some(mut filter) => {
            filter.open = true;
            if filter.draft.is_empty() && !filter.clause.as_str().is_empty() {
                filter.draft = TextInput::with_text(filter.clause.as_str().to_string(), false);
            }
            focus.focus_input(InputTarget::WhereDraft);
            Ok(filter)
        },
        None => Err(Status::info("Open a table to filter")),
    }
}

/// A line of the palette's list.
#[derive(Debug)]
pub enum PaletteLine {
    Header(String),
    Row { index: usize, selected: bool, enabled: bool, label: String, chip: Option<String> },
}

/// What a line of the list says.
pub enum LineView {
    Header(Seq<char>),
    Row { index: int, selected: bool, enabled: bool, label: Seq<char>, chip: Option<Seq<char>> },
}

impl View for PaletteLine {
    type V = LineView;

    open spec fn view(&self) -> LineView {
        match *self {
            PaletteLine::Header(text) => LineView::Header(text@),
            PaletteLine::Row { index, selected, enabled, label, chip } => LineView::Row {
                index: index as int,
                selected,
                enabled,
                label: label@,
                chip: opt(chip),
            },
        }
    }
}

pub open spec fn palette_line_views(lines: Seq<PaletteLine>) -> Seq<LineView> {
    Seq::new(lines.len(), |i: int| lines[i]@)
}

/// Every row points at something on offer.
pub open spec fn rows_fit(rows: Seq<PaletteRow>, source: PaletteSource) -> bool {
    forall|i: int|
        0 <= i < rows.len() ==> match #[trigger] rows[i] {
            PaletteRow::Table(at) => at < source.tables@.len(),
            PaletteRow::Theme(at) => at < source.themes@.len(),
            PaletteRow::Action { .. } => true,
        }
}

/// A theme that is on, or that was before the picker opened.
pub open spec fn theme_is_active(state: ThemeView, id: Seq<char>) -> bool {
    state.current == id || state.previous == Some(id)
}

pub open spec fn row_view(
    rows: Seq<PaletteRow>,
    source: PaletteSource,
    state: ThemeView,
    selected: int,
    i: int,
) -> LineView {
    match rows[i] {
        PaletteRow::Table(at) => LineView::Row {
            index: i,
            selected: i == selected,
            enabled: true,
            label: source.tables@[at as int].qualified@,
            chip: None,
        },
        PaletteRow::Action { id, enabled } => LineView::Row {
            index: i,
            selected: i == selected,
            enabled,
            label: label_of(id),
            chip: shortcut_of(id),
        },
        PaletteRow::Theme(at) => LineView::Row {
            index: i,
            selected: i == selected,
            enabled: true,
            label: source.themes@[at as int].label@,
            chip: if theme_is_active(state, source.themes@[at as int].id@) {
                if i == selected {
                    Some("preview"@)
                } else {
                    Some("current"@)
                }
            } else {
                None
            },
        },
    }
}

/// A heading stands before a row whose section is not that of the row before.
pub open spec fn heads(rows: Seq<PaletteRow>, i: int) -> bool {
    i == 0 || row_section(rows[i - 1]) != row_section(rows[i])
}

/// The lines of the first `upto` rows: the rows, and a heading wherever the
/// section changes.
pub open spec fn list_lines(
    rows: Seq<PaletteRow>,
    source: PaletteSource,
    state: ThemeView,
    selected: int,
    upto: int,
) -> Seq<LineView>
    decreases upto,
{
    if upto <= 0 {
        Seq::empty()
    } else {
        let before = list_lines(rows, source, state, selected, upto - 1);
        let i = upto - 1;
        let headed = if heads(rows, i) {
            before.push(LineView::Header(ascii_uppercase(section_name(row_section(rows[i])))))
        } else {
            before
        };
        headed.push(row_view(rows, source, state, selected, i))
    }
}

proof fn lemma_list_lines(
    rows: Seq<PaletteRow>,
    source: PaletteSource,
    state: ThemeView,
    selected: int,
    upto: int,
) -> (places: Seq<int>)
    requires
        0 <= upto <= rows.len(),
    ensures
        places.len() == upto,
        upto > 0 ==> list_lines(rows, source, state, selected, upto).len() == places[upto - 1] + 1,
        upto == 0 ==> list_lines(rows, source, state, selected, upto).len() == 0,
        forall|i: int|
            0 <= i < upto ==> {
                let lines = list_lines(rows, source, state, selected, upto);
                let before = if i == 0 {
                    -1
                } else {
                    places[i - 1]
                };
                &&& 0 <= (#[trigger] places[i]) < lines.len()
                &&& lines[places[i]] == row_view(rows, source, state, selected, i)
                &&& i == 0 || row_section(rows[i - 1]) != row_section(rows[i]) ==> places[i]
                    == before + 2 && lines[places[i] - 1] == LineView::Header(
                    ascii_uppercase(section_name(row_section(rows[i]))),
                )
                &&& i > 0 && row_section(rows[i - 1]) == row_section(rows[i]) ==> places[i]
                    == before + 1
            },
    decreases upto,
{
    let lines = list_lines(rows, source, state, selected, upto);
    if upto == 0 {
        Seq::empty()
    } else {
        let n = upto - 1;
        let shorter = list_lines(rows, source, state, selected, n);
        let before = lemma_list_lines(rows, source, state, selected, n);
        let at = if heads(rows, n) {
            shorter.len() as int + 1
        } else {
            shorter.len() as int
        };
        let places = before.push(at);
        assert forall|i: int| 0 <= i < upto implies {
            let before_i = if i == 0 {
                -1
            } else {
                places[i - 1]
            };
            &&& 0 <= (#[trigger] places[i]) < lines.len()
            &&& lines[places[i]] == row_view(rows, source, state, selected, i)
            &&& i == 0 || row_section(rows[i - 1]) != row_section(rows[i]) ==> places[i]
                == before_i + 2 && lines[places[i] - 1] == LineView::Header(
                ascii_uppercase(section_name(row_section(rows[i]))),
            )
            &&& i > 0 && row_section(rows[i - 1]) == row_section(rows[i]) ==> places[i] == before_i
                + 1
        } by {
            if i < n {
                assert(places[i] == before[i]);
                assert(lines[before[i]] == shorter[before[i]]);
                if i > 0 {
                    assert(places[i - 1] == before[i - 1]);
                }
                if i == 0 || row_section(rows[i - 1]) != row_section(rows[i]) {
                    assert(lines[before[i] - 1] == shorter[before[i] - 1]);
                }
            } else if n > 0 {
                assert(places[n - 1] == before[n - 1]);
            }
        }
        places
    }
}

/// Every row is listed, in order and with nothing between two of them but the
/// heading of the second one's section, where that is not the first one's. A
/// heading stands over the first row of all.
pub proof fn a_heading_stands_where_the_section_changes(
    rows: Seq<PaletteRow>,
    source: PaletteSource,
    state: ThemeView,
    selected: int,
)
    ensures
        exists|places: Seq<int>|
            {
                let lines = list_lines(rows, source, state, selected, rows.len() as int);
                &&& #[trigger] places.len() == rows.len()
                &&& rows.len() == 0 ==> lines.len() == 0
                &&& rows.len() > 0 ==> lines.len() == places[rows.len() - 1] + 1
                &&& forall|i: int|
                    0 <= i < rows.len() ==> {
                        let before = if i == 0 {
                            -1
                        } else {
                            places[i - 1]
                        };
                        &&& 0 <= (#[trigger] places[i]) < lines.len()
                        &&& lines[places[i]] == row_view(rows, source, state, selected, i)
                        &&& i == 0 || row_section(rows[i - 1]) != row_section(rows[i])
                            ==> places[i] == before + 2 && lines[places[i] - 1]
                            == LineView::Header(
                            ascii_uppercase(section_name(row_section(rows[i]))),
                        )
                        &&& i > 0 && row_section(rows[i - 1]) == row_section(rows[i])
                            ==> places[i] == before + 1
                    }
            },
{
    let places = lemma_list_lines(rows, source, state, selected, rows.len() as int);
    assert(places.len() == rows.len());
}

/// A listed row says what picking it gets: a table's qualified name, a theme's
/// label, an action's own with its keys. Only the row under the cursor is lit; and
/// a theme is marked where it is on or was before the picker opened, as a preview
/// under the cursor.
pub proof fn a_listed_row_says_what_it_picks(
    rows: Seq<PaletteRow>,
    source: PaletteSource,
    state: ThemeView,
    selected: int,
    i: int,
)
    ensures
        row_view(rows, source, state, selected, i) matches LineView::Row {
            index,
            selected: lit,
            enabled,
            label,
            chip,
        } && {
            &&& index == i
            &&& lit <==> i == selected
            &&& rows[i] matches PaletteRow::Table(at) ==> enabled && chip is None && label
                == source.tables@[at as int].qualified@
            &&& rows[i] matches PaletteRow::Action { id, enabled: can } ==> enabled == can && label
                == label_of(id) && chip == shortcut_of(id)
            &&& rows[i] matches PaletteRow::Theme(at) ==> {
                let theme = source.themes@[at as int];
                &&& enabled
                &&& label == theme.label@
                &&& chip is Some <==> state.current == theme.id@ || state.previous == Some(theme.id@)
                &&& chip is Some && i == selected ==> chip == Some("preview"@)
                &&& chip is Some && i != selected ==> chip == Some("current"@)
            }
        },
{
}

#[derive(Debug)]
pub struct PaletteView {
    pub query: String,
    /// What the field says while nothing is typed.
    pub placeholder: String,
    /// What closes it.
    pub close: String,
    /// What the list says where it is empty.
    pub empty: Option<String>,
    pub lines: Vec<PaletteLine>,
    /// The line to keep in view: that of the row under the cursor.
    pub selected_line: Option<usize>,
    /// What the keys do, under the list.
    pub legend: Vec<LegendItem>,
}

/// A key, and what it does.
#[derive(Debug)]
pub struct LegendItem {
    pub key: String,
    pub does: String,
}

pub open spec fn legend_views(legend: Seq<LegendItem>) -> Seq<(Seq<char>, Seq<char>)> {
    Seq::new(legend.len(), |i: int| (legend[i].key@, legend[i].does@))
}

/// The keys that the palette answers to.
pub open spec fn palette_legend() -> Seq<(Seq<char>, Seq<char>)> {
    seq![("↑↓"@, "Navigate"@), ("↵"@, "Confirm"@), ("esc"@, "Close"@)]
}

fn legend() -> (items: Vec<LegendItem>)
    ensures
        legend_views(items@) == palette_legend(),
{
    let mut items: Vec<LegendItem> = Vec::new();
    items.push(LegendItem { key: "↑↓".to_string(), does: "Navigate".to_string() });
    items.push(LegendItem { key: "↵".to_string(), does: "Confirm".to_string() });
    items.push(LegendItem { key: "esc".to_string(), does: "Close".to_string() });
    assert(legend_views(items@) == palette_legend());
    items
}

pub open spec fn placeholder_of(kind: PaletteKind) -> Seq<char> {
    match kind {
        PaletteKind::GoToTable => "Search tables…"@,
        PaletteKind::Actions => "Type a command…"@,
        PaletteKind::Themes => "Search themes…"@,
    }
}

pub open spec fn empty_of(kind: PaletteKind, connected: bool) -> Seq<char> {
    match kind {
        PaletteKind::GoToTable => if connected {
            "No matching tables"@
        } else {
            "Connect to a database first"@
        },
        PaletteKind::Actions => "No matching actions"@,
        PaletteKind::Themes => "No matching themes"@,
    }
}

/// The cursor as it is drawn: on the last row where it stands past it.
pub open spec fn drawn_cursor(selected: int, count: int) -> int {
    if count == 0 {
        0
    } else if selected < count {
        selected
    } else {
        count - 1
    }
}

fn chip_text(chip: Option<&'static str>) -> (text: Option<String>)
    ensures
        match (text, chip) {
            (Some(text), Some(chip)) => text@ == chip@,
            (None, None) => true,
            _ => false,
        },
{
    match chip {
        Some(chip) => Some(chip.to_string()),
        None => None,
    }
}

fn row_line(
    rows: &Vec<PaletteRow>,
    source: &PaletteSource,
    state: &ThemeState,
    selected: usize,
    i: usize,
) -> (line: PaletteLine)
    requires
        i < rows@.len(),
        rows_fit(rows@, *source),
    ensures
        line@ == row_view(rows@, *source, state@, selected as int, i as int),
{
    let here = i == selected;
    match rows[i] {
        PaletteRow::Table(at) => PaletteLine::Row {
            index: i,
            selected: here,
            enabled: true,
            label: source.tables[at].qualified.as_str().to_string(),
            chip: None,
        },
        PaletteRow::Action { id, enabled } => PaletteLine::Row {
            index: i,
            selected: here,
            enabled,
            label: id.label().to_string(),
            chip: chip_text(id.shortcut()),
        },
        PaletteRow::Theme(at) => {
            let theme = &source.themes[at];
            let was = match &state.previous {
                Some(previous) => same(previous.as_str(), theme.id.as_str()),
                None => false,
            };
            let active = was || same(state.current.as_str(), theme.id.as_str());
            let chip = if active && here {
                Some("preview".to_string())
            } else if active {
                Some("current".to_string())
            } else {
                None
            };
            PaletteLine::Row {
                index: i,
                selected: here,
                enabled: true,
                label: theme.label.as_str().to_string(),
                chip,
            }
        },
    }
}

/// The list of rows as it is drawn, with the line of the row under the cursor.
pub fn palette_list(
    rows: &Vec<PaletteRow>,
    source: &PaletteSource,
    state: &ThemeState,
    selected: usize,
) -> (list: (Vec<PaletteLine>, Option<usize>))
    requires
        rows_fit(rows@, *source),
    ensures
        palette_line_views(list.0@) == list_lines(
            rows@,
            *source,
            state@,
            selected as int,
            rows@.len() as int,
        ),
        match list.1 {
            Some(at) => at < list.0@.len() && selected < rows@.len() && list.0@[at as int]@
                == row_view(rows@, *source, state@, selected as int, selected as int),
            None => selected >= rows@.len(),
        },
{
    let mut lines: Vec<PaletteLine> = Vec::new();
    let mut selected_line: Option<usize> = None;
    let mut i: usize = 0;
    assert(palette_line_views(lines@) == Seq::<LineView>::empty());
    while i < rows.len()
        invariant
            i <= rows@.len(),
            rows_fit(rows@, *source),
            palette_line_views(lines@) == list_lines(
                rows@,
                *source,
                state@,
                selected as int,
                i as int,
            ),
            match selected_line {
                Some(at) => at < lines@.len() && selected < i && lines@[at as int]@ == row_view(
                    rows@,
                    *source,
                    state@,
                    selected as int,
                    selected as int,
                ),
                None => selected >= i,
            },
        decreases rows@.len() - i,
    {
        let ghost before = lines@;
        let section = rows[i].section();
        let headed = if i == 0 {
            true
        } else {
            rows[i - 1].section() != section
        };
        if headed {
            lines.push(PaletteLine::Header(section.header()));
            assert(palette_line_views(lines@) == palette_line_views(before).push(
                LineView::Header(ascii_uppercase(section_name(section))),
            ));
        }
        let ghost with_header = lines@;
        if i == selected {
            selected_line = Some(lines.len());
        }
        lines.push(row_line(rows, source, state, selected, i));
        assert(palette_line_views(lines@) == palette_line_views(with_header).push(
            row_view(rows@, *source, state@, selected as int, i as int),
        ));
        i += 1;
    }
    (lines, selected_line)
}

/// The palette as it is drawn over a list of rows.
pub open spec fn palette_view_is(
    view: PaletteView,
    palette: Palette,
    rows: Seq<PaletteRow>,
    source: PaletteSource,
    state: ThemeView,
) -> bool {
    let cursor = drawn_cursor(palette.selected as int, rows.len() as int);
    &&& view.query@ == palette.query@.text
    &&& view.placeholder@ == placeholder_of(palette.kind)
    &&& view.close@ == "×"@
    &&& legend_views(view.legend@) == palette_legend()
    &&& opt(view.empty) == (if rows.len() == 0 {
        Some(empty_of(palette.kind, source.context.connected))
    } else {
        None
    })
    &&& palette_line_views(view.lines@) == list_lines(
        rows,
        source,
        state,
        cursor,
        rows.len() as int,
    )
    &&& match view.selected_line {
        Some(at) => at < view.lines@.len() && view.lines@[at as int]@ == row_view(
            rows,
            source,
            state,
            cursor,
            cursor,
        ),
        None => rows.len() == 0,
    }
}

/// The palette as it is drawn, over the rows that match what has been typed.
pub fn render_palette(palette: &Palette, source: &PaletteSource, state: &ThemeState) -> (view:
    PaletteView)
    ensures
        palette_view_is(view, *palette, rows_of(*palette, *source), *source, state@),
{
    let rows = palette_rows(palette.kind, palette.query.text(), source);
    let tables: usize = source.tables.len();
    let themes: usize = source.themes.len();
    proof {
        assert(tables == source.tables@.len() && themes == source.themes@.len());
        listed_rows_are_on_offer(palette.kind, palette.query@.text, *source);
    }
    draw_rows(palette, &rows, source, state)
}

/// The palette over a list of rows.
pub fn draw_rows(
    palette: &Palette,
    rows: &Vec<PaletteRow>,
    source: &PaletteSource,
    state: &ThemeState,
) -> (view: PaletteView)
    requires
        rows_fit(rows@, *source),
    ensures
        palette_view_is(view, *palette, rows@, *source, state@),
{
    let placeholder = match palette.kind {
        PaletteKind::GoToTable => "Search tables…".to_string(),
        PaletteKind::Actions => "Type a command…".to_string(),
        PaletteKind::Themes => "Search themes…".to_string(),
    };
    let empty = if rows.len() == 0 {
        Some(
            match palette.kind {
                PaletteKind::GoToTable => {
                    if source.context.connected {
                        "No matching tables".to_string()
                    } else {
                        "Connect to a database first".to_string()
                    }
                },
                PaletteKind::Actions => "No matching actions".to_string(),
                PaletteKind::Themes => "No matching themes".to_string(),
            },
        )
    } else {
        None
    };
    let cursor: usize = if rows.len() == 0 {
        0
    } else if palette.selected < rows.len() {
        palette.selected
    } else {
        rows.len() - 1
    };
    let (lines, selected_line) = palette_list(rows, source, state, cursor);
    PaletteView {
        query: palette.query.text().to_string(),
        placeholder,
        close: "×".to_string(),
        empty,
        lines,
        selected_line,
        legend: legend(),
    }
}

/// What the palette lists always points at something on offer.
pub proof fn listed_rows_are_on_offer(kind: PaletteKind, query: Seq<char>, source: PaletteSource)
    requires
        source.tables@.len() <= usize::MAX,
        source.themes@.len() <= usize::MAX,
    ensures
        rows_fit(matching(kind, lowered_source(query, source), source.context), source),
{
    let lowered = lowered_source(query, source);
    lemma_rows_in_range(lowered, source.context, lowered.tables.len() as int);
    lemma_rows_in_range(lowered, source.context, lowered.themes.len() as int);
    lemma_rows_in_range(lowered, source.context, action_order().len() as int);
}

/// The cursor is drawn on its row, on the last where the list has grown shorter, and
/// never past it.
pub proof fn the_cursor_is_drawn_in_the_list(selected: int, count: int)
    requires
        0 <= selected,
        0 <= count,
    ensures
        selected < count ==> drawn_cursor(selected, count) == selected,
        0 < count <= selected ==> drawn_cursor(selected, count) == count - 1,
        count > 0 ==> 0 <= drawn_cursor(selected, count) < count,
        count == 0 ==> drawn_cursor(selected, count) == 0,
{
}

/// Only the theme picker has a theme on trial: leaving it puts back the one from
/// before, and leaving another list changes nothing.
pub proof fn leaving_the_picker_puts_the_theme_back(open: Option<Palette>, state: ThemeView)
    ensures
        is_theme_picker(open) <==> open is Some && open->0.kind is Themes,
        !is_theme_picker(open) ==> left_palette(open, state) == state,
        is_theme_picker(open) && state.previous is Some ==> left_palette(open, state).current
            == state.previous->0 && left_palette(open, state).previous is None,
        is_theme_picker(open) && state.previous is None ==> left_palette(open, state) == state,
{
}

/// The theme under the cursor is the one that is tried on, and what to go back to is
/// kept; a row that is no theme changes nothing.
pub proof fn the_theme_under_the_cursor_is_tried_on(
    state: ThemeView,
    rows: Seq<PaletteRow>,
    themes: Seq<ThemeEntry>,
    selected: usize,
)
    ensures
        ({
            let on_theme = selected < rows.len() && rows[selected as int] is Theme
                && rows[selected as int]->Theme_0 < themes.len();
            let after = preview_under(state, rows, themes, selected);
            &&& theme_under(rows, themes, selected) is Some <==> on_theme
            &&& on_theme ==> after.current
                == themes[rows[selected as int]->Theme_0 as int].id@
            &&& after.previous == state.previous
            &&& !on_theme ==> after == state
        }),
{
}

/// A list that holds nothing says what it looked for; without a connection there is
/// no table to look for.
pub proof fn an_empty_list_says_what_it_looked_for(connected: bool)
    ensures
        empty_of(PaletteKind::GoToTable, true) == seq!['N', 'o', ' ', 'm', 'a', 't', 'c', 'h', 'i', 'n', 'g', ' ', 't', 'a', 'b', 'l', 'e', 's'],
        empty_of(PaletteKind::GoToTable, false) == seq!['C', 'o', 'n', 'n', 'e', 'c', 't', ' ', 't', 'o', ' ', 'a', ' ', 'd', 'a', 't', 'a', 'b', 'a', 's', 'e', ' ', 'f', 'i', 'r', 's', 't'],
        empty_of(PaletteKind::Actions, connected) == seq!['N', 'o', ' ', 'm', 'a', 't', 'c', 'h', 'i', 'n', 'g', ' ', 'a', 'c', 't', 'i', 'o', 'n', 's'],
        empty_of(PaletteKind::Themes, connected) == seq!['N', 'o', ' ', 'm', 'a', 't', 'c', 'h', 'i', 'n', 'g', ' ', 't', 'h', 'e', 'm', 'e', 's'],
        placeholder_of(PaletteKind::GoToTable) == seq!['S', 'e', 'a', 'r', 'c', 'h', ' ', 't', 'a', 'b', 'l', 'e', 's', '…'],
        placeholder_of(PaletteKind::Actions) == seq!['T', 'y', 'p', 'e', ' ', 'a', ' ', 'c', 'o', 'm', 'm', 'a', 'n', 'd', '…'],
        placeholder_of(PaletteKind::Themes) == seq!['S', 'e', 'a', 'r', 'c', 'h', ' ', 't', 'h', 'e', 'm', 'e', 's', '…'],
{
    reveal_strlit("No matching tables");
    reveal_strlit("Connect to a database first");
    reveal_strlit("No matching actions");
    reveal_strlit("No matching themes");
    reveal_strlit("Search tables…");
    reveal_strlit("Type a command…");
    reveal_strlit("Search themes…");
    assert("No matching tables"@ == seq!['N', 'o', ' ', 'm', 'a', 't', 'c', 'h', 'i', 'n', 'g', ' ', 't', 'a', 'b', 'l', 'e', 's']);
    assert("Connect to a database first"@ == seq!['C', 'o', 'n', 'n', 'e', 'c', 't', ' ', 't', 'o', ' ', 'a', ' ', 'd', 'a', 't', 'a', 'b', 'a', 's', 'e', ' ', 'f', 'i', 'r', 's', 't']);
    assert("No matching actions"@ == seq!['N', 'o', ' ', 'm', 'a', 't', 'c', 'h', 'i', 'n', 'g', ' ', 'a', 'c', 't', 'i', 'o', 'n', 's']);
    assert("No matching themes"@ == seq!['N', 'o', ' ', 'm', 'a', 't', 'c', 'h', 'i', 'n', 'g', ' ', 't', 'h', 'e', 'm', 'e', 's']);
    assert("Search tables…"@ == seq!['S', 'e', 'a', 'r', 'c', 'h', ' ', 't', 'a', 'b', 'l', 'e', 's', '…']);
    assert("Type a command…"@ == seq!['T', 'y', 'p', 'e', ' ', 'a', ' ', 'c', 'o', 'm', 'm', 'a', 'n', 'd', '…']);
    assert("Search themes…"@ == seq!['S', 'e', 'a', 'r', 'c', 'h', ' ', 't', 'h', 'e', 'm', 'e', 's', '…']);
}

/// The list shows what is typed and the rows that match it, with the row under the
/// cursor in view; words stand in where there are none.
pub proof fn the_list_shows_the_row_under_the_cursor(
    view: PaletteView,
    palette: Palette,
    rows: Seq<PaletteRow>,
    source: PaletteSource,
    state: ThemeView,
)
    requires
        palette_view_is(view, palette, rows, source, state),
    ensures
        view.query@ == palette.query@.text,
        view.empty is Some <==> rows.len() == 0,
        view.selected_line is Some <==> rows.len() > 0,
        palette.selected < rows.len() ==> view.lines@[view.selected_line->0 as int]@ == row_view(
            rows,
            source,
            state,
            palette.selected as int,
            palette.selected as int,
        ),
{
    assert(palette_line_views(view.lines@).len() == view.lines@.len());
}

/// A list holds what matches what is typed in it.
pub proof fn a_list_is_of_what_is_typed(palette: Palette, source: PaletteSource)
    ensures
        rows_of(palette, source) == matching(
            palette.kind,
            lowered_source(palette.query@.text, source),
            source.context,
        ),
{
}

} // verus!
