//! Right-click menus, and the typed confirmation that guards the two
//! destructive entries in them.
use crate::domain::{ConnectionId, Status, TableKind, TableRef};
use crate::keys::Keystroke;
use crate::text::{lemma_places_step, opt, places_where, same, trim, trimmed};
use crate::text_field::{Focus, FocusState};
use crate::text_input::{line_input, TextInput};
use vstd::prelude::*;
use vstd::string::*;

verus! {

/// What the pointer was over.
#[derive(Debug)]
pub enum ContextTarget {
    Table { table: TableRef, kind: TableKind },
    Schema { connection: ConnectionId, name: String },
    /// A row in the result grid.
    Rows,
}

/// One thing a context menu can do.
#[derive(Debug, Clone, Copy, PartialEq, Eq, Structural)]
pub enum MenuAction {
    OpenTable,
    ShowStructure,
    CopyName,
    CopyQualifiedName,
    SelectInSqlTab,
    CopyInsert,
    CopyCreate,
    RefreshCatalog,
    ToggleSchema,
    Truncate,
    Drop,
    CopyRowsTsv,
    CopyRowsJson,
    CopyRowsInsert,
    DeleteRows,
    AddRow,
}

impl MenuAction {
    pub open spec fn destroys(self) -> bool {
        self == MenuAction::Truncate || self == MenuAction::Drop
    }

    /// Whether picking this needs a typed confirmation first.
    pub fn is_destructive(self) -> (destructive: bool)
        ensures
            destructive == self.destroys(),
    {
        match self {
            MenuAction::Truncate => true,
            MenuAction::Drop => true,
            _ => false,
        }
    }
}

/// The shapes that rows are copied in.
#[derive(Debug, Clone, Copy, PartialEq, Eq, Structural)]
pub enum RowFormat {
    Tsv,
    Json,
    Insert,
}

/// What a row of the menu is called: by its own words, or by the shape it copies
/// in.
#[derive(Debug)]
pub enum MenuLabel {
    Text(String),
    Format(RowFormat),
}

#[derive(Debug)]
pub enum MenuRow {
    Separator,
    Item { action: MenuAction, label: MenuLabel },
}

/// What a row of the menu says.
pub enum MenuRowView {
    Separator,
    Item { action: MenuAction, label: Seq<char> },
    Copy { action: MenuAction, format: RowFormat },
}

impl View for MenuRow {
    type V = MenuRowView;

    open spec fn view(&self) -> MenuRowView {
        match *self {
            MenuRow::Separator => MenuRowView::Separator,
            MenuRow::Item { action, label: MenuLabel::Text(text) } => MenuRowView::Item {
                action,
                label: text@,
            },
            MenuRow::Item { action, label: MenuLabel::Format(format) } => MenuRowView::Copy {
                action,
                format,
            },
        }
    }
}

/// What each row of a menu says.
pub open spec fn menu_row_views(rows: Seq<MenuRow>) -> Seq<MenuRowView> {
    Seq::new(rows.len(), |i: int| rows[i]@)
}

pub open spec fn item_view(action: MenuAction, label: Seq<char>) -> MenuRowView {
    MenuRowView::Item { action, label }
}

pub open spec fn drop_label(kind: TableKind) -> Seq<char> {
    match kind {
        TableKind::Table => "Drop Table…"@,
        TableKind::View => "Drop View…"@,
        TableKind::MaterializedView => "Drop Materialized View…"@,
    }
}

/// The rows of a table's menu before the destructive ones.
pub open spec fn table_rows() -> Seq<MenuRowView> {
    seq![
        item_view(MenuAction::OpenTable, "Open"@),
        item_view(MenuAction::ShowStructure, "Show Structure"@),
        MenuRowView::Separator,
        item_view(MenuAction::CopyName, "Copy Name"@),
        item_view(MenuAction::CopyQualifiedName, "Copy Qualified Name"@),
        MenuRowView::Separator,
        item_view(MenuAction::SelectInSqlTab, "SELECT in New SQL Tab"@),
        item_view(MenuAction::CopyInsert, "Copy INSERT Template"@),
        item_view(MenuAction::CopyCreate, "Copy CREATE TABLE"@),
        MenuRowView::Separator,
        item_view(MenuAction::RefreshCatalog, "Refresh Catalog"@),
        MenuRowView::Separator,
    ]
}

/// The rows of a menu. There is nothing to truncate in a view: every engine
/// rejects it.
pub open spec fn menu_rows(target: ContextTarget) -> Seq<MenuRowView> {
    match target {
        ContextTarget::Rows => seq![
            MenuRowView::Copy { action: MenuAction::CopyRowsTsv, format: RowFormat::Tsv },
            MenuRowView::Copy { action: MenuAction::CopyRowsJson, format: RowFormat::Json },
            MenuRowView::Copy { action: MenuAction::CopyRowsInsert, format: RowFormat::Insert },
            MenuRowView::Separator,
            item_view(MenuAction::AddRow, "New Row"@),
            item_view(MenuAction::DeleteRows, "Delete Selected Rows"@),
        ],
        ContextTarget::Schema { .. } => seq![
            item_view(MenuAction::ToggleSchema, "Expand / Collapse"@),
            item_view(MenuAction::CopyName, "Copy Name"@),
            MenuRowView::Separator,
            item_view(MenuAction::RefreshCatalog, "Refresh Catalog"@),
        ],
        ContextTarget::Table { kind, .. } => if kind == TableKind::Table {
            table_rows().push(item_view(MenuAction::Truncate, "Truncate Table…"@)).push(
                item_view(MenuAction::Drop, drop_label(kind)),
            )
        } else {
            table_rows().push(item_view(MenuAction::Drop, drop_label(kind)))
        },
    }
}

fn item(action: MenuAction, label: &str) -> (row: MenuRow)
    ensures
        row@ == item_view(action, label@),
{
    MenuRow::Item { action, label: MenuLabel::Text(label.to_string()) }
}

fn copy_item(action: MenuAction, format: RowFormat) -> (row: MenuRow)
    ensures
        row@ == (MenuRowView::Copy { action, format }),
{
    MenuRow::Item { action, label: MenuLabel::Format(format) }
}

/// The rows of a menu, separators included.
pub fn rows_for(target: &ContextTarget) -> (rows: Vec<MenuRow>)
    ensures
        menu_row_views(rows@) == menu_rows(*target),
{
    match target {
        ContextTarget::Rows => {
            let rows = vec![
                copy_item(MenuAction::CopyRowsTsv, RowFormat::Tsv),
                copy_item(MenuAction::CopyRowsJson, RowFormat::Json),
                copy_item(MenuAction::CopyRowsInsert, RowFormat::Insert),
                MenuRow::Separator,
                item(MenuAction::AddRow, "New Row"),
                item(MenuAction::DeleteRows, "Delete Selected Rows"),
            ];
            assert(menu_row_views(rows@) == menu_rows(*target));
            rows
        },
        ContextTarget::Schema { .. } => {
            let rows = vec![
                item(MenuAction::ToggleSchema, "Expand / Collapse"),
                item(MenuAction::CopyName, "Copy Name"),
                MenuRow::Separator,
                item(MenuAction::RefreshCatalog, "Refresh Catalog"),
            ];
            assert(menu_row_views(rows@) == menu_rows(*target));
            rows
        },
        ContextTarget::Table { kind, .. } => {
            let mut rows = vec![
                item(MenuAction::OpenTable, "Open"),
                item(MenuAction::ShowStructure, "Show Structure"),
                MenuRow::Separator,
                item(MenuAction::CopyName, "Copy Name"),
                item(MenuAction::CopyQualifiedName, "Copy Qualified Name"),
                MenuRow::Separator,
                item(MenuAction::SelectInSqlTab, "SELECT in New SQL Tab"),
                item(MenuAction::CopyInsert, "Copy INSERT Template"),
                item(MenuAction::CopyCreate, "Copy CREATE TABLE"),
                MenuRow::Separator,
                item(MenuAction::RefreshCatalog, "Refresh Catalog"),
                MenuRow::Separator,
            ];
            assert(menu_row_views(rows@) == table_rows());
            if *kind == TableKind::Table {
                rows.push(item(MenuAction::Truncate, "Truncate Table…"));
            }
            rows.push(
                item(
                    MenuAction::Drop,
                    match kind {
                        TableKind::Table => "Drop Table…",
                        TableKind::View => "Drop View…",
                        TableKind::MaterializedView => "Drop Materialized View…",
                    },
                ),
            );
            assert(menu_row_views(rows@) == menu_rows(*target));
            rows
        },
    }
}

/// The actions among the rows, in order.
pub open spec fn actions_in(rows: Seq<MenuRowView>) -> Seq<MenuAction>
    decreases rows.len(),
{
    if rows.len() == 0 {
        Seq::empty()
    } else {
        let before = actions_in(rows.drop_last());
        match rows.last() {
            MenuRowView::Separator => before,
            MenuRowView::Item { action, .. } => before.push(action),
            MenuRowView::Copy { action, .. } => before.push(action),
        }
    }
}

/// What the keyboard can pick in a menu.
pub open spec fn menu_actions(target: ContextTarget) -> Seq<MenuAction> {
    actions_in(menu_rows(target))
}

/// What the keyboard can pick in a menu: its rows without the separators.
pub fn actions_of(target: &ContextTarget) -> (actions: Vec<MenuAction>)
    ensures
        actions@ == menu_actions(*target),
{
    let rows = rows_for(target);
    let ghost views = menu_row_views(rows@);
    let mut actions: Vec<MenuAction> = Vec::new();
    let mut i: usize = 0;
    assert(views.take(0) == Seq::<MenuRowView>::empty());
    while i < rows.len()
        invariant
            i <= rows@.len(),
            views == menu_row_views(rows@),
            actions@ == actions_in(views.take(i as int)),
        decreases rows@.len() - i,
    {
        assert(views.take(i + 1).drop_last() == views.take(i as int));
        assert(views.take(i + 1).last() == rows@[i as int]@);
        match &rows[i] {
            MenuRow::Item { action, label } => {
                assert(match *label {
                    MenuLabel::Text(_) => true,
                    MenuLabel::Format(_) => true,
                });
                actions.push(*action);
            },
            MenuRow::Separator => {},
        }
        i += 1;
    }
    assert(views.take(i as int) == views);
    actions
}

/// How many of the rows are separators.
pub open spec fn separators_in(rows: Seq<MenuRowView>) -> nat
    decreases rows.len(),
{
    if rows.len() == 0 {
        0
    } else {
        separators_in(rows.drop_last()) + (if rows.last() is Separator {
            1nat
        } else {
            0nat
        })
    }
}

/// The keyboard's rows are all but the separators, so Enter never lands on a
/// divider.
pub proof fn separators_cannot_be_picked(rows: Seq<MenuRowView>)
    ensures
        actions_in(rows).len() + separators_in(rows) == rows.len(),
    decreases rows.len(),
{
    if rows.len() > 0 {
        separators_cannot_be_picked(rows.drop_last());
    }
}

proof fn lemma_actions_push(rows: Seq<MenuRowView>, row: MenuRowView)
    ensures
        actions_in(rows.push(row)) == (match row {
            MenuRowView::Separator => actions_in(rows),
            MenuRowView::Item { action, .. } => actions_in(rows).push(action),
            MenuRowView::Copy { action, .. } => actions_in(rows).push(action),
        }),
{
    assert(rows.push(row).drop_last() == rows);
}

/// No row of these calls for a confirmation.
pub open spec fn harmless(rows: Seq<MenuRowView>) -> bool {
    forall|i: int|
        0 <= i < rows.len() ==> match #[trigger] rows[i] {
            MenuRowView::Separator => true,
            MenuRowView::Item { action, .. } => !action.destroys(),
            MenuRowView::Copy { action, .. } => !action.destroys(),
        }
}

proof fn lemma_harmless(rows: Seq<MenuRowView>)
    requires
        harmless(rows),
    ensures
        forall|i: int|
            0 <= i < actions_in(rows).len() ==> !(#[trigger] actions_in(rows)[i]).destroys(),
    decreases rows.len(),
{
    if rows.len() > 0 {
        assert(harmless(rows.drop_last()));
        lemma_harmless(rows.drop_last());
        let front = actions_in(rows.drop_last());
        let all = actions_in(rows);
        assert(rows[rows.len() - 1] == rows.last());
        assert forall|i: int| 0 <= i < all.len() implies !(#[trigger] all[i]).destroys() by {
            if i < front.len() {
                assert(all[i] == front[i]);
            }
        }
    }
}

/// A menu on rows or on a schema destroys nothing; a table's does, and a view's
/// is not offered a truncate.
pub proof fn only_tables_are_destroyed(target: ContextTarget)
    ensures
        !(target is Table) ==> forall|i: int|
            0 <= i < menu_actions(target).len() ==> !(
            #[trigger] menu_actions(target)[i]).destroys(),
        target matches ContextTarget::Table { kind, .. } ==> menu_actions(target).contains(
            MenuAction::Drop,
        ),
        target matches ContextTarget::Table { kind, .. } ==> (menu_actions(target).contains(
            MenuAction::Truncate,
        ) <==> kind == TableKind::Table),
{
    match target {
        ContextTarget::Table { kind, .. } => {
            assert(harmless(table_rows()));
            lemma_harmless(table_rows());
            let front = actions_in(table_rows());
            let drop = item_view(MenuAction::Drop, drop_label(kind));
            if kind == TableKind::Table {
                let truncate = item_view(MenuAction::Truncate, "Truncate Table…"@);
                lemma_actions_push(table_rows(), truncate);
                lemma_actions_push(table_rows().push(truncate), drop);
                let all = menu_actions(target);
                assert(all[front.len() as int] == MenuAction::Truncate);
                assert(all[front.len() as int + 1] == MenuAction::Drop);
            } else {
                lemma_actions_push(table_rows(), drop);
                let all = menu_actions(target);
                assert(all[front.len() as int] == MenuAction::Drop);
                assert forall|i: int| 0 <= i < all.len() implies all[i]
                    != MenuAction::Truncate by {
                    if i < front.len() {
                        assert(all[i] == front[i]);
                    }
                }
            }
        },
        _ => {
            assert(harmless(menu_rows(target)));
            lemma_harmless(menu_rows(target));
        },
    }
}

/// An open menu. Where it stands on screen is the window's business.
#[derive(Debug)]
pub struct ContextMenu {
    pub target: ContextTarget,
    /// Keyboard cursor. Indexes the *selectable* rows, not the separators.
    pub selected: usize,
}

/// A right-click opens a menu, in place of the one that was open, and closes the
/// list of connections and a field's menu of values. A typed confirmation is
/// modal: a menu opening behind it would offer a second destructive statement
/// over the top of one the user has not answered yet.
pub fn open_context_menu(
    menu: &mut Option<ContextMenu>,
    confirm_open: bool,
    target: ContextTarget,
    picker_open: &mut bool,
    value_menu: &mut Option<usize>,
)
    ensures
        confirm_open ==> *final(menu) == *old(menu) && *final(picker_open) == *old(picker_open)
            && *final(value_menu) == *old(value_menu),
        !confirm_open ==> *final(menu) == Some((ContextMenu { target, selected: 0 })),
        !confirm_open ==> !*final(picker_open) && *final(value_menu) is None,
{
    if confirm_open {
        return;
    }
    *picker_open = false;
    *value_menu = None;
    *menu = Some(ContextMenu { target, selected: 0 });
}

proof fn lemma_menu_has_actions(target: ContextTarget)
    ensures
        menu_actions(target).len() > 0,
{
    match target {
        ContextTarget::Rows => {
            reveal_with_fuel(actions_in, 7);
        },
        ContextTarget::Schema { .. } => {
            reveal_with_fuel(actions_in, 5);
        },
        ContextTarget::Table { .. } => {
            only_tables_are_destroyed(target);
        },
    }
}

impl ContextMenu {
    /// The cursor is on a row.
    pub open spec fn wf(self) -> bool {
        self.selected < menu_actions(self.target).len()
    }

    /// A key while the menu is open: the arrows move the cursor around the
    /// rows, Enter picks the row it is on.
    pub fn handle_context_menu_key(&mut self, key: &str) -> (picked: Option<MenuAction>)
        requires
            old(self).selected < usize::MAX,
        ensures
            final(self).target == old(self).target,
            ({
                let count = menu_actions(old(self).target).len();
                &&& final(self).selected == (if key@ == "down"@ {
                    (old(self).selected + 1) % (count as int)
                } else if key@ == "up"@ {
                    if old(self).selected == 0 {
                        count - 1
                    } else {
                        old(self).selected - 1
                    }
                } else {
                    old(self).selected as int
                })
                &&& picked == (if key@ == "enter"@ && old(self).wf() {
                    Some(menu_actions(old(self).target)[old(self).selected as int])
                } else {
                    None
                })
            }),
            old(self).wf() ==> final(self).wf(),
    {
        let actions = actions_of(&self.target);
        proof {
            lemma_menu_has_actions(self.target);
            reveal_strlit("down");
            reveal_strlit("up");
            reveal_strlit("enter");
            assert("down"@[0] != "enter"@[0]);
            assert("up"@[0] != "enter"@[0]);
            assert("up"@[0] != "down"@[0]);
        }
        if same(key, "down") {
            self.selected = (self.selected + 1) % actions.len();
            None
        } else if same(key, "up") {
            self.selected = if self.selected == 0 {
                actions.len() - 1
            } else {
                self.selected - 1
            };
            None
        } else if same(key, "enter") {
            if self.selected < actions.len() {
                Some(actions[self.selected])
            } else {
                None
            }
        } else {
            None
        }
    }
}

/// A destructive statement waiting for the user to type the relation's name.
///
/// A confirm button on its own is a reflex; typing the name is a sentence the
/// user has to mean. The name is also what tells them *which* table they are
/// about to lose when the menu that started this is long gone.
#[derive(Debug)]
pub struct ConfirmPrompt {
    pub action: MenuAction,
    pub table: TableRef,
    pub kind: TableKind,
    pub input: TextInput,
    pub running: bool,
    pub error: Option<String>,
}

pub open spec fn kind_word(kind: TableKind) -> Seq<char> {
    match kind {
        TableKind::Table => "table"@,
        TableKind::View => "view"@,
        TableKind::MaterializedView => "materialized view"@,
    }
}

impl ConfirmPrompt {
    pub open spec fn is_armed(self) -> bool {
        !self.running && trimmed(self.input@.text) == self.table.name@
    }

    pub fn new(action: MenuAction, table: TableRef, kind: TableKind) -> (prompt: Self)
        ensures
            prompt.action == action,
            prompt.table == table,
            prompt.kind == kind,
            prompt.input@ == line_input(Seq::empty()),
            !prompt.running,
            prompt.error is None,
    {
        ConfirmPrompt {
            action,
            table,
            kind,
            input: TextInput::new(false),
            running: false,
            error: None,
        }
    }

    pub open spec fn title_text(self) -> Seq<char> {
        (if self.action == MenuAction::Truncate {
            "Truncate "@
        } else {
            "Drop "@
        }) + kind_word(self.kind)
    }

    pub fn title(&self) -> (title: String)
        ensures
            title@ == self.title_text(),
    {
        let mut title: String = if self.action == MenuAction::Truncate {
            "Truncate ".to_string()
        } else {
            "Drop ".to_string()
        };
        title.append(
            match self.kind {
                TableKind::Table => "table",
                TableKind::View => "view",
                TableKind::MaterializedView => "materialized view",
            },
        );
        title
    }

    pub open spec fn body_text(self, qualified: Seq<char>) -> Seq<char> {
        if self.action == MenuAction::Truncate {
            "Every row in "@ + qualified + " is deleted. This cannot be undone and is not "@
                + "part of the staged batch — it runs immediately."@
        } else {
            qualified + " and everything in it is removed from the server. "@
                + "This cannot be undone."@
        }
    }

    /// What is about to be lost, under the relation's qualified name.
    pub fn body(&self, qualified: &str) -> (body: String)
        ensures
            body@ == self.body_text(qualified@),
    {
        let mut body: String = String::new();
        if self.action == MenuAction::Truncate {
            body.append("Every row in ");
            body.append(qualified);
            body.append(" is deleted. This cannot be undone and is not ");
            body.append("part of the staged batch — it runs immediately.");
        } else {
            body.append(qualified);
            body.append(" and everything in it is removed from the server. ");
            body.append("This cannot be undone.");
        }
        assert(body@ == self.body_text(qualified@));
        body
    }

    /// What has to be typed: the bare name, which is what the tree shows.
    pub fn expected(&self) -> (name: &str)
        ensures
            name@ == self.table.name@,
    {
        self.table.name.as_str()
    }

    /// White space is a typo, not a different table; and a running action cannot
    /// be fired twice.
    pub fn armed(&self) -> (armed: bool)
        ensures
            armed == self.is_armed(),
    {
        !self.running && same(trim(self.input.text()).as_str(), self.expected())
    }

    /// The input took a key: what it was told before no longer applies.
    pub fn edited(&mut self)
        ensures
            final(self).error is None,
            final(self).action == old(self).action,
            final(self).table == old(self).table,
            final(self).kind == old(self).kind,
            final(self).input == old(self).input,
            final(self).running == old(self).running,
    {
        self.error = None;
    }
}

/// What picking a row of a menu comes to.
#[derive(Debug)]
pub enum MenuEffect {
    Nothing,
    /// The connection is read-only: what it would not do.
    Refused(String),
    /// A destructive pick asks instead of running.
    Confirm(ConfirmPrompt),
    ToggleSchema { connection: ConnectionId, name: String },
    Copy { text: String, status: Status },
    CopyQualified { table: TableRef, status: Status },
    RefreshCatalog,
    CopyRows(RowFormat),
    AddRow,
    DeleteRows,
    OpenTable { table: TableRef, structure: bool },
    SelectInSqlTab(TableRef),
    NotConnected(Status),
    CopySql { table: TableRef, scaffold: Scaffold },
}

/// The statement to copy a template of.
#[derive(Debug, Clone, Copy, PartialEq, Eq, Structural)]
pub enum Scaffold {
    CreateTable,
    Insert,
}

/// Which template an action copies.
pub fn render_scaffold(action: MenuAction) -> (scaffold: Scaffold)
    ensures
        scaffold == (if action == MenuAction::CopyCreate {
            Scaffold::CreateTable
        } else {
            Scaffold::Insert
        }),
{
    if action == MenuAction::CopyCreate {
        Scaffold::CreateTable
    } else {
        Scaffold::Insert
    }
}

pub open spec fn effect_is(
    effect: MenuEffect,
    target: ContextTarget,
    action: MenuAction,
    read_only: bool,
    connected: bool,
) -> bool {
    if action.destroys() {
        if read_only {
            effect matches MenuEffect::Refused(what) && what@ == "That"@
        } else {
            match target {
                ContextTarget::Table { table, kind } => effect matches MenuEffect::Confirm(prompt)
                    && prompt.action == action && prompt.table == table && prompt.kind == kind
                    && !prompt.running && prompt.input@ == line_input(Seq::empty()) && prompt.error is None,
                _ => effect is Nothing,
            }
        }
    } else {
        match action {
            MenuAction::RefreshCatalog => effect is RefreshCatalog,
            MenuAction::CopyRowsTsv => effect == MenuEffect::CopyRows(RowFormat::Tsv),
            MenuAction::CopyRowsJson => effect == MenuEffect::CopyRows(RowFormat::Json),
            MenuAction::CopyRowsInsert => effect == MenuEffect::CopyRows(RowFormat::Insert),
            MenuAction::AddRow => effect is AddRow,
            MenuAction::DeleteRows => effect is DeleteRows,
            _ => match target {
                ContextTarget::Rows => effect is Nothing,
                ContextTarget::Schema { connection, name } => match action {
                    MenuAction::ToggleSchema => effect matches MenuEffect::ToggleSchema {
                        connection: toggled,
                        name: toggled_name,
                    } && toggled == connection && toggled_name@ == name@,
                    MenuAction::CopyName => effect matches MenuEffect::Copy { text, status }
                        && text@ == name@ && status.info_is("Schema name copied"@),
                    _ => effect is Nothing,
                },
                ContextTarget::Table { table, .. } => match action {
                    MenuAction::OpenTable => effect == (MenuEffect::OpenTable {
                        table,
                        structure: false,
                    }),
                    MenuAction::ShowStructure => effect == (MenuEffect::OpenTable {
                        table,
                        structure: true,
                    }),
                    MenuAction::CopyName => effect matches MenuEffect::Copy { text, status }
                        && text@ == table.name@ && status.info_is("Table name copied"@),
                    MenuAction::CopyQualifiedName => effect matches MenuEffect::CopyQualified {
                        table: named,
                        status,
                    } && named == table && status.info_is("Table name copied"@),
                    MenuAction::SelectInSqlTab => if connected {
                        effect == MenuEffect::SelectInSqlTab(table)
                    } else {
                        effect matches MenuEffect::NotConnected(status) && status.error_is(
                            "Not connected"@,
                        )
                    },
                    MenuAction::CopyInsert => effect == (MenuEffect::CopySql {
                        table,
                        scaffold: Scaffold::Insert,
                    }),
                    MenuAction::CopyCreate => effect == (MenuEffect::CopySql {
                        table,
                        scaffold: Scaffold::CreateTable,
                    }),
                    _ => effect is Nothing,
                },
            },
        }
    }
}

fn effect_on(
    target: ContextTarget,
    action: MenuAction,
    read_only: bool,
    connected: bool,
) -> (effect: MenuEffect)
    ensures
        effect_is(effect, target, action, read_only, connected),
{
    if action.is_destructive() {
        if read_only {
            return MenuEffect::Refused("That".to_string());
        }
        return match target {
            ContextTarget::Table { table, kind } => MenuEffect::Confirm(
                ConfirmPrompt::new(action, table, kind),
            ),
            _ => MenuEffect::Nothing,
        };
    }
    match action {
        MenuAction::RefreshCatalog => MenuEffect::RefreshCatalog,
        MenuAction::CopyRowsTsv => MenuEffect::CopyRows(RowFormat::Tsv),
        MenuAction::CopyRowsJson => MenuEffect::CopyRows(RowFormat::Json),
        MenuAction::CopyRowsInsert => MenuEffect::CopyRows(RowFormat::Insert),
        MenuAction::AddRow => MenuEffect::AddRow,
        MenuAction::DeleteRows => MenuEffect::DeleteRows,
        _ => match target {
            ContextTarget::Rows => MenuEffect::Nothing,
            ContextTarget::Schema { connection, name } => match action {
                MenuAction::ToggleSchema => MenuEffect::ToggleSchema { connection, name },
                MenuAction::CopyName => MenuEffect::Copy {
                    text: name,
                    status: Status::info("Schema name copied"),
                },
                _ => MenuEffect::Nothing,
            },
            ContextTarget::Table { table, .. } => match action {
                MenuAction::OpenTable => MenuEffect::OpenTable { table, structure: false },
                MenuAction::ShowStructure => MenuEffect::OpenTable { table, structure: true },
                MenuAction::CopyName => MenuEffect::Copy {
                    text: table.name,
                    status: Status::info("Table name copied"),
                },
                MenuAction::CopyQualifiedName => MenuEffect::CopyQualified {
                    table,
                    status: Status::info("Table name copied"),
                },
                MenuAction::SelectInSqlTab => {
                    if connected {
                        MenuEffect::SelectInSqlTab(table)
                    } else {
                        MenuEffect::NotConnected(Status::error("Not connected"))
                    }
                },
                MenuAction::CopyInsert => MenuEffect::CopySql {
                    table,
                    scaffold: Scaffold::Insert,
                },
                MenuAction::CopyCreate => MenuEffect::CopySql {
                    table,
                    scaffold: Scaffold::CreateTable,
                },
                _ => MenuEffect::Nothing,
            },
        },
    }
}

/// Runs a row of the open menu, which closes it. A destructive pick opens the
/// confirmation instead of running, and a statement that is put into a query tab
/// takes the keyboard there. Without a menu nothing happens.
pub fn run_context_action(
    menu: &mut Option<ContextMenu>,
    action: MenuAction,
    read_only: bool,
    connected: bool,
    focus: &mut FocusState,
) -> (effect: MenuEffect)
    ensures
        *final(menu) is None,
        match *old(menu) {
            Some(menu) => effect_is(effect, menu.target, action, read_only, connected),
            None => effect is Nothing,
        },
        *final(focus) == (if effect is SelectInSqlTab {
            FocusState { focus: Focus::Editor, ..*old(focus) }
        } else {
            *old(focus)
        }),
{
    let target = match menu.take() {
        Some(open) => open.target,
        None => return MenuEffect::Nothing,
    };
    let effect = effect_on(target, action, read_only, connected);
    if let MenuEffect::SelectInSqlTab(_) = &effect {
        focus.focus = Focus::Editor;
    }
    effect
}

/// How a template's columns are had.
#[derive(Debug)]
pub enum ScaffoldStart {
    NotConnected(Status),
    /// They are known already.
    FromCache,
    /// They have to be read first.
    Fetch(Status),
}

/// Copy an INSERT or CREATE scaffold, fetching the columns if they are not
/// already cached.
pub fn copy_generated_sql(connected: bool, cached: bool, qualified: &str) -> (start: ScaffoldStart)
    ensures
        match start {
            ScaffoldStart::NotConnected(status) => !connected && status.error_is("Not connected"@),
            ScaffoldStart::FromCache => connected && cached,
            ScaffoldStart::Fetch(status) => connected && !cached && status.busy_is(
                "Reading "@ + qualified@ + "…"@,
            ),
        },
{
    if !connected {
        ScaffoldStart::NotConnected(Status::error("Not connected"))
    } else if cached {
        ScaffoldStart::FromCache
    } else {
        let mut line: String = "Reading ".to_string();
        line.append(qualified);
        line.append("…");
        ScaffoldStart::Fetch(Status::Busy(line))
    }
}

/// What the columns' arrival is answered with: copied, or the error; nothing
/// where the read was dropped.
pub fn scaffold_landed(landed: &Option<Result<(), String>>) -> (status: Option<Status>)
    ensures
        match (landed, status) {
            (Some(Ok(_)), Some(status)) => status.info_is("SQL copied"@),
            (Some(Err(error)), Some(status)) => status.error_is(error@),
            (None, None) => true,
            _ => false,
        },
{
    match landed {
        Some(Ok(_)) => Some(Status::info("SQL copied")),
        Some(Err(error)) => Some(Status::error(error.as_str())),
        None => None,
    }
}

/// The confirmation after Esc: gone, unless its statement is running.
pub fn close_confirm(confirm: Option<ConfirmPrompt>) -> (left: Option<ConfirmPrompt>)
    ensures
        left == (match confirm {
            Some(prompt) => if prompt.running {
                confirm
            } else {
                None
            },
            None => None,
        }),
{
    match confirm {
        Some(prompt) => {
            if prompt.running {
                Some(prompt)
            } else {
                None
            }
        },
        None => None,
    }
}

/// What a key does while the confirmation is up.
#[derive(Debug, Clone, Copy, PartialEq, Eq, Structural)]
pub enum ConfirmKey {
    Close,
    Run,
    /// The input takes it, if it wants it.
    Edit,
    Ignored,
}

pub fn handle_confirm_key(confirm: &Option<ConfirmPrompt>, keystroke: &Keystroke) -> (does:
    ConfirmKey)
    ensures
        does == (if keystroke.key@ == "escape"@ {
            ConfirmKey::Close
        } else if keystroke.key@ == "enter"@ && !keystroke.platform {
            ConfirmKey::Run
        } else if *confirm is Some && !confirm.unwrap().running {
            ConfirmKey::Edit
        } else {
            ConfirmKey::Ignored
        }),
{
    let key = keystroke.key.as_str();
    if same(key, "escape") {
        return ConfirmKey::Close;
    }
    if same(key, "enter") && !keystroke.platform {
        return ConfirmKey::Run;
    }
    match confirm {
        Some(prompt) => {
            if prompt.running {
                ConfirmKey::Ignored
            } else {
                ConfirmKey::Edit
            }
        },
        None => ConfirmKey::Ignored,
    }
}

/// What confirming comes to.
#[derive(Debug)]
pub enum ConfirmedStart {
    /// There was nothing to confirm, or the name does not match yet.
    Nothing,
    /// The connection is read-only: what it would not do.
    Refused(String),
    NotConnected(Status),
    Truncate(Status),
    Drop(Status),
}

pub open spec fn confirming_text(action: MenuAction, qualified: Seq<char>) -> Seq<char> {
    (if action == MenuAction::Truncate {
        "Truncating "@
    } else {
        "Dropping "@
    }) + qualified + "…"@
}

/// The prompt with nothing changed but whether it runs and what it was told.
pub open spec fn same_prompt(a: ConfirmPrompt, b: ConfirmPrompt) -> bool {
    a.action == b.action && a.table == b.table && a.kind == b.kind && a.input == b.input
}

/// What confirming leaves of the prompt, and what it comes to.
pub open spec fn confirmed_is(
    step: (Option<ConfirmPrompt>, ConfirmedStart),
    confirm: Option<ConfirmPrompt>,
    read_only: bool,
    connected: bool,
    qualified: Seq<char>,
) -> bool {
    match confirm {
        _ if read_only => step.0 is None && (step.1 matches ConfirmedStart::Refused(what) && what@
            == "That"@),
        None => step.0 is None && step.1 is Nothing,
        Some(prompt) => if !prompt.is_armed() {
            &&& step.1 is Nothing
            &&& step.0 is Some
            &&& same_prompt(step.0.unwrap(), prompt)
            &&& step.0.unwrap().running == prompt.running
            &&& opt(step.0.unwrap().error) == Some("Type "@ + prompt.table.name@ + " to confirm"@)
        } else if !connected {
            &&& step.0 is None
            &&& step.1 matches ConfirmedStart::NotConnected(status) && status.error_is(
                "Not connected"@,
            )
        } else {
            &&& step.0 is Some
            &&& same_prompt(step.0.unwrap(), prompt)
            &&& step.0.unwrap().running
            &&& step.0.unwrap().error == prompt.error
            &&& if prompt.action == MenuAction::Truncate {
                step.1 matches ConfirmedStart::Truncate(status) && status.busy_is(
                    confirming_text(prompt.action, qualified),
                )
            } else {
                step.1 matches ConfirmedStart::Drop(status) && status.busy_is(
                    confirming_text(prompt.action, qualified),
                )
            }
        },
    }
}

/// A statement is on its way to the server.
pub open spec fn sends(start: ConfirmedStart) -> bool {
    start is Truncate || start is Drop
}

/// Nothing is destroyed by reflex: a statement goes out only for the relation
/// whose name was typed, on a connection that may be written to, and only once,
/// however often the button is pressed.
pub proof fn only_the_typed_relation_is_destroyed(
    confirm: Option<ConfirmPrompt>,
    read_only: bool,
    connected: bool,
    qualified: Seq<char>,
    first: (Option<ConfirmPrompt>, ConfirmedStart),
    again: (Option<ConfirmPrompt>, ConfirmedStart),
)
    requires
        confirmed_is(first, confirm, read_only, connected, qualified),
        confirmed_is(again, first.0, read_only, connected, qualified),
        sends(first.1),
    ensures
        !read_only && connected,
        confirm matches Some(prompt) && trimmed(prompt.input@.text) == prompt.table.name@ && !prompt.running
            && (first.1 is Truncate <==> prompt.action == MenuAction::Truncate),
        !sends(again.1),
{
}

/// Enter or the button: runs the statement where the typed name matches, and
/// says what to type where it does not. The read-only flag is looked at again:
/// it can be turned on while a confirmation is open.
pub fn run_confirmed_action(
    confirm: Option<ConfirmPrompt>,
    read_only: bool,
    connected: bool,
    qualified: &str,
) -> (step: (Option<ConfirmPrompt>, ConfirmedStart))
    ensures
        confirmed_is(step, confirm, read_only, connected, qualified@),
{
    if read_only {
        return (None, ConfirmedStart::Refused("That".to_string()));
    }
    let mut prompt = match confirm {
        Some(prompt) => prompt,
        None => return (None, ConfirmedStart::Nothing),
    };
    if !prompt.armed() {
        let mut error: String = "Type ".to_string();
        error.append(prompt.expected());
        error.append(" to confirm");
        prompt.error = Some(error);
        return (Some(prompt), ConfirmedStart::Nothing);
    }
    if !connected {
        return (None, ConfirmedStart::NotConnected(Status::error("Not connected")));
    }
    prompt.running = true;
    let truncates = prompt.action == MenuAction::Truncate;
    let mut line: String = if truncates {
        "Truncating ".to_string()
    } else {
        "Dropping ".to_string()
    };
    line.append(qualified);
    line.append("…");
    if truncates {
        (Some(prompt), ConfirmedStart::Truncate(Status::Busy(line)))
    } else {
        (Some(prompt), ConfirmedStart::Drop(Status::Busy(line)))
    }
}

/// What follows once a confirmed statement has ended.
#[derive(Debug)]
pub struct ConfirmedEnd {
    pub status: Option<Status>,
    /// The relation is gone, and a tab onto it would only fail.
    pub close_tabs: bool,
    pub refresh_catalog: bool,
    /// An open tab is showing rows that no longer exist.
    pub refresh_result: bool,
}

/// What the statement's end leaves of the confirmation, and what follows. A
/// failed one stays up, ready to be tried again.
pub fn confirmed_landed(
    confirm: Option<ConfirmPrompt>,
    landed: &Option<Result<(), String>>,
    dropped: bool,
    qualified: &str,
) -> (step: (Option<ConfirmPrompt>, ConfirmedEnd))
    ensures
        match landed {
            Some(Ok(_)) => {
                &&& step.0 is None
                &&& step.1.status matches Some(status) && status.info_is(
                    (if dropped {
                        "Dropped "@
                    } else {
                        "Truncated "@
                    }) + qualified@,
                )
                &&& step.1.close_tabs == dropped
                &&& step.1.refresh_catalog
                &&& step.1.refresh_result == !dropped
            },
            Some(Err(error)) => {
                &&& match (step.0, confirm) {
                    (Some(after), Some(before)) => same_prompt(after, before) && !after.running
                        && opt(after.error) == Some(error@),
                    (None, None) => true,
                    _ => false,
                }
                &&& step.1.status matches Some(status) && status.error_is(error@)
                &&& !step.1.close_tabs && !step.1.refresh_catalog && !step.1.refresh_result
            },
            None => {
                &&& match (step.0, confirm) {
                    (Some(after), Some(before)) => same_prompt(after, before) && !after.running
                        && after.error == before.error,
                    (None, None) => true,
                    _ => false,
                }
                &&& step.1.status is None
                &&& !step.1.close_tabs && !step.1.refresh_catalog && !step.1.refresh_result
            },
        },
{
    match landed {
        Some(Ok(_)) => {
            let mut line: String = if dropped {
                "Dropped ".to_string()
            } else {
                "Truncated ".to_string()
            };
            line.append(qualified);
            (
                None,
                ConfirmedEnd {
                    status: Some(Status::Info(line)),
                    close_tabs: dropped,
                    refresh_catalog: true,
                    refresh_result: !dropped,
                },
            )
        },
        Some(Err(error)) => {
            let left = match confirm {
                Some(mut prompt) => {
                    prompt.running = false;
                    prompt.error = Some(error.as_str().to_string());
                    Some(prompt)
                },
                None => None,
            };
            (
                left,
                ConfirmedEnd {
                    status: Some(Status::error(error.as_str())),
                    close_tabs: false,
                    refresh_catalog: false,
                    refresh_result: false,
                },
            )
        },
        None => {
            let left = match confirm {
                Some(mut prompt) => {
                    prompt.running = false;
                    Some(prompt)
                },
                None => None,
            };
            (
                left,
                ConfirmedEnd {
                    status: None,
                    close_tabs: false,
                    refresh_catalog: false,
                    refresh_result: false,
                },
            )
        },
    }
}

/// A tab shows this table.
pub open spec fn shows_table(tab: Option<TableRef>, table: TableRef) -> bool {
    tab matches Some(shown) && shown.same_table(table)
}

/// The first tab to close for a relation that no longer exists; closing goes on
/// until there is none.
pub fn close_tabs_for_table(tabs: &Vec<Option<TableRef>>, table: &TableRef) -> (index: Option<
    usize,
>)
    ensures
        match index {
            Some(index) => index < tabs@.len() && shows_table(tabs@[index as int], *table)
                && forall|i: int| 0 <= i < index ==> !shows_table(#[trigger] tabs@[i], *table),
            None => forall|i: int|
                0 <= i < tabs@.len() ==> !shows_table(#[trigger] tabs@[i], *table),
        },
{
    let mut i: usize = 0;
    while i < tabs.len()
        invariant
            i <= tabs@.len(),
            forall|k: int| 0 <= k < i ==> !shows_table(#[trigger] tabs@[k], *table),
        decreases tabs@.len() - i,
    {
        let shows = match &tabs[i] {
            Some(shown) => shown.same_as(table),
            None => false,
        };
        if shows {
            return Some(i);
        }
        i += 1;
    }
    None
}

/// A row of the menu as it is drawn.
#[derive(Debug)]
pub enum MenuLine {
    Separator,
    Item { row: MenuRow, selected: bool, danger: bool },
}

/// How many of the first `upto` rows the keyboard can pick.
pub open spec fn picks_before(rows: Seq<MenuRowView>, upto: int) -> nat {
    actions_in(rows.take(upto)).len()
}

pub open spec fn line_is(
    line: MenuLine,
    rows: Seq<MenuRowView>,
    i: int,
    selected: usize,
) -> bool {
    match rows[i] {
        MenuRowView::Separator => line is Separator,
        MenuRowView::Item { action, .. } => line matches MenuLine::Item {
            row,
            selected: here,
            danger,
        } && row@ == rows[i] && here == (picks_before(rows, i) == selected) && danger
            == action.destroys(),
        MenuRowView::Copy { action, .. } => line matches MenuLine::Item {
            row,
            selected: here,
            danger,
        } && row@ == rows[i] && here == (picks_before(rows, i) == selected) && danger
            == action.destroys(),
    }
}

/// The menu as it is drawn: the cursor's row marked, the destructive ones in
/// red.
pub fn render_context_menu(menu: &ContextMenu) -> (lines: Vec<MenuLine>)
    ensures
        lines@.len() == menu_rows(menu.target).len(),
        forall|i: int|
            0 <= i < lines@.len() ==> line_is(
                #[trigger] lines@[i],
                menu_rows(menu.target),
                i,
                menu.selected,
            ),
{
    let mut rows = rows_for(&menu.target);
    let ghost views = menu_row_views(rows@);
    let mut index: usize = 0;
    let mut i: usize = 0;
    assert(views.take(0) == Seq::<MenuRowView>::empty());
    let mut lines: Vec<MenuLine> = Vec::new();
    let total: usize = rows.len();
    while i < total
        invariant
            i <= total,
            total == views.len(),
            views == menu_rows(menu.target),
            rows@.len() + i == total,
            forall|k: int| 0 <= k < rows@.len() ==> (#[trigger] rows@[k])@ == views[k + i],
            index == picks_before(views, i as int),
            index <= i,
            lines@.len() == i,
            forall|k: int| 0 <= k < i ==> line_is(#[trigger] lines@[k], views, k, menu.selected),
        decreases total - i,
    {
        let row = rows.remove(0);
        assert(row@ == views[i as int]);
        assert(views.take(i + 1).drop_last() == views.take(i as int));
        assert(views.take(i + 1).last() == views[i as int]);
        let picked = match &row {
            MenuRow::Separator => None,
            MenuRow::Item { action, label } => {
                assert(match *label {
                    MenuLabel::Text(_) => true,
                    MenuLabel::Format(_) => true,
                });
                Some(*action)
            },
        };
        match picked {
            None => {
                lines.push(MenuLine::Separator);
            },
            Some(action) => {
                lines.push(
                    MenuLine::Item {
                        row,
                        selected: index == menu.selected,
                        danger: action.is_destructive(),
                    },
                );
                index += 1;
            },
        }
        i += 1;
    }
    lines
}

/// The width of a menu, and the margin kept from the window's edges so that a
/// menu opened near one is still fully on screen. All in whole pixels.
pub const MENU_WIDTH: i64 = 232;

pub const EDGE_MARGIN: i64 = 8;

/// The height of a row, and of a separator, with its padding.
pub const ROW_HEIGHT: i64 = 26;

pub const SEPARATOR_HEIGHT: i64 = 9;

/// What a menu adds above its first row and below its last, together.
pub const MENU_PADDING: i64 = 8;

pub open spec fn height_of(rows: Seq<MenuRowView>) -> int
    decreases rows.len(),
{
    if rows.len() == 0 {
        MENU_PADDING as int
    } else {
        height_of(rows.drop_last()) + (if rows.last() is Separator {
            SEPARATOR_HEIGHT as int
        } else {
            ROW_HEIGHT as int
        })
    }
}

proof fn lemma_height_bound(rows: Seq<MenuRowView>)
    ensures
        MENU_PADDING <= height_of(rows) <= MENU_PADDING + rows.len() * ROW_HEIGHT,
    decreases rows.len(),
{
    if rows.len() > 0 {
        lemma_height_bound(rows.drop_last());
    }
}

/// How tall a menu is. Guessed rather than measured: a menu is placed before it
/// is laid out, and every row is one line of the same size.
fn menu_height(rows: &Vec<MenuRow>) -> (height: i64)
    requires
        rows@.len() <= 1_000,
    ensures
        height == height_of(menu_row_views(rows@)),
        MENU_PADDING <= height <= 30_000,
{
    let ghost views = menu_row_views(rows@);
    let mut height: i64 = MENU_PADDING;
    let mut i: usize = 0;
    assert(views.take(0) == Seq::<MenuRowView>::empty());
    while i < rows.len()
        invariant
            i <= rows@.len() <= 1_000,
            views == menu_row_views(rows@),
            height == height_of(views.take(i as int)),
            MENU_PADDING <= height <= MENU_PADDING + i * ROW_HEIGHT,
        decreases rows@.len() - i,
    {
        assert(views.take(i + 1).drop_last() == views.take(i as int));
        assert(views.take(i + 1).last() == rows@[i as int]@);
        let row: i64 = match &rows[i] {
            MenuRow::Separator => SEPARATOR_HEIGHT,
            MenuRow::Item { label, .. } => {
                assert(match *label {
                    MenuLabel::Text(_) => true,
                    MenuLabel::Format(_) => true,
                });
                ROW_HEIGHT
            },
        };
        height += row;
        i += 1;
    }
    assert(views.take(i as int) == views);
    height
}

/// Where a menu's corner goes, opened at a point of a window of this size: left of
/// the right edge, and above the pointer rather than hanging off the bottom.
pub open spec fn corner_of(height: int, x: int, y: int, wide: int, high: int) -> (int, int) {
    let rightmost = wide - MENU_WIDTH - EDGE_MARGIN;
    let within = if x < rightmost {
        x
    } else {
        rightmost
    };
    let left = if within > EDGE_MARGIN {
        within
    } else {
        EDGE_MARGIN as int
    };
    let top = if y + height + EDGE_MARGIN > high {
        if y - height > EDGE_MARGIN {
            y - height
        } else {
            EDGE_MARGIN as int
        }
    } else {
        y
    };
    (left, top)
}

/// Where the menu's corner goes, opened at a point of a window of this size.
pub fn place_menu(menu: &ContextMenu, x: i64, y: i64, wide: i64, high: i64) -> (corner: (i64, i64))
    ensures
        corner.0 == corner_of(
            height_of(menu_rows(menu.target)),
            x as int,
            y as int,
            wide as int,
            high as int,
        ).0,
        corner.1 == corner_of(
            height_of(menu_rows(menu.target)),
            x as int,
            y as int,
            wide as int,
            high as int,
        ).1,
{
    let rows = rows_for(&menu.target);
    assert(rows@.len() == menu_row_views(rows@).len());
    let height: i128 = menu_height(&rows) as i128;
    let margin: i128 = EDGE_MARGIN as i128;
    let rightmost: i128 = wide as i128 - MENU_WIDTH as i128 - margin;
    let within: i128 = if (x as i128) < rightmost {
        x as i128
    } else {
        rightmost
    };
    let left: i64 = if within > margin {
        within as i64
    } else {
        EDGE_MARGIN
    };
    let above: i128 = y as i128 - height;
    let top: i64 = if y as i128 + height + margin > high as i128 {
        if above > margin {
            above as i64
        } else {
            EDGE_MARGIN
        }
    } else {
        y
    };
    (left, top)
}

/// A menu opened anywhere in a window that has room for it is fully on screen.
pub proof fn a_menu_stays_on_screen(rows: Seq<MenuRowView>, x: int, y: int, wide: int, high: int)
    requires
        0 <= x <= wide,
        0 <= y <= high,
        MENU_WIDTH + 2 * EDGE_MARGIN <= wide,
        height_of(rows) + EDGE_MARGIN <= high,
    ensures
        ({
            let (left, top) = corner_of(height_of(rows), x, y, wide, high);
            &&& EDGE_MARGIN <= left
            &&& left + MENU_WIDTH + EDGE_MARGIN <= wide
            &&& 0 <= top
            &&& top + height_of(rows) <= high
        }),
{
    lemma_height_bound(rows);
}

/// The confirmation as it asks.
#[derive(Debug)]
pub struct ConfirmView {
    pub title: String,
    pub body: String,
    pub hint: String,
    /// What has been typed, and what the field says while nothing has.
    pub typed: String,
    pub placeholder: String,
    pub error: Option<String>,
    pub armed: bool,
    pub cancel: String,
    pub button: String,
}

/// What the confirmation shows, while it is up.
pub fn render_confirm(confirm: &Option<ConfirmPrompt>, qualified: &str) -> (view: Option<
    ConfirmView,
>)
    ensures
        match (confirm, view) {
            (Some(prompt), Some(view)) => {
                &&& view.title@ == prompt.title_text()
                &&& view.body@ == prompt.body_text(qualified@)
                &&& view.hint@ == "Type “"@ + prompt.table.name@ + "” to confirm."@
                &&& view.typed@ == prompt.input@.text
                &&& view.placeholder@ == prompt.table.name@
                &&& opt(view.error) == opt(prompt.error)
                &&& view.armed == prompt.is_armed()
                &&& view.cancel@ == "Cancel"@
                &&& view.button@ == (if !prompt.is_armed() && prompt.running {
                    "Running…"@
                } else {
                    "Confirm"@
                })
            },
            (None, None) => true,
            _ => false,
        },
{
    match confirm {
        None => None,
        Some(prompt) => {
            let armed = prompt.armed();
            let mut hint: String = "Type “".to_string();
            hint.append(prompt.expected());
            hint.append("” to confirm.");
            let error = match &prompt.error {
                Some(error) => Some(error.as_str().to_string()),
                None => None,
            };
            let button = if !armed && prompt.running {
                "Running…".to_string()
            } else {
                "Confirm".to_string()
            };
            Some(
                ConfirmView {
                    title: prompt.title(),
                    body: prompt.body(qualified),
                    hint,
                    typed: prompt.input.text().to_string(),
                    placeholder: prompt.expected().to_string(),
                    error,
                    armed,
                    cancel: "Cancel".to_string(),
                    button,
                },
            )
        },
    }
}

/// Whether a row of a menu can be picked.
pub open spec fn row_is_an_action(rows: Seq<MenuRowView>) -> spec_fn(int) -> bool {
    |i: int| !(rows[i] is Separator)
}

/// What a row that can be picked does.
pub open spec fn action_at(rows: Seq<MenuRowView>, i: int) -> MenuAction {
    match rows[i] {
        MenuRowView::Item { action, .. } => action,
        MenuRowView::Copy { action, .. } => action,
        MenuRowView::Separator => arbitrary(),
    }
}

proof fn lemma_actions_in(rows: Seq<MenuRowView>, upto: int) -> (places: Seq<int>)
    requires
        0 <= upto <= rows.len(),
    ensures
        places_where(places, upto, row_is_an_action(rows)),
        actions_in(rows.take(upto)) == Seq::new(places.len(), |k: int| action_at(rows, places[k])),
    decreases upto,
{
    let holds = row_is_an_action(rows);
    let places = if upto == 0 {
        Seq::<int>::empty()
    } else {
        let n = upto - 1;
        let before = lemma_actions_in(rows, n);
        lemma_places_step(before, n, holds);
        assert(rows.take(upto).drop_last() == rows.take(n));
        if holds(n) {
            before.push(n)
        } else {
            before
        }
    };
    assert(actions_in(rows.take(upto)) == Seq::new(
        places.len(),
        |k: int| action_at(rows, places[k]),
    ));
    places
}

/// The arrow keys go over what the rows do, in order, and skip the separators.
pub proof fn the_arrow_keys_skip_the_separators(rows: Seq<MenuRowView>)
    ensures
        exists|places: Seq<int>| #[trigger]
            places_where(places, rows.len() as int, row_is_an_action(rows)) && actions_in(rows)
                == Seq::new(places.len(), |k: int| action_at(rows, places[k])),
{
    assert(rows.take(rows.len() as int) == rows);
    let places = lemma_actions_in(rows, rows.len() as int);
}

proof fn lemma_picks_grow(rows: Seq<MenuRowView>, i: int, j: int)
    requires
        0 <= i <= j <= rows.len(),
    ensures
        picks_before(rows, i) <= picks_before(rows, j),
    decreases j - i,
{
    if i < j {
        lemma_picks_grow(rows, i, j - 1);
        assert(rows.take(j).drop_last() == rows.take(j - 1));
    }
}

/// Of two rows that can be picked at most one is selected, and Enter picks what it
/// does.
pub proof fn enter_picks_the_selected_row(
    rows: Seq<MenuRowView>,
    lines: Seq<MenuLine>,
    selected: usize,
    i: int,
    j: int,
)
    requires
        lines.len() == rows.len(),
        forall|k: int| 0 <= k < lines.len() ==> line_is(#[trigger] lines[k], rows, k, selected),
        0 <= i < rows.len(),
        0 <= j < rows.len(),
        lines[i] is Item && lines[i]->selected,
        lines[j] is Item && lines[j]->selected,
    ensures
        i == j,
        selected < actions_in(rows).len(),
        actions_in(rows)[selected as int] == action_at(rows, i),
        lines[i]->danger <==> action_at(rows, i) is Truncate || action_at(rows, i) is Drop,
{
    assert(line_is(lines[i], rows, i, selected));
    assert(line_is(lines[j], rows, j, selected));
    assert(rows.take(i + 1).drop_last() == rows.take(i));
    assert(rows.take(j + 1).drop_last() == rows.take(j));
    if i < j {
        lemma_picks_grow(rows, i + 1, j);
    } else if j < i {
        lemma_picks_grow(rows, j + 1, i);
    }
    assert(rows.take(rows.len() as int) == rows);
    lemma_actions_prefix(rows, i + 1, rows.len() as int);
    assert(actions_in(rows.take(i + 1))[selected as int] == action_at(rows, i));
}

proof fn lemma_actions_prefix(rows: Seq<MenuRowView>, i: int, j: int)
    requires
        0 <= i <= j <= rows.len(),
    ensures
        actions_in(rows.take(i)).len() <= actions_in(rows.take(j)).len(),
        forall|k: int|
            0 <= k < actions_in(rows.take(i)).len() ==> #[trigger] actions_in(rows.take(j))[k]
                == actions_in(rows.take(i))[k],
    decreases j - i,
{
    if i < j {
        lemma_actions_prefix(rows, i, j - 1);
        assert(rows.take(j).drop_last() == rows.take(j - 1));
    }
}

/// What a menu says is what it does. A table can be opened, copied and dropped,
/// and only a table proper can be emptied; a schema folds; rows are copied, added
/// and deleted.
pub proof fn a_menu_says_what_it_does(target: ContextTarget)
    ensures
        target is Rows ==> menu_rows(target) == seq![
            MenuRowView::Copy { action: MenuAction::CopyRowsTsv, format: RowFormat::Tsv },
            MenuRowView::Copy { action: MenuAction::CopyRowsJson, format: RowFormat::Json },
            MenuRowView::Copy { action: MenuAction::CopyRowsInsert, format: RowFormat::Insert },
            MenuRowView::Separator,
            MenuRowView::Item { action: MenuAction::AddRow, label: seq!['N', 'e', 'w', ' ', 'R', 'o', 'w'] },
            MenuRowView::Item {
                action: MenuAction::DeleteRows,
                label: seq!['D', 'e', 'l', 'e', 't', 'e', ' ', 'S', 'e', 'l', 'e', 'c', 't', 'e', 'd', ' ', 'R', 'o', 'w', 's'],
            },
        ],
        target is Schema ==> menu_rows(target) == seq![
            MenuRowView::Item {
                action: MenuAction::ToggleSchema,
                label: seq!['E', 'x', 'p', 'a', 'n', 'd', ' ', '/', ' ', 'C', 'o', 'l', 'l', 'a', 'p', 's', 'e'],
            },
            MenuRowView::Item { action: MenuAction::CopyName, label: seq!['C', 'o', 'p', 'y', ' ', 'N', 'a', 'm', 'e'] },
            MenuRowView::Separator,
            MenuRowView::Item {
                action: MenuAction::RefreshCatalog,
                label: seq!['R', 'e', 'f', 'r', 'e', 's', 'h', ' ', 'C', 'a', 't', 'a', 'l', 'o', 'g'],
            },
        ],
        target matches ContextTarget::Table { kind, .. } ==> {
            let rows = menu_rows(target);
            &&& rows.len() == (if kind is Table {
                14int
            } else {
                13
            })
            &&& rows[0] == (MenuRowView::Item { action: MenuAction::OpenTable, label: seq!['O', 'p', 'e', 'n'] })
            &&& rows[1] == (MenuRowView::Item {
                action: MenuAction::ShowStructure,
                label: seq!['S', 'h', 'o', 'w', ' ', 'S', 't', 'r', 'u', 'c', 't', 'u', 'r', 'e'],
            })
            &&& rows[3] == (MenuRowView::Item { action: MenuAction::CopyName, label: seq!['C', 'o', 'p', 'y', ' ', 'N', 'a', 'm', 'e'] })
            &&& rows[4] == (MenuRowView::Item {
                action: MenuAction::CopyQualifiedName,
                label: seq!['C', 'o', 'p', 'y', ' ', 'Q', 'u', 'a', 'l', 'i', 'f', 'i', 'e', 'd', ' ', 'N', 'a', 'm', 'e'],
            })
            &&& rows[6] == (MenuRowView::Item {
                action: MenuAction::SelectInSqlTab,
                label: seq!['S', 'E', 'L', 'E', 'C', 'T', ' ', 'i', 'n', ' ', 'N', 'e', 'w', ' ', 'S', 'Q', 'L', ' ', 'T', 'a', 'b'],
            })
            &&& rows[7] == (MenuRowView::Item {
                action: MenuAction::CopyInsert,
                label: seq!['C', 'o', 'p', 'y', ' ', 'I', 'N', 'S', 'E', 'R', 'T', ' ', 'T', 'e', 'm', 'p', 'l', 'a', 't', 'e'],
            })
            &&& rows[8] == (MenuRowView::Item {
                action: MenuAction::CopyCreate,
                label: seq!['C', 'o', 'p', 'y', ' ', 'C', 'R', 'E', 'A', 'T', 'E', ' ', 'T', 'A', 'B', 'L', 'E'],
            })
            &&& rows[10] == (MenuRowView::Item {
                action: MenuAction::RefreshCatalog,
                label: seq!['R', 'e', 'f', 'r', 'e', 's', 'h', ' ', 'C', 'a', 't', 'a', 'l', 'o', 'g'],
            })
            &&& kind is Table ==> rows[12] == (MenuRowView::Item {
                action: MenuAction::Truncate,
                label: seq!['T', 'r', 'u', 'n', 'c', 'a', 't', 'e', ' ', 'T', 'a', 'b', 'l', 'e', '…'],
            })
            &&& rows.last() == (MenuRowView::Item {
                action: MenuAction::Drop,
                label: match kind {
                    TableKind::Table => seq!['D', 'r', 'o', 'p', ' ', 'T', 'a', 'b', 'l', 'e', '…'],
                    TableKind::View => seq!['D', 'r', 'o', 'p', ' ', 'V', 'i', 'e', 'w', '…'],
                    TableKind::MaterializedView => seq!['D', 'r', 'o', 'p', ' ', 'M', 'a', 't', 'e', 'r', 'i', 'a', 'l', 'i', 'z', 'e', 'd', ' ', 'V', 'i', 'e', 'w', '…'],
                },
            })
        },
{
    reveal_strlit("New Row");
    reveal_strlit("Delete Selected Rows");
    reveal_strlit("Expand / Collapse");
    reveal_strlit("Copy Name");
    reveal_strlit("Refresh Catalog");
    reveal_strlit("Open");
    reveal_strlit("Show Structure");
    reveal_strlit("Copy Qualified Name");
    reveal_strlit("SELECT in New SQL Tab");
    reveal_strlit("Copy INSERT Template");
    reveal_strlit("Copy CREATE TABLE");
    reveal_strlit("Truncate Table…");
    reveal_strlit("Drop Table…");
    reveal_strlit("Drop View…");
    reveal_strlit("Drop Materialized View…");
    assert("New Row"@ == seq!['N', 'e', 'w', ' ', 'R', 'o', 'w']);
    assert("Delete Selected Rows"@ == seq!['D', 'e', 'l', 'e', 't', 'e', ' ', 'S', 'e', 'l', 'e', 'c', 't', 'e', 'd', ' ', 'R', 'o', 'w', 's']);
    assert("Expand / Collapse"@ == seq!['E', 'x', 'p', 'a', 'n', 'd', ' ', '/', ' ', 'C', 'o', 'l', 'l', 'a', 'p', 's', 'e']);
    assert("Copy Name"@ == seq!['C', 'o', 'p', 'y', ' ', 'N', 'a', 'm', 'e']);
    assert("Refresh Catalog"@ == seq!['R', 'e', 'f', 'r', 'e', 's', 'h', ' ', 'C', 'a', 't', 'a', 'l', 'o', 'g']);
    assert("Open"@ == seq!['O', 'p', 'e', 'n']);
    assert("Show Structure"@ == seq!['S', 'h', 'o', 'w', ' ', 'S', 't', 'r', 'u', 'c', 't', 'u', 'r', 'e']);
    assert("Copy Qualified Name"@ == seq!['C', 'o', 'p', 'y', ' ', 'Q', 'u', 'a', 'l', 'i', 'f', 'i', 'e', 'd', ' ', 'N', 'a', 'm', 'e']);
    assert("SELECT in New SQL Tab"@ == seq!['S', 'E', 'L', 'E', 'C', 'T', ' ', 'i', 'n', ' ', 'N', 'e', 'w', ' ', 'S', 'Q', 'L', ' ', 'T', 'a', 'b']);
    assert("Copy INSERT Template"@ == seq!['C', 'o', 'p', 'y', ' ', 'I', 'N', 'S', 'E', 'R', 'T', ' ', 'T', 'e', 'm', 'p', 'l', 'a', 't', 'e']);
    assert("Copy CREATE TABLE"@ == seq!['C', 'o', 'p', 'y', ' ', 'C', 'R', 'E', 'A', 'T', 'E', ' ', 'T', 'A', 'B', 'L', 'E']);
    assert("Truncate Table…"@ == seq!['T', 'r', 'u', 'n', 'c', 'a', 't', 'e', ' ', 'T', 'a', 'b', 'l', 'e', '…']);
    assert("Drop Table…"@ == seq!['D', 'r', 'o', 'p', ' ', 'T', 'a', 'b', 'l', 'e', '…']);
    assert("Drop View…"@ == seq!['D', 'r', 'o', 'p', ' ', 'V', 'i', 'e', 'w', '…']);
    assert("Drop Materialized View…"@ == seq!['D', 'r', 'o', 'p', ' ', 'M', 'a', 't', 'e', 'r', 'i', 'a', 'l', 'i', 'z', 'e', 'd', ' ', 'V', 'i', 'e', 'w', '…']);
}

/// Nothing is destroyed from a menu: a read-only connection refuses, and any other
/// asks first, about the relation that the pointer was on.
pub proof fn a_menu_asks_before_it_destroys(
    effect: MenuEffect,
    target: ContextTarget,
    action: MenuAction,
    read_only: bool,
    connected: bool,
)
    requires
        effect_is(effect, target, action, read_only, connected),
        action is Truncate || action is Drop,
    ensures
        read_only ==> effect is Refused,
        !read_only && !(target is Table) ==> effect is Nothing,
        !read_only && target is Table ==> effect is Confirm && effect->Confirm_0.action == action
            && effect->Confirm_0.table == target->table && effect->Confirm_0.kind == target->kind
            && !effect->Confirm_0.running && effect->Confirm_0.input@.text.len() == 0,
{
}

/// What is picked for a table is done to that table.
pub proof fn a_table_menu_acts_on_its_table(
    effect: MenuEffect,
    target: ContextTarget,
    action: MenuAction,
    read_only: bool,
    connected: bool,
)
    requires
        target is Table,
        effect_is(effect, target, action, read_only, connected),
    ensures
        action is OpenTable ==> effect == (MenuEffect::OpenTable {
            table: target->table,
            structure: false,
        }),
        action is ShowStructure ==> effect == (MenuEffect::OpenTable {
            table: target->table,
            structure: true,
        }),
        action is CopyName ==> effect is Copy && effect->text@ == target->table.name@,
        action is CopyQualifiedName ==> effect is CopyQualified && effect->CopyQualified_table
            == target->table,
        action is SelectInSqlTab && connected ==> effect == MenuEffect::SelectInSqlTab(
            target->table,
        ),
        action is SelectInSqlTab && !connected ==> effect is NotConnected,
        action is CopyInsert ==> effect == (MenuEffect::CopySql {
            table: target->table,
            scaffold: Scaffold::Insert,
        }),
        action is CopyCreate ==> effect == (MenuEffect::CopySql {
            table: target->table,
            scaffold: Scaffold::CreateTable,
        }),
        action is RefreshCatalog ==> effect is RefreshCatalog,
{
}

/// What is picked for a schema is done to that schema, and what is picked for rows
/// to the rows.
pub proof fn a_menu_acts_on_what_it_was_opened_on(
    effect: MenuEffect,
    target: ContextTarget,
    action: MenuAction,
    read_only: bool,
    connected: bool,
)
    requires
        effect_is(effect, target, action, read_only, connected),
    ensures
        target is Schema && action is ToggleSchema ==> effect is ToggleSchema
            && effect->ToggleSchema_connection == target->connection
            && effect->ToggleSchema_name@ == target->Schema_name@,
        target is Schema && action is CopyName ==> effect is Copy && effect->text@
            == target->Schema_name@,
        action is RefreshCatalog ==> effect is RefreshCatalog,
        action is CopyRowsTsv ==> effect == MenuEffect::CopyRows(RowFormat::Tsv),
        action is CopyRowsJson ==> effect == MenuEffect::CopyRows(RowFormat::Json),
        action is CopyRowsInsert ==> effect == MenuEffect::CopyRows(RowFormat::Insert),
        action is AddRow ==> effect is AddRow,
        action is DeleteRows ==> effect is DeleteRows,
{
}

/// The confirmation says what is about to happen, and to what.
pub proof fn a_confirmation_says_what_will_happen(prompt: ConfirmPrompt)
    ensures
        ({
            let verb = if prompt.action is Truncate {
                seq!['T', 'r', 'u', 'n', 'c', 'a', 't', 'e', ' ']
            } else {
                seq!['D', 'r', 'o', 'p', ' ']
            };
            prompt.title_text() == verb + (match prompt.kind {
                TableKind::Table => seq!['t', 'a', 'b', 'l', 'e'],
                TableKind::View => seq!['v', 'i', 'e', 'w'],
                TableKind::MaterializedView => seq!['m', 'a', 't', 'e', 'r', 'i', 'a', 'l', 'i', 'z', 'e', 'd', ' ', 'v', 'i', 'e', 'w'],
            })
        }),
        prompt.is_armed() <==> !prompt.running && trimmed(prompt.input@.text)
            == prompt.table.name@,
{
    reveal_strlit("Truncate ");
    reveal_strlit("Drop ");
    reveal_strlit("table");
    reveal_strlit("view");
    reveal_strlit("materialized view");
    assert("Truncate "@ == seq!['T', 'r', 'u', 'n', 'c', 'a', 't', 'e', ' ']);
    assert("Drop "@ == seq!['D', 'r', 'o', 'p', ' ']);
    assert("table"@ == seq!['t', 'a', 'b', 'l', 'e']);
    assert("view"@ == seq!['v', 'i', 'e', 'w']);
    assert("materialized view"@ == seq!['m', 'a', 't', 'e', 'r', 'i', 'a', 'l', 'i', 'z', 'e', 'd', ' ', 'v', 'i', 'e', 'w']);
}

/// Once the name is typed on a live connection that may be written to, the
/// statement is sent and the prompt waits for it. Until then the prompt stays and
/// says what is missing.
pub proof fn the_typed_name_is_what_sends(
    prompt: ConfirmPrompt,
    read_only: bool,
    connected: bool,
    qualified: Seq<char>,
    step: (Option<ConfirmPrompt>, ConfirmedStart),
)
    requires
        confirmed_is(step, Some(prompt), read_only, connected, qualified),
    ensures
        read_only ==> step.1 is Refused && step.0 is None,
        !read_only && (prompt.running || trimmed(prompt.input@.text) != prompt.table.name@)
            ==> step.1 is Nothing && step.0 is Some && step.0->0.input == prompt.input
            && step.0->0.table == prompt.table && step.0->0.action == prompt.action
            && step.0->0.error is Some,
        !read_only && !prompt.running && trimmed(prompt.input@.text) == prompt.table.name@ ==> {
            &&& !connected ==> step.1 is NotConnected && step.0 is None
            &&& connected ==> sends(step.1)
            &&& connected ==> step.0 is Some && step.0->0.running && step.0->0.table
                == prompt.table && step.0->0.action == prompt.action
            &&& connected && prompt.action is Truncate ==> step.1 is Truncate
                && step.1->Truncate_0.busy_is(seq!['T', 'r', 'u', 'n', 'c', 'a', 't', 'i', 'n', 'g', ' '] + qualified + seq!['…'])
            &&& connected && prompt.action is Drop ==> step.1 is Drop && step.1->Drop_0.busy_is(
                seq!['D', 'r', 'o', 'p', 'p', 'i', 'n', 'g', ' '] + qualified + seq!['…'],
            )
        },
{
    reveal_strlit("Truncating ");
    reveal_strlit("Dropping ");
    reveal_strlit("…");
    assert("Truncating "@ == seq!['T', 'r', 'u', 'n', 'c', 'a', 't', 'i', 'n', 'g', ' ']);
    assert("Dropping "@ == seq!['D', 'r', 'o', 'p', 'p', 'i', 'n', 'g', ' ']);
    assert("…"@ == seq!['…']);
}

/// A menu opens with its corner at the pointer wherever it fits there, and above
/// the pointer where it only fits above.
pub proof fn a_menu_opens_at_the_pointer(height: int, x: int, y: int, wide: int, high: int)
    requires
        height > 0,
    ensures
        8 < x && x + 232 + 8 < wide ==> corner_of(height, x, y, wide, high).0 == x,
        y + height + 8 <= high ==> corner_of(height, x, y, wide, high).1 == y,
        y + height + 8 > high && y - height > 8 ==> corner_of(height, x, y, wide, high).1 == y
            - height,
        x + 232 + 8 >= wide && wide - 232 - 8 > 8 ==> corner_of(height, x, y, wide, high).0
            == wide - 232 - 8,
{
}

/// A menu is as tall as its rows and separators, and its padding.
pub proof fn a_menu_is_as_tall_as_its_rows(rows: Seq<MenuRowView>)
    ensures
        height_of(rows) == 8 + 26 * actions_in(rows).len() + 9 * separators_in(rows),
    decreases rows.len(),
{
    if rows.len() > 0 {
        a_menu_is_as_tall_as_its_rows(rows.drop_last());
    }
}

/// What the confirmation warns of names the relation: its rows, where they are
/// deleted, and itself, where it is dropped.
pub proof fn a_confirmation_names_the_relation(prompt: ConfirmPrompt, qualified: Seq<char>)
    ensures
        prompt.action is Truncate ==> prompt.body_text(qualified).take(
            13 + qualified.len() as int,
        ) == seq!['E', 'v', 'e', 'r', 'y', ' ', 'r', 'o', 'w', ' ', 'i', 'n', ' '] + qualified,
        prompt.action is Drop ==> prompt.body_text(qualified).take(qualified.len() as int)
            == qualified,
{
    reveal_strlit("Every row in ");
    assert("Every row in "@ == seq!['E', 'v', 'e', 'r', 'y', ' ', 'r', 'o', 'w', ' ', 'i', 'n', ' ']);
    let body = prompt.body_text(qualified);
    if prompt.action is Truncate {
        assert(body.take(13 + qualified.len() as int) == seq!['E', 'v', 'e', 'r', 'y', ' ', 'r', 'o', 'w', ' ', 'i', 'n', ' '] + qualified);
    } else {
        assert(body.take(qualified.len() as int) == qualified);
    }
}

/// A tab shows a table when both its schema and its name are the table's.
pub proof fn a_tab_is_of_its_table(tab: Option<TableRef>, table: TableRef)
    ensures
        shows_table(tab, table) <==> tab is Some && tab->0.schema@ == table.schema@ && tab->0.name@
            == table.name@,
{
}

} // verus!
