use dbui_ui::context_menu::{
    actions_of, close_confirm, close_tabs_for_table, confirmed_landed, copy_generated_sql,
    handle_confirm_key, open_context_menu, place_menu, render_confirm, render_context_menu,
    render_scaffold, rows_for, run_confirmed_action, run_context_action, scaffold_landed, ConfirmKey,
    ConfirmPrompt, ConfirmedStart, ContextMenu, ContextTarget, MenuAction, MenuEffect, MenuLine, MenuRow,
    RowFormat, Scaffold, ScaffoldStart,
};
use dbui_ui::domain::{ConnectionId, Status, TableKind, TableRef};
use dbui_ui::keys::Keystroke;
use dbui_ui::text_field::{Focus, FocusState};

fn table_target(kind: TableKind) -> ContextTarget {
    ContextTarget::Table {
        table: TableRef::new("public", "users"),
        kind,
    }
}

fn drop_prompt() -> ConfirmPrompt {
    ConfirmPrompt::new(
        MenuAction::Drop,
        TableRef::new("public", "users"),
        TableKind::Table,
    )
}

#[test]
fn a_view_is_not_offered_truncate() {
    let actions = actions_of(&table_target(TableKind::View));
    assert!(!actions.contains(&MenuAction::Truncate));
    assert!(actions.contains(&MenuAction::Drop));

    let actions = actions_of(&table_target(TableKind::Table));
    assert!(actions.contains(&MenuAction::Truncate));
}

#[test]
fn separators_are_not_selectable() {
    let target = table_target(TableKind::Table);
    let rows = rows_for(&target);
    let separators = rows
        .iter()
        .filter(|row| matches!(row, MenuRow::Separator))
        .count();
    assert!(separators > 0, "the menu is grouped");
    assert_eq!(actions_of(&target).len(), rows.len() - separators);
}

#[test]
fn a_confirmation_arms_only_on_the_exact_name() {
    let mut prompt = ConfirmPrompt::new(
        MenuAction::Drop,
        TableRef::new("public", "users"),
        TableKind::Table,
    );
    assert!(!prompt.armed(), "an empty box must not arm it");
    prompt.input.set_text("user");
    assert!(!prompt.armed());
    prompt.input.set_text("users");
    assert!(prompt.armed());
    // Whitespace is a typo, not a different table.
    prompt.input.set_text("  users  ");
    assert!(prompt.armed());
    // ...but a running action cannot be fired twice.
    prompt.running = true;
    assert!(!prompt.armed());
}

#[test]
fn the_row_menu_offers_rows_and_nothing_destructive_to_the_table() {
    let actions = actions_of(&ContextTarget::Rows);
    assert!(actions.contains(&MenuAction::CopyRowsTsv));
    assert!(actions.contains(&MenuAction::DeleteRows));
    assert!(!actions.iter().any(|action| action.is_destructive()));
    assert!(!actions.contains(&MenuAction::Drop));
}

#[test]
fn a_schema_menu_has_no_destructive_entries() {
    let target = ContextTarget::Schema {
        connection: ConnectionId(1),
        name: "public".into(),
    };
    assert!(!actions_of(&target)
        .iter()
        .any(|action| action.is_destructive()));
}

fn row_menu() -> ContextMenu {
    let mut menu = None;
    open_context_menu(&mut menu, false, ContextTarget::Rows, &mut true, &mut None);
    menu.unwrap()
}

#[test]
fn a_menu_closes_the_other_ones_but_not_a_confirmation() {
    let mut menu = None;
    let mut picker_open = true;
    let mut value_menu = Some(2);
    open_context_menu(&mut menu, true, ContextTarget::Rows, &mut picker_open, &mut value_menu);
    assert!(menu.is_none() && picker_open && value_menu == Some(2));
    open_context_menu(&mut menu, false, ContextTarget::Rows, &mut picker_open, &mut value_menu);
    assert!(menu.is_some() && !picker_open && value_menu.is_none());
}

#[test]
fn the_menu_keys_go_around_its_actions() {
    let mut menu = row_menu();
    assert_eq!(menu.selected, 0);
    assert_eq!(menu.handle_context_menu_key("up"), None);
    assert_eq!(menu.selected, 4);
    assert_eq!(menu.handle_context_menu_key("enter"), Some(MenuAction::DeleteRows));
    menu.handle_context_menu_key("down");
    assert_eq!(menu.selected, 0);
    assert_eq!(menu.handle_context_menu_key("x"), None);
    let lines = render_context_menu(&menu);
    assert_eq!(lines.len(), 6);
    assert!(matches!(lines[0], MenuLine::Item { selected: true, danger: false, .. }));
    assert!(matches!(lines[3], MenuLine::Separator));
}

/// What a row of the menu on a target comes to.
fn picked(target: ContextTarget, action: MenuAction, read_only: bool, connected: bool) -> MenuEffect {
    let mut menu = None;
    open_context_menu(&mut menu, false, target, &mut false, &mut None);
    let mut focus = grid_focus();
    let effect = run_context_action(&mut menu, action, read_only, connected, &mut focus);
    assert!(menu.is_none());
    assert_eq!(focus.focus == Focus::Editor, matches!(effect, MenuEffect::SelectInSqlTab(_)));
    effect
}

fn grid_focus() -> FocusState {
    FocusState {
        focus: Focus::Grid,
        filter_focus: None,
        detail_input: None,
        page_size_focus: false,
    }
}

#[test]
fn a_select_is_put_into_a_query_tab() {
    let users = || table_target(TableKind::Table);
    assert!(matches!(
        picked(users(), MenuAction::SelectInSqlTab, false, true),
        MenuEffect::SelectInSqlTab(table) if table.name == "users"
    ));
    assert!(matches!(
        picked(users(), MenuAction::SelectInSqlTab, false, false),
        MenuEffect::NotConnected(Status::Error(text)) if text == "Not connected"
    ));
    let effect = run_context_action(&mut None, MenuAction::AddRow, false, true, &mut grid_focus());
    assert!(matches!(effect, MenuEffect::Nothing));
}

#[test]
fn a_picked_action_does_what_it_says() {
    assert!(matches!(
        picked(table_target(TableKind::Table), MenuAction::OpenTable, false, true),
        MenuEffect::OpenTable { structure: false, .. }
    ));
    assert!(matches!(
        picked(table_target(TableKind::Table), MenuAction::ShowStructure, false, true),
        MenuEffect::OpenTable { structure: true, .. }
    ));
    assert!(matches!(
        picked(table_target(TableKind::Table), MenuAction::Drop, true, true),
        MenuEffect::Refused(what) if what == "That"
    ));
    assert!(matches!(
        picked(table_target(TableKind::Table), MenuAction::Truncate, false, true),
        MenuEffect::Confirm(_)
    ));
    assert!(matches!(
        picked(ContextTarget::Rows, MenuAction::CopyRowsJson, true, true),
        MenuEffect::CopyRows(RowFormat::Json)
    ));
    assert!(matches!(
        picked(table_target(TableKind::Table), MenuAction::CopyName, false, true),
        MenuEffect::Copy { text, .. } if text == "users"
    ));
    assert_eq!(render_scaffold(MenuAction::CopyCreate), Scaffold::CreateTable);
    assert_eq!(render_scaffold(MenuAction::CopyInsert), Scaffold::Insert);
}

#[test]
fn a_scaffold_comes_from_what_is_known_first() {
    assert!(matches!(copy_generated_sql(false, true, "public.users"), ScaffoldStart::NotConnected(_)));
    assert!(matches!(copy_generated_sql(true, true, "public.users"), ScaffoldStart::FromCache));
    assert!(matches!(copy_generated_sql(true, false, "public.users"), ScaffoldStart::Fetch(_)));
    assert!(scaffold_landed(&None).is_none());
    assert!(matches!(scaffold_landed(&Some(Err("no".to_string()))), Some(Status::Error(text)) if text == "no"));
}

#[test]
fn a_confirmation_runs_once_it_is_armed() {
    let key = |name: &str| Keystroke::plain(name.to_string());
    assert_eq!(handle_confirm_key(&Some(drop_prompt()), &key("escape")), ConfirmKey::Close);
    assert_eq!(handle_confirm_key(&Some(drop_prompt()), &key("enter")), ConfirmKey::Run);
    assert_eq!(handle_confirm_key(&Some(drop_prompt()), &key("a")), ConfirmKey::Edit);

    let (left, start) = run_confirmed_action(Some(drop_prompt()), false, true, "public.users");
    assert!(left.is_some());
    assert!(matches!(start, ConfirmedStart::Nothing));

    let mut armed = drop_prompt();
    armed.input.set_text("users");
    let (left, start) = run_confirmed_action(Some(armed), false, true, "public.users");
    assert!(left.as_ref().unwrap().running);
    assert!(matches!(start, ConfirmedStart::Drop(_)));
    assert!(close_confirm(left).is_some(), "it cannot be put away while it runs");
    assert!(close_confirm(Some(drop_prompt())).is_none());

    let (left, end) = confirmed_landed(Some(drop_prompt()), &Some(Ok(())), true, "public.users");
    assert!(left.is_none());
    assert!(end.close_tabs && end.refresh_catalog);
    let (left, _) = confirmed_landed(Some(drop_prompt()), &Some(Err("locked".to_string())), true, "public.users");
    assert_eq!(left.unwrap().error.as_deref(), Some("locked"));
}

#[test]
fn a_dropped_table_closes_its_tabs() {
    let users = TableRef::new("public", "users");
    let tabs = vec![None, Some(TableRef::new("other", "users")), Some(TableRef::new("public", "users"))];
    assert_eq!(close_tabs_for_table(&tabs, &users), Some(2));
    assert_eq!(close_tabs_for_table(&vec![None], &users), None);
}

#[test]
fn the_confirmation_names_what_it_destroys() {
    assert!(render_confirm(&None, "").is_none());
    let view = render_confirm(&Some(drop_prompt()), "\"public\".\"users\"").unwrap();
    assert!(!view.armed);
    assert_eq!((view.typed.as_str(), view.placeholder.as_str()), ("", "users"));
    assert_eq!((view.cancel.as_str(), view.button.as_str()), ("Cancel", "Confirm"));
    assert!(view.body.contains("\"public\".\"users\""));
    assert_eq!(drop_prompt().expected(), "users");
    let mut prompt = drop_prompt();
    prompt.error = Some("locked".to_string());
    prompt.edited();
    assert!(prompt.error.is_none());
}

#[test]
fn a_menu_opened_at_an_edge_stays_on_screen() {
    let menu = row_menu();
    assert_eq!(place_menu(&menu, 10, 20, 800, 600), (10, 20));
    assert_eq!(place_menu(&menu, 790, 20, 800, 600), (560, 20));
    assert_eq!(place_menu(&menu, 0, 0, 800, 600), (8, 0));
    // Five rows of 26, a separator of 9 and the padding: 147 in all.
    assert_eq!(place_menu(&menu, 10, 445, 800, 600), (10, 445));
    assert_eq!(place_menu(&menu, 10, 446, 800, 600), (10, 299));
    assert_eq!(place_menu(&menu, 10, 100, 800, 160), (10, 8));
    assert_eq!(place_menu(&menu, i64::MAX, i64::MAX, i64::MIN, i64::MAX), (8, i64::MAX - 147));
}

#[test]
fn a_confirmed_statement_goes_out_once() {
    let mut armed = drop_prompt();
    armed.input.set_text("users");
    let (left, start) = run_confirmed_action(Some(armed), false, true, "public.users");
    assert!(matches!(start, ConfirmedStart::Drop(Status::Busy(text)) if text == "Dropping public.users…"));
    let (left, start) = run_confirmed_action(left, false, true, "public.users");
    assert!(matches!(start, ConfirmedStart::Nothing));
    let (left, start) = run_confirmed_action(left, true, true, "public.users");
    assert!(left.is_none() && matches!(start, ConfirmedStart::Refused(what) if what == "That"));
    let mut armed = drop_prompt();
    armed.input.set_text("users");
    let (left, start) = run_confirmed_action(Some(armed), false, false, "public.users");
    assert!(left.is_none() && matches!(start, ConfirmedStart::NotConnected(_)));
}
