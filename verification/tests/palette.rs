use dbui_ui::domain::{ConnectionId, Status, TableRef};
use dbui_ui::keys::Keystroke;
use dbui_ui::palette::{
    action_enabled, actions, close_palette, cmd_find, draw_rows, open_palette, palette_list, palette_rows,
    render_palette, run_action, run_palette_row, ActionContext, ActionId, Command, FilterDraft,
    Palette, PaletteKey, PaletteKind, PaletteLine, PaletteRow, PaletteSource, Picked, Section,
    TableEntry, ThemeEntry, ThemeState,
};
use dbui_ui::filters::FilterFocus;
use dbui_ui::text_field::{DetailInput, Focus, FocusState};
use dbui_ui::text_input::TextInput;

fn context() -> ActionContext {
    ActionContext {
        has_active: true,
        active_connected: true,
        connected: true,
        open_connections: 1,
        is_table: true,
        is_sql: false,
        has_result: true,
        has_rows: true,
        has_selection: false,
        is_sorted: false,
        has_changes: false,
    }
}

fn table(schema: &str, name: &str) -> TableEntry {
    TableEntry {
        table: TableRef::new(schema, name),
        qualified: format!("{schema}.{name}"),
    }
}

fn theme(id: &str, label: &str) -> ThemeEntry {
    ThemeEntry {
        id: id.to_string(),
        label: label.to_string(),
    }
}

fn source() -> PaletteSource {
    PaletteSource {
        tables: vec![table("public", "Orders"), table("public", "users"), table("audit", "log")],
        context: context(),
        themes: vec![theme("dark", "Midnight"), theme("light", "Paper")],
    }
}

fn focus() -> FocusState {
    FocusState {
        focus: Focus::Detail,
        filter_focus: None,
        detail_input: Some(DetailInput::Search),
        page_size_focus: false,
    }
}

fn themed(current: &str) -> ThemeState {
    ThemeState { current: current.to_string(), previous: None }
}

fn key(name: &str) -> Keystroke {
    Keystroke::plain(name.to_string())
}

#[test]
fn tables_are_found_whatever_their_case() {
    let rows = palette_rows(PaletteKind::GoToTable, "ORDER", &source());
    assert_eq!(rows.len(), 1);
    assert!(matches!(rows[0], PaletteRow::Table(0)));
    assert_eq!(palette_rows(PaletteKind::GoToTable, "", &source()).len(), 3);
    assert_eq!(palette_rows(PaletteKind::GoToTable, "nothing", &source()).len(), 0);
    assert_eq!(palette_rows(PaletteKind::Themes, "paper", &source()).len(), 1);
}

#[test]
fn every_action_has_a_label_and_is_listed_once() {
    let list = actions();
    assert_eq!(list.len(), 37);
    for (i, a) in list.iter().enumerate() {
        assert!(!a.label().is_empty());
        assert!(!list[i + 1..].contains(a));
    }
    assert_eq!(ActionId::ChangeTheme.label(), "Change Theme…");
    assert_eq!(ActionId::ChangeTheme.shortcut(), Some("⌘⇧T"));
    assert_eq!(Section::Navigate.header(), "NAVIGATE");
}

#[test]
fn an_action_is_enabled_where_it_can_run() {
    assert!(!action_enabled(context(), ActionId::RunQuery));
    assert!(action_enabled(ActionContext { is_sql: true, is_table: false, ..context() }, ActionId::RunQuery));
    assert!(!action_enabled(context(), ActionId::CommitChanges));
    assert!(action_enabled(ActionContext { has_changes: true, ..context() }, ActionId::CommitChanges));
    assert!(action_enabled(context(), ActionId::ZoomIn));
}

#[test]
fn a_previewed_theme_is_taken_back() {
    let mut state = themed("light");
    let mut at = focus();
    let mut picker_open = true;
    let mut palette = None;
    let themes = source().themes;
    open_palette(&mut palette, PaletteKind::Themes, &mut state, &mut at, &mut picker_open, &themes);
    assert!(!picker_open && at.detail_input.is_none() && at.focus == Focus::Detail);
    let open = palette.as_mut().unwrap();
    assert_eq!((open.kind, open.selected), (PaletteKind::Themes, 1));
    assert_eq!(open.handle_palette_key(&key("down"), &source(), &mut state), PaletteKey::Moved);
    assert_eq!((state.current.as_str(), state.previous.as_deref()), ("dark", Some("light")));
    open.query.set_text("paper");
    open.edited(&source(), &mut state);
    assert_eq!(state.current, "light", "the one theme that matches is tried on");
    open.query.set_text("");
    assert_eq!(open.handle_palette_key(&key("up"), &source(), &mut state), PaletteKey::Moved);
    close_palette(&mut palette, &mut state);
    assert!(palette.is_none());
    assert_eq!(state.current, "light");
    assert_eq!(state.previous, None);

    open_palette(&mut palette, PaletteKind::Themes, &mut state, &mut at, &mut picker_open, &themes);
    state.preview_theme_id("dark");
    open_palette(&mut palette, PaletteKind::Actions, &mut state, &mut at, &mut picker_open, &themes);
    assert_eq!(state.current, "light");

    let mut state = themed("unknown");
    let mut palette = None;
    open_palette(&mut palette, PaletteKind::Themes, &mut state, &mut at, &mut picker_open, &themes);
    assert_eq!((state.current.as_str(), state.previous.as_deref()), ("dark", Some("unknown")));
    let mut state = themed("dark");
    state.open_preview();
    state.commit_theme_id(&mut palette, "light");
    assert!(palette.is_none());
    state.cancel_theme_preview();
    assert_eq!(state.current, "light");
}

#[test]
fn the_palette_keys_move_and_pick() {
    let src = source();
    let mut palette = Palette::new(PaletteKind::GoToTable);
    let mut state = themed("dark");
    let mut press = |palette: &mut Palette, name: &str| {
        palette.handle_palette_key(&key(name), &src, &mut state)
    };
    assert_eq!(press(&mut palette, "down"), PaletteKey::Moved);
    assert_eq!(palette.selected, 1);
    assert_eq!(press(&mut palette, "enter"), PaletteKey::Pick(Some(PaletteRow::Table(1))));
    assert_eq!(press(&mut palette, "escape"), PaletteKey::Close);
    assert_eq!(press(&mut palette, "a"), PaletteKey::Edit);
    assert_eq!(press(&mut palette, "up"), PaletteKey::Moved);
    assert_eq!(press(&mut palette, "up"), PaletteKey::Moved);
    assert_eq!(palette.selected, 2);
    // The rows are those that match what has been typed.
    palette.query.set_text("ORDER");
    assert_eq!(press(&mut palette, "down"), PaletteKey::Moved);
    assert_eq!(palette.selected, 0);
    assert_eq!(press(&mut palette, "enter"), PaletteKey::Pick(Some(PaletteRow::Table(0))));
    assert_eq!(state.current, "dark");
    palette.selected = 2;
    palette.edited(&src, &mut state);
    assert_eq!((palette.selected, state.current.as_str()), (0, "dark"));
    assert!(matches!(run_palette_row(PaletteRow::Table(1)), Picked::OpenTable(1)));
    assert!(matches!(
        run_palette_row(PaletteRow::Action { id: ActionId::AddRow, enabled: false }),
        Picked::Nothing
    ));
    assert!(matches!(run_action(ActionId::ConnectActive, Some(ConnectionId(3))), Command::Connect(ConnectionId(3))));
    assert!(matches!(run_action(ActionId::ConnectActive, None), Command::Nothing));
}

#[test]
fn the_list_says_where_it_is_and_what_is_missing() {
    let src = source();
    let state = ThemeState { current: "light".to_string(), previous: None };
    let rows = palette_rows(PaletteKind::Themes, "", &src);
    let (lines, selected_line) = palette_list(&rows, &src, &state, 1);
    assert!(matches!(&lines[0], PaletteLine::Header(text) if text == "THEMES"));
    assert_eq!(lines.len(), 3);
    assert_eq!(selected_line, Some(2));
    let mut palette = Palette::new(PaletteKind::Actions);
    palette.query.set_text("zzz");
    let view = render_palette(&palette, &src, &state);
    assert_eq!(view.placeholder, "Type a command…");
    assert_eq!(view.empty.as_deref(), Some("No matching actions"));
    assert_eq!(view.selected_line, None);
    assert_eq!(view.close, "×");
    let legend: Vec<(&str, &str)> =
        view.legend.iter().map(|item| (item.key.as_str(), item.does.as_str())).collect();
    assert_eq!(legend, [("↑↓", "Navigate"), ("↵", "Confirm"), ("esc", "Close")]);
    palette.query.set_text("zoom");
    let view = render_palette(&palette, &src, &state);
    assert_eq!((view.lines.len(), view.selected_line), (3, Some(1)));
    let rows = vec![PaletteRow::Table(0)];
    let drawn = draw_rows(&palette, &rows, &src, &state);
    assert_eq!(drawn.lines.len(), 2);
}

#[test]
fn finding_opens_the_filter_of_a_table() {
    let filter = FilterDraft {
        open: false,
        draft: TextInput::new(false),
        clause: "id = 4".to_string(),
    };
    let mut state = themed("dark");
    let mut at = focus();
    let mut palette = Some(Palette::new(PaletteKind::Actions));
    match cmd_find(&mut palette, &mut state, &mut at, Some(filter)) {
        Ok(filter) => {
            assert!(filter.open);
            assert_eq!(filter.draft.text(), "id = 4");
        }
        Err(_) => panic!("a table is in front"),
    }
    assert!(palette.is_none());
    assert_eq!((at.focus, at.filter_focus), (Focus::Filter, Some(FilterFocus::Where)));
    let nothing = cmd_find(&mut palette, &mut state, &mut at, None);
    assert!(matches!(nothing, Err(Status::Info(text)) if text == "Open a table to filter"));
}
