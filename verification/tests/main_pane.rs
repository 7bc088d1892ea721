use dbui_ui::domain::{TablePane, Tone};
use dbui_ui::main_pane::{
    completion_pressed, editor_pressed, render_columns_panel, render_completion_popup,
    render_editor, render_statement_strip, render_structure, render_tab_content, ColumnsTab,
    CompletionItem, CompletionPopup, EditorInput, FrontTab, StatementResult, StructureColumn,
    TabContent,
};
use dbui_ui::text_field::{Focus, FocusState, LinePaint, Press, Run};

#[test]
fn the_columns_panel_shows_what_is_hidden() {
    let mut tab = ColumnsTab {
        columns_open: true,
        columns: Some(vec!["id".to_string(), "name".to_string()]),
        hidden_columns: vec!["name".to_string()],
    };
    let panel = render_columns_panel(Some(&tab)).unwrap();
    assert_eq!(panel.caption, "Columns");
    let toggles = panel.toggles;
    assert!(toggles[0].visible && !toggles[1].visible);
    tab.columns_open = false;
    assert!(render_columns_panel(Some(&tab)).is_none());
    assert!(render_columns_panel(None).is_none());
}

#[test]
fn a_tab_fills_the_column_with_its_own() {
    assert!(matches!(render_tab_content(Some(FrontTab::Sql), true), TabContent::Query));
    assert!(matches!(render_tab_content(Some(FrontTab::Table(TablePane::Structure)), true), TabContent::Structure));
    assert!(matches!(render_tab_content(Some(FrontTab::Table(TablePane::Data)), true), TabContent::Grid));
    assert!(matches!(render_tab_content(None, false), TabContent::Empty(text) if text == "Connect to a database to get started."));
}

#[test]
fn one_statement_gets_no_strip() {
    let result = |label: &str, has_rows: bool| StatementResult { label: label.to_string(), has_rows };
    assert!(render_statement_strip(&vec![result("1", true)], 0).is_none());
    let chips = render_statement_strip(&vec![result("1", false), result("2", false), result("3", true)], 0).unwrap();
    assert!(chips[0].selected && chips[0].empty_mark.is_none());
    assert_eq!(chips[1].empty_mark.as_deref(), Some("·"));
    assert!(chips[2].empty_mark.is_none());
}

#[test]
fn the_structure_says_what_may_be_null() {
    let column = StructureColumn {
        name: "id".to_string(),
        data_type: "int4".to_string(),
        nullable: false,
        is_primary_key: true,
    };
    let rows = render_structure(Some(&vec![column]), true).unwrap();
    assert_eq!((rows[0].null_text.as_str(), rows[0].key), ("not null", true));
    assert!(render_structure(Some(&Vec::new()), true).is_err());
    assert_eq!(render_structure(None, true).unwrap_err(), "Pick a table, or press ⌘E to write a query.");
}

#[test]
fn the_editor_numbers_its_lines_and_places_the_caret() {
    let plain = || LinePaint { styles: Vec::new(), selection: None };
    let mut input = EditorInput {
        lines: vec!["SELECT 1".to_string(), "FROM t".to_string()],
        paint: vec![plain(), plain()],
        cursor: 9,
        caret_line: 1,
        focused: true,
        has_selection: false,
        empty: false,
    };
    let editor = render_editor(&input);
    assert_eq!(editor.run_label, "Run  ⌘↵");
    assert_eq!((editor.caption.as_str(), editor.run_all_label.as_str()), ("SQL", "Run all  ⌘⇧↵"));
    assert_eq!(editor.caret_tone, Tone::Accent);
    assert_eq!(editor.lines[1].number, "2");
    assert!(matches!(editor.lines[1].runs[0], Run::Caret));
    assert_eq!(editor.lines[0].runs.len(), 1);
    input.has_selection = true;
    input.focused = false;
    let editor = render_editor(&input);
    assert_eq!(editor.run_label, "Run selection  ⌘↵");
    assert_eq!(editor.lines[1].runs.len(), 1);
    let blank = EditorInput {
        lines: vec![String::new()],
        paint: vec![plain()],
        cursor: 0,
        caret_line: 0,
        focused: false,
        has_selection: false,
        empty: true,
    };
    assert_eq!(render_editor(&blank).lines[0].hint.as_deref(), Some("SELECT * FROM …"));
    let mut focus = FocusState {
        focus: Focus::Grid,
        filter_focus: None,
        detail_input: None,
        page_size_focus: false,
    };
    let mut popup = Some(CompletionPopup { items: Vec::new(), selected: 0 });
    assert_eq!(editor_pressed(true, 1, &mut focus, &mut popup), Press::Select);
    assert!(focus.focus == Focus::Editor && popup.is_none());
    assert_eq!(editor_pressed(true, 3, &mut focus, &mut popup), Press::SelectWhole);
    assert_eq!(editor_pressed(false, 1, &mut focus, &mut popup), Press::Nothing);
}

#[test]
fn a_completion_is_taken_where_it_is_pressed() {
    let item = |label: &str| CompletionItem { label: label.to_string(), kind_label: "table".to_string() };
    let mut popup = CompletionPopup { items: vec![item("orders"), item("users")], selected: 0 };
    completion_pressed(&mut popup, 1);
    let rows = render_completion_popup(&popup);
    assert!(rows[1].selected && !rows[0].selected);
    assert_eq!(rows[1].label, "users");
}
