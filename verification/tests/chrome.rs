use dbui_ui::close_guard::{render_close_guard, CloseGuard, CloseTarget, TabScope};
use dbui_ui::controls::{button, button_with_focus, icon_button, toolbar_button, toolbar_icon_color};
use dbui_ui::domain::{ConnectionId, Page, ResultSource, Status, TablePane, Tone};
use dbui_ui::drag_ghost::{render_drag_ghost, Carried, ColumnDrag, ColumnHeading};
use dbui_ui::filters::{filter_button_pressed, render_filter_strip, FilterFocus, FilterTab};
use dbui_ui::status_bar::{
    paging_state, render_status_bar, ResultLine, StatusInput, UpdateAction, UpdateChip,
};
use dbui_ui::tabs::{render_tab_bar, ActiveChanges, StripLayout, TabDrag, TabItem, Trailing};
use dbui_ui::text_field::{Focus, FocusState};
use dbui_ui::toolbar::{render_bottom_bar, render_page_size, render_toolbar, Toolbar, ToolbarKind, ToolbarTab};

fn table(offset: u64, limit: u32, total_rows: Option<i64>) -> ResultSource {
    ResultSource::Table {
        page: Page { offset, limit },
        total_rows,
    }
}

#[test]
fn arrows_stop_at_the_ends_of_a_table() {
    assert_eq!(paging_state(Some(table(0, 100, Some(250)))), Some((true, false)));
    assert_eq!(paging_state(Some(table(200, 100, Some(250)))), Some((false, true)));
    assert_eq!(paging_state(Some(table(150, 100, Some(250)))), Some((false, true)));
    assert_eq!(paging_state(Some(table(149, 100, Some(250)))), Some((false, false)));
    assert_eq!(paging_state(Some(table(0, 100, None))), Some((true, false)));
    assert_eq!(paging_state(Some(table(0, 100, Some(-1)))), Some((true, true)));
    assert_eq!(paging_state(Some(ResultSource::Query)), None);
    assert_eq!(paging_state(None), None);
}

fn result(selected: Option<(usize, usize, bool)>) -> ResultLine {
    ResultLine {
        source: table(0, 100, Some(250)),
        summary: "250 rows".to_string(),
        truncated: true,
        columns: vec!["id".to_string(), "name".to_string()],
        rows: vec![vec!["1".to_string(), "Ada".to_string()]],
        selected,
    }
}

#[test]
fn the_status_bar_says_what_happened_and_where_you_are() {
    let bar = render_status_bar(&StatusInput {
        status: Status::Error("boom".to_string()),
        connection: None,
        result: Some(result(Some((0, 1, true)))),
        position: Some((2, 3)),
        update: Some(UpdateChip {
            label: "Update".to_string(),
            action: UpdateAction::Nothing,
        }),
    });
    assert_eq!(bar.message, "boom");
    assert_eq!((bar.message_tone, bar.light), (Tone::Danger, Tone::Danger));
    assert_eq!(bar.more_rows.as_deref(), Some("more rows available"));
    assert_eq!(bar.detail.as_deref(), Some("name = Ada  ·  ⌘↵ or ⌥-click to open"));
    assert_eq!(bar.summary.as_deref(), Some("250 rows"));
    assert_eq!(bar.position.as_deref(), Some("Page 2 of 3"));
    let (back, forward) = bar.paging.unwrap();
    assert_eq!((back.glyph.as_str(), back.disabled), ("‹", true));
    assert_eq!((forward.glyph.as_str(), forward.disabled), ("›", false));
    let chip = bar.update.unwrap();
    assert_eq!((chip.tone, chip.clickable), (Tone::Muted, false));
}

#[test]
fn an_idle_bar_names_the_connection_until_there_is_a_result() {
    let idle = |connection: Option<&str>, result: Option<ResultLine>| {
        render_status_bar(&StatusInput {
            status: Status::Idle,
            connection: connection.map(str::to_string),
            result,
            position: None,
            update: None,
        })
    };
    assert_eq!(idle(Some("app@host"), None).message, "app@host");
    assert_eq!(idle(None, None).message, "Ready");
    let bar = idle(Some("app@host"), Some(result(Some((0, 2, false)))));
    assert_eq!(bar.message, "Ready");
    assert_eq!((bar.message_tone, bar.light), (Tone::Muted, Tone::Success));
    assert_eq!(bar.detail, None);
    assert_eq!(idle(None, Some(result(Some((1, 0, false))))).detail, None);
    assert_eq!(
        idle(None, Some(result(Some((0, 0, false))))).detail.as_deref(),
        Some("id = 1")
    );
}

fn table_tab(selected: usize, source: Option<ResultSource>) -> Option<ToolbarTab> {
    Some(ToolbarTab {
        summary: Some("9 rows".to_string()),
        selected,
        kind: ToolbarKind::Table {
            pane: TablePane::Structure,
            filters_open: true,
            columns_open: false,
            page: Page { offset: 0, limit: 500 },
            page_size_draft: "37".to_string(),
            source,
        },
    })
}

#[test]
fn the_toolbar_shows_the_front_tabs_state() {
    match render_toolbar(&table_tab(3, Some(table(500, 500, Some(900)))), true) {
        Toolbar::Bar { summary, reloads, tools } => {
            assert_eq!(summary, "9 rows · 3 selected");
            assert!(reloads);
            let tools = tools.unwrap();
            assert!(!tools.data.active && tools.structure.active);
            assert!(tools.filters.active && !tools.columns.active);
            assert_eq!((tools.data.label.as_str(), tools.columns.label.as_str()), ("Data", "Columns"));
            assert_eq!((tools.add_row.as_str(), tools.page_size_caption), ("Row", None));
            assert_eq!((tools.back.glyph.as_str(), tools.forward.glyph.as_str()), ("‹", "›"));
            assert!(!tools.back.disabled && tools.forward.disabled);
            assert_eq!((tools.page_size.as_str(), tools.page_size_hint.as_str()), ("37", "500"));
            assert!(tools.page_size_focused);
        }
        Toolbar::NoTab { .. } => panic!("a bar"),
    }
    match render_bottom_bar(&table_tab(1, None), false) {
        Toolbar::Bar { summary, reloads, tools } => {
            assert_eq!(summary, "9 rows");
            assert!(!reloads);
            let tools = tools.unwrap();
            assert_eq!(tools.add_row, "+ Row");
            assert_eq!(tools.page_size_caption.as_deref(), Some("Rows / page"));
            assert!(tools.back.disabled && tools.forward.disabled);
        }
        Toolbar::NoTab { .. } => panic!("a bar"),
    }
    match render_toolbar(&table_tab(1, Some(ResultSource::Query)), false) {
        Toolbar::Bar { tools, .. } => {
            let tools = tools.unwrap();
            assert!(tools.back.disabled && !tools.forward.disabled);
        }
        Toolbar::NoTab { .. } => panic!("a bar"),
    }
    let sql = Some(ToolbarTab {
        summary: None,
        selected: 0,
        kind: ToolbarKind::Sql,
    });
    match render_toolbar(&sql, false) {
        Toolbar::Bar { summary, tools, .. } => {
            assert_eq!(summary, "No data");
            assert!(tools.is_none());
        }
        Toolbar::NoTab { .. } => panic!("a bar"),
    }
    assert!(matches!(
        render_toolbar(&None, false),
        Toolbar::NoTab { caption } if caption == "No tab selected"
    ));
}

#[test]
fn the_page_size_in_force_is_marked() {
    let closed = render_page_size(500, false);
    assert!(!closed.lit && closed.menu.is_none() && closed.glyph == "⌄");
    let (title, rows) = render_page_size(500, true).menu.unwrap();
    assert_eq!(title, "Rows / page");
    let sizes: Vec<(u32, &str, bool)> = rows
        .iter()
        .map(|row| (row.size, row.label.as_str(), row.mark.as_deref() == Some("•")))
        .collect();
    assert_eq!(
        sizes,
        vec![
            (100, "100", false),
            (200, "200", false),
            (500, "500", true),
            (1_000, "1000", false),
            (5_000, "5000", false)
        ]
    );
}

#[test]
fn the_filter_strip_shows_on_a_table_that_has_it_open() {
    let tab = |open: bool| {
        Some(FilterTab {
            filters_open: open,
            where_draft: "id = 1".to_string(),
        })
    };
    let strip = render_filter_strip(&tab(true), true, Some(FilterFocus::Apply)).unwrap();
    assert_eq!(strip.where_text, "id = 1");
    assert!(strip.apply.focused && !strip.where_focused && !strip.clear.focused);
    assert_eq!((strip.apply.label.as_str(), strip.clear.label.as_str()), ("Apply", "Clear"));
    assert_eq!((strip.caption.as_str(), strip.where_placeholder.as_str()), ("WHERE", "id = 1 AND …"));
    let strip = render_filter_strip(&tab(true), false, Some(FilterFocus::Where)).unwrap();
    assert!(!strip.where_focused);
    assert!(render_filter_strip(&tab(false), true, None).is_none());
    assert!(render_filter_strip(&None, true, None).is_none());
    let mut focus = FocusState {
        focus: Focus::Grid,
        filter_focus: None,
        detail_input: None,
        page_size_focus: false,
    };
    filter_button_pressed(&mut focus, FilterFocus::Clear);
    assert_eq!((focus.focus, focus.filter_focus), (Focus::Filter, Some(FilterFocus::Clear)));
}

fn item(id: u64, label: &str, is_table: bool, pending: usize) -> TabItem {
    TabItem {
        id,
        label: label.to_string(),
        is_table,
        pending,
    }
}

#[test]
fn tabs_with_staged_work_carry_a_dot() {
    let items = vec![item(7, "users", true, 0), item(9, "Query", false, 2), item(4, "x", true, 5)];
    let changes = ActiveChanges {
        edits: 0,
        deletes: 1,
        inserts: 0,
    };
    let drag = Some(TabDrag { id: 9, moved: true });
    let strip = render_tab_bar(&items, 0, changes, drag, FRESH, false);
    let pills = strip.pills;
    assert!(strip.caption.is_none());
    assert_eq!(pills.len(), 3);
    assert!(pills[0].is_active && pills[0].changed && !pills[0].dragging);
    assert!(!pills[1].is_active && pills[1].changed && pills[1].dragging);
    assert_eq!((pills[1].label.as_str(), pills[1].close_glyph.as_str()), ("Query", "×"));
    assert!(!pills[1].is_table);
    let clean = ActiveChanges {
        edits: 0,
        deletes: 0,
        inserts: 0,
    };
    assert_eq!((pills[0].icon_tone, pills[1].icon_tone), (Tone::Muted, Tone::Faint));
    let pills = render_tab_bar(&items, 2, clean, Some(TabDrag { id: 9, moved: false }), FRESH, false).pills;
    assert!(!pills[2].changed && !pills[0].changed && !pills[1].dragging);
    let strip = render_tab_bar(&Vec::new(), 0, clean, None, FRESH, true);
    assert_eq!(strip.caption.as_deref(), Some("No tabs open"));
    assert!(strip.pills.is_empty() && !strip.aims);
    assert_eq!(strip.trailing, Trailing::Nothing);
}

const FRESH: StripLayout = StripLayout { active: true, trailing: true, beyond: false };

#[test]
fn the_underline_is_aimed_by_a_fresh_layout_only() {
    let changes = ActiveChanges { edits: 0, deletes: 0, inserts: 0 };
    let items = vec![item(7, "users", true, 0)];
    let strip = |layout: StripLayout, has_underline: bool| {
        let strip = render_tab_bar(&items, 0, changes, None, layout, has_underline);
        (strip.aims, strip.trailing)
    };
    let stale = StripLayout { beyond: true, ..FRESH };
    let unlaid = StripLayout { trailing: false, ..FRESH };
    let lost = StripLayout { active: false, ..FRESH };
    assert_eq!(strip(FRESH, false), (true, Trailing::Underline { another_frame: false }));
    assert_eq!(strip(stale, true), (false, Trailing::Underline { another_frame: true }));
    assert_eq!(strip(unlaid, false), (false, Trailing::FrameRequest));
    assert_eq!(strip(lost, false), (false, Trailing::FrameRequest));
}

#[test]
fn the_pointer_carries_what_was_picked_up() {
    let tabs = vec![item(7, "users", true, 0)];
    let columns = Some(vec![ColumnHeading {
        name: "id".to_string(),
        column_type: "int4".to_string(),
    }]);
    let tab = Some(TabDrag { id: 7, moved: true });
    let column = Some(ColumnDrag { column: 0, moved: true });
    match render_drag_ghost(true, tab, &tabs, column, &columns) {
        Some(Carried::Tab { label, is_table }) => assert!(label == "users" && is_table),
        other => panic!("{other:?}"),
    }
    match render_drag_ghost(true, None, &tabs, column, &columns) {
        Some(Carried::Column { name, column_type }) => {
            assert!(name == "id" && column_type == "int4")
        }
        other => panic!("{other:?}"),
    }
    let gone = Some(TabDrag { id: 8, moved: true });
    assert!(render_drag_ghost(true, gone, &tabs, column, &columns).is_none());
    assert!(render_drag_ghost(false, tab, &tabs, column, &columns).is_none());
    let still = Some(TabDrag { id: 7, moved: false });
    assert!(render_drag_ghost(true, still, &tabs, None, &columns).is_none());
    let past = Some(ColumnDrag { column: 1, moved: true });
    assert!(render_drag_ghost(true, None, &tabs, past, &columns).is_none());
}

#[test]
fn closing_staged_work_asks_first() {
    let guard = |target, changes| {
        Some(CloseGuard {
            target,
            label: "users".to_string(),
            changes,
        })
    };
    let question = render_close_guard(&guard(CloseTarget::Tab(0), 1)).unwrap();
    assert_eq!(question.title, "Discard 1 staged change?");
    assert_eq!(
        question.body,
        "“users” has work that has not been committed. Closing it throws the whole batch away."
    );
    let question = render_close_guard(&guard(CloseTarget::TabGroup(TabScope::All), 3)).unwrap();
    assert_eq!(question.title, "Discard 3 staged changes?");
    assert_eq!(
        question.body,
        "users have work that has not been committed. Closing them throws the whole batch away."
    );
    assert_eq!((question.keep.as_str(), question.discard.as_str()), ("Keep Open", "Discard & Close"));
    assert_eq!(question.hint, "⌘S commits them and keeps this open. Esc cancels.");
    assert!(render_close_guard(&guard(CloseTarget::Connection(ConnectionId(1)), 2)).is_some());
    assert!(render_close_guard(&None).is_none());
}

#[test]
fn a_filled_button_keeps_meaning_something() {
    assert_eq!(button(true).ring, Tone::Accent);
    assert_eq!(button(false).ring, Tone::Border);
    assert_eq!(button_with_focus(true, true).ring, Tone::OnAccent);
    assert_eq!(button_with_focus(false, true).ring, Tone::Accent);
    assert_eq!(toolbar_button(true).text, toolbar_icon_color(true));
    assert_eq!(toolbar_button(false).text, toolbar_icon_color(false));
    assert_eq!(icon_button(true, false), Tone::Text);
    assert_eq!(icon_button(true, true), Tone::Faint);
    assert_eq!(icon_button(false, false), Tone::Muted);
}
