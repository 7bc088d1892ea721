use dbui_ui::domain::Tone;
use dbui_ui::grid::{
    empty_state, one_line_cell, render_cell, render_grid, render_header, render_insert_row,
    render_rows, row_pressed, row_right_pressed, CellFill, CellTone, ColumnMeta, Grid, GridColumn,
    GridInput, GridValue, InsertField, ListRow, RowPress, StagedValue, StoredRow,
};

fn value(text: &str) -> GridValue {
    GridValue {
        text: text.to_string(),
        null: false,
        kind: 3,
        right_aligned: false,
        links: false,
    }
}

fn row(values: Vec<GridValue>) -> StoredRow {
    StoredRow {
        values,
        selected: false,
        staged_delete: false,
        staged_edit: None,
    }
}

fn grid() -> GridInput {
    GridInput {
        columns: vec![
            GridColumn { name: "id".to_string(), column_type: "INT4".to_string() },
            GridColumn { name: "name".to_string(), column_type: "Text".to_string() },
        ],
        structure: vec![ColumnMeta { name: "id".to_string(), is_primary_key: true }],
        visible: vec![1, 0],
        rows: vec![row(vec![value("1"), value("Ada")]), row(vec![value("2")])],
        inserts: vec![vec![InsertField { name: "name".to_string(), text: "Bea".to_string() }]],
        editing_insert: Some(0),
        sort: Some((1, false)),
        moving: Some((0, false)),
        lead_row: None,
        selected_cell: Some((0, 1)),
        copied_cell: None,
        editing_cell: None,
    }
}

#[test]
fn a_staged_change_is_seen_in_its_cell() {
    let mut input = grid();
    assert_eq!(render_cell(&input, 0, 1).text, "Ada");
    assert_eq!(render_cell(&input, 0, 1).fill, CellFill::Selected);
    input.rows[0].values[1].links = true;
    assert_eq!(render_cell(&input, 0, 1).tone, CellTone::Link);
    input.rows[0].staged_edit = Some(vec![StagedValue {
        column: "name".to_string(),
        new_text: "B\nea".to_string(),
    }]);
    let cell = render_cell(&input, 0, 1);
    assert_eq!((cell.text.as_str(), cell.tone, cell.underlined), ("B ea", CellTone::Pending, false));
    input.rows[0].staged_delete = true;
    let cell = render_cell(&input, 0, 1);
    assert_eq!((cell.tone, cell.struck), (CellTone::Deleted, true));
    input.copied_cell = Some((0, 1));
    assert_eq!(render_cell(&input, 0, 1).fill, CellFill::Copied);
    // A row without that column has a NULL there.
    let cell = render_cell(&input, 1, 1);
    assert_eq!((cell.text.as_str(), cell.tone, cell.kind), ("NULL", CellTone::Null, None));
}

#[test]
fn a_staged_value_is_flattened_and_capped() {
    assert_eq!(one_line_cell("a\r\nb"), "a  b");
    assert_eq!(one_line_cell(&"ü".repeat(201)), "ü".repeat(200));
    assert_eq!(one_line_cell(&"ü".repeat(200)), "ü".repeat(200));
}

#[test]
fn inserts_are_listed_under_the_stored_rows() {
    let mut input = grid();
    input.rows[1].staged_delete = true;
    let rows = render_rows(&input, 0, 3);
    match &rows[0] {
        ListRow::Stored(row) => {
            assert_eq!((row.gutter.as_str(), row.gutter_tone), ("1", Tone::Faint));
            assert_eq!(row.cells[0].text, "Ada");
            assert_eq!(row.cells[1].text, "1");
        }
        ListRow::New(_) => panic!("a stored row"),
    }
    assert!(matches!(&rows[1], ListRow::Stored(row) if row.gutter == "−" && row.gutter_tone == Tone::Danger));
    match &rows[2] {
        ListRow::New(row) => {
            assert_eq!(row.gutter, "+");
            assert!(row.being_edited);
            assert_eq!(row.cells, vec!["Bea".to_string(), String::new()]);
        }
        ListRow::Stored(_) => panic!("a new row"),
    }
    assert!(render_insert_row(&input, 1).is_none());
}

#[test]
fn headings_say_keys_types_and_the_order() {
    let mut input = grid();
    let headings = render_header(&input);
    assert_eq!(headings[0].name, "name");
    assert_eq!(headings[0].column_type, "text");
    assert_eq!(headings[0].arrow.as_deref(), Some("↓"));
    assert_eq!(headings[0].tone, Tone::Text);
    assert_eq!((headings[1].tone, headings[1].arrow.as_deref()), (Tone::Warning, None));
    input.moving = Some((0, true));
    let headings = render_header(&input);
    assert!(headings[1].lit);
    assert_eq!(headings[1].tone, Tone::Text);
}

#[test]
fn a_grid_without_columns_says_what_to_do() {
    assert_eq!(empty_state(false), "Connect to a database to get started.");
    assert!(matches!(render_grid(None, 0, 0, true), Grid::Empty(text) if text == "Pick a table, or press ⌘E to write a query."));
    let mut input = grid();
    match render_grid(Some(&input), 1, 3, true) {
        Grid::Table { headings, row_count, rows } => {
            assert_eq!((headings.len(), row_count, rows.len()), (2, 3, 2));
            assert!(matches!(&rows[0], ListRow::Stored(row) if row.cells[1].text == "2"));
            assert!(matches!(&rows[1], ListRow::New(_)));
        }
        Grid::Empty(_) => panic!("a table"),
    }
    input.visible = Vec::new();
    assert!(matches!(render_grid(Some(&input), 0, 0, true), Grid::Empty(_)));
}

#[test]
fn a_press_selects_and_a_second_one_opens() {
    assert_eq!(row_pressed(4, Some(1), 1), RowPress::Select(4, Some(1)));
    assert_eq!(row_pressed(4, Some(1), 2), RowPress::BeginEdit(4, 1));
    assert_eq!(row_pressed(4, None, 2), RowPress::Select(4, None));
    let mut input = grid();
    assert_eq!(row_right_pressed(Some(&input), 1, Some(0)), RowPress::SelectAlone(1, Some(0)));
    input.rows[1].selected = true;
    assert_eq!(row_right_pressed(Some(&input), 1, Some(0)), RowPress::FocusCell(1, 0));
    assert_eq!(row_right_pressed(Some(&input), 1, None), RowPress::Nothing);
    assert_eq!(row_right_pressed(None, 1, None), RowPress::SelectAlone(1, None));
}

#[test]
fn a_null_and_the_word_look_different() {
    let mut input = grid();
    input.rows[0].values[1] = value("NULL");
    let word = render_cell(&input, 0, 1);
    input.rows[0].values[1].null = true;
    let null = render_cell(&input, 0, 1);
    assert_eq!((word.text.as_str(), null.text.as_str()), ("NULL", "NULL"));
    assert_eq!((word.tone, null.tone), (CellTone::Value, CellTone::Null));
}

#[test]
fn numbers_are_set_to_the_right() {
    let mut input = grid();
    input.rows[0].values[0].right_aligned = true;
    match render_grid(Some(&input), 0, 2, true) {
        Grid::Table { rows, .. } => {
            assert!(matches!(
                &rows[0],
                ListRow::Stored(row) if row.cells[1].right_aligned && !row.cells[0].right_aligned
            ));
            // A missing value is a NULL, which is not.
            assert!(matches!(&rows[1], ListRow::Stored(row) if !row.cells[0].right_aligned));
        }
        Grid::Empty(_) => panic!("a table"),
    }
}

#[test]
fn a_stored_value_is_drawn_as_it_is() {
    let mut input = grid();
    let long = format!("{}…", "ü".repeat(200));
    input.rows[0].values[1] = value(&long);
    let cell = render_cell(&input, 0, 1);
    assert_eq!((cell.text, cell.tone, cell.kind), (long, CellTone::Value, Some(3)));
}
