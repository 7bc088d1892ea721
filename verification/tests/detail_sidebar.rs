use dbui_ui::context_menu::RowFormat;
use dbui_ui::detail_sidebar::{
    allows_empty_token, bulk_banner, field_height, foldable, is_temporal_type, picked_time,
    read_only_field, render_detail_menu, render_detail_resize, render_detail_sidebar,
    render_insert_draft, render_table_draft, special_value_menu, toggle_detail_collapsed,
    value_field, BodyItem, DetailBody, DetailMenuAction, DetailPanel, DetailTab, DraftField, FieldBody,
    InsertDraft, ReadOnlyField, RowDraft, TokenMenu, TokenRow, ValueClass,
};
use dbui_ui::domain::Tone;
use dbui_ui::text_field::{DetailInput, FieldHeight, Run, StyledSpan};

#[test]
fn a_date_or_time_column_is_temporal_and_nothing_else_is() {
    for name in [
        "timestamptz",
        "timestamp without time zone",
        "TIMESTAMP",
        "date",
        "DATETIME",
        "time",
        "timetz",
    ] {
        assert!(is_temporal_type(name), "{name} is temporal");
    }
    // `int` and `interval` both have to stay out: one is not a time at
    // all, the other is a duration and has no "now".
    for name in [
        "int4", "integer", "text", "numeric", "char(3)", "jsonb", "bool", "uuid",
    ] {
        assert!(!is_temporal_type(name), "{name} is not temporal");
    }
}

#[test]
fn a_field_is_full_height_until_it_is_folded() {
    let mut collapsed: Vec<String> = Vec::new();
    assert_eq!(field_height("feature_flags", &collapsed), FieldHeight::Full);

    collapsed.push("feature_flags".to_string());
    assert_eq!(
        field_height("feature_flags", &collapsed),
        FieldHeight::Capped
    );
    assert_eq!(
        field_height("grupo_id", &collapsed),
        FieldHeight::Full,
        "folding one column says nothing about the next"
    );
}

fn field(name: &str, is_pk: bool) -> DraftField {
    DraftField {
        name: name.to_string(),
        is_pk,
        lines: 1,
        display: "4".to_string(),
        styles: Vec::new(),
    }
}

fn draft() -> RowDraft {
    RowDraft {
        fields: vec![field("id", true), field("created_at", false), field("Note", false)],
        row_count: 40,
        bulk: true,
        field_search: String::new(),
        message: Some((false, "refused".to_string())),
        originals: vec![ValueClass::Other, ValueClass::Temporal],
        column_types: vec!["INT4".to_string(), "TimestampTZ".to_string()],
        open_menu: Some(1),
        detail_input: Some(DetailInput::Field(1)),
        copied: Some(0),
        collapsed: Vec::new(),
    }
}

fn tokens(rows: &[TokenRow]) -> Vec<&str> {
    rows.iter()
        .map(|row| match row {
            TokenRow::Time { label, .. } => label.as_str(),
            TokenRow::Separator => "-",
            TokenRow::Token { token, .. } => token.as_str(),
        })
        .collect()
}

#[test]
fn the_dropdown_offers_what_the_column_takes() {
    let mut menu = TokenMenu { open: true, allow_empty: true, bulk: true, temporal: true };
    assert_eq!(
        tokens(&special_value_menu(&menu)),
        vec!["now", "today", "-", "NULL", "EMPTY", "DEFAULT", "MIXED"]
    );
    let control = value_field(&menu);
    assert!(control.chevron.is_none() && control.menu.is_some());
    assert_eq!(control.tone, Tone::Text);
    menu = TokenMenu { open: false, allow_empty: false, bulk: false, temporal: false };
    assert_eq!(tokens(&special_value_menu(&menu)), vec!["NULL", "DEFAULT"]);
    let control = value_field(&menu);
    assert!(control.menu.is_none() && control.chevron.as_deref() == Some("⌄"));
    assert!(allows_empty_token(ValueClass::Null) && !allows_empty_token(ValueClass::Other));
    assert_eq!(picked_time(true).len(), 10);
    assert_eq!(picked_time(false).len(), 19);
}

#[test]
fn a_draft_lists_its_fields_flat() {
    let mut row = draft();
    let items = render_table_draft(&row);
    assert_eq!(items.len(), 6);
    assert!(matches!(&items[0], BodyItem::Banner { title, .. } if title == "Editing 40 rows"));
    assert!(matches!(&items[1], BodyItem::Search { placeholder, focused: false, .. } if placeholder == "Search for field…"));
    match &items[2] {
        BodyItem::Field { header, body } => {
            assert_eq!(header.label_tone, Tone::Warning);
            assert_eq!(header.copy.as_ref().unwrap().label, "✓ Copied");
            assert_eq!(header.column_type.as_deref(), Some("int4"));
            assert!(header.fold.is_none());
            assert!(matches!(body, FieldBody::ReadOnly { field: ReadOnlyField::Line(text), just_copied: true } if text == "4"));
        }
        _ => panic!("the key is the first field"),
    }
    match &items[3] {
        BodyItem::Field { body: FieldBody::Editor { focused, menu, .. }, .. } => {
            assert!(*focused);
            assert_eq!(
                *menu,
                Some(TokenMenu { open: true, allow_empty: true, bulk: true, temporal: true })
            );
        }
        _ => panic!("a field to type into"),
    }
    assert!(matches!(&items[5], BodyItem::Message { tone: Tone::Danger, .. }));

    row.field_search = "NOTE".to_string();
    row.bulk = false;
    row.message = None;
    let items = render_table_draft(&row);
    assert_eq!(items.len(), 2);
    assert!(matches!(&items[1], BodyItem::Field { header, .. } if header.index == 2));
    assert!(matches!(bulk_banner(2), BodyItem::Banner { title, .. } if title == "Editing 2 rows"));
}

#[test]
fn long_values_fold() {
    let nine = "x\n".repeat(8);
    assert!(foldable(1, &nine, true));
    assert!(!foldable(1, &nine, false));
    assert!(foldable(9, "", false) && !foldable(8, "", false));
    let mut collapsed = Vec::new();
    toggle_detail_collapsed(&mut collapsed, "a");
    assert_eq!(field_height("a", &collapsed), FieldHeight::Capped);
    toggle_detail_collapsed(&mut collapsed, "a");
    assert_eq!(field_height("a", &collapsed), FieldHeight::Full);

    let styles = vec![vec![StyledSpan { start: 0, end: 1, style: 2 }]];
    match read_only_field("{}\n\nüü", &styles, FieldHeight::Full) {
        ReadOnlyField::Lines(rows) => {
            assert_eq!(rows.len(), 3);
            assert_eq!(rows[0].len(), 2);
            assert!(matches!(&rows[0][0], Run::Piece { text, style: Some(2), .. } if text == "{"));
            assert!(matches!(&rows[1][0], Run::Piece { text, .. } if text == " "));
            assert!(matches!(&rows[2][0], Run::Piece { text, style: None, .. } if text == "üü"));
        }
        ReadOnlyField::Line(_) => panic!("it has three lines"),
    }
    assert!(matches!(read_only_field(&nine, &Vec::new(), FieldHeight::Capped), ReadOnlyField::Lines(rows) if rows.len() == 8));
}

#[test]
fn a_new_row_takes_the_panel_over() {
    let insert = InsertDraft {
        fields: vec![field("name", true)],
        column_types: Vec::new(),
        detail_input: None,
        collapsed: Vec::new(),
    };
    let items = render_insert_draft(&insert);
    assert!(matches!(&items[0], BodyItem::Banner { title, text } if title == "New row" && text.contains("reading DEFAULT is left out")));
    assert!(matches!(&items[1], BodyItem::Field { header, body: FieldBody::Editor { menu: None, .. } } if header.copy.is_none()));

    let tab = |insert: Option<InsertDraft>, draft: Option<RowDraft>, selected_row: Option<usize>| {
        Some(DetailTab { insert, draft, selected_row })
    };
    assert!(matches!(render_detail_sidebar(false, false, &None), DetailPanel::Strip { glyph } if glyph == "◂"));
    let body = |tab: &Option<DetailTab>| match render_detail_sidebar(true, true, tab) {
        DetailPanel::Open { title, menu_glyph, menu_lit, menu, body } => {
            assert_eq!((title.as_str(), menu_glyph.as_str(), menu_lit), ("Row details", "⋮", true));
            assert_eq!(menu.map(|rows| rows.len()), Some(4));
            body
        }
        DetailPanel::Strip { .. } => panic!("it is open"),
    };
    assert!(matches!(body(&None), DetailBody::Caption(text) if text == "No row selected."));
    assert!(matches!(body(&tab(None, None, Some(1))), DetailBody::Caption(text) if text == "Loading row…"));
    assert!(matches!(body(&tab(None, None, None)), DetailBody::Caption(text) if text == "No row selected."));
    let new_row = tab(Some(insert), Some(draft()), Some(1));
    assert!(matches!(body(&new_row), DetailBody::Items(items) if items.len() == 2));
    let stored = tab(None, Some(draft()), Some(1));
    assert!(matches!(body(&stored), DetailBody::Items(items) if items.len() == 6));
}

#[test]
fn the_panel_has_a_menu_of_its_own() {
    assert!(render_detail_menu(false).is_none());
    let rows = render_detail_menu(true).unwrap();
    assert_eq!(rows.len(), 4);
    assert_eq!(rows[1].label, "Copy Row as INSERT");
    assert_eq!(rows[1].action, DetailMenuAction::Copy(RowFormat::Insert));
    assert_eq!(render_detail_resize(true, true), Some(true));
    assert_eq!(render_detail_resize(false, true), None);
}
