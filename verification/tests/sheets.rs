use dbui_ui::domain::{Column, Status, TableRef};
use dbui_ui::keys::Keystroke;
use dbui_ui::main_pane::CompletionPopup;
use dbui_ui::params_sheet::{
    ask_for_params, render_param_sheet, run_with_params, ParamKey, ParamValues,
};
use dbui_ui::schema_sheet::{
    add_column_sheet, add_index_sheet, create_table_sheet, done_status, drop_column_sheet,
    drop_index_sheet, edit_column_sheet, indexes_landed, open_schema_sheet,
    render_schema_sheet, run_landed, run_schema_sheet, InputPlace, Request, RunStart, SchemaSheet,
    SheetBody, SheetKey, SheetKind,
};

fn strings(list: &[&str]) -> Vec<String> {
    list.iter().map(|text| text.to_string()).collect()
}

fn key(name: &str) -> Keystroke {
    Keystroke::plain(name.to_string())
}

fn users() -> TableRef {
    TableRef::new("public", "users")
}

fn email() -> Column {
    Column {
        name: "email".to_string(),
        data_type: "text".to_string(),
        nullable: false,
        default: Some("''".to_string()),
        is_primary_key: false,
        ordinal: 2,
        references: None,
    }
}

#[test]
fn each_parameter_is_asked_for_once_and_remembered() {
    let mut values = ParamValues { values: Vec::new() };
    values.insert("id", "4");
    let found = vec![strings(&["id", "name"]), strings(&["name", "id"])];
    let popup = || Some(CompletionPopup { items: Vec::new(), selected: 0 });
    let mut completion = popup();
    let mut sheet =
        ask_for_params(strings(&["a", "b"]), &found, &values, true, &mut completion).unwrap();
    assert!(completion.is_none());
    assert_eq!(sheet.names, strings(&["id", "name"]));
    assert_eq!(sheet.inputs[0].text(), "4");
    assert_eq!(sheet.inputs[1].text(), "");
    assert_eq!(sheet.inputs[0].selection, Some(0..1), "typing replaces what was given last");
    assert!(sheet.inputs.iter().all(|input| !input.multiline));
    sheet.inputs[1].set_text("Bea");
    assert_eq!(sheet.inputs[1].selection, None);
    completion = popup();
    let nothing = vec![Vec::new()];
    assert!(ask_for_params(strings(&["a"]), &nothing, &values, false, &mut completion).is_none());
    assert!(completion.is_some());

    assert_eq!(sheet.handle_param_sheet_key(&key("tab")), ParamKey::Moved);
    assert_eq!(sheet.focused, 1);
    assert_eq!(sheet.inputs[1].selection, Some(0..3));
    assert_eq!(sheet.handle_param_sheet_key(&key("a")), ParamKey::Edit(1));
    sheet.inputs[1].set_text("Ada");
    let view = render_param_sheet(&sheet);
    assert_eq!((view.title.as_str(), view.cancel.as_str()), ("Parameters", "Cancel"));
    assert!(view.hint.ends_with("anything else as a string. Tab moves, ↵ runs, Esc cancels."));
    let rows = &view.rows;
    assert_eq!(rows[0].placeholder, "value");
    assert_eq!((rows[1].label.as_str(), rows[1].value.as_str()), (":name", "Ada"));
    assert!(rows[1].focused && !rows[0].focused);
    assert_eq!(view.verb, "Explain");

    let mut enter = key("enter");
    assert_eq!(sheet.handle_param_sheet_key(&enter), ParamKey::Run);
    enter.platform = true;
    assert_eq!(sheet.handle_param_sheet_key(&enter), ParamKey::Edit(1));
    assert_eq!(sheet.handle_param_sheet_key(&key("escape")), ParamKey::Close);

    assert_eq!(run_with_params(Some(sheet), &mut values), Some((strings(&["a", "b"]), true)));
    assert_eq!(values.get("name").as_deref(), Some("Ada"));
    assert_eq!(values.get("id").as_deref(), Some("4"));
    assert_eq!(values.get("other"), None);
    assert_eq!(run_with_params(None, &mut values), None);
}

#[test]
fn an_edited_column_is_asked_for_by_its_fields() {
    assert!(matches!(open_schema_sheet(true, users(), SheetKind::AddColumn), Err(what) if what == "Changing a table"));
    let mut sheet = open_schema_sheet(false, users(), SheetKind::EditColumn(email())).unwrap();
    assert_eq!(sheet.field_count(), 3);
    assert_eq!(sheet.fields[2].text(), "''");
    sheet.fields[0].set_text("  mail  ");
    sheet.fields[2].set_text(" ");
    match sheet.request() {
        Request::AlterColumn { before, after } => {
            assert_eq!(before.name, "email");
            assert_eq!(after.name, "mail");
            assert!(!after.nullable);
            assert_eq!(after.default, None);
        }
        _ => panic!("a column is edited"),
    }
    assert_eq!(
        sheet.statements(Ok(Vec::new())),
        Err("Nothing changed yet".to_string())
    );
    assert_eq!(sheet.statements(Ok(strings(&["ALTER"]))), Ok(strings(&["ALTER"])));
    assert!(!sheet.is_destructive());
    assert!(SchemaSheet::new(users(), SheetKind::DropColumn("email".to_string())).is_destructive());
}

#[test]
fn a_new_table_never_has_a_nullable_key() {
    let mut sheet = SchemaSheet::new(TableRef::new("public", ""), SheetKind::CreateTable);
    assert_eq!(sheet.field_count(), 3);
    sheet.fields[0].set_text("orders");
    sheet.new_columns[0].name.set_text("id");
    sheet.new_columns[0].data_type.set_text("int");
    sheet.new_columns[0].key = true;
    sheet.add_new_column();
    assert_eq!(sheet.focused, 3);
    assert_eq!(sheet.input_at(3), Some(InputPlace::ColumnName(1)));
    assert_eq!(sheet.input_at(4), Some(InputPlace::ColumnType(1)));
    assert_eq!(sheet.input_at(5), None);
    match sheet.request() {
        Request::CreateTable { schema, name, columns, key } => {
            assert_eq!((schema.as_str(), name.as_str()), ("public", "orders"));
            assert_eq!(columns.len(), 1);
            assert!(!columns[0].nullable);
            assert_eq!(key, strings(&["id"]));
        }
        _ => panic!("a table is created"),
    }
    assert_eq!(sheet.handle_schema_sheet_key(&key("tab")), SheetKey::Moved);
    assert_eq!(sheet.focused, 4);
    assert_eq!(sheet.handle_schema_sheet_key(&key("tab")), SheetKey::Moved);
    assert_eq!(sheet.focused, 0);
    assert_eq!(sheet.handle_schema_sheet_key(&key("a")), SheetKey::Edit(InputPlace::Field(0)));
    assert_eq!(sheet.handle_schema_sheet_key(&key("enter")), SheetKey::Run);
    assert_eq!(sheet.handle_schema_sheet_key(&key("escape")), SheetKey::Close);
}

#[test]
fn an_index_takes_its_columns_in_the_order_they_are_picked() {
    let mut sheet = SchemaSheet::new(users(), SheetKind::AddIndex(strings(&["id", "email"])));
    sheet.toggle_pick("email");
    sheet.toggle_pick("id");
    assert_eq!(sheet.picked, strings(&["email", "id"]));
    let view = render_schema_sheet(&sheet, &Err("Name the index".to_string()));
    assert!(!view.can_run && !view.preview_ok);
    assert_eq!((view.preview_caption.as_str(), view.cancel.as_str()), ("SQL", "Cancel"));
    match view.body {
        SheetBody::Index { field, caption, chips, unique } => {
            assert_eq!((unique.label.as_str(), unique.on), ("Unique", false));
            assert_eq!(caption, "Columns, in index order — click to add or remove");
            assert_eq!((field.text.as_str(), field.hint.as_str()), ("", "index_name"));
            assert!(chips.iter().all(|chip| chip.picked));
            assert!(chips[0].label.contains('2') && chips[1].label.contains('1'));
        }
        _ => panic!("an index is added"),
    }
    sheet.toggle_pick("email");
    assert_eq!(sheet.picked, strings(&["id"]));
}

#[test]
fn running_a_sheet_sends_what_it_previews() {
    let sheet = || Some(SchemaSheet::new(users(), SheetKind::AddColumn));
    let sql = || Ok(strings(&["ALTER TABLE"]));
    let (left, start) = run_schema_sheet(sheet(), true, true, sql());
    assert!(left.is_none() && matches!(start, RunStart::Refused(what) if what == "Changing a table"));
    let (left, start) = run_schema_sheet(sheet(), false, false, sql());
    assert!(left.is_some());
    assert!(matches!(start, RunStart::NotConnected(Status::Error(text)) if text == "Not connected"));
    let (left, start) = run_schema_sheet(sheet(), false, true, Err("Name it".to_string()));
    assert_eq!(left.unwrap().error.as_deref(), Some("Name it"));
    assert!(matches!(start, RunStart::Nothing));
    let (left, start) = run_schema_sheet(sheet(), false, true, sql());
    assert!(matches!(&start, RunStart::Send { statements, created: None, .. } if *statements == strings(&["ALTER TABLE"])));
    let (left, start) = run_schema_sheet(left, false, true, sql());
    assert!(matches!(start, RunStart::Nothing), "it is running already");

    let (gone, end) = run_landed(left, &Some(Ok(())), "Add Column", false);
    assert!(gone.is_none() && end.refresh_table && end.refresh_catalog && !end.open_created);
    assert!(matches!(end.status, Some(Status::Info(text)) if text == "Done: add column"));
    let (left, end) = run_landed(sheet(), &Some(Err("no".to_string())), "Add Column", false);
    assert_eq!(left.unwrap().error.as_deref(), Some("no"));
    assert!(matches!(end.status, Some(Status::Error(text)) if text == "no"));
    assert!(run_landed(sheet(), &None, "Add Column", false).1.status.is_none());
    assert!(matches!(done_status("x"), Status::Info(text) if text == "Done: x"));
}

#[test]
fn a_new_table_lands_in_the_nearest_schema() {
    let some = |text: &str| Some(text.to_string());
    let schema = |asked, front, first| {
        create_table_sheet(false, asked, front, first).map(|sheet| sheet.unwrap().table.schema)
    };
    assert_eq!(schema(some("a"), some("b"), some("c")).unwrap(), "a");
    assert_eq!(schema(None, some("b"), some("c")).unwrap(), "b");
    assert_eq!(schema(None, None, some("c")).unwrap(), "c");
    assert!(matches!(schema(None, None, None), Err(Status::Info(_))));
    assert!(matches!(create_table_sheet(true, some("a"), None, None), Ok(Err(what)) if what == "Changing a table"));
    let sheet = create_table_sheet(false, some("a"), None, None).unwrap().unwrap();
    assert!(matches!(sheet.kind, SheetKind::CreateTable));
    assert_eq!((sheet.table.name.as_str(), sheet.new_columns.len()), ("", 1));
    assert_eq!(indexes_landed(Some(Ok(strings(&["pk"])))), strings(&["pk"]));
    assert!(indexes_landed::<String>(Some(Err("no".to_string()))).is_empty());
    assert!(indexes_landed::<String>(None).is_empty());
}

#[test]
fn an_index_is_offered_the_columns_that_are_known() {
    let columns = vec![email()];
    let sheet = add_index_sheet(false, Some(users()), Some(&columns)).unwrap().unwrap();
    assert!(matches!(&sheet.kind, SheetKind::AddIndex(names) if *names == strings(&["email"])));
    let sheet = add_index_sheet(false, Some(users()), None).unwrap().unwrap();
    assert!(matches!(&sheet.kind, SheetKind::AddIndex(names) if names.is_empty()));
    assert!(matches!(add_index_sheet(true, Some(users()), None), Some(Err(what)) if what == "Changing a table"));
    assert!(add_index_sheet(false, None, Some(&columns)).is_none());
}

#[test]
fn every_field_of_a_sheet_can_be_typed_into() {
    let mut sheet = SchemaSheet::new(users(), SheetKind::CreateTable);
    sheet.add_new_column();
    for (index, text) in ["orders", "id", "int", "note", "text"].iter().enumerate() {
        sheet.input_mut(index).unwrap().set_text(text);
    }
    assert!(sheet.input_mut(5).is_none());
    assert_eq!(sheet.fields[0].text(), "orders");
    assert_eq!(sheet.new_columns[0].data_type.text(), "int");
    assert_eq!(sheet.new_columns[1].name.text(), "note");
    sheet.toggle_key(0);
    sheet.toggle_null(1);
    sheet.toggle_key(9);
    assert!(sheet.new_columns[0].key && sheet.new_columns[0].nullable);
    assert!(!sheet.new_columns[1].key && !sheet.new_columns[1].nullable);
    sheet.error = Some("no".to_string());
    sheet.key_landed(false);
    assert!(sheet.error.is_some());
    sheet.key_landed(true);
    assert!(sheet.error.is_none());
}

#[test]
fn a_sheet_has_boxes_of_its_own() {
    let mut sheet = SchemaSheet::new(users(), SheetKind::AddColumn);
    assert!(sheet.nullable && !sheet.unique);
    sheet.toggle_nullable();
    assert!(!sheet.nullable);
    sheet.toggle_unique();
    assert!(sheet.unique && !sheet.nullable);
    sheet.toggle_nullable();
    assert!(sheet.nullable);
    assert!(sheet.fields.iter().all(|field| !field.multiline));
    match render_schema_sheet(&sheet, &Ok(Vec::new())).body {
        SheetBody::Column { fields, nullable } => {
            assert_eq!((nullable.label.as_str(), nullable.on), ("Allows NULL", true));
            assert_eq!(fields[1].hint, "text, integer, numeric(10,2)…");
        }
        _ => panic!("a column is added"),
    }
}

#[test]
fn a_sheet_opens_on_the_table_in_front() {
    let kind = |sheet: Option<Result<SchemaSheet, String>>| sheet.unwrap().unwrap().kind;
    assert!(matches!(kind(add_column_sheet(false, Some(users()))), SheetKind::AddColumn));
    assert!(matches!(kind(edit_column_sheet(false, Some(users()), email())), SheetKind::EditColumn(column) if column.name == "email"));
    let name = || "email".to_string();
    assert!(matches!(kind(drop_column_sheet(false, Some(users()), name())), SheetKind::DropColumn(gone) if gone == "email"));
    assert!(matches!(kind(drop_index_sheet(false, Some(users()), name())), SheetKind::DropIndex(gone) if gone == "email"));
    assert!(add_column_sheet(false, None).is_none());
    assert!(matches!(drop_column_sheet(true, Some(users()), name()), Some(Err(what)) if what == "Changing a table"));

    let mut sheet = SchemaSheet::new(users(), SheetKind::CreateTable);
    sheet.new_columns[0].name.set_text("id");
    sheet.toggle_key(0);
    match render_schema_sheet(&sheet, &Ok(Vec::new())).body {
        SheetBody::Table { columns, add_column, .. } => {
            assert_eq!(add_column, "+ Column");
            assert_eq!((columns[0].name.as_str(), columns[0].name_hint.as_str()), ("id", "column"));
            assert_eq!((columns[0].data_type.as_str(), columns[0].type_hint.as_str()), ("", "type"));
            assert_eq!((columns[0].key.label.as_str(), columns[0].key.on), ("Key", true));
            assert_eq!((columns[0].null.label.as_str(), columns[0].null.on), ("Null", false));
        }
        _ => panic!("a table is created"),
    }
}
