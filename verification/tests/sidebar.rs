use dbui_ui::domain::{ConnectionId, ObjectKind, TableKind, TableRef};
use dbui_ui::text_field::{Focus, FocusState};
use dbui_ui::sidebar::{
    enter_schema, object_badge, render_sidebar_body, render_sidebar_filter, render_tree,
    set_sidebar_cursor, sidebar_activate, sidebar_expand, sidebar_move, sidebar_visible_items, Activation, Catalog,
    ConnectionState, Expansion, GroupNode, Marks, ObjectNode, ObjectRef, Rail, RailBody, SchemaNode,
    SidebarItem, TableNode, Tree, TreePart,
};

const HERE: ConnectionId = ConnectionId(1);

fn node(name: &str, matches: bool) -> TableNode {
    TableNode {
        name: name.to_string(),
        kind: TableKind::Table,
        matches,
    }
}

fn catalog(filtering: bool) -> Option<Catalog> {
    Some(Catalog {
        connection: HERE,
        filtering,
        schemas: vec![
            SchemaNode {
                name: "public".to_string(),
                expanded: true,
                tables: vec![node("orders", true), node("users", !filtering)],
                groups: vec![GroupNode {
                    kind: ObjectKind::Function,
                    label: "Functions".to_string(),
                    expanded: true,
                    objects: vec![ObjectNode {
                        name: "total".to_string(),
                        detail: Some("(int)".to_string()),
                    }],
                }],
            },
            SchemaNode {
                name: "audit".to_string(),
                expanded: false,
                tables: vec![node("log", !filtering)],
                groups: Vec::new(),
            },
        ],
    })
}

fn schema(name: &str) -> SidebarItem {
    SidebarItem::Schema {
        connection: HERE,
        name: name.to_string(),
    }
}

fn table(name: &str) -> SidebarItem {
    SidebarItem::Table {
        connection: HERE,
        table: TableRef::new("public", name),
    }
}

fn marks() -> Marks {
    Marks {
        cursor: Some(table("orders")),
        cursor_shown: true,
        open_table: Some(TableRef::new("public", "users")),
    }
}

#[test]
fn the_tree_lists_what_is_unfolded() {
    assert!(sidebar_visible_items(&None).is_empty());
    let items = sidebar_visible_items(&catalog(false));
    assert_eq!(items.len(), 6);
    assert!(matches!(&items[0], SidebarItem::Schema { name, .. } if name == "public"));
    assert!(matches!(&items[1], SidebarItem::Table { table, .. } if table.name == "orders"));
    assert!(matches!(&items[3], SidebarItem::Group { .. }));
    assert!(matches!(&items[4], SidebarItem::Object { object, .. } if object.name == "total"));
    assert!(matches!(&items[5], SidebarItem::Schema { name, .. } if name == "audit"));
}

#[test]
fn the_drawn_tree_marks_the_cursor_and_the_open_table() {
    match render_tree(&catalog(false), &marks(), "") {
        Tree::Lines(lines) => {
            assert_eq!(lines.len(), sidebar_visible_items(&catalog(false)).len());
            assert!(lines[1].marked && !lines[2].marked);
            assert!(matches!(lines[1].part, TreePart::Table { is_open: false, .. }));
            assert!(matches!(lines[2].part, TreePart::Table { is_open: true, .. }));
            assert!(matches!(&lines[0].part, TreePart::Schema { expanded: true, glyph, count } if count == "2" && glyph == "▾"));
        }
        Tree::Notice(_) => panic!("there is a tree"),
    }
    assert_eq!(object_badge(ObjectKind::Function), "FN");
}

fn elsewhere() -> FocusState {
    FocusState {
        focus: Focus::Grid,
        filter_focus: None,
        detail_input: None,
        page_size_focus: false,
    }
}

/// Where an arrow takes the cursor: its place in the tree.
fn moved(cursor: Option<SidebarItem>, delta: isize) -> usize {
    let mut cursor = cursor;
    let mut focus = elsewhere();
    sidebar_move(&catalog(false), &mut cursor, &mut focus, delta);
    assert_eq!(focus.focus, Focus::Sidebar);
    place(&cursor)
}

fn place(cursor: &Option<SidebarItem>) -> usize {
    let items = sidebar_visible_items(&catalog(false));
    let shape = format!("{:?}", cursor.as_ref().unwrap());
    items.iter().position(|item| format!("{item:?}") == shape).unwrap()
}

/// What an arrow to the side does, and where the cursor is then.
fn aside(cursor: SidebarItem, is_expanded: bool, expand: bool) -> (Expansion, usize) {
    let mut cursor = Some(cursor);
    let action = sidebar_expand(&catalog(false), &mut cursor, is_expanded, expand);
    (action, place(&cursor))
}

#[test]
fn the_arrow_keys_walk_the_tree() {
    assert_eq!(moved(None, 1), 1);
    assert_eq!(moved(None, -1), 5);
    assert_eq!(moved(Some(schema("public")), 1), 1);
    assert_eq!(moved(Some(table("orders")), -1), 0);
    let mut cursor = None;
    let mut focus = elsewhere();
    sidebar_move(&None, &mut cursor, &mut focus, 1);
    assert!(cursor.is_none() && focus == elsewhere());
    set_sidebar_cursor(&mut cursor, &mut focus, table("users"));
    assert_eq!((place(&cursor), focus.focus), (2, Focus::Sidebar));

    assert_eq!(aside(table("users"), false, false), (Expansion::MoveTo(0), 0));
    assert_eq!(aside(table("users"), false, true), (Expansion::Nothing, 2));
    assert_eq!(aside(schema("audit"), false, true), (Expansion::Toggle { enter: true }, 5));
    assert_eq!(aside(schema("public"), true, false), (Expansion::Toggle { enter: false }, 0));
    let mut cursor = Some(schema("public"));
    enter_schema(&catalog(false), &mut cursor, HERE, "public");
    assert_eq!(place(&cursor), 1);
    let mut cursor = Some(schema("audit"));
    enter_schema(&catalog(false), &mut cursor, HERE, "audit");
    assert_eq!(place(&cursor), 5);
}

#[test]
fn enter_opens_what_the_cursor_is_on() {
    let open = catalog(false);
    match sidebar_activate(&open, None) {
        Activation::CursorTo(first) => assert_eq!(place(&first), 0),
        other => panic!("{other:?}"),
    }
    assert!(matches!(sidebar_activate(&None, None), Activation::CursorTo(None)));
    assert!(matches!(
        sidebar_activate(&open, Some(schema("audit"))),
        Activation::ToggleSchema { name, .. } if name == "audit"
    ));
    assert!(matches!(
        sidebar_activate(&open, Some(table("users"))),
        Activation::OpenTable(table) if table.name == "users"
    ));
}

#[test]
fn the_rail_says_why_there_is_no_tree() {
    assert!(matches!(render_sidebar_body(&Rail::Selected(ConnectionState::Connected)), RailBody::Tree));
    assert!(matches!(render_sidebar_body(&Rail::NoConnections), RailBody::Notice(_)));
    match render_sidebar_body(&Rail::Selected(ConnectionState::Failed("refused".to_string()))) {
        RailBody::Notice(notice) => assert_eq!(notice.title.as_deref(), Some("refused")),
        _ => panic!("a failure is told"),
    }
    assert!(render_sidebar_filter(false, "", true).is_none());
    let strip = render_sidebar_filter(true, "or", false).unwrap();
    assert_eq!((strip.text.as_str(), strip.focused, strip.clear.as_deref()), ("or", false, Some("×")));
    let strip = render_sidebar_filter(true, "", true).unwrap();
    assert_eq!((strip.placeholder.as_str(), strip.clear), ("Search tables  ⌘⇧F", None));
}

#[test]
fn left_goes_up_to_what_a_row_is_under() {
    let items = sidebar_visible_items(&catalog(false));
    let total = || SidebarItem::Object {
        connection: HERE,
        object: ObjectRef {
            schema: "public".to_string(),
            kind: ObjectKind::Function,
            name: "total".to_string(),
            detail: Some("(int)".to_string()),
        },
    };
    assert_eq!(aside(total(), false, false), (Expansion::MoveTo(3), 3));
    assert!(matches!(&items[3], SidebarItem::Group { kind: ObjectKind::Function, .. }));
    assert_eq!(aside(total(), false, true), (Expansion::Nothing, 4));
    assert_eq!(aside(table("orders"), false, false), (Expansion::MoveTo(0), 0));
}
