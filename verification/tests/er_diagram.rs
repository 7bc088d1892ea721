use dbui_ui::domain::{Column, ForeignKey, Status, TableKind, TableRef};
use dbui_ui::er_diagram::{
    connect, described_tables, measure_all, open_er_diagram, open_er_diagram_for, paint_order,
    render_er_diagram, wants_columns, CatalogTable, ErDiagram, ErEdge, ErTable, Layout, Place,
    SchemaEntry,
};

fn column(name: &str, pk: bool, references: Option<(&str, &str)>) -> Column {
    Column {
        name: name.into(),
        data_type: "int".into(),
        nullable: !pk,
        default: None,
        is_primary_key: pk,
        ordinal: 0,
        references: references.map(|(table, column)| ForeignKey {
            column: name.into(),
            references: TableRef::new("public", table),
            references_column: column.into(),
        }),
    }
}

fn table(name: &str, columns: Vec<Column>) -> ErTable {
    ErTable {
        table: TableRef::new("public", name),
        kind: TableKind::Table,
        columns,
    }
}

/// Boxes in a row, far enough apart.
fn in_a_row(count: usize) -> Layout {
    Layout {
        positions: (0..count)
            .map(|i| Place { x: 800 + 20_000 * i as i64, y: 800 })
            .collect(),
        width: 20_000 * count as i64,
        height: 8_000,
    }
}

fn shop() -> Vec<ErTable> {
    vec![
        table("customers", vec![column("id", true, None)]),
        table(
            "orders",
            vec![
                column("id", true, None),
                column("customer_id", false, Some(("customers", "id"))),
                column("elsewhere_id", false, Some(("not_here", "id"))),
            ],
        ),
    ]
}

#[test]
fn keys_become_edges_between_the_right_rows() {
    let diagram = ErDiagram::build("public".into(), shop(), in_a_row(2));
    assert_eq!(
        diagram.edges,
        vec![ErEdge {
            from: 1,
            from_row: 1,
            to: 0,
            to_row: Some(0),
        }],
        "a key to a table outside the schema is not drawn"
    );
    // The parent is to the left, so the line leaves the child's left side
    // and lands on the parent's right.
    let curves = diagram.curves();
    let (start, end) = (curves[0].start, curves[0].end);
    let child = diagram.layout.positions[1];
    let parent = diagram.layout.positions[0];
    assert_eq!(start.x, child.x);
    assert_eq!(end.x, parent.x + diagram.sizes[0].width);
}

#[test]
fn lines_reach_half_the_way_out_of_their_boxes() {
    let mut layout = in_a_row(2);
    layout.positions[1].x += 2;
    let diagram = ErDiagram::build("public".into(), shop(), layout);
    let curve = diagram.curves()[0];
    // 20 002 between the boxes' left sides, and a parent that is 6 800 wide.
    assert_eq!(curve.start.x - curve.end.x, 13_202);
    assert_eq!(curve.start.x - curve.start_pull.x, 6_601);
    assert_eq!(curve.end_pull.x - curve.end.x, 6_601);
}

#[test]
fn a_self_reference_loops_off_the_right_side() {
    let diagram = ErDiagram::build(
        "public".into(),
        vec![table(
            "staff",
            vec![
                column("id", true, None),
                column("manager_id", false, Some(("staff", "id"))),
            ],
        )],
        in_a_row(1),
    );
    let curve = diagram.curves()[0];
    let right = diagram.layout.positions[0].x + diagram.sizes[0].width;
    assert_eq!(curve.start.x, right);
    assert_eq!(curve.end.x, right);
    assert!(curve.start_pull.x > right);
}

#[test]
fn a_box_fits_its_widest_row() {
    let sizes = measure_all(&vec![
        table("t", vec![column(&"x".repeat(27), false, None), column("y", false, None)]),
        table("t", Vec::new()),
        table("t", vec![column(&"x".repeat(500), false, None)]),
        table(&"t".repeat(30), Vec::new()),
    ]);
    // 27 + 3 characters of 7.6 units, and 72 more.
    assert_eq!(sizes[0].width, 40 * 300);
    // A heading of 30 units, two rows of 20, and 8 of padding.
    assert_eq!(sizes[0].height, 40 * 78);
    assert_eq!((sizes[1].width, sizes[1].height), (40 * 170, 40 * 58));
    assert_eq!(sizes[2].width, 40 * 420);
    // 30 characters of 8.2 units, and 40 more.
    assert_eq!(sizes[3].width, 40 * 286);
}

#[test]
fn a_key_to_an_unlisted_column_lands_on_the_heading() {
    let mut tables = shop();
    tables[1].columns[1].references.as_mut().unwrap().references_column = "gone".to_string();
    let edges = connect(&tables);
    assert_eq!(edges[0].to_row, None);
    let diagram = ErDiagram::build("public".into(), tables, in_a_row(2));
    assert_eq!(diagram.curves()[0].end.y, 800 + 600);
    assert_eq!(diagram.curves()[0].start.y, 800 + 1_200 + 800 + 400);
}

#[test]
fn hovering_lights_a_table_and_its_neighbours() {
    let mut diagram = ErDiagram::build("public".into(), shop(), in_a_row(2));
    assert!(!diagram.is_lit(0));
    diagram.hovered(1, true);
    assert!(diagram.is_lit(0) && diagram.is_lit(1));
    let curves = diagram.curves();
    assert!(curves[0].lit);
    diagram.hovered(0, false);
    assert!(diagram.is_lit(1), "another table was left");
    diagram.hovered(1, false);
    assert!(!diagram.is_lit(1));
    let mut unlit = curves[0];
    unlit.lit = false;
    let order: Vec<bool> = paint_order(&vec![curves[0], unlit, curves[0]]).iter().map(|c| c.lit).collect();
    assert_eq!(order, vec![false, true, true]);
}

#[test]
fn the_diagram_says_how_much_it_holds() {
    assert!(render_er_diagram(None).is_none());
    let loading = ErDiagram::loading("public".to_string(), in_a_row(0));
    let view = render_er_diagram(Some(&loading)).unwrap();
    assert_eq!(view.headline, "Reading columns…");
    let diagram = ErDiagram::build("public".into(), shop(), in_a_row(2));
    let view = render_er_diagram(Some(&diagram)).unwrap();
    assert_eq!(view.title, "public — diagram");
    assert_eq!(view.headline, "2 tables · 1 foreign keys");
    assert_eq!(view.hint, "Hover to trace keys · click to open");
    assert_eq!((view.zoom_out.as_str(), view.zoom_in.as_str()), ("−", "+"));
    assert_eq!((view.width, view.height), (40_000, 8_000));
    let markers: Vec<&str> = view.boxes[1].rows.iter().map(|row| row.marker.as_str()).collect();
    assert_eq!(markers, vec!["PK", "FK", "FK"]);
    assert!(wants_columns(&Some(loading), "public"));
    assert!(!wants_columns(&Some(diagram), "public"));
    assert!(!wants_columns(&None, "public"));
}

#[test]
fn the_schema_in_front_is_drawn() {
    let schema = |name: &str, expanded: bool| SchemaEntry {
        name: name.to_string(),
        expanded,
        tables: vec![CatalogTable { table: TableRef::new(name, "t"), kind: TableKind::View }],
    };
    let schemas = vec![schema("a", false), schema("b", true)];
    let open = Some("c".to_string());
    assert!(matches!(open_er_diagram(false, None, &None), Err(Status::Error(text)) if text == "Not connected"));
    assert!(matches!(open_er_diagram(true, None, &None), Err(Status::Error(text)) if text == "The catalog has not loaded yet"));
    assert!(matches!(open_er_diagram(true, Some(&Vec::new()), &None), Err(Status::Info(text)) if text == "No schema to draw"));
    assert!(matches!(open_er_diagram(true, Some(&schemas), &open), Ok(name) if name == "c"));
    assert!(matches!(open_er_diagram(true, Some(&schemas), &None), Ok(name) if name == "b"));
    let folded = vec![schema("a", false), schema("b", false)];
    assert!(matches!(open_er_diagram(true, Some(&folded), &None), Ok(name) if name == "a"));

    let (refs, kinds) = open_er_diagram_for(&schemas, "b").unwrap();
    assert_eq!((refs[0].schema.as_str(), kinds[0]), ("b", TableKind::View));
    assert!(open_er_diagram_for(&schemas, "z").is_none());
    let described = vec![(TableRef::new("b", "t"), Vec::new()), (TableRef::new("b", "u"), Vec::new())];
    let tables = described_tables(described, &kinds);
    assert_eq!(tables.len(), 1);
    assert_eq!((tables[0].table.name.as_str(), tables[0].kind), ("t", TableKind::View));
}
