//! The left rail: schema / table tree for the active connection.
//!
//! The arrow keys walk the list of visible items and the pointer clicks the
//! drawn rows; the two agree exactly, since a cursor that can land on a row
//! nobody drew is a cursor that vanishes.
use crate::domain::{ConnectionId, ObjectKind, TableKind, TableRef};
use crate::text::{
    decimal, decimal_text, lemma_places_step, opt, places_where, same, trim, trimmed,
};
use crate::text_field::{Focus, FocusState};
use vstd::prelude::*;
use vstd::string::*;

verus! {

/// One thing a schema holds besides tables.
#[derive(Debug)]
pub struct ObjectRef {
    pub schema: String,
    pub kind: ObjectKind,
    pub name: String,
    pub detail: Option<String>,
}

/// A row of the tree, by what it stands for.
#[derive(Debug)]
pub enum SidebarItem {
    Schema { connection: ConnectionId, name: String },
    Table { connection: ConnectionId, table: TableRef },
    Group { connection: ConnectionId, schema: String, kind: ObjectKind },
    Object { connection: ConnectionId, object: ObjectRef },
}

/// What an item stands for.
pub enum ItemView {
    Schema { connection: ConnectionId, name: Seq<char> },
    Table { connection: ConnectionId, schema: Seq<char>, name: Seq<char> },
    Group { connection: ConnectionId, schema: Seq<char>, kind: ObjectKind },
    Object {
        connection: ConnectionId,
        schema: Seq<char>,
        kind: ObjectKind,
        name: Seq<char>,
        detail: Option<Seq<char>>,
    },
}

impl View for SidebarItem {
    type V = ItemView;

    open spec fn view(&self) -> ItemView {
        match *self {
            SidebarItem::Schema { connection, name } => ItemView::Schema {
                connection,
                name: name@,
            },
            SidebarItem::Table { connection, table } => ItemView::Table {
                connection,
                schema: table.schema@,
                name: table.name@,
            },
            SidebarItem::Group { connection, schema, kind } => ItemView::Group {
                connection,
                schema: schema@,
                kind,
            },
            SidebarItem::Object { connection, object } => ItemView::Object {
                connection,
                schema: object.schema@,
                kind: object.kind,
                name: object.name@,
                detail: opt(object.detail),
            },
        }
    }
}

/// What each of the items stands for.
pub open spec fn item_views(items: Seq<SidebarItem>) -> Seq<ItemView> {
    Seq::new(items.len(), |i: int| items[i]@)
}

fn same_opt(a: &Option<String>, b: &Option<String>) -> (same_text: bool)
    ensures
        same_text == (opt(*a) == opt(*b)),
{
    match (a, b) {
        (Some(a), Some(b)) => same(a.as_str(), b.as_str()),
        (None, None) => true,
        _ => false,
    }
}

fn same_item(a: &SidebarItem, b: &SidebarItem) -> (same_thing: bool)
    ensures
        same_thing == (a@ == b@),
{
    match (a, b) {
        (
            SidebarItem::Schema { connection, name },
            SidebarItem::Schema { connection: other, name: other_name },
        ) => *connection == *other && same(name.as_str(), other_name.as_str()),
        (
            SidebarItem::Table { connection, table },
            SidebarItem::Table { connection: other, table: other_table },
        ) => *connection == *other && same(table.schema.as_str(), other_table.schema.as_str())
            && same(table.name.as_str(), other_table.name.as_str()),
        (
            SidebarItem::Group { connection, schema, kind },
            SidebarItem::Group { connection: other, schema: other_schema, kind: other_kind },
        ) => *connection == *other && *kind == *other_kind && same(
            schema.as_str(),
            other_schema.as_str(),
        ),
        (
            SidebarItem::Object { connection, object },
            SidebarItem::Object { connection: other, object: other_object },
        ) => *connection == *other && object.kind == other_object.kind && same(
            object.schema.as_str(),
            other_object.schema.as_str(),
        ) && same(object.name.as_str(), other_object.name.as_str()) && same_opt(
            &object.detail,
            &other_object.detail,
        ),
        _ => false,
    }
}

/// A table of the catalog, and whether the filter keeps it.
#[derive(Debug)]
pub struct TableNode {
    pub name: String,
    pub kind: TableKind,
    pub matches: bool,
}

#[derive(Debug)]
pub struct ObjectNode {
    pub name: String,
    pub detail: Option<String>,
}

/// The objects of one kind in a schema, under their plural name.
#[derive(Debug)]
pub struct GroupNode {
    pub kind: ObjectKind,
    pub label: String,
    pub expanded: bool,
    pub objects: Vec<ObjectNode>,
}

#[derive(Debug)]
pub struct SchemaNode {
    pub name: String,
    pub expanded: bool,
    pub tables: Vec<TableNode>,
    pub groups: Vec<GroupNode>,
}

/// The catalog of a connection, as the tree reads it.
#[derive(Debug)]
pub struct Catalog {
    pub connection: ConnectionId,
    /// There is a filter, so folds do not count and groups do not show.
    pub filtering: bool,
    pub schemas: Vec<SchemaNode>,
}

/// The tables that the filter keeps.
pub open spec fn table_items(
    connection: ConnectionId,
    schema: Seq<char>,
    tables: Seq<TableNode>,
) -> Seq<ItemView>
    decreases tables.len(),
{
    if tables.len() == 0 {
        Seq::empty()
    } else {
        let before = table_items(connection, schema, tables.drop_last());
        if tables.last().matches {
            before.push(ItemView::Table { connection, schema, name: tables.last().name@ })
        } else {
            before
        }
    }
}

pub open spec fn object_item(
    connection: ConnectionId,
    schema: Seq<char>,
    kind: ObjectKind,
    object: ObjectNode,
) -> ItemView {
    ItemView::Object { connection, schema, kind, name: object.name@, detail: opt(object.detail) }
}

/// The groups that hold something, each with its objects where it is open.
pub open spec fn group_items(
    connection: ConnectionId,
    schema: Seq<char>,
    groups: Seq<GroupNode>,
) -> Seq<ItemView>
    decreases groups.len(),
{
    if groups.len() == 0 {
        Seq::empty()
    } else {
        let before = group_items(connection, schema, groups.drop_last());
        let group = groups.last();
        if group.objects@.len() == 0 {
            before
        } else {
            let head = before.push(ItemView::Group { connection, schema, kind: group.kind });
            if group.expanded {
                head + Seq::new(
                    group.objects@.len(),
                    |i: int| object_item(connection, schema, group.kind, group.objects@[i]),
                )
            } else {
                head
            }
        }
    }
}

/// A schema's rows. While filtering, a schema with nothing in it is noise; and a
/// filter overrides the folds, since the point of typing is to see the matches.
pub open spec fn schema_items(
    connection: ConnectionId,
    filtering: bool,
    schema: SchemaNode,
) -> Seq<ItemView> {
    let tables = table_items(connection, schema.name@, schema.tables@);
    if filtering && tables.len() == 0 {
        Seq::empty()
    } else {
        let head = seq![ItemView::Schema { connection, name: schema.name@ }];
        if filtering {
            head + tables
        } else if schema.expanded {
            head + tables + group_items(connection, schema.name@, schema.groups@)
        } else {
            head
        }
    }
}

/// The rows of the first `upto` schemas.
pub open spec fn visible_items(catalog: Catalog, upto: int) -> Seq<ItemView>
    decreases upto,
{
    if upto <= 0 {
        Seq::empty()
    } else {
        visible_items(catalog, upto - 1) + schema_items(
            catalog.connection,
            catalog.filtering,
            catalog.schemas@[upto - 1],
        )
    }
}

/// Every row of the tree, in order.
pub open spec fn all_visible(catalog: Catalog) -> Seq<ItemView> {
    visible_items(catalog, catalog.schemas@.len() as int)
}

fn push_item(items: &mut Vec<SidebarItem>, item: SidebarItem)
    ensures
        item_views(final(items)@) == item_views(old(items)@).push(item@),
{
    items.push(item);
    assert(item_views(items@) == item_views(old(items)@).push(item@));
}

fn push_tables(items: &mut Vec<SidebarItem>, connection: ConnectionId, schema: &SchemaNode)
    ensures
        item_views(final(items)@) == item_views(old(items)@) + table_items(
            connection,
            schema.name@,
            schema.tables@,
        ),
{
    let ghost before = item_views(items@);
    let mut i: usize = 0;
    assert(schema.tables@.take(0) == Seq::<TableNode>::empty());
    assert(before + Seq::<ItemView>::empty() == before);
    while i < schema.tables.len()
        invariant
            i <= schema.tables@.len(),
            item_views(items@) == before + table_items(
                connection,
                schema.name@,
                schema.tables@.take(i as int),
            ),
        decreases schema.tables@.len() - i,
    {
        let table = &schema.tables[i];
        assert(schema.tables@.take(i + 1).drop_last() == schema.tables@.take(i as int));
        if table.matches {
            push_item(
                items,
                SidebarItem::Table {
                    connection,
                    table: TableRef {
                        schema: schema.name.as_str().to_string(),
                        name: table.name.as_str().to_string(),
                    },
                },
            );
        }
        i += 1;
        assert(item_views(items@) == before + table_items(
            connection,
            schema.name@,
            schema.tables@.take(i as int),
        ));
    }
    assert(schema.tables@.take(i as int) == schema.tables@);
}

fn push_objects(
    items: &mut Vec<SidebarItem>,
    connection: ConnectionId,
    schema: &str,
    group: &GroupNode,
)
    ensures
        item_views(final(items)@) == item_views(old(items)@) + Seq::new(
            group.objects@.len(),
            |i: int| object_item(connection, schema@, group.kind, group.objects@[i]),
        ),
{
    let ghost before = item_views(items@);
    let mut i: usize = 0;
    while i < group.objects.len()
        invariant
            i <= group.objects@.len(),
            item_views(items@) == before + Seq::new(
                i as nat,
                |k: int| object_item(connection, schema@, group.kind, group.objects@[k]),
            ),
        decreases group.objects@.len() - i,
    {
        let object = &group.objects[i];
        let detail = match &object.detail {
            Some(detail) => Some(detail.as_str().to_string()),
            None => None,
        };
        push_item(
            items,
            SidebarItem::Object {
                connection,
                object: ObjectRef {
                    schema: schema.to_string(),
                    kind: group.kind,
                    name: object.name.as_str().to_string(),
                    detail,
                },
            },
        );
        i += 1;
        assert(item_views(items@) == before + Seq::new(
            i as nat,
            |k: int| object_item(connection, schema@, group.kind, group.objects@[k]),
        ));
    }
}

fn push_groups(items: &mut Vec<SidebarItem>, connection: ConnectionId, schema: &SchemaNode)
    ensures
        item_views(final(items)@) == item_views(old(items)@) + group_items(
            connection,
            schema.name@,
            schema.groups@,
        ),
{
    let ghost before = item_views(items@);
    let mut i: usize = 0;
    assert(schema.groups@.take(0) == Seq::<GroupNode>::empty());
    assert(before + Seq::<ItemView>::empty() == before);
    while i < schema.groups.len()
        invariant
            i <= schema.groups@.len(),
            item_views(items@) == before + group_items(
                connection,
                schema.name@,
                schema.groups@.take(i as int),
            ),
        decreases schema.groups@.len() - i,
    {
        let group = &schema.groups[i];
        assert(schema.groups@.take(i + 1).drop_last() == schema.groups@.take(i as int));
        if group.objects.len() > 0 {
            push_item(
                items,
                SidebarItem::Group {
                    connection,
                    schema: schema.name.as_str().to_string(),
                    kind: group.kind,
                },
            );
            if group.expanded {
                push_objects(items, connection, schema.name.as_str(), group);
            }
        }
        i += 1;
        assert(item_views(items@) == before + group_items(
            connection,
            schema.name@,
            schema.groups@.take(i as int),
        ));
    }
    assert(schema.groups@.take(i as int) == schema.groups@);
}

fn any_matches(tables: &Vec<TableNode>) -> (any: bool)
    ensures
        forall|connection: ConnectionId, schema: Seq<char>|
            any == (#[trigger] table_items(connection, schema, tables@).len() > 0),
{
    let mut i: usize = 0;
    assert(tables@.take(0) == Seq::<TableNode>::empty());
    while i < tables.len()
        invariant
            i <= tables@.len(),
            forall|connection: ConnectionId, schema: Seq<char>|
                #[trigger] table_items(connection, schema, tables@.take(i as int)).len() == 0,
        decreases tables@.len() - i,
    {
        assert(tables@.take(i + 1).drop_last() == tables@.take(i as int));
        assert(tables@.take(i + 1).last() == tables@[i as int]);
        if tables[i].matches {
            proof {
                assert forall|connection: ConnectionId, schema: Seq<char>|
                    #[trigger] table_items(connection, schema, tables@).len() > 0 by {
                    lemma_table_items_grow(connection, schema, tables@, i + 1);
                }
            }
            return true;
        }
        proof {
            assert forall|connection: ConnectionId, schema: Seq<char>|
                #[trigger] table_items(connection, schema, tables@.take(i + 1)).len() == 0 by {
                assert(table_items(connection, schema, tables@.take(i as int)).len() == 0);
            }
        }
        i += 1;
    }
    assert(tables@.take(i as int) == tables@);
    false
}

proof fn lemma_table_items_grow(
    connection: ConnectionId,
    schema: Seq<char>,
    tables: Seq<TableNode>,
    upto: int,
)
    requires
        0 <= upto <= tables.len(),
    ensures
        table_items(connection, schema, tables.take(upto)).len() <= table_items(
            connection,
            schema,
            tables,
        ).len(),
    decreases tables.len() - upto,
{
    if upto == tables.len() {
        assert(tables.take(upto) == tables);
    } else {
        assert(tables.take(upto + 1).drop_last() == tables.take(upto));
        lemma_table_items_grow(connection, schema, tables, upto + 1);
    }
}

/// Every row the tree is drawing, in order; none without an open connection that
/// has its catalog.
pub open spec fn shown(catalog: Option<Catalog>) -> Seq<ItemView> {
    match catalog {
        Some(catalog) => all_visible(catalog),
        None => Seq::empty(),
    }
}

pub fn sidebar_visible_items(catalog: &Option<Catalog>) -> (items: Vec<SidebarItem>)
    ensures
        item_views(items@) == shown(*catalog),
{
    let mut items: Vec<SidebarItem> = Vec::new();
    assert(item_views(items@) == Seq::<ItemView>::empty());
    let catalog = match catalog {
        Some(catalog) => catalog,
        None => return items,
    };
    let mut i: usize = 0;
    while i < catalog.schemas.len()
        invariant
            i <= catalog.schemas@.len(),
            item_views(items@) == visible_items(*catalog, i as int),
        decreases catalog.schemas@.len() - i,
    {
        let schema = &catalog.schemas[i];
        let ghost before = item_views(items@);
        let any = any_matches(&schema.tables);
        assert(any == (table_items(catalog.connection, schema.name@, schema.tables@).len() > 0));
        if !catalog.filtering || any {
            push_item(
                &mut items,
                SidebarItem::Schema {
                    connection: catalog.connection,
                    name: schema.name.as_str().to_string(),
                },
            );
            if catalog.filtering || schema.expanded {
                push_tables(&mut items, catalog.connection, schema);
                if !catalog.filtering {
                    push_groups(&mut items, catalog.connection, schema);
                }
            }
        }
        assert(item_views(items@) == before + schema_items(
            catalog.connection,
            catalog.filtering,
            *schema,
        ));
        i += 1;
    }
    items
}

/// What the drawn tree marks: where the arrow keys are, and which table is on
/// screen. The cursor only shows while the tree owns the keyboard: left showing
/// it is a second highlight competing with the open table's.
#[derive(Debug)]
pub struct Marks {
    pub cursor: Option<SidebarItem>,
    pub cursor_shown: bool,
    pub open_table: Option<TableRef>,
}

/// A row as it is drawn.
#[derive(Debug)]
pub struct TreeLine {
    pub item: SidebarItem,
    /// The arrow keys are here.
    pub marked: bool,
    pub part: TreePart,
}

#[derive(Debug)]
pub enum TreePart {
    Schema { expanded: bool, glyph: String, count: String },
    /// A table; `pours` is its place in the cascade that unfolding a schema
    /// pours in, which a filter does without.
    Table { kind: TableKind, is_open: bool, pours: Option<usize> },
    Group { label: String, expanded: bool, glyph: String, count: String },
    Object { badge: String, detail: Option<String> },
}

/// What a drawn row says.
pub struct LineView {
    pub item: ItemView,
    pub marked: bool,
    pub part: PartView,
}

pub enum PartView {
    Schema { expanded: bool, glyph: Seq<char>, count: Seq<char> },
    Table { kind: TableKind, is_open: bool, pours: Option<int> },
    Group { label: Seq<char>, expanded: bool, glyph: Seq<char>, count: Seq<char> },
    Object { badge: Seq<char>, detail: Option<Seq<char>> },
}

impl View for TreeLine {
    type V = LineView;

    open spec fn view(&self) -> LineView {
        LineView {
            item: self.item@,
            marked: self.marked,
            part: match self.part {
                TreePart::Schema { expanded, glyph, count } => PartView::Schema {
                    expanded,
                    glyph: glyph@,
                    count: count@,
                },
                TreePart::Table { kind, is_open, pours } => PartView::Table {
                    kind,
                    is_open,
                    pours: match pours {
                        Some(index) => Some(index as int),
                        None => None,
                    },
                },
                TreePart::Group { label, expanded, glyph, count } => PartView::Group {
                    label: label@,
                    expanded,
                    glyph: glyph@,
                    count: count@,
                },
                TreePart::Object { badge, detail } => PartView::Object {
                    badge: badge@,
                    detail: opt(detail),
                },
            },
        }
    }
}

/// What a row that unfolds is marked with.
pub open spec fn fold_mark(expanded: bool) -> Seq<char> {
    if expanded {
        "▾"@
    } else {
        "▸"@
    }
}

fn fold_glyph(expanded: bool) -> (glyph: String)
    ensures
        glyph@ == fold_mark(expanded),
{
    if expanded {
        "▾".to_string()
    } else {
        "▸".to_string()
    }
}

/// What each of the drawn rows says.
pub open spec fn line_views(lines: Seq<TreeLine>) -> Seq<LineView> {
    Seq::new(lines.len(), |i: int| lines[i]@)
}

impl Marks {
    pub open spec fn marks(self, item: ItemView) -> bool {
        self.cursor_shown && (self.cursor matches Some(cursor) && cursor@ == item)
    }

    pub open spec fn is_open(self, schema: Seq<char>, name: Seq<char>) -> bool {
        self.open_table matches Some(table) && table.schema@ == schema && table.name@ == name
    }

    fn marks_item(&self, item: &SidebarItem) -> (marked: bool)
        ensures
            marked == self.marks(item@),
    {
        match &self.cursor {
            Some(cursor) => self.cursor_shown && same_item(cursor, item),
            None => false,
        }
    }

    fn has_open(&self, schema: &str, name: &str) -> (open: bool)
        ensures
            open == self.is_open(schema@, name@),
    {
        match &self.open_table {
            Some(table) => same(table.schema.as_str(), schema) && same(table.name.as_str(), name),
            None => false,
        }
    }
}

/// Two letters for an object's kind, where a table row has its icon.
pub open spec fn badge_of(kind: ObjectKind) -> Seq<char> {
    match kind {
        ObjectKind::Function => "FN"@,
        ObjectKind::Procedure => "PR"@,
        ObjectKind::Trigger => "TG"@,
        ObjectKind::Sequence => "SQ"@,
        ObjectKind::Type => "TY"@,
        ObjectKind::Extension => "EX"@,
    }
}

/// Two letters for an object's kind, where a table row has its icon.
pub fn object_badge(kind: ObjectKind) -> (badge: &'static str)
    ensures
        badge@ == badge_of(kind),
{
    match kind {
        ObjectKind::Function => "FN",
        ObjectKind::Procedure => "PR",
        ObjectKind::Trigger => "TG",
        ObjectKind::Sequence => "SQ",
        ObjectKind::Type => "TY",
        ObjectKind::Extension => "EX",
    }
}

pub open spec fn table_lines(
    marks: Marks,
    connection: ConnectionId,
    filtering: bool,
    schema: Seq<char>,
    tables: Seq<TableNode>,
) -> Seq<LineView>
    decreases tables.len(),
{
    if tables.len() == 0 {
        Seq::empty()
    } else {
        let before = table_lines(marks, connection, filtering, schema, tables.drop_last());
        let table = tables.last();
        if table.matches {
            let item = ItemView::Table { connection, schema, name: table.name@ };
            before.push(
                LineView {
                    item,
                    marked: marks.marks(item),
                    part: PartView::Table {
                        kind: table.kind,
                        is_open: marks.is_open(schema, table.name@),
                        pours: if filtering {
                            None
                        } else {
                            Some(before.len() as int)
                        },
                    },
                },
            )
        } else {
            before
        }
    }
}

pub open spec fn object_line(
    marks: Marks,
    connection: ConnectionId,
    schema: Seq<char>,
    kind: ObjectKind,
    object: ObjectNode,
) -> LineView {
    let item = object_item(connection, schema, kind, object);
    LineView {
        item,
        marked: marks.marks(item),
        part: PartView::Object { badge: badge_of(kind), detail: opt(object.detail) },
    }
}

pub open spec fn group_line(
    marks: Marks,
    connection: ConnectionId,
    schema: Seq<char>,
    group: GroupNode,
) -> LineView {
    let item = ItemView::Group { connection, schema, kind: group.kind };
    LineView {
        item,
        marked: marks.marks(item),
        part: PartView::Group {
            label: group.label@,
            expanded: group.expanded,
            glyph: fold_mark(group.expanded),
            count: decimal(group.objects@.len()),
        },
    }
}

pub open spec fn group_lines(
    marks: Marks,
    connection: ConnectionId,
    schema: Seq<char>,
    groups: Seq<GroupNode>,
) -> Seq<LineView>
    decreases groups.len(),
{
    if groups.len() == 0 {
        Seq::empty()
    } else {
        let before = group_lines(marks, connection, schema, groups.drop_last());
        let group = groups.last();
        if group.objects@.len() == 0 {
            before
        } else {
            let head = before.push(group_line(marks, connection, schema, group));
            if group.expanded {
                head + Seq::new(
                    group.objects@.len(),
                    |i: int| object_line(marks, connection, schema, group.kind, group.objects@[i]),
                )
            } else {
                head
            }
        }
    }
}

pub open spec fn schema_lines(
    marks: Marks,
    connection: ConnectionId,
    filtering: bool,
    schema: SchemaNode,
) -> Seq<LineView> {
    let tables = table_lines(marks, connection, filtering, schema.name@, schema.tables@);
    if filtering && tables.len() == 0 {
        Seq::empty()
    } else {
        let expanded = filtering || schema.expanded;
        let item = ItemView::Schema { connection, name: schema.name@ };
        let head = seq![
            LineView {
                item,
                marked: marks.marks(item),
                part: PartView::Schema {
                    expanded,
                    glyph: fold_mark(expanded),
                    count: decimal(tables.len()),
                },
            },
        ];
        if !expanded {
            head
        } else if filtering {
            head + tables
        } else {
            head + tables + group_lines(marks, connection, schema.name@, schema.groups@)
        }
    }
}

/// The drawn rows of the first `upto` schemas.
pub open spec fn drawn_lines(marks: Marks, catalog: Catalog, upto: int) -> Seq<LineView>
    decreases upto,
{
    if upto <= 0 {
        Seq::empty()
    } else {
        drawn_lines(marks, catalog, upto - 1) + schema_lines(
            marks,
            catalog.connection,
            catalog.filtering,
            catalog.schemas@[upto - 1],
        )
    }
}

/// Every drawn row, in order.
pub open spec fn all_drawn(marks: Marks, catalog: Catalog) -> Seq<LineView> {
    drawn_lines(marks, catalog, catalog.schemas@.len() as int)
}

/// What each drawn row stands for.
pub open spec fn drawn_items(lines: Seq<LineView>) -> Seq<ItemView> {
    Seq::new(lines.len(), |i: int| lines[i].item)
}

proof fn lemma_drawn_items_concat(a: Seq<LineView>, b: Seq<LineView>)
    ensures
        drawn_items(a + b) == drawn_items(a) + drawn_items(b),
{
}

proof fn lemma_table_lines_agree(
    marks: Marks,
    connection: ConnectionId,
    filtering: bool,
    schema: Seq<char>,
    tables: Seq<TableNode>,
)
    ensures
        drawn_items(table_lines(marks, connection, filtering, schema, tables)) == table_items(
            connection,
            schema,
            tables,
        ),
        table_lines(marks, connection, filtering, schema, tables).len() == table_items(
            connection,
            schema,
            tables,
        ).len(),
    decreases tables.len(),
{
    if tables.len() > 0 {
        lemma_table_lines_agree(marks, connection, filtering, schema, tables.drop_last());
        assert(drawn_items(table_lines(marks, connection, filtering, schema, tables))
            == table_items(connection, schema, tables));
    } else {
        assert(drawn_items(Seq::<LineView>::empty()) == Seq::<ItemView>::empty());
    }
}

proof fn lemma_group_lines_agree(
    marks: Marks,
    connection: ConnectionId,
    schema: Seq<char>,
    groups: Seq<GroupNode>,
)
    ensures
        drawn_items(group_lines(marks, connection, schema, groups)) == group_items(
            connection,
            schema,
            groups,
        ),
    decreases groups.len(),
{
    if groups.len() > 0 {
        lemma_group_lines_agree(marks, connection, schema, groups.drop_last());
        assert(drawn_items(group_lines(marks, connection, schema, groups)) == group_items(
            connection,
            schema,
            groups,
        ));
    } else {
        assert(drawn_items(Seq::<LineView>::empty()) == Seq::<ItemView>::empty());
    }
}

proof fn lemma_drawn_agree(marks: Marks, catalog: Catalog, upto: int)
    requires
        upto <= catalog.schemas@.len(),
    ensures
        drawn_items(drawn_lines(marks, catalog, upto)) == visible_items(catalog, upto),
    decreases upto,
{
    if upto > 0 {
        lemma_drawn_agree(marks, catalog, upto - 1);
        let schema = catalog.schemas@[upto - 1];
        lemma_table_lines_agree(
            marks,
            catalog.connection,
            catalog.filtering,
            schema.name@,
            schema.tables@,
        );
        lemma_group_lines_agree(marks, catalog.connection, schema.name@, schema.groups@);
        let lines = schema_lines(marks, catalog.connection, catalog.filtering, schema);
        assert(drawn_items(lines) == schema_items(catalog.connection, catalog.filtering, schema));
        lemma_drawn_items_concat(drawn_lines(marks, catalog, upto - 1), lines);
    } else {
        assert(drawn_items(Seq::<LineView>::empty()) == Seq::<ItemView>::empty());
    }
}

/// The arrow keys and the pointer walk the same rows: what is drawn stands, row
/// for row, for what is visible.
pub proof fn the_drawn_tree_is_the_visible_one(marks: Marks, catalog: Catalog)
    ensures
        all_drawn(marks, catalog).len() == all_visible(catalog).len(),
        drawn_items(all_drawn(marks, catalog)) == all_visible(catalog),
{
    lemma_drawn_agree(marks, catalog, catalog.schemas@.len() as int);
    assert(drawn_items(all_drawn(marks, catalog)).len() == all_visible(catalog).len());
}

fn push_line(lines: &mut Vec<TreeLine>, line: TreeLine)
    ensures
        line_views(final(lines)@) == line_views(old(lines)@).push(line@),
{
    lines.push(line);
    assert(line_views(lines@) == line_views(old(lines)@).push(line@));
}

fn push_table_lines(
    lines: &mut Vec<TreeLine>,
    marks: &Marks,
    connection: ConnectionId,
    filtering: bool,
    schema: &SchemaNode,
)
    ensures
        line_views(final(lines)@) == line_views(old(lines)@) + table_lines(
            *marks,
            connection,
            filtering,
            schema.name@,
            schema.tables@,
        ),
{
    let ghost before = line_views(lines@);
    let mut i: usize = 0;
    let mut shown: usize = 0;
    assert(schema.tables@.take(0) == Seq::<TableNode>::empty());
    assert(before + Seq::<LineView>::empty() == before);
    while i < schema.tables.len()
        invariant
            shown <= i <= schema.tables@.len(),
            shown == table_lines(
                *marks,
                connection,
                filtering,
                schema.name@,
                schema.tables@.take(i as int),
            ).len(),
            line_views(lines@) == before + table_lines(
                *marks,
                connection,
                filtering,
                schema.name@,
                schema.tables@.take(i as int),
            ),
        decreases schema.tables@.len() - i,
    {
        let table = &schema.tables[i];
        assert(schema.tables@.take(i + 1).drop_last() == schema.tables@.take(i as int));
        if table.matches {
            let item = SidebarItem::Table {
                connection,
                table: TableRef {
                    schema: schema.name.as_str().to_string(),
                    name: table.name.as_str().to_string(),
                },
            };
            let marked = marks.marks_item(&item);
            let is_open = marks.has_open(schema.name.as_str(), table.name.as_str());
            let pours = if filtering {
                None
            } else {
                Some(shown)
            };
            push_line(
                lines,
                TreeLine { item, marked, part: TreePart::Table { kind: table.kind, is_open, pours } },
            );
            shown += 1;
        }
        i += 1;
        assert(line_views(lines@) == before + table_lines(
            *marks,
            connection,
            filtering,
            schema.name@,
            schema.tables@.take(i as int),
        ));
    }
    assert(schema.tables@.take(i as int) == schema.tables@);
}

fn push_object_lines(
    lines: &mut Vec<TreeLine>,
    marks: &Marks,
    connection: ConnectionId,
    schema: &str,
    group: &GroupNode,
)
    ensures
        line_views(final(lines)@) == line_views(old(lines)@) + Seq::new(
            group.objects@.len(),
            |i: int| object_line(*marks, connection, schema@, group.kind, group.objects@[i]),
        ),
{
    let ghost before = line_views(lines@);
    let mut i: usize = 0;
    while i < group.objects.len()
        invariant
            i <= group.objects@.len(),
            line_views(lines@) == before + Seq::new(
                i as nat,
                |k: int| object_line(*marks, connection, schema@, group.kind, group.objects@[k]),
            ),
        decreases group.objects@.len() - i,
    {
        let object = &group.objects[i];
        let detail = match &object.detail {
            Some(detail) => Some(detail.as_str().to_string()),
            None => None,
        };
        let shown_detail = match &object.detail {
            Some(detail) => Some(detail.as_str().to_string()),
            None => None,
        };
        let item = SidebarItem::Object {
            connection,
            object: ObjectRef {
                schema: schema.to_string(),
                kind: group.kind,
                name: object.name.as_str().to_string(),
                detail,
            },
        };
        let marked = marks.marks_item(&item);
        push_line(
            lines,
            TreeLine {
                item,
                marked,
                part: TreePart::Object {
                    badge: object_badge(group.kind).to_string(),
                    detail: shown_detail,
                },
            },
        );
        i += 1;
        assert(line_views(lines@) == before + Seq::new(
            i as nat,
            |k: int| object_line(*marks, connection, schema@, group.kind, group.objects@[k]),
        ));
    }
}

/// The folded groups of functions, triggers and the rest under one schema's
/// tables, and the objects of the groups that are open.
pub fn render_object_groups(
    lines: &mut Vec<TreeLine>,
    marks: &Marks,
    connection: ConnectionId,
    schema: &SchemaNode,
)
    ensures
        line_views(final(lines)@) == line_views(old(lines)@) + group_lines(
            *marks,
            connection,
            schema.name@,
            schema.groups@,
        ),
{
    let ghost before = line_views(lines@);
    let mut i: usize = 0;
    assert(schema.groups@.take(0) == Seq::<GroupNode>::empty());
    assert(before + Seq::<LineView>::empty() == before);
    while i < schema.groups.len()
        invariant
            i <= schema.groups@.len(),
            line_views(lines@) == before + group_lines(
                *marks,
                connection,
                schema.name@,
                schema.groups@.take(i as int),
            ),
        decreases schema.groups@.len() - i,
    {
        let group = &schema.groups[i];
        assert(schema.groups@.take(i + 1).drop_last() == schema.groups@.take(i as int));
        if group.objects.len() > 0 {
            let item = SidebarItem::Group {
                connection,
                schema: schema.name.as_str().to_string(),
                kind: group.kind,
            };
            let marked = marks.marks_item(&item);
            push_line(
                lines,
                TreeLine {
                    item,
                    marked,
                    part: TreePart::Group {
                        label: group.label.as_str().to_string(),
                        expanded: group.expanded,
                        glyph: fold_glyph(group.expanded),
                        count: decimal_text(group.objects.len() as u64),
                    },
                },
            );
            if group.expanded {
                push_object_lines(lines, marks, connection, schema.name.as_str(), group);
            }
        }
        i += 1;
        assert(line_views(lines@) == before + group_lines(
            *marks,
            connection,
            schema.name@,
            schema.groups@.take(i as int),
        ));
    }
    assert(schema.groups@.take(i as int) == schema.groups@);
}

fn count_matches(
    marks: &Marks,
    connection: ConnectionId,
    filtering: bool,
    schema: &SchemaNode,
) -> (count: usize)
    ensures
        count == table_lines(
            *marks,
            connection,
            filtering,
            schema.name@,
            schema.tables@,
        ).len(),
{
    let mut i: usize = 0;
    let mut count: usize = 0;
    assert(schema.tables@.take(0) == Seq::<TableNode>::empty());
    while i < schema.tables.len()
        invariant
            count <= i <= schema.tables@.len(),
            count == table_lines(
                *marks,
                connection,
                filtering,
                schema.name@,
                schema.tables@.take(i as int),
            ).len(),
        decreases schema.tables@.len() - i,
    {
        assert(schema.tables@.take(i + 1).drop_last() == schema.tables@.take(i as int));
        assert(schema.tables@.take(i + 1).last() == schema.tables@[i as int]);
        if schema.tables[i].matches {
            count += 1;
        }
        i += 1;
    }
    assert(schema.tables@.take(i as int) == schema.tables@);
    count
}

/// What the rail shows instead of rows.
#[derive(Debug)]
pub struct Notice {
    /// What is the case, where that needs a line of its own.
    pub title: Option<String>,
    pub caption: String,
}

#[derive(Debug)]
pub enum Tree {
    Notice(Notice),
    Lines(Vec<TreeLine>),
}

pub open spec fn caption_only(notice: Notice, text: Seq<char>) -> bool {
    notice.title is None && notice.caption@ == text
}

/// The schemas and tables of one connection: the rows, or why there are none. A
/// filter that found nothing has to say so: an empty tree otherwise reads as a
/// connection that lost its catalog.
pub fn render_tree(catalog: &Option<Catalog>, marks: &Marks, filter: &str) -> (tree: Tree)
    ensures
        match catalog {
            None => tree matches Tree::Notice(notice) && caption_only(
                notice,
                "Loading catalog…"@,
            ),
            Some(catalog) => if catalog.schemas@.len() == 0 {
                tree matches Tree::Notice(notice) && caption_only(
                    notice,
                    "No schemas visible to this user"@,
                )
            } else if catalog.filtering && all_drawn(*marks, *catalog).len() == 0 {
                tree matches Tree::Notice(notice) && caption_only(
                    notice,
                    "No tables matching “"@ + trimmed(filter@) + "”"@,
                )
            } else {
                tree matches Tree::Lines(lines) && line_views(lines@) == all_drawn(
                    *marks,
                    *catalog,
                )
            },
        },
{
    let catalog = match catalog {
        Some(catalog) => catalog,
        None => return Tree::Notice(
            Notice { title: None, caption: "Loading catalog…".to_string() },
        ),
    };
    if catalog.schemas.len() == 0 {
        return Tree::Notice(
            Notice { title: None, caption: "No schemas visible to this user".to_string() },
        );
    }
    let mut lines: Vec<TreeLine> = Vec::new();
    assert(line_views(lines@) == Seq::<LineView>::empty());
    let mut i: usize = 0;
    while i < catalog.schemas.len()
        invariant
            i <= catalog.schemas@.len(),
            line_views(lines@) == drawn_lines(*marks, *catalog, i as int),
        decreases catalog.schemas@.len() - i,
    {
        let schema = &catalog.schemas[i];
        let ghost before = line_views(lines@);
        let count: usize = count_matches(marks, catalog.connection, catalog.filtering, schema);
        if !catalog.filtering || count > 0 {
            let expanded = catalog.filtering || schema.expanded;
            let item = SidebarItem::Schema {
                connection: catalog.connection,
                name: schema.name.as_str().to_string(),
            };
            let marked = marks.marks_item(&item);
            push_line(
                &mut lines,
                TreeLine {
                    item,
                    marked,
                    part: TreePart::Schema {
                        expanded,
                        glyph: fold_glyph(expanded),
                        count: decimal_text(count as u64),
                    },
                },
            );
            if expanded {
                push_table_lines(
                    &mut lines,
                    marks,
                    catalog.connection,
                    catalog.filtering,
                    schema,
                );
                if !catalog.filtering {
                    render_object_groups(&mut lines, marks, catalog.connection, schema);
                }
            }
        }
        assert(line_views(lines@) == before + schema_lines(
            *marks,
            catalog.connection,
            catalog.filtering,
            *schema,
        ));
        i += 1;
    }
    assert(line_views(lines@).len() == lines@.len());
    if catalog.filtering && lines.len() == 0 {
        let mut caption: String = "No tables matching “".to_string();
        caption.append(trim(filter).as_str());
        caption.append("”");
        return Tree::Notice(Notice { title: None, caption });
    }
    Tree::Lines(lines)
}

/// What the cursor stands for.
pub open spec fn cursor_view(cursor: Option<SidebarItem>) -> Option<ItemView> {
    match cursor {
        Some(item) => Some(item@),
        None => None,
    }
}

/// The first place of an item among those from `from` on; -1 where it is not
/// among them.
pub open spec fn place_of(items: Seq<ItemView>, item: ItemView, from: int) -> int
    decreases items.len() - from,
{
    if from >= items.len() {
        -1
    } else if items[from] == item {
        from
    } else {
        place_of(items, item, from + 1)
    }
}

fn find_item(items: &Vec<SidebarItem>, item: &SidebarItem) -> (at: Option<usize>)
    ensures
        match at {
            Some(at) => at < items@.len() && at == place_of(item_views(items@), item@, 0),
            None => place_of(item_views(items@), item@, 0) == -1,
        },
{
    let mut i: usize = 0;
    while i < items.len()
        invariant
            i <= items@.len(),
            place_of(item_views(items@), item@, 0) == place_of(
                item_views(items@),
                item@,
                i as int,
            ),
        decreases items@.len() - i,
    {
        assert(item_views(items@)[i as int] == items@[i as int]@);
        if same_item(&items[i], item) {
            return Some(i);
        }
        i += 1;
    }
    None
}

/// Where the cursor counts from: its own row, or the first where it has none.
pub open spec fn cursor_place(items: Seq<ItemView>, cursor: Option<ItemView>) -> int {
    match cursor {
        Some(item) => if place_of(items, item, 0) >= 0 {
            place_of(items, item, 0)
        } else {
            0
        },
        None => 0,
    }
}

/// One row up or down, around the ends.
pub open spec fn stepped(count: int, current: int, delta: int) -> int {
    if delta < 0 {
        if current == 0 {
            count - 1
        } else {
            current - 1
        }
    } else {
        (current + 1) % count
    }
}

fn step_over(
    items: &Vec<SidebarItem>,
    cursor: &Option<SidebarItem>,
    delta: isize,
) -> (next: Option<usize>)
    ensures
        match next {
            Some(next) => {
                &&& next < items@.len()
                &&& next == stepped(
                    items@.len() as int,
                    cursor_place(item_views(items@), cursor_view(*cursor)),
                    delta as int,
                )
            },
            None => items@.len() == 0,
        },
{
    if items.len() == 0 {
        return None;
    }
    let current: usize = match cursor {
        Some(item) => match find_item(items, item) {
            Some(at) => at,
            None => 0,
        },
        None => 0,
    };
    let next: usize = if delta < 0 {
        if current == 0 {
            items.len() - 1
        } else {
            current - 1
        }
    } else if current + 1 == items.len() {
        0
    } else {
        current + 1
    };
    proof {
        if current + 1 < items@.len() {
            vstd::arithmetic::div_mod::lemma_small_mod((current + 1) as nat, items@.len());
        } else {
            vstd::arithmetic::div_mod::lemma_mod_self_0(items@.len() as int);
        }
    }
    Some(next)
}

/// The item at a place of the list, taken out of it.
fn item_at(items: Vec<SidebarItem>, at: usize) -> (item: SidebarItem)
    requires
        at < items@.len(),
    ensures
        item@ == item_views(items@)[at as int],
{
    let mut items = items;
    items.remove(at)
}

/// An arrow key: the cursor goes one row up or down in the tree as it is drawn,
/// around the ends, and the tree has the keyboard. A tree without rows takes
/// neither.
pub fn sidebar_move(
    catalog: &Option<Catalog>,
    cursor: &mut Option<SidebarItem>,
    focus: &mut FocusState,
    delta: isize,
)
    ensures
        shown(*catalog).len() == 0 ==> *final(cursor) == *old(cursor) && *final(focus) == *old(focus),
        shown(*catalog).len() > 0 ==> {
            let items = shown(*catalog);
            let next = stepped(
                items.len() as int,
                cursor_place(items, cursor_view(*old(cursor))),
                delta as int,
            );
            &&& 0 <= next < items.len()
            &&& cursor_view(*final(cursor)) == Some(items[next])
            &&& *final(focus) == (FocusState { focus: Focus::Sidebar, ..*old(focus) })
        },
{
    let items = sidebar_visible_items(catalog);
    assert(items@.len() == item_views(items@).len());
    if let Some(next) = step_over(&items, cursor, delta) {
        *cursor = Some(item_at(items, next));
        focus.focus = Focus::Sidebar;
    }
}

/// A click on a row: the cursor is on it, and the tree has the keyboard.
pub fn set_sidebar_cursor(
    cursor: &mut Option<SidebarItem>,
    focus: &mut FocusState,
    item: SidebarItem,
)
    ensures
        *final(cursor) == Some(item),
        *final(focus) == (FocusState { focus: Focus::Sidebar, ..*old(focus) }),
{
    *cursor = Some(item);
    focus.focus = Focus::Sidebar;
}

/// Up undoes down, and down undoes up.
pub proof fn arrow_keys_undo_each_other(count: int, current: int)
    requires
        0 <= current < count,
    ensures
        0 <= stepped(count, current, 1) < count,
        0 <= stepped(count, current, -1) < count,
        stepped(count, stepped(count, current, 1), -1) == current,
        stepped(count, stepped(count, current, -1), 1) == current,
{
    if current + 1 < count {
        vstd::arithmetic::div_mod::lemma_small_mod((current + 1) as nat, count as nat);
    } else {
        vstd::arithmetic::div_mod::lemma_mod_self_0(count);
    }
    if current == 0 {
        vstd::arithmetic::div_mod::lemma_mod_self_0(count);
    } else {
        vstd::arithmetic::div_mod::lemma_small_mod(current as nat, count as nat);
    }
}

/// What Enter does on the tree.
#[derive(Debug)]
pub enum Activation {
    /// There was no cursor: it goes to the first row, where there is one.
    CursorTo(Option<SidebarItem>),
    ToggleSchema { connection: ConnectionId, name: String },
    OpenTable(TableRef),
    ToggleGroup { connection: ConnectionId, schema: String, kind: ObjectKind },
    OpenDefinition(ObjectRef),
}

/// Enter: fold or unfold a schema or a group, open a table or a definition.
pub fn sidebar_activate(catalog: &Option<Catalog>, cursor: Option<SidebarItem>) -> (action:
    Activation)
    ensures
        match cursor {
            None => action matches Activation::CursorTo(first) && cursor_view(first) == (
            if shown(*catalog).len() > 0 {
                Some(shown(*catalog)[0])
            } else {
                None
            }),
            Some(SidebarItem::Schema { connection, name }) => action == (
            Activation::ToggleSchema { connection, name }),
            Some(SidebarItem::Table { table, .. }) => action == Activation::OpenTable(table),
            Some(SidebarItem::Group { connection, schema, kind }) => action == (
            Activation::ToggleGroup { connection, schema, kind }),
            Some(SidebarItem::Object { object, .. }) => action == Activation::OpenDefinition(
                object,
            ),
        },
{
    match cursor {
        None => {
            let items = sidebar_visible_items(catalog);
            assert(items@.len() == item_views(items@).len());
            Activation::CursorTo(
                if items.len() > 0 {
                    Some(item_at(items, 0))
                } else {
                    None
                },
            )
        },
        Some(SidebarItem::Schema { connection, name }) => Activation::ToggleSchema {
            connection,
            name,
        },
        Some(SidebarItem::Table { table, .. }) => Activation::OpenTable(table),
        Some(SidebarItem::Group { connection, schema, kind }) => Activation::ToggleGroup {
            connection,
            schema,
            kind,
        },
        Some(SidebarItem::Object { object, .. }) => Activation::OpenDefinition(object),
    }
}

/// What a left or right arrow does on the tree.
#[derive(Debug, Clone, Copy, PartialEq, Eq, Structural)]
pub enum Expansion {
    Nothing,
    /// Fold or unfold the row; where `enter` is set, the cursor goes on to the
    /// first table that unfolding shows.
    Toggle { enter: bool },
    /// Up to the row that this one is under, by its place in the tree.
    MoveTo(usize),
}

pub open spec fn is_schema_of(item: ItemView, connection: ConnectionId) -> bool {
    item matches ItemView::Schema { connection: other, .. } && other == connection
}

pub open spec fn is_group_of(item: ItemView, connection: ConnectionId) -> bool {
    item matches ItemView::Group { connection: other, .. } && other == connection
}

/// The last schema of a connection among the first `upto` items; -1 for none.
pub open spec fn schema_above(items: Seq<ItemView>, connection: ConnectionId, upto: int) -> int
    decreases upto,
{
    if upto <= 0 {
        -1
    } else if is_schema_of(items[upto - 1], connection) {
        upto - 1
    } else {
        schema_above(items, connection, upto - 1)
    }
}

/// The last group of a connection among the first `upto` items; -1 for none.
pub open spec fn group_above(items: Seq<ItemView>, connection: ConnectionId, upto: int) -> int
    decreases upto,
{
    if upto <= 0 {
        -1
    } else if is_group_of(items[upto - 1], connection) {
        upto - 1
    } else {
        group_above(items, connection, upto - 1)
    }
}

fn find_above(
    items: &Vec<SidebarItem>,
    connection: ConnectionId,
    upto: usize,
    groups: bool,
) -> (at: Option<usize>)
    requires
        upto <= items@.len(),
    ensures
        ({
            let above = if groups {
                group_above(item_views(items@), connection, upto as int)
            } else {
                schema_above(item_views(items@), connection, upto as int)
            };
            match at {
                Some(at) => at < items@.len() && at == above,
                None => above == -1,
            }
        }),
{
    let mut i: usize = upto;
    while i > 0
        invariant
            i <= upto <= items@.len(),
            groups ==> group_above(item_views(items@), connection, upto as int) == group_above(
                item_views(items@),
                connection,
                i as int,
            ),
            !groups ==> schema_above(item_views(items@), connection, upto as int) == schema_above(
                item_views(items@),
                connection,
                i as int,
            ),
        decreases i,
    {
        assert(item_views(items@)[i - 1] == items@[i - 1]@);
        let found = match &items[i - 1] {
            SidebarItem::Schema { connection: other, .. } => !groups && *other == connection,
            SidebarItem::Group { connection: other, .. } => groups && *other == connection,
            _ => false,
        };
        if found {
            return Some(i - 1);
        }
        i -= 1;
    }
    None
}

/// What an arrow to the side comes to. A folded row unfolds to the right and
/// folds to the left; to the left of a table or an object lies the row it is
/// under.
pub open spec fn expansion_of(
    cursor: Option<ItemView>,
    is_expanded: bool,
    expand: bool,
    items: Seq<ItemView>,
) -> Expansion {
    match cursor {
        None => Expansion::Nothing,
        Some(ItemView::Schema { .. }) => if expand != is_expanded {
            Expansion::Toggle { enter: expand }
        } else {
            Expansion::Nothing
        },
        Some(ItemView::Group { .. }) => if expand != is_expanded {
            Expansion::Toggle { enter: false }
        } else {
            Expansion::Nothing
        },
        Some(ItemView::Object { connection, schema, kind, name, detail }) => {
            let at = place_of(
                items,
                ItemView::Object { connection, schema, kind, name, detail },
                0,
            );
            let above = group_above(items, connection, at);
            if !expand && at >= 0 && above >= 0 {
                Expansion::MoveTo(above as usize)
            } else {
                Expansion::Nothing
            }
        },
        Some(ItemView::Table { connection, schema, name }) => {
            let at = place_of(items, ItemView::Table { connection, schema, name }, 0);
            let above = schema_above(items, connection, at);
            if !expand && at >= 0 && above >= 0 {
                Expansion::MoveTo(above as usize)
            } else {
                Expansion::Nothing
            }
        },
    }
}

/// An arrow to the side, given whether the cursor's own row is unfolded. The
/// cursor goes up where the arrow leads up, and stays otherwise.
pub fn sidebar_expand(
    catalog: &Option<Catalog>,
    cursor: &mut Option<SidebarItem>,
    is_expanded: bool,
    expand: bool,
) -> (action: Expansion)
    ensures
        action == expansion_of(cursor_view(*old(cursor)), is_expanded, expand, shown(*catalog)),
        match action {
            Expansion::MoveTo(at) => at < shown(*catalog).len() && cursor_view(*final(cursor))
                == Some(shown(*catalog)[at as int]),
            _ => *final(cursor) == *old(cursor),
        },
{
    let items = sidebar_visible_items(catalog);
    assert(items@.len() == item_views(items@).len());
    let action = expand_over(cursor, is_expanded, expand, &items);
    if let Expansion::MoveTo(at) = action {
        *cursor = Some(item_at(items, at));
    }
    action
}

fn expand_over(
    cursor: &Option<SidebarItem>,
    is_expanded: bool,
    expand: bool,
    items: &Vec<SidebarItem>,
) -> (action: Expansion)
    ensures
        action == expansion_of(cursor_view(*cursor), is_expanded, expand, item_views(items@)),
        action matches Expansion::MoveTo(at) ==> at < items@.len(),
{
    let item = match cursor {
        Some(item) => item,
        None => return Expansion::Nothing,
    };
    match item {
        SidebarItem::Schema { .. } => {
            if expand != is_expanded {
                Expansion::Toggle { enter: expand }
            } else {
                Expansion::Nothing
            }
        },
        SidebarItem::Group { .. } => {
            if expand != is_expanded {
                Expansion::Toggle { enter: false }
            } else {
                Expansion::Nothing
            }
        },
        SidebarItem::Object { connection, .. } => {
            if expand {
                return Expansion::Nothing;
            }
            match find_item(items, item) {
                Some(at) => match find_above(items, *connection, at, true) {
                    Some(above) => Expansion::MoveTo(above),
                    None => Expansion::Nothing,
                },
                None => Expansion::Nothing,
            }
        },
        SidebarItem::Table { connection, .. } => {
            if expand {
                return Expansion::Nothing;
            }
            match find_item(items, item) {
                Some(at) => match find_above(items, *connection, at, false) {
                    Some(above) => Expansion::MoveTo(above),
                    None => Expansion::Nothing,
                },
                None => Expansion::Nothing,
            }
        },
    }
}

proof fn lemma_schema_above_prefix(
    items: Seq<ItemView>,
    more: Seq<ItemView>,
    connection: ConnectionId,
    upto: int,
)
    requires
        0 <= upto <= items.len(),
    ensures
        schema_above(items + more, connection, upto) == schema_above(items, connection, upto),
    decreases upto,
{
    if upto > 0 {
        assert((items + more)[upto - 1] == items[upto - 1]);
        lemma_schema_above_prefix(items, more, connection, upto - 1);
    }
}

proof fn lemma_schema_above_is(
    items: Seq<ItemView>,
    connection: ConnectionId,
    at: int,
    upto: int,
)
    requires
        0 <= at < upto <= items.len(),
        is_schema_of(items[at], connection),
        forall|i: int| at < i < upto ==> !is_schema_of(#[trigger] items[i], connection),
    ensures
        schema_above(items, connection, upto) == at,
    decreases upto,
{
    if upto - 1 > at {
        assert(!is_schema_of(items[upto - 1], connection));
        lemma_schema_above_is(items, connection, at, upto - 1);
    }
}

proof fn lemma_table_items_are_tables(
    connection: ConnectionId,
    schema: Seq<char>,
    tables: Seq<TableNode>,
)
    ensures
        forall|i: int|
            0 <= i < table_items(connection, schema, tables).len() ==> {
                let item = #[trigger] table_items(connection, schema, tables)[i];
                item is Table && item->Table_schema == schema && item->Table_connection
                    == connection
            },
    decreases tables.len(),
{
    if tables.len() > 0 {
        lemma_table_items_are_tables(connection, schema, tables.drop_last());
    }
}

proof fn lemma_group_items_are_not_tables(
    connection: ConnectionId,
    schema: Seq<char>,
    groups: Seq<GroupNode>,
)
    ensures
        forall|i: int|
            0 <= i < group_items(connection, schema, groups).len() ==> {
                let item = #[trigger] group_items(connection, schema, groups)[i];
                item is Group || item is Object
            },
    decreases groups.len(),
{
    if groups.len() > 0 {
        lemma_group_items_are_not_tables(connection, schema, groups.drop_last());
    }
}

proof fn lemma_under_its_schema(catalog: Catalog, upto: int, i: int)
    requires
        upto <= catalog.schemas@.len(),
        0 <= i < visible_items(catalog, upto).len(),
        visible_items(catalog, upto)[i] is Table,
    ensures
        ({
            let items = visible_items(catalog, upto);
            let above = schema_above(items, catalog.connection, i);
            &&& 0 <= above < i
            &&& items[above] == ItemView::Schema {
                connection: catalog.connection,
                name: items[i]->Table_schema,
            }
        }),
    decreases upto,
{
    if upto > 0 {
        let before = visible_items(catalog, upto - 1);
        let schema = catalog.schemas@[upto - 1];
        let here = schema_items(catalog.connection, catalog.filtering, schema);
        let items = visible_items(catalog, upto);
        if i < before.len() {
            lemma_under_its_schema(catalog, upto - 1, i);
            lemma_schema_above_prefix(before, here, catalog.connection, i);
        } else {
            let first = before.len() as int;
            let tables = table_items(catalog.connection, schema.name@, schema.tables@);
            let groups = group_items(catalog.connection, schema.name@, schema.groups@);
            lemma_table_items_are_tables(catalog.connection, schema.name@, schema.tables@);
            lemma_group_items_are_not_tables(catalog.connection, schema.name@, schema.groups@);
            assert(items[first] == here[0]);
            assert(items[i] == here[i - first]);
            assert forall|k: int| first < k <= i implies !is_schema_of(
                #[trigger] items[k],
                catalog.connection,
            ) && (items[k] is Table ==> items[k]->Table_schema == schema.name@) by {
                let at = k - first - 1;
                assert(items[k] == here[at + 1]);
                if at < tables.len() {
                    assert(here[at + 1] == tables[at]);
                } else {
                    assert(here[at + 1] == groups[at - tables.len()]);
                }
            }
            lemma_schema_above_is(items, catalog.connection, first, i);
        }
    }
}

proof fn lemma_place_of(items: Seq<ItemView>, item: ItemView, from: int, i: int)
    requires
        0 <= from <= i < items.len(),
        items[i] == item,
    ensures
        from <= place_of(items, item, from) <= i,
        items[place_of(items, item, from)] == item,
    decreases i - from,
{
    if items[from] != item {
        lemma_place_of(items, item, from + 1, i);
    }
}

/// Left from a table goes up to the schema that the table is in.
pub proof fn left_of_a_table_is_its_schema(catalog: Catalog, i: int, is_expanded: bool)
    requires
        all_visible(catalog).len() <= usize::MAX,
        0 <= i < all_visible(catalog).len(),
        all_visible(catalog)[i] is Table,
    ensures
        ({
            let items = all_visible(catalog);
            &&& expansion_of(Some(items[i]), is_expanded, false, items) matches Expansion::MoveTo(
                above,
            )
            &&& above < i
            &&& items[above as int] == ItemView::Schema {
                connection: catalog.connection,
                name: items[i]->Table_schema,
            }
        }),
{
    let items = all_visible(catalog);
    let at = place_of(items, items[i], 0);
    lemma_place_of(items, items[i], 0, i);
    lemma_under_its_schema(catalog, catalog.schemas@.len() as int, at);
    lemma_of_its_connection(catalog, catalog.schemas@.len() as int, i);
}

proof fn lemma_of_its_connection(catalog: Catalog, upto: int, i: int)
    requires
        upto <= catalog.schemas@.len(),
        0 <= i < visible_items(catalog, upto).len(),
    ensures
        match visible_items(catalog, upto)[i] {
            ItemView::Schema { connection, .. } => connection == catalog.connection,
            ItemView::Table { connection, .. } => connection == catalog.connection,
            ItemView::Group { connection, .. } => connection == catalog.connection,
            ItemView::Object { connection, .. } => connection == catalog.connection,
        },
    decreases upto,
{
    if upto > 0 {
        let before = visible_items(catalog, upto - 1);
        let schema = catalog.schemas@[upto - 1];
        let here = schema_items(catalog.connection, catalog.filtering, schema);
        if i < before.len() {
            lemma_of_its_connection(catalog, upto - 1, i);
        } else {
            let tables = table_items(catalog.connection, schema.name@, schema.tables@);
            let groups = group_items(catalog.connection, schema.name@, schema.groups@);
            lemma_table_items_are_tables(catalog.connection, schema.name@, schema.tables@);
            let at = i - before.len() - 1;
            if at >= 0 {
                if at < tables.len() {
                    assert(here[at + 1] == tables[at]);
                } else {
                    assert(here[at + 1] == groups[at - tables.len()]);
                    lemma_groups_of_their_connection(
                        catalog.connection,
                        schema.name@,
                        schema.groups@,
                        at - tables.len(),
                    );
                }
            }
        }
    }
}

proof fn lemma_groups_of_their_connection(
    connection: ConnectionId,
    schema: Seq<char>,
    groups: Seq<GroupNode>,
    i: int,
)
    requires
        0 <= i < group_items(connection, schema, groups).len(),
    ensures
        match group_items(connection, schema, groups)[i] {
            ItemView::Group { connection: other, .. } => other == connection,
            ItemView::Object { connection: other, .. } => other == connection,
            _ => false,
        },
    decreases groups.len(),
{
    if groups.len() > 0 {
        let before = group_items(connection, schema, groups.drop_last());
        if i < before.len() {
            lemma_groups_of_their_connection(connection, schema, groups.drop_last(), i);
        }
    }
}

/// An object stands under the group of its kind, with no other group between.
proof fn lemma_object_group(
    connection: ConnectionId,
    schema: Seq<char>,
    groups: Seq<GroupNode>,
    i: int,
) -> (at: int)
    requires
        0 <= i < group_items(connection, schema, groups).len(),
        group_items(connection, schema, groups)[i] is Object,
    ensures
        ({
            let items = group_items(connection, schema, groups);
            &&& 0 <= at < i
            &&& items[at] == ItemView::Group { connection, schema, kind: items[i]->Object_kind }
            &&& items[i]->Object_schema == schema
            &&& forall|k: int| at < k < i ==> (#[trigger] items[k]) is Object
        }),
    decreases groups.len(),
{
    let before = group_items(connection, schema, groups.drop_last());
    let items = group_items(connection, schema, groups);
    if i < before.len() {
        let at = lemma_object_group(connection, schema, groups.drop_last(), i);
        assert forall|k: int| at < k < i implies (#[trigger] items[k]) is Object by {
            assert(items[k] == before[k]);
        }
        at
    } else {
        before.len() as int
    }
}

proof fn lemma_group_above_is(
    items: Seq<ItemView>,
    connection: ConnectionId,
    at: int,
    upto: int,
)
    requires
        0 <= at < upto <= items.len(),
        is_group_of(items[at], connection),
        forall|i: int| at < i < upto ==> !is_group_of(#[trigger] items[i], connection),
    ensures
        group_above(items, connection, upto) == at,
    decreases upto,
{
    if upto - 1 > at {
        assert(!is_group_of(items[upto - 1], connection));
        lemma_group_above_is(items, connection, at, upto - 1);
    }
}

proof fn lemma_group_above_prefix(
    items: Seq<ItemView>,
    more: Seq<ItemView>,
    connection: ConnectionId,
    upto: int,
)
    requires
        0 <= upto <= items.len(),
    ensures
        group_above(items + more, connection, upto) == group_above(items, connection, upto),
    decreases upto,
{
    if upto > 0 {
        assert((items + more)[upto - 1] == items[upto - 1]);
        lemma_group_above_prefix(items, more, connection, upto - 1);
    }
}

proof fn lemma_under_its_group(catalog: Catalog, upto: int, i: int)
    requires
        upto <= catalog.schemas@.len(),
        0 <= i < visible_items(catalog, upto).len(),
        visible_items(catalog, upto)[i] is Object,
    ensures
        ({
            let items = visible_items(catalog, upto);
            let above = group_above(items, catalog.connection, i);
            &&& 0 <= above < i
            &&& items[above] == ItemView::Group {
                connection: catalog.connection,
                schema: items[i]->Object_schema,
                kind: items[i]->Object_kind,
            }
        }),
    decreases upto,
{
    if upto > 0 {
        let before = visible_items(catalog, upto - 1);
        let schema = catalog.schemas@[upto - 1];
        let here = schema_items(catalog.connection, catalog.filtering, schema);
        let items = visible_items(catalog, upto);
        if i < before.len() {
            lemma_under_its_group(catalog, upto - 1, i);
            lemma_group_above_prefix(before, here, catalog.connection, i);
        } else {
            let tables = table_items(catalog.connection, schema.name@, schema.tables@);
            let groups = group_items(catalog.connection, schema.name@, schema.groups@);
            lemma_table_items_are_tables(catalog.connection, schema.name@, schema.tables@);
            let first = before.len() + 1 + tables.len();
            let j = i - first;
            assert(items[i] == here[i - before.len()]);
            if j < 0 && i > before.len() {
                assert(here[i - before.len()] == tables[i - before.len() - 1]);
            }
            assert(j >= 0);
            assert(here[i - before.len()] == groups[j]);
            let at = lemma_object_group(catalog.connection, schema.name@, schema.groups@, j);
            assert(items[first + at] == groups[at]);
            assert forall|k: int| first + at < k < i implies !is_group_of(
                #[trigger] items[k],
                catalog.connection,
            ) by {
                assert(items[k] == groups[k - first]);
            }
            lemma_group_above_is(items, catalog.connection, first + at, i);
        }
    }
}

/// Left from an object goes up to its group, the way it goes from a table to its
/// schema.
pub proof fn left_of_an_object_is_its_group(catalog: Catalog, i: int, is_expanded: bool)
    requires
        all_visible(catalog).len() <= usize::MAX,
        0 <= i < all_visible(catalog).len(),
        all_visible(catalog)[i] is Object,
    ensures
        ({
            let items = all_visible(catalog);
            &&& expansion_of(Some(items[i]), is_expanded, false, items) matches Expansion::MoveTo(
                above,
            )
            &&& above < i
            &&& items[above as int] == ItemView::Group {
                connection: catalog.connection,
                schema: items[i]->Object_schema,
                kind: items[i]->Object_kind,
            }
        }),
{
    let items = all_visible(catalog);
    let at = place_of(items, items[i], 0);
    lemma_place_of(items, items[i], 0, i);
    lemma_under_its_group(catalog, catalog.schemas@.len() as int, at);
    lemma_of_its_connection(catalog, catalog.schemas@.len() as int, i);
}

/// The row under a schema, where that is one of its connection's tables.
pub open spec fn first_child(
    items: Seq<ItemView>,
    connection: ConnectionId,
    name: Seq<char>,
) -> Option<int> {
    let at = place_of(items, ItemView::Schema { connection, name }, 0);
    if at >= 0 && at + 1 < items.len() && (items[at + 1] matches ItemView::Table {
        connection: other,
        ..
    } && other == connection) {
        Some(at + 1)
    } else {
        None
    }
}

fn child_of(
    items: &Vec<SidebarItem>,
    connection: ConnectionId,
    name: &str,
) -> (child: Option<usize>)
    ensures
        match child {
            Some(child) => child < items@.len() && Some(child as int) == first_child(
                item_views(items@),
                connection,
                name@,
            ),
            None => first_child(item_views(items@), connection, name@) is None,
        },
{
    let schema = SidebarItem::Schema { connection, name: name.to_string() };
    match find_item(items, &schema) {
        Some(at) => {
            if at < items.len() - 1 {
                assert(item_views(items@)[at + 1] == items@[at + 1]@);
                match &items[at + 1] {
                    SidebarItem::Table { connection: other, .. } => {
                        if *other == connection {
                            Some(at + 1)
                        } else {
                            None
                        }
                    },
                    _ => None,
                }
            } else {
                None
            }
        },
        None => None,
    }
}

/// Once a schema is unfolded, the cursor goes to the row under it, where that is
/// one of its connection's tables. `catalog` is the one with the schema unfolded.
pub fn enter_schema(
    catalog: &Option<Catalog>,
    cursor: &mut Option<SidebarItem>,
    connection: ConnectionId,
    name: &str,
)
    ensures
        match first_child(shown(*catalog), connection, name@) {
            Some(child) => cursor_view(*final(cursor)) == Some(shown(*catalog)[child]),
            None => *final(cursor) == *old(cursor),
        },
{
    let items = sidebar_visible_items(catalog);
    if let Some(child) = child_of(&items, connection, name) {
        *cursor = Some(item_at(items, child));
    }
}

/// A connection's state, as far as the rail says it.
#[derive(Debug)]
pub enum ConnectionState {
    Disconnected,
    Connecting,
    Failed(String),
    Connected,
}

/// What the rail has to show.
#[derive(Debug)]
pub enum Rail {
    NoConnections,
    NoneSelected,
    /// The selected connection is gone.
    Missing,
    Selected(ConnectionState),
}

#[derive(Debug)]
pub enum RailBody {
    Nothing,
    Notice(Notice),
    /// The tree of the connection.
    Tree,
}

pub open spec fn notice_is(notice: Notice, title: Seq<char>, caption: Seq<char>) -> bool {
    opt(notice.title) == Some(title) && notice.caption@ == caption
}

pub open spec fn state_title(state: ConnectionState) -> Seq<char> {
    match state {
        ConnectionState::Connecting => "Connecting…"@,
        ConnectionState::Failed(error) => error@,
        _ => "Not connected"@,
    }
}

/// The body of the rail: what to do where there is no tree yet.
pub fn render_sidebar_body(rail: &Rail) -> (body: RailBody)
    ensures
        match rail {
            Rail::NoConnections => body matches RailBody::Notice(notice) && notice_is(
                notice,
                "No connections yet"@,
                "Press ⌘N or use the titlebar picker."@,
            ),
            Rail::NoneSelected => body matches RailBody::Notice(notice) && notice_is(
                notice,
                "No connection selected"@,
                "Pick one from the titlebar."@,
            ),
            Rail::Missing => body is Nothing,
            Rail::Selected(ConnectionState::Connected) => body is Tree,
            Rail::Selected(state) => body matches RailBody::Notice(notice) && notice_is(
                notice,
                state_title(*state),
                "Select the connection in the titlebar to connect."@,
            ),
        },
{
    match rail {
        Rail::NoConnections => RailBody::Notice(
            Notice {
                title: Some("No connections yet".to_string()),
                caption: "Press ⌘N or use the titlebar picker.".to_string(),
            },
        ),
        Rail::NoneSelected => RailBody::Notice(
            Notice {
                title: Some("No connection selected".to_string()),
                caption: "Pick one from the titlebar.".to_string(),
            },
        ),
        Rail::Missing => RailBody::Nothing,
        Rail::Selected(state) => {
            let title = match state {
                ConnectionState::Connected => return RailBody::Tree,
                ConnectionState::Connecting => "Connecting…".to_string(),
                ConnectionState::Failed(error) => error.as_str().to_string(),
                ConnectionState::Disconnected => "Not connected".to_string(),
            };
            RailBody::Notice(
                Notice {
                    title: Some(title),
                    caption: "Select the connection in the titlebar to connect.".to_string(),
                },
            )
        },
    }
}

/// The table filter as it is drawn.
#[derive(Debug)]
pub struct SidebarFilter {
    pub text: String,
    /// What it says while it is empty.
    pub placeholder: String,
    pub focused: bool,
    /// What clears it, while it holds something.
    pub clear: Option<String>,
}

/// The table filter, once there is a connection to filter.
pub fn render_sidebar_filter(connected: bool, filter: &str, focused: bool) -> (strip: Option<
    SidebarFilter,
>)
    ensures
        strip is Some <==> connected,
        strip matches Some(strip) ==> {
            &&& strip.text@ == filter@
            &&& strip.placeholder@ == "Search tables  ⌘⇧F"@
            &&& strip.focused == focused
            &&& opt(strip.clear) == (if filter@.len() > 0 {
                Some("×"@)
            } else {
                None
            })
        },
{
    if !connected {
        return None;
    }
    Some(
        SidebarFilter {
            text: filter.to_string(),
            placeholder: "Search tables  ⌘⇧F".to_string(),
            focused,
            clear: if !filter.is_empty() {
                Some("×".to_string())
            } else {
                None
            },
        },
    )
}

/// Whether the filter keeps a table.
pub open spec fn table_is_kept(tables: Seq<TableNode>) -> spec_fn(int) -> bool {
    |i: int| tables[i].matches
}

/// A row says of a table what the catalog says: its name, its kind, and whether
/// it is the one on screen. It is the `k`-th to pour in, unless there is a filter.
pub open spec fn is_table_row(
    line: LineView,
    marks: Marks,
    connection: ConnectionId,
    filtering: bool,
    schema: Seq<char>,
    table: TableNode,
    k: int,
) -> bool {
    &&& line.item == (ItemView::Table { connection, schema, name: table.name@ })
    &&& line.part matches PartView::Table { kind, is_open, pours }
    &&& kind == table.kind
    &&& is_open <==> (marks.open_table matches Some(open) && open.schema@ == schema
        && open.name@ == table.name@)
    &&& filtering ==> pours is None
    &&& !filtering ==> pours == Some(k)
}

proof fn lemma_tables_kept(
    marks: Marks,
    connection: ConnectionId,
    filtering: bool,
    schema: Seq<char>,
    tables: Seq<TableNode>,
    upto: int,
) -> (places: Seq<int>)
    requires
        0 <= upto <= tables.len(),
    ensures
        places_where(places, upto, table_is_kept(tables)),
        table_lines(marks, connection, filtering, schema, tables.take(upto)).len() == places.len(),
        forall|k: int|
            #![trigger places[k]]
            0 <= k < places.len() ==> is_table_row(
                table_lines(marks, connection, filtering, schema, tables.take(upto))[k],
                marks,
                connection,
                filtering,
                schema,
                tables[places[k]],
                k,
            ),
    decreases upto,
{
    let holds = table_is_kept(tables);
    if upto == 0 {
        Seq::empty()
    } else {
        let n = upto - 1;
        let before = lemma_tables_kept(marks, connection, filtering, schema, tables, n);
        let lines = table_lines(marks, connection, filtering, schema, tables.take(n));
        let more = table_lines(marks, connection, filtering, schema, tables.take(upto));
        lemma_places_step(before, n, holds);
        assert(tables.take(upto).drop_last() == tables.take(n));
        if holds(n) {
            let places = before.push(n);
            assert forall|k: int| #![trigger places[k]] 0 <= k < places.len() implies is_table_row(
                more[k],
                marks,
                connection,
                filtering,
                schema,
                tables[places[k]],
                k,
            ) by {
                if k < before.len() {
                    assert(more[k] == lines[k]);
                    assert(places[k] == before[k]);
                }
            }
            places
        } else {
            before
        }
    }
}

/// The tables that the filter keeps are drawn under their schema, each once, in
/// the catalog's order, and no other.
pub proof fn a_schema_draws_the_tables_that_are_kept(
    marks: Marks,
    connection: ConnectionId,
    filtering: bool,
    schema: Seq<char>,
    tables: Seq<TableNode>,
)
    ensures
        ({
            let lines = table_lines(marks, connection, filtering, schema, tables);
            exists|places: Seq<int>|
                {
                    &&& #[trigger] places_where(places, tables.len() as int, table_is_kept(tables))
                    &&& lines.len() == places.len()
                    &&& forall|k: int|
                        #![trigger places[k]]
                        0 <= k < places.len() ==> is_table_row(
                            lines[k],
                            marks,
                            connection,
                            filtering,
                            schema,
                            tables[places[k]],
                            k,
                        )
                }
        }),
        table_lines(marks, connection, filtering, schema, tables).len() == 0 <==> (forall|i: int|
            0 <= i < tables.len() ==> !(#[trigger] tables[i]).matches),
{
    let n = tables.len() as int;
    assert(tables.take(n) == tables);
    let places = lemma_tables_kept(marks, connection, filtering, schema, tables, n);
    assert(places_where(places, n, table_is_kept(tables)));
    if places.len() == 0 {
        assert forall|i: int| 0 <= i < tables.len() implies !(#[trigger] tables[i]).matches by {
            assert(table_is_kept(tables)(i) ==> places.contains(i));
        }
    } else {
        assert(table_is_kept(tables)(places[0]));
        assert(tables[places[0]].matches);
    }
}

/// What a schema is drawn as: nothing where a filter keeps none of its tables, and
/// otherwise its own row with the number of tables on it. Its tables follow where
/// it is unfolded or there is a filter, and its groups where it is unfolded and
/// there is none.
pub proof fn a_schema_stands_above_what_it_holds(
    marks: Marks,
    connection: ConnectionId,
    filtering: bool,
    schema: SchemaNode,
)
    ensures
        ({
            let lines = schema_lines(marks, connection, filtering, schema);
            let tables = table_lines(marks, connection, filtering, schema.name@, schema.tables@);
            let groups = group_lines(marks, connection, schema.name@, schema.groups@);
            let open = filtering || schema.expanded;
            &&& lines.len() == 0 <==> filtering && (forall|i: int|
                0 <= i < schema.tables@.len() ==> !(#[trigger] schema.tables@[i]).matches)
            &&& lines.len() > 0 ==> {
                &&& lines[0].item == (ItemView::Schema { connection, name: schema.name@ })
                &&& lines[0].part matches PartView::Schema { expanded, glyph, count }
                &&& expanded == open
                &&& glyph == (if open {
                    seq!['▾']
                } else {
                    seq!['▸']
                })
                &&& count == decimal(tables.len())
                &&& !open ==> lines.len() == 1
                &&& filtering ==> lines.skip(1) == tables
                &&& open && !filtering ==> lines.skip(1) == tables + groups
            }
        }),
{
    a_schema_draws_the_tables_that_are_kept(
        marks,
        connection,
        filtering,
        schema.name@,
        schema.tables@,
    );
    reveal_strlit("▾");
    reveal_strlit("▸");
    let lines = schema_lines(marks, connection, filtering, schema);
    let tables = table_lines(marks, connection, filtering, schema.name@, schema.tables@);
    let groups = group_lines(marks, connection, schema.name@, schema.groups@);
    if lines.len() > 0 {
        assert(fold_mark(true) == seq!['▾']);
        assert(fold_mark(false) == seq!['▸']);
        if filtering {
            assert(lines.skip(1) == tables);
        } else if schema.expanded {
            assert(lines.skip(1) == tables + groups);
        }
    }
}

/// The rows of a group: none where it holds nothing, and otherwise its own, with
/// its label and how much it holds, and its objects in order where it is unfolded.
pub open spec fn are_group_rows(
    lines: Seq<LineView>,
    from: int,
    to: int,
    connection: ConnectionId,
    schema: Seq<char>,
    group: GroupNode,
) -> bool {
    let rows = lines.subrange(from, to);
    let objects = group.objects@;
    &&& 0 <= from <= to <= lines.len()
    &&& objects.len() == 0 ==> rows.len() == 0
    &&& objects.len() > 0 ==> {
        &&& rows.len() == (if group.expanded {
            1 + objects.len() as int
        } else {
            1
        })
        &&& rows[0].item == (ItemView::Group { connection, schema, kind: group.kind })
        &&& rows[0].part matches PartView::Group { label, expanded, glyph, count }
        &&& label == group.label@
        &&& expanded == group.expanded
        &&& glyph == (if group.expanded {
            seq!['▾']
        } else {
            seq!['▸']
        })
        &&& count == decimal(objects.len())
        &&& group.expanded ==> forall|i: int|
            #![trigger objects[i]]
            0 <= i < objects.len() ==> {
                &&& rows[1 + i].item == (ItemView::Object {
                    connection,
                    schema,
                    kind: group.kind,
                    name: objects[i].name@,
                    detail: opt(objects[i].detail),
                })
                &&& rows[1 + i].part matches PartView::Object { badge, detail }
                &&& badge == badge_of(group.kind)
                &&& detail == opt(objects[i].detail)
            }
    }
}

/// The groups of a schema are drawn in order, each in rows of its own.
pub proof fn the_groups_stand_in_order(
    marks: Marks,
    connection: ConnectionId,
    schema: Seq<char>,
    groups: Seq<GroupNode>,
) -> (starts: Seq<int>)
    ensures
        ({
            let lines = group_lines(marks, connection, schema, groups);
            &&& starts.len() == groups.len() + 1
            &&& starts[0] == 0
            &&& starts.last() == lines.len()
            &&& forall|g: int|
                #![trigger groups[g]]
                0 <= g < groups.len() ==> are_group_rows(
                    lines,
                    starts[g],
                    starts[g + 1],
                    connection,
                    schema,
                    groups[g],
                )
        }),
    decreases groups.len(),
{
    let lines = group_lines(marks, connection, schema, groups);
    if groups.len() == 0 {
        seq![0]
    } else {
        let fewer = groups.drop_last();
        let above = group_lines(marks, connection, schema, fewer);
        let before = the_groups_stand_in_order(marks, connection, schema, fewer);
        let starts = before.push(lines.len() as int);
        let n = fewer.len() as int;
        assert(starts[0] == before[0]);
        reveal_strlit("▾");
        reveal_strlit("▸");
        assert(fold_mark(true) == seq!['▾']);
        assert(fold_mark(false) == seq!['▸']);
        assert forall|g: int| #![trigger groups[g]] 0 <= g < groups.len() implies are_group_rows(
            lines,
            starts[g],
            starts[g + 1],
            connection,
            schema,
            groups[g],
        ) by {
            if g < n {
                assert(fewer[g] == groups[g]);
                assert(starts[g] == before[g] && starts[g + 1] == before[g + 1]);
                assert(lines.subrange(starts[g], starts[g + 1]) == above.subrange(
                    before[g],
                    before[g + 1],
                ));
            } else {
                assert(before[n] == before.last());
                assert(starts[n] == above.len());
            }
        }
        starts
    }
}

/// Some rows stand between two places of a longer list.
pub open spec fn stand_between(
    rows: Seq<LineView>,
    lines: Seq<LineView>,
    from: int,
    to: int,
) -> bool {
    0 <= from <= to <= lines.len() && lines.subrange(from, to) == rows
}

/// The schemas of a connection are drawn in order, each in rows of its own.
pub proof fn the_schemas_stand_in_order(marks: Marks, catalog: Catalog) -> (starts: Seq<int>)
    ensures
        ({
            let lines = all_drawn(marks, catalog);
            &&& starts.len() == catalog.schemas@.len() + 1
            &&& starts[0] == 0
            &&& starts.last() == lines.len()
            &&& forall|i: int|
                #![trigger catalog.schemas@[i]]
                0 <= i < catalog.schemas@.len() ==> stand_between(
                    schema_lines(
                        marks,
                        catalog.connection,
                        catalog.filtering,
                        catalog.schemas@[i],
                    ),
                    lines,
                    starts[i],
                    starts[i + 1],
                )
        }),
{
    lemma_schema_starts(marks, catalog, catalog.schemas@.len() as int)
}

proof fn lemma_schema_starts(marks: Marks, catalog: Catalog, upto: int) -> (starts: Seq<int>)
    requires
        0 <= upto <= catalog.schemas@.len(),
    ensures
        starts.len() == upto + 1,
        starts[0] == 0,
        starts.last() == drawn_lines(marks, catalog, upto).len(),
        forall|i: int|
            #![trigger catalog.schemas@[i]]
            0 <= i < upto ==> stand_between(
                schema_lines(
                    marks,
                    catalog.connection,
                    catalog.filtering,
                    catalog.schemas@[i],
                ),
                drawn_lines(marks, catalog, upto),
                starts[i],
                starts[i + 1],
            ),
    decreases upto,
{
    let lines = drawn_lines(marks, catalog, upto);
    if upto == 0 {
        seq![0]
    } else {
        let above = drawn_lines(marks, catalog, upto - 1);
        let before = lemma_schema_starts(marks, catalog, upto - 1);
        let starts = before.push(lines.len() as int);
        assert forall|i: int| #![trigger catalog.schemas@[i]] 0 <= i < upto implies stand_between(
            schema_lines(marks, catalog.connection, catalog.filtering, catalog.schemas@[i]),
            lines,
            starts[i],
            starts[i + 1],
        ) by {
            let schema = catalog.schemas@[i];
            if i < upto - 1 {
                assert(starts[i] == before[i] && starts[i + 1] == before[i + 1]);
                assert(lines.subrange(starts[i], starts[i + 1]) == above.subrange(
                    before[i],
                    before[i + 1],
                ));
            } else {
                assert(before[upto - 1] == before.last());
                assert(lines.subrange(starts[i], starts[i + 1]) == schema_lines(
                    marks,
                    catalog.connection,
                    catalog.filtering,
                    catalog.schemas@[i],
                ));
            }
        }
        starts
    }
}

proof fn lemma_tables_marked(
    marks: Marks,
    connection: ConnectionId,
    filtering: bool,
    schema: Seq<char>,
    tables: Seq<TableNode>,
)
    ensures
        forall|i: int|
            0 <= i < table_lines(marks, connection, filtering, schema, tables).len() ==> {
                let line = #[trigger] table_lines(marks, connection, filtering, schema, tables)[i];
                line.marked == marks.marks(line.item)
            },
    decreases tables.len(),
{
    if tables.len() > 0 {
        lemma_tables_marked(marks, connection, filtering, schema, tables.drop_last());
    }
}

proof fn lemma_groups_marked(
    marks: Marks,
    connection: ConnectionId,
    schema: Seq<char>,
    groups: Seq<GroupNode>,
)
    ensures
        forall|i: int|
            0 <= i < group_lines(marks, connection, schema, groups).len() ==> {
                let line = #[trigger] group_lines(marks, connection, schema, groups)[i];
                line.marked == marks.marks(line.item)
            },
    decreases groups.len(),
{
    if groups.len() > 0 {
        lemma_groups_marked(marks, connection, schema, groups.drop_last());
    }
}

proof fn lemma_drawn_marked(marks: Marks, catalog: Catalog, upto: int)
    requires
        0 <= upto <= catalog.schemas@.len(),
    ensures
        forall|i: int|
            0 <= i < drawn_lines(marks, catalog, upto).len() ==> {
                let line = #[trigger] drawn_lines(marks, catalog, upto)[i];
                line.marked == marks.marks(line.item)
            },
    decreases upto,
{
    if upto > 0 {
        lemma_drawn_marked(marks, catalog, upto - 1);
        let schema = catalog.schemas@[upto - 1];
        lemma_tables_marked(
            marks,
            catalog.connection,
            catalog.filtering,
            schema.name@,
            schema.tables@,
        );
        lemma_groups_marked(marks, catalog.connection, schema.name@, schema.groups@);
    }
}

/// A row is marked exactly when the arrow keys are on it and the tree has the
/// keyboard.
pub proof fn the_cursor_is_drawn_where_it_is(marks: Marks, catalog: Catalog, i: int)
    requires
        0 <= i < all_drawn(marks, catalog).len(),
    ensures
        ({
            let line = all_drawn(marks, catalog)[i];
            line.marked <==> marks.cursor_shown && marks.cursor is Some && marks.cursor->0@
                == line.item
        }),
{
    lemma_drawn_marked(marks, catalog, catalog.schemas@.len() as int);
}

/// The two letters of a kind are those of its name, and no two kinds share them.
pub proof fn a_badge_tells_the_kind(kind: ObjectKind, other: ObjectKind)
    ensures
        badge_of(kind).len() == 2,
        badge_of(kind) == badge_of(other) ==> kind == other,
        badge_of(ObjectKind::Function) == seq!['F', 'N'],
        badge_of(ObjectKind::Procedure) == seq!['P', 'R'],
        badge_of(ObjectKind::Trigger) == seq!['T', 'G'],
        badge_of(ObjectKind::Sequence) == seq!['S', 'Q'],
        badge_of(ObjectKind::Type) == seq!['T', 'Y'],
        badge_of(ObjectKind::Extension) == seq!['E', 'X'],
{
    reveal_strlit("FN");
    reveal_strlit("PR");
    reveal_strlit("TG");
    reveal_strlit("SQ");
    reveal_strlit("TY");
    reveal_strlit("EX");
    let a = badge_of(kind);
    let b = badge_of(other);
    if a == b {
        assert(a[0] == b[0] && a[1] == b[1]);
    }
}

/// Down goes one row down and up one row up; past an end is the other end.
pub proof fn an_arrow_key_goes_one_row(count: int, current: int)
    requires
        0 <= current < count,
    ensures
        current + 1 < count ==> stepped(count, current, 1) == current + 1,
        current + 1 == count ==> stepped(count, current, 1) == 0,
        current > 0 ==> stepped(count, current, -1) == current - 1,
        current == 0 ==> stepped(count, current, -1) == count - 1,
{
    if current + 1 < count {
        vstd::arithmetic::div_mod::lemma_small_mod((current + 1) as nat, count as nat);
    } else {
        vstd::arithmetic::div_mod::lemma_mod_self_0(count);
    }
}

proof fn lemma_place_is_first(items: Seq<ItemView>, item: ItemView, from: int)
    requires
        0 <= from <= items.len(),
    ensures
        ({
            let at = place_of(items, item, from);
            &&& at == -1 || from <= at < items.len() && items[at] == item
            &&& forall|i: int|
                from <= i < (if at == -1 {
                    items.len() as int
                } else {
                    at
                }) ==> #[trigger] items[i] != item
        }),
    decreases items.len() - from,
{
    if from < items.len() && items[from] != item {
        lemma_place_is_first(items, item, from + 1);
    }
}

/// The arrow keys go on from the row that the cursor is on: the first that shows
/// it, or the top where none does.
pub proof fn the_arrow_keys_go_on_from_the_cursor(items: Seq<ItemView>, cursor: Option<ItemView>)
    requires
        items.len() > 0,
    ensures
        ({
            let at = cursor_place(items, cursor);
            &&& 0 <= at < items.len()
            &&& cursor is None ==> at == 0
            &&& cursor matches Some(item) ==> if items.contains(item) {
                items[at] == item && forall|i: int| 0 <= i < at ==> #[trigger] items[i] != item
            } else {
                at == 0
            }
        }),
{
    if let Some(item) = cursor {
        lemma_place_is_first(items, item, 0);
        if items.contains(item) {
            let i = choose|i: int| 0 <= i < items.len() && items[i] == item;
            assert(place_of(items, item, 0) != -1);
        }
    }
}

/// Right unfolds what is folded and left folds what is unfolded; the other two do
/// nothing. Only a schema is entered, and only on the way in. To the right of a
/// table or of an object there is nothing.
pub proof fn right_unfolds_and_left_folds(item: ItemView, is_expanded: bool, items: Seq<ItemView>)
    ensures
        item is Schema && !is_expanded ==> expansion_of(Some(item), is_expanded, true, items) == (
        Expansion::Toggle { enter: true }),
        item is Schema && is_expanded ==> expansion_of(Some(item), is_expanded, false, items) == (
        Expansion::Toggle { enter: false }),
        item is Group && !is_expanded ==> expansion_of(Some(item), is_expanded, true, items) == (
        Expansion::Toggle { enter: false }),
        item is Group && is_expanded ==> expansion_of(Some(item), is_expanded, false, items) == (
        Expansion::Toggle { enter: false }),
        item is Schema || item is Group ==> expansion_of(
            Some(item),
            is_expanded,
            is_expanded,
            items,
        ) is Nothing,
        item is Table || item is Object ==> expansion_of(
            Some(item),
            is_expanded,
            true,
            items,
        ) is Nothing,
        forall|expand: bool| #[trigger]
            expansion_of(None, is_expanded, expand, items) is Nothing,
{
}

/// Entering a schema goes to the row right under it, and only where that is a
/// table.
pub proof fn entering_goes_one_row_down(
    items: Seq<ItemView>,
    connection: ConnectionId,
    name: Seq<char>,
    at: int,
)
    requires
        0 <= at < items.len(),
        items[at] == (ItemView::Schema { connection, name }),
        forall|i: int| 0 <= i < at ==> #[trigger] items[i] != items[at],
    ensures
        at + 1 < items.len() && (items[at + 1] matches ItemView::Table { connection: of, .. }
            && of == connection) ==> first_child(items, connection, name) == Some(at + 1),
        at + 1 < items.len() && !(items[at + 1] is Table) ==> first_child(
            items,
            connection,
            name,
        ) is None,
        at + 1 == items.len() ==> first_child(items, connection, name) is None,
{
    lemma_place_is_first(items, items[at], 0);
    lemma_place_of(items, items[at], 0, at);
}

/// A connection without a tree says how it is doing: a failure in its own words.
pub proof fn a_connection_says_how_it_is_doing(state: ConnectionState)
    ensures
        state matches ConnectionState::Failed(error) ==> state_title(state) == error@,
        state is Connecting ==> state_title(state) == seq!['C', 'o', 'n', 'n', 'e', 'c', 't', 'i', 'n', 'g', '…'],
        state is Disconnected ==> state_title(state) == seq!['N', 'o', 't', ' ', 'c', 'o', 'n', 'n', 'e', 'c', 't', 'e', 'd'],
{
    reveal_strlit("Connecting…");
    reveal_strlit("Not connected");
    assert("Connecting…"@ == seq!['C', 'o', 'n', 'n', 'e', 'c', 't', 'i', 'n', 'g', '…']);
    assert("Not connected"@ == seq!['N', 'o', 't', ' ', 'c', 'o', 'n', 'n', 'e', 'c', 't', 'e', 'd']);
}

} // verus!
