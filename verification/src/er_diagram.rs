//! An entity-relationship diagram of one schema: every table with its
//! columns, and a line for every foreign key, from the referencing column to
//! the column it references.
//!
//! The layout puts parents left of children. Hovering a table lights up its
//! keys, both ways; clicking one opens it.
//!
//! Only single-column foreign keys are drawn, because only those are read: a
//! composite key has no one column to point from.
//!
//! Lengths are whole numbers, forty to a diagram unit. Boxes are placed on even
//! ones, so that half the way between two of them is a whole number too.
use crate::domain::{Column, Status, TableKind, TableRef, Tone};
use crate::text::{
    chars_of, decimal, lemma_places_step, opt, places_where, push_decimal, same,
};
use vstd::prelude::*;
use vstd::string::*;

verus! {

/// The height of a box's heading.
pub const HEADER: i64 = 1200;

/// The height of a column's row.
pub const ROW: i64 = 800;

pub const PADDING: i64 = 320;

/// The width of a character of a row, and of a box's heading.
pub const CHAR: i64 = 304;

pub const TITLE_CHAR: i64 = 328;

/// What a row is wider than its text by: the key marker, the gaps around it and
/// between name and type, and the box's own padding.
pub const ROW_SPARE: i64 = 2880;

pub const TITLE_SPARE: i64 = 1600;

pub const MIN_WIDTH: i64 = 6800;

pub const MAX_WIDTH: i64 = 16800;

/// How far a loop reaches out of its box.
pub const LOOP: i64 = 1920;

/// How far a line at least goes straight out of a box.
pub const MIN_PULL: i64 = 1600;

/// Everything in a drawing lies within this of its origin.
pub const FAR: i64 = 0x100_0000_0000;

#[derive(Debug)]
pub struct ErTable {
    pub table: TableRef,
    pub kind: TableKind,
    pub columns: Vec<Column>,
}

/// A foreign key: `from`'s column at `from_row` references `to`'s column at
/// `to_row` (or its header, when that column is not listed).
#[derive(Debug, Clone, Copy, PartialEq, Eq, Structural)]
pub struct ErEdge {
    pub from: usize,
    pub from_row: usize,
    pub to: usize,
    pub to_row: Option<usize>,
}

/// A box's size.
#[derive(Debug, Clone, Copy, PartialEq, Eq, Structural)]
pub struct Node {
    pub width: i64,
    pub height: i64,
}

#[derive(Debug, Clone, Copy, PartialEq, Eq, Structural)]
pub struct Place {
    pub x: i64,
    pub y: i64,
}

/// Where the boxes are.
#[derive(Debug)]
pub struct Layout {
    pub positions: Vec<Place>,
    pub width: i64,
    pub height: i64,
}

#[derive(Debug)]
pub struct ErDiagram {
    pub schema: String,
    pub tables: Vec<ErTable>,
    pub edges: Vec<ErEdge>,
    pub sizes: Vec<Node>,
    pub layout: Layout,
    pub loaded: bool,
    pub hover: Option<usize>,
}

pub open spec fn larger(a: int, b: int) -> int {
    if a >= b {
        a
    } else {
        b
    }
}

/// The width of a column's row.
pub open spec fn row_width(column: Column) -> int {
    (column.name@.len() + column.data_type@.len()) * CHAR + ROW_SPARE
}

pub open spec fn widest_row(columns: Seq<Column>) -> int
    decreases columns.len(),
{
    if columns.len() == 0 {
        0
    } else {
        larger(widest_row(columns.drop_last()), row_width(columns.last()))
    }
}

pub open spec fn title_width(table: ErTable) -> int {
    table.table.name@.len() * TITLE_CHAR + TITLE_SPARE
}

pub open spec fn within(width: int) -> int {
    if width < MIN_WIDTH {
        MIN_WIDTH as int
    } else if width > MAX_WIDTH {
        MAX_WIDTH as int
    } else {
        width
    }
}

/// A box is as wide as its widest row or its heading, within limits, and has a
/// row for each column: one at least.
pub open spec fn width_of(table: ErTable) -> int {
    within(larger(widest_row(table.columns@), title_width(table)))
}

pub open spec fn height_of(table: ErTable) -> int {
    HEADER + larger(table.columns@.len() as int, 1) * ROW + PADDING
}

pub open spec fn node_is(node: Node, table: ErTable) -> bool {
    node.width == width_of(table) && node.height == height_of(table)
}

/// A table whose box can be measured.
pub open spec fn drawable(table: ErTable) -> bool {
    &&& table.columns@.len() <= u32::MAX
    &&& table.table.name@.len() <= u32::MAX
    &&& forall|i: int|
        0 <= i < table.columns@.len() ==> (#[trigger] table.columns@[i]).name@.len() <= u32::MAX
            && table.columns@[i].data_type@.len() <= u32::MAX
}

fn max_of(a: i64, b: i64) -> (max: i64)
    ensures
        max == larger(a as int, b as int),
{
    if a >= b {
        a
    } else {
        b
    }
}

fn char_count(text: &str) -> (count: i64)
    requires
        text@.len() <= u32::MAX,
    ensures
        count == text@.len(),
{
    let count: usize = chars_of(text).len();
    count as i64
}

/// The box of a table.
pub fn measure(table: &ErTable) -> (node: Node)
    requires
        drawable(*table),
    ensures
        node_is(node, *table),
{
    let mut widest: i64 = 0;
    let mut i: usize = 0;
    assert(table.columns@.take(0) == Seq::<Column>::empty());
    while i < table.columns.len()
        invariant
            drawable(*table),
            i <= table.columns@.len(),
            widest == widest_row(table.columns@.take(i as int)),
        decreases table.columns@.len() - i,
    {
        let column = &table.columns[i];
        let chars: i64 = char_count(column.name.as_str()) + char_count(column.data_type.as_str());
        widest = max_of(widest, chars * CHAR + ROW_SPARE);
        assert(table.columns@.take(i + 1).drop_last() == table.columns@.take(i as int));
        i += 1;
    }
    assert(table.columns@.take(i as int) == table.columns@);
    let title: i64 = char_count(table.table.name.as_str()) * TITLE_CHAR + TITLE_SPARE;
    let width: i64 = max_of(widest, title);
    let rows: usize = table.columns.len();
    Node {
        width: if width < MIN_WIDTH {
            MIN_WIDTH
        } else if width > MAX_WIDTH {
            MAX_WIDTH
        } else {
            width
        },
        height: HEADER + max_of(rows as i64, 1) * ROW + PADDING,
    }
}

proof fn lemma_widest(columns: Seq<Column>)
    ensures
        widest_row(columns) >= 0,
        forall|i: int|
            0 <= i < columns.len() ==> row_width(#[trigger] columns[i]) <= widest_row(columns),
        columns.len() > 0 ==> exists|i: int|
            0 <= i < columns.len() && widest_row(columns) == row_width(#[trigger] columns[i]),
    decreases columns.len(),
{
    if columns.len() > 0 {
        let front = columns.drop_last();
        lemma_widest(front);
        assert(row_width(columns.last()) >= 0) by (nonlinear_arith)
            requires
                row_width(columns.last()) == (columns.last().name@.len()
                    + columns.last().data_type@.len()) * 304 + 2880,
        ;
        assert forall|i: int| 0 <= i < columns.len() implies row_width(#[trigger] columns[i])
            <= widest_row(columns) by {
            if i < front.len() {
                assert(front[i] == columns[i]);
            }
        }
        if widest_row(columns) != row_width(columns.last()) {
            if front.len() > 0 {
                let i = choose|i: int|
                    0 <= i < front.len() && widest_row(front) == row_width(#[trigger] front[i]);
                assert(columns[i] == front[i]);
            }
        } else {
            assert(columns[columns.len() - 1] == columns.last());
        }
    }
}

/// A box is wide enough for its heading and for each of its rows, or as wide as a
/// box gets; it is no wider than the widest of them, or as narrow as a box gets;
/// and it is as high as its heading and its rows, with room for one where it has
/// none.
pub proof fn a_box_holds_its_rows(node: Node, table: ErTable)
    requires
        node_is(node, table),
    ensures
        6800 <= node.width <= 16800,
        forall|i: int|
            0 <= i < table.columns@.len() ==> node.width == 16800 || node.width >= ((
            #[trigger] table.columns@[i]).name@.len() + table.columns@[i].data_type@.len()) * 304
                + 2880,
        node.width == 16800 || node.width >= table.table.name@.len() * 328 + 1600,
        node.width == 6800 || node.width == 16800 || node.width == table.table.name@.len() * 328
            + 1600 || exists|i: int|
            0 <= i < table.columns@.len() && node.width == ((#[trigger] table.columns@[i]).name@.len()
                + table.columns@[i].data_type@.len()) * 304 + 2880,
        node.height == 1520 + 800 * (if table.columns@.len() == 0 {
            1
        } else {
            table.columns@.len() as int
        }),
{
    lemma_widest(table.columns@);
    assert forall|i: int| 0 <= i < table.columns@.len() implies node.width == 16800 || node.width
        >= ((#[trigger] table.columns@[i]).name@.len() + table.columns@[i].data_type@.len()) * 304
        + 2880 by {
        assert(row_width(table.columns@[i]) <= widest_row(table.columns@));
    }
    let widest = widest_row(table.columns@);
    if node.width == widest && table.columns@.len() > 0 {
        let i = choose|i: int|
            0 <= i < table.columns@.len() && widest == row_width(#[trigger] table.columns@[i]);
        assert(row_width(table.columns@[i]) == (table.columns@[i].name@.len()
            + table.columns@[i].data_type@.len()) * 304 + 2880);
    }
}

/// The boxes of the tables.
pub fn measure_all(tables: &Vec<ErTable>) -> (sizes: Vec<Node>)
    requires
        forall|i: int| 0 <= i < tables@.len() ==> drawable(#[trigger] tables@[i]),
    ensures
        sizes_are(sizes@, tables@),
{
    let mut sizes: Vec<Node> = Vec::new();
    let mut i: usize = 0;
    while i < tables.len()
        invariant
            forall|k: int| 0 <= k < tables@.len() ==> drawable(#[trigger] tables@[k]),
            i <= tables@.len(),
            sizes@.len() == i,
            forall|k: int| 0 <= k < i ==> node_is(#[trigger] sizes@[k], tables@[k]),
        decreases tables@.len() - i,
    {
        sizes.push(measure(&tables[i]));
        i += 1;
    }
    sizes
}

pub open spec fn sizes_are(sizes: Seq<Node>, tables: Seq<ErTable>) -> bool {
    sizes.len() == tables.len() && forall|i: int|
        0 <= i < sizes.len() ==> node_is(#[trigger] sizes[i], tables[i])
}

/// The place of a table among some, from `from` on.
pub open spec fn table_from(tables: Seq<ErTable>, table: TableRef, from: int) -> Option<int>
    decreases tables.len() - from,
{
    if from >= tables.len() {
        None
    } else if tables[from].table.same_table(table) {
        Some(from)
    } else {
        table_from(tables, table, from + 1)
    }
}

/// The place of a column among some, from `from` on.
pub open spec fn column_from(columns: Seq<Column>, name: Seq<char>, from: int) -> Option<int>
    decreases columns.len() - from,
{
    if from >= columns.len() {
        None
    } else if columns[from].name@ == name {
        Some(from)
    } else {
        column_from(columns, name, from + 1)
    }
}

proof fn lemma_table_from(tables: Seq<ErTable>, table: TableRef, from: int)
    requires
        0 <= from,
    ensures
        match table_from(tables, table, from) {
            Some(at) => {
                &&& from <= at < tables.len()
                &&& tables[at].table.schema@ == table.schema@
                &&& tables[at].table.name@ == table.name@
                &&& forall|k: int|
                    from <= k < at ==> (#[trigger] tables[k]).table.schema@ != table.schema@
                        || tables[k].table.name@ != table.name@
            },
            None => forall|k: int|
                from <= k < tables.len() ==> (#[trigger] tables[k]).table.schema@ != table.schema@
                    || tables[k].table.name@ != table.name@,
        },
    decreases tables.len() - from,
{
    if from < tables.len() && !tables[from].table.same_table(table) {
        lemma_table_from(tables, table, from + 1);
    }
}

proof fn lemma_column_from(columns: Seq<Column>, name: Seq<char>, from: int)
    requires
        0 <= from,
    ensures
        match column_from(columns, name, from) {
            Some(at) => {
                &&& from <= at < columns.len()
                &&& columns[at].name@ == name
                &&& forall|k: int| from <= k < at ==> (#[trigger] columns[k]).name@ != name
            },
            None => forall|k: int|
                from <= k < columns.len() ==> (#[trigger] columns[k]).name@ != name,
        },
    decreases columns.len() - from,
{
    if from < columns.len() && columns[from].name@ != name {
        lemma_column_from(columns, name, from + 1);
    }
}

fn find_table(tables: &Vec<ErTable>, table: &TableRef) -> (place: Option<usize>)
    ensures
        match place {
            Some(at) => at < tables@.len() && table_from(tables@, *table, 0) == Some(at as int),
            None => table_from(tables@, *table, 0) is None,
        },
{
    let mut i: usize = 0;
    while i < tables.len()
        invariant
            i <= tables@.len(),
            table_from(tables@, *table, 0) == table_from(tables@, *table, i as int),
        decreases tables@.len() - i,
    {
        if tables[i].table.same_as(table) {
            return Some(i);
        }
        i += 1;
    }
    None
}

fn find_column(columns: &Vec<Column>, name: &str) -> (place: Option<usize>)
    ensures
        match place {
            Some(at) => at < columns@.len() && column_from(columns@, name@, 0) == Some(at as int),
            None => column_from(columns@, name@, 0) is None,
        },
{
    let mut i: usize = 0;
    while i < columns.len()
        invariant
            i <= columns@.len(),
            column_from(columns@, name@, 0) == column_from(columns@, name@, i as int),
        decreases columns@.len() - i,
    {
        if same(columns[i].name.as_str(), name) {
            return Some(i);
        }
        i += 1;
    }
    None
}

/// A place in a list, as its number.
pub open spec fn number(place: Option<int>) -> Option<usize> {
    match place {
        Some(at) => Some(at as usize),
        None => None,
    }
}

/// The line that a column's key is drawn as. A key to a table outside the schema
/// is not drawn.
pub open spec fn edge_of(tables: Seq<ErTable>, from: int, row: int) -> Option<ErEdge> {
    match tables[from].columns@[row].references {
        Some(key) => match table_from(tables, key.references, 0) {
            Some(to) => Some(
                ErEdge {
                    from: from as usize,
                    from_row: row as usize,
                    to: to as usize,
                    to_row: number(
                        column_from(tables[to].columns@, key.references_column@, 0),
                    ),
                },
            ),
            None => None,
        },
        None => None,
    }
}

/// The lines of a table's columns before `upto`.
pub open spec fn table_edges(tables: Seq<ErTable>, from: int, upto: int) -> Seq<ErEdge>
    decreases upto,
{
    if upto <= 0 {
        Seq::empty()
    } else {
        match edge_of(tables, from, upto - 1) {
            Some(edge) => table_edges(tables, from, upto - 1).push(edge),
            None => table_edges(tables, from, upto - 1),
        }
    }
}

/// The lines of the tables before `upto`.
pub open spec fn edges_before(tables: Seq<ErTable>, upto: int) -> Seq<ErEdge>
    decreases upto,
{
    if upto <= 0 {
        Seq::empty()
    } else {
        edges_before(tables, upto - 1) + table_edges(
            tables,
            upto - 1,
            tables[upto - 1].columns@.len() as int,
        )
    }
}

/// The lines of a schema: one for every foreign key between its tables.
pub open spec fn edges_of(tables: Seq<ErTable>) -> Seq<ErEdge> {
    edges_before(tables, tables.len() as int)
}

fn key_edge(tables: &Vec<ErTable>, from: usize, from_row: usize) -> (edge: Option<ErEdge>)
    requires
        from < tables@.len(),
        from_row < tables@[from as int].columns@.len(),
    ensures
        edge == edge_of(tables@, from as int, from_row as int),
{
    let key = match &tables[from].columns[from_row].references {
        Some(key) => key,
        None => return None,
    };
    let to: usize = match find_table(tables, &key.references) {
        Some(to) => to,
        None => return None,
    };
    let to_row = find_column(&tables[to].columns, key.references_column.as_str());
    Some(ErEdge { from, from_row, to, to_row })
}

/// The lines between some tables.
pub fn connect(tables: &Vec<ErTable>) -> (edges: Vec<ErEdge>)
    ensures
        edges@ == edges_of(tables@),
{
    let mut edges: Vec<ErEdge> = Vec::new();
    let mut from: usize = 0;
    while from < tables.len()
        invariant
            from <= tables@.len(),
            edges@ == edges_before(tables@, from as int),
        decreases tables@.len() - from,
    {
        let ghost before = edges@;
        let mut from_row: usize = 0;
        assert(before == before + Seq::<ErEdge>::empty());
        while from_row < tables[from].columns.len()
            invariant
                from < tables@.len(),
                from_row <= tables@[from as int].columns@.len(),
                edges@ == before + table_edges(tables@, from as int, from_row as int),
            decreases tables@[from as int].columns@.len() - from_row,
        {
            if let Some(edge) = key_edge(tables, from, from_row) {
                edges.push(edge);
            }
            from_row += 1;
            assert(edges@ == before + table_edges(tables@, from as int, from_row as int));
        }
        from += 1;
    }
    edges
}

/// A line joins columns that are there.
pub open spec fn edge_fits(edge: ErEdge, tables: Seq<ErTable>) -> bool {
    &&& edge.from < tables.len()
    &&& edge.from_row < tables[edge.from as int].columns@.len()
    &&& edge.to < tables.len()
    &&& edge.to_row matches Some(row) ==> row < tables[edge.to as int].columns@.len()
}

proof fn lemma_edge_fits(tables: Seq<ErTable>, from: int, row: int)
    requires
        0 <= from < tables.len() <= usize::MAX,
        0 <= row < tables[from].columns@.len() <= usize::MAX,
        forall|i: int|
            0 <= i < tables.len() ==> (#[trigger] tables[i]).columns@.len() <= usize::MAX,
        edge_of(tables, from, row) is Some,
    ensures
        edge_fits(edge_of(tables, from, row).unwrap(), tables),
        edge_of(tables, from, row).unwrap().from == from,
        edge_of(tables, from, row).unwrap().from_row == row,
{
    let key = tables[from].columns@[row].references.unwrap();
    lemma_table_from(tables, key.references, 0);
    let to = table_from(tables, key.references, 0).unwrap();
    assert(tables[to].columns@.len() <= usize::MAX);
    lemma_column_from(tables[to].columns@, key.references_column@, 0);
}

proof fn lemma_table_edges(tables: Seq<ErTable>, from: int, upto: int)
    requires
        0 <= from < tables.len() <= usize::MAX,
        0 <= upto <= tables[from].columns@.len(),
        forall|i: int|
            0 <= i < tables.len() ==> (#[trigger] tables[i]).columns@.len() <= usize::MAX,
    ensures
        forall|i: int|
            #![trigger table_edges(tables, from, upto)[i]]
            0 <= i < table_edges(tables, from, upto).len() ==> {
                let edge = table_edges(tables, from, upto)[i];
                &&& edge_fits(edge, tables)
                &&& edge.from == from
                &&& edge.from_row < upto
                &&& edge_of(tables, from, edge.from_row as int) == Some(edge)
            },
        forall|row: int|
            0 <= row < upto && (#[trigger] edge_of(tables, from, row)) is Some ==> table_edges(
                tables,
                from,
                upto,
            ).contains(edge_of(tables, from, row).unwrap()),
    decreases upto,
{
    if upto > 0 {
        lemma_table_edges(tables, from, upto - 1);
        let before = table_edges(tables, from, upto - 1);
        let edges = table_edges(tables, from, upto);
        assert(tables[from].columns@.len() <= usize::MAX);
        if edge_of(tables, from, upto - 1) is Some {
            lemma_edge_fits(tables, from, upto - 1);
            let edge = edge_of(tables, from, upto - 1).unwrap();
            assert(edges == before.push(edge));
            assert(edges[before.len() as int] == edge);
            assert forall|row: int|
                0 <= row < upto && (#[trigger] edge_of(tables, from, row)) is Some implies
                edges.contains(edge_of(tables, from, row).unwrap()) by {
                if row < upto - 1 {
                    let wanted = edge_of(tables, from, row).unwrap();
                    let k = choose|k: int| 0 <= k < before.len() && before[k] == wanted;
                    assert(edges[k] == wanted);
                }
            }
        }
    }
}

proof fn lemma_edges_before(tables: Seq<ErTable>, upto: int)
    requires
        0 <= upto <= tables.len() <= usize::MAX,
        forall|i: int|
            0 <= i < tables.len() ==> (#[trigger] tables[i]).columns@.len() <= usize::MAX,
    ensures
        forall|i: int|
            #![trigger edges_before(tables, upto)[i]]
            0 <= i < edges_before(tables, upto).len() ==> {
                let edge = edges_before(tables, upto)[i];
                &&& edge_fits(edge, tables)
                &&& edge_of(tables, edge.from as int, edge.from_row as int) == Some(edge)
            },
        forall|from: int, row: int|
            0 <= from < upto && 0 <= row < tables[from].columns@.len() && (#[trigger] edge_of(
                tables,
                from,
                row,
            )) is Some ==> edges_before(tables, upto).contains(
                edge_of(tables, from, row).unwrap(),
            ),
    decreases upto,
{
    if upto > 0 {
        let before = edges_before(tables, upto - 1);
        let last = table_edges(tables, upto - 1, tables[upto - 1].columns@.len() as int);
        let edges = edges_before(tables, upto);
        lemma_edges_before(tables, upto - 1);
        lemma_table_edges(tables, upto - 1, tables[upto - 1].columns@.len() as int);
        assert(edges == before + last);
        assert forall|i: int| #![trigger edges[i]] 0 <= i < edges.len() implies {
            &&& edge_fits(edges[i], tables)
            &&& edge_of(tables, edges[i].from as int, edges[i].from_row as int) == Some(edges[i])
        } by {
            if i < before.len() {
                assert(edges[i] == before[i]);
            } else {
                assert(edges[i] == last[i - before.len()]);
            }
        }
        assert forall|from: int, row: int|
            0 <= from < upto && 0 <= row < tables[from].columns@.len() && (#[trigger] edge_of(
                tables,
                from,
                row,
            )) is Some implies edges.contains(edge_of(tables, from, row).unwrap()) by {
            let wanted = edge_of(tables, from, row).unwrap();
            if from < upto - 1 {
                let k = choose|k: int| 0 <= k < before.len() && before[k] == wanted;
                assert(edges[k] == wanted);
            } else {
                let k = choose|k: int| 0 <= k < last.len() && last[k] == wanted;
                assert(edges[before.len() + k] == wanted);
            }
        }
    }
}

/// The lines are the keys: every line joins columns that are there and is some
/// column's key, and no key between the schema's tables goes undrawn.
pub proof fn the_lines_are_the_keys(tables: Seq<ErTable>)
    requires
        tables.len() <= usize::MAX,
        forall|i: int|
            0 <= i < tables.len() ==> (#[trigger] tables[i]).columns@.len() <= usize::MAX,
    ensures
        forall|i: int|
            #![trigger edges_of(tables)[i]]
            0 <= i < edges_of(tables).len() ==> {
                let edge = edges_of(tables)[i];
                &&& edge_fits(edge, tables)
                &&& edge_of(tables, edge.from as int, edge.from_row as int) == Some(edge)
            },
        forall|from: int, row: int|
            0 <= from < tables.len() && 0 <= row < tables[from].columns@.len() && (
            #[trigger] edge_of(tables, from, row)) is Some ==> edges_of(tables).contains(
                edge_of(tables, from, row).unwrap(),
            ),
{
    lemma_edges_before(tables, tables.len() as int);
}

/// A line ends at the column that its key references: the first one of that name,
/// or the heading where the table lists none.
pub open spec fn ends_at_column(to_row: Option<usize>, columns: Seq<Column>, name: Seq<char>) -> bool {
    match to_row {
        Some(row) => {
            &&& row < columns.len()
            &&& columns[row as int].name@ == name
            &&& forall|k: int| 0 <= k < row ==> (#[trigger] columns[k]).name@ != name
        },
        None => forall|k: int| 0 <= k < columns.len() ==> (#[trigger] columns[k]).name@ != name,
    }
}

/// A key to a table of the schema is drawn wherever that table stands: from the
/// column that holds it to the table, and the column, that it references.
pub proof fn every_key_is_drawn(tables: Seq<ErTable>, from: int, row: int, to: int)
    requires
        tables.len() <= usize::MAX,
        forall|i: int|
            0 <= i < tables.len() ==> (#[trigger] tables[i]).columns@.len() <= usize::MAX,
        0 <= from < tables.len(),
        0 <= row < tables[from].columns@.len(),
        0 <= to < tables.len(),
        tables[from].columns@[row].references matches Some(key) && tables[to].table.schema@
            == key.references.schema@ && tables[to].table.name@ == key.references.name@,
    ensures
        exists|i: int|
            0 <= i < edges_of(tables).len() && {
                let key = tables[from].columns@[row].references.unwrap();
                let edge = #[trigger] edges_of(tables)[i];
                let parent = tables[edge.to as int];
                &&& edge.from == from
                &&& edge.from_row == row
                &&& edge.to < tables.len()
                &&& parent.table.schema@ == key.references.schema@
                &&& parent.table.name@ == key.references.name@
                &&& ends_at_column(edge.to_row, parent.columns@, key.references_column@)
            },
{
    let key = tables[from].columns@[row].references.unwrap();
    assert(tables[from].columns@.len() <= usize::MAX);
    lemma_table_from(tables, key.references, 0);
    assert(tables[to].table.schema@ == key.references.schema@);
    let at = table_from(tables, key.references, 0).unwrap();
    assert(tables[at].columns@.len() <= usize::MAX);
    lemma_column_from(tables[at].columns@, key.references_column@, 0);
    lemma_edges_before(tables, tables.len() as int);
    let edge = edge_of(tables, from, row).unwrap();
    let i = choose|i: int| 0 <= i < edges_of(tables).len() && edges_of(tables)[i] == edge;
    assert(edges_of(tables)[i] == edge);
}

/// A line is drawn for nothing else: its column holds a key, it goes to the first
/// table of the schema that the key references, and to the column of it.
pub proof fn every_line_is_a_key(tables: Seq<ErTable>, i: int)
    requires
        tables.len() <= usize::MAX,
        forall|k: int|
            0 <= k < tables.len() ==> (#[trigger] tables[k]).columns@.len() <= usize::MAX,
        0 <= i < edges_of(tables).len(),
    ensures
        ({
            let edge = edges_of(tables)[i];
            let column = tables[edge.from as int].columns@[edge.from_row as int];
            let parent = tables[edge.to as int];
            &&& edge.from < tables.len()
            &&& edge.from_row < tables[edge.from as int].columns@.len()
            &&& edge.to < tables.len()
            &&& column.references matches Some(key)
            &&& parent.table.schema@ == key.references.schema@
            &&& parent.table.name@ == key.references.name@
            &&& forall|k: int|
                0 <= k < edge.to ==> (#[trigger] tables[k]).table.schema@ != key.references.schema@
                    || tables[k].table.name@ != key.references.name@
            &&& ends_at_column(edge.to_row, parent.columns@, key.references_column@)
        }),
{
    lemma_edges_before(tables, tables.len() as int);
    let edge = edges_of(tables)[i];
    let key = tables[edge.from as int].columns@[edge.from_row as int].references.unwrap();
    lemma_table_from(tables, key.references, 0);
    let at = table_from(tables, key.references, 0).unwrap();
    assert(tables[at].columns@.len() <= usize::MAX);
    lemma_column_from(tables[at].columns@, key.references_column@, 0);
}

proof fn lemma_edges_ordered(tables: Seq<ErTable>, upto: int)
    requires
        0 <= upto <= tables.len() <= usize::MAX,
        forall|i: int|
            0 <= i < tables.len() ==> (#[trigger] tables[i]).columns@.len() <= usize::MAX,
    ensures
        forall|i: int|
            0 <= i < edges_before(tables, upto).len() ==> (#[trigger] edges_before(
                tables,
                upto,
            )[i]).from < upto,
        forall|i: int, j: int|
            0 <= i < j < edges_before(tables, upto).len() ==> (#[trigger] edges_before(
                tables,
                upto,
            )[i]).from < (#[trigger] edges_before(tables, upto)[j]).from || (edges_before(
                tables,
                upto,
            )[i].from == edges_before(tables, upto)[j].from && edges_before(tables, upto)[i].from_row
                < edges_before(tables, upto)[j].from_row),
    decreases upto,
{
    if upto > 0 {
        let before = edges_before(tables, upto - 1);
        let count = tables[upto - 1].columns@.len() as int;
        let last = table_edges(tables, upto - 1, count);
        let edges = edges_before(tables, upto);
        lemma_edges_ordered(tables, upto - 1);
        lemma_table_edges(tables, upto - 1, count);
        lemma_rows_ordered(tables, upto - 1, count);
        assert forall|i: int| 0 <= i < edges.len() implies (#[trigger] edges[i]).from < upto by {
            if i < before.len() {
                assert(edges[i] == before[i]);
            } else {
                assert(edges[i] == last[i - before.len()]);
            }
        }
        assert forall|i: int, j: int| 0 <= i < j < edges.len() implies (#[trigger] edges[i]).from
            < (#[trigger] edges[j]).from || (edges[i].from == edges[j].from && edges[i].from_row
            < edges[j].from_row) by {
            if j < before.len() {
                assert(edges[i] == before[i] && edges[j] == before[j]);
            } else if i < before.len() {
                assert(edges[i] == before[i] && edges[j] == last[j - before.len()]);
            } else {
                assert(edges[i] == last[i - before.len()] && edges[j] == last[j - before.len()]);
            }
        }
    }
}

proof fn lemma_rows_ordered(tables: Seq<ErTable>, from: int, upto: int)
    requires
        0 <= from < tables.len() <= usize::MAX,
        0 <= upto <= tables[from].columns@.len(),
        forall|i: int|
            0 <= i < tables.len() ==> (#[trigger] tables[i]).columns@.len() <= usize::MAX,
    ensures
        forall|i: int, j: int|
            0 <= i < j < table_edges(tables, from, upto).len() ==> (#[trigger] table_edges(
                tables,
                from,
                upto,
            )[i]).from_row < (#[trigger] table_edges(tables, from, upto)[j]).from_row,
    decreases upto,
{
    if upto > 0 {
        lemma_rows_ordered(tables, from, upto - 1);
        lemma_table_edges(tables, from, upto - 1);
        assert(tables[from].columns@.len() <= usize::MAX);
        if edge_of(tables, from, upto - 1) is Some {
            lemma_edge_fits(tables, from, upto - 1);
            let before = table_edges(tables, from, upto - 1);
            let edges = table_edges(tables, from, upto);
            assert forall|i: int, j: int| 0 <= i < j < edges.len() implies (
            #[trigger] edges[i]).from_row < (#[trigger] edges[j]).from_row by {
                assert(edges[i] == before[i]);
                if j < before.len() {
                    assert(edges[j] == before[j]);
                }
            }
        }
    }
}

/// No key is drawn twice: the lines come table by table and column by column.
pub proof fn a_key_is_drawn_once(tables: Seq<ErTable>, i: int, j: int)
    requires
        tables.len() <= usize::MAX,
        forall|k: int|
            0 <= k < tables.len() ==> (#[trigger] tables[k]).columns@.len() <= usize::MAX,
        0 <= i < j < edges_of(tables).len(),
    ensures
        edges_of(tables)[i].from < edges_of(tables)[j].from || (edges_of(tables)[i].from
            == edges_of(tables)[j].from && edges_of(tables)[i].from_row
            < edges_of(tables)[j].from_row),
{
    lemma_edges_ordered(tables, tables.len() as int);
}

/// A point of a curve.
#[derive(Debug, Clone, Copy, PartialEq, Eq, Structural)]
pub struct CurvePoint {
    pub x: i64,
    pub y: i64,
}

/// A line: a cubic curve from the child's row to the parent's, and whether it
/// belongs to the hovered table.
#[derive(Debug, Clone, Copy, PartialEq, Eq, Structural)]
pub struct Curve {
    pub start: CurvePoint,
    pub start_pull: CurvePoint,
    pub end_pull: CurvePoint,
    pub end: CurvePoint,
    pub lit: bool,
}

/// A box can be placed there: near enough to be drawn, and on an even length.
pub open spec fn is_place(at: Place) -> bool {
    -FAR <= at.x <= FAR && -FAR <= at.y <= FAR && at.x % 2 == 0 && at.y % 2 == 0
}

impl ErDiagram {
    /// The boxes, their places and the lines belong together, and lie near
    /// enough to be drawn.
    pub open spec fn wf(&self) -> bool {
        &&& sizes_are(self.sizes@, self.tables@)
        &&& self.layout.positions@.len() == self.tables@.len()
        &&& forall|i: int|
            0 <= i < self.tables@.len() ==> (#[trigger] self.tables@[i]).columns@.len() <= u32::MAX
        &&& forall|i: int|
            0 <= i < self.edges@.len() ==> edge_fits(#[trigger] self.edges@[i], self.tables@)
        &&& forall|i: int|
            0 <= i < self.layout.positions@.len() ==> is_place(
                #[trigger] self.layout.positions@[i],
            )
    }

    /// The diagram while its columns are read. `layout` is that of no tables.
    pub fn loading(schema: String, layout: Layout) -> (diagram: Self)
        ensures
            diagram.schema == schema,
            diagram.tables@.len() == 0,
            diagram.edges@.len() == 0,
            diagram.sizes@.len() == 0,
            diagram.layout == layout,
            !diagram.loaded,
            diagram.hover is None,
    {
        ErDiagram {
            schema,
            tables: Vec::new(),
            edges: Vec::new(),
            sizes: Vec::new(),
            layout,
            loaded: false,
            hover: None,
        }
    }

    /// Measure and connect `tables`, and put them where `layout` has them: the
    /// layout of the boxes of [`measure_all`] and the lines of [`connect`].
    pub fn build(schema: String, tables: Vec<ErTable>, layout: Layout) -> (diagram: Self)
        requires
            forall|i: int| 0 <= i < tables@.len() ==> drawable(#[trigger] tables@[i]),
        ensures
            diagram.schema == schema,
            diagram.tables == tables,
            diagram.edges@ == edges_of(tables@),
            sizes_are(diagram.sizes@, tables@),
            diagram.layout == layout,
            diagram.loaded,
            diagram.hover is None,
            ({
                &&& layout.positions@.len() == tables@.len()
                &&& forall|i: int|
                    0 <= i < layout.positions@.len() ==> is_place(#[trigger] layout.positions@[i])
            }) ==> diagram.wf(),
    {
        let sizes = measure_all(&tables);
        let edges = connect(&tables);
        let count: usize = tables.len();
        proof {
            assert forall|i: int| 0 <= i < tables@.len() implies (#[trigger] tables@[i]).columns@.len()
                <= usize::MAX by {
                assert(drawable(tables@[i]));
            }
            the_lines_are_the_keys(tables@);
            assert forall|i: int| 0 <= i < tables@.len() implies (#[trigger] tables@[i]).columns@.len()
                <= u32::MAX by {
                assert(drawable(tables@[i]));
            }
        }
        ErDiagram { schema, tables, edges, sizes, layout, loaded: true, hover: None }
    }

    /// Where a row's line meets the box: the left or the right edge, at the
    /// row's middle.
    pub open spec fn anchor_of(self, table: int, row: Option<usize>, right: bool) -> (int, int) {
        let at = self.layout.positions@[table];
        (
            if right {
                at.x + self.sizes@[table].width
            } else {
                at.x as int
            },
            match row {
                Some(row) => at.y + HEADER + row * ROW + ROW / 2,
                None => at.y + HEADER / 2,
            },
        )
    }

    pub fn anchor(&self, table: usize, row: Option<usize>, right: bool) -> (at: CurvePoint)
        requires
            self.wf(),
            table < self.tables@.len(),
            row matches Some(row) ==> row < self.tables@[table as int].columns@.len(),
        ensures
            (at.x as int, at.y as int) == self.anchor_of(table as int, row, right),
            -FAR <= at.x <= FAR + MAX_WIDTH,
    {
        let place = self.layout.positions[table];
        let size = self.sizes[table];
        assert(node_is(size, self.tables@[table as int]));
        assert(self.tables@[table as int].columns@.len() <= u32::MAX);
        CurvePoint {
            x: if right {
                place.x + size.width
            } else {
                place.x
            },
            y: match row {
                Some(row) => place.y + HEADER + row as i64 * ROW + ROW / 2,
                None => place.y + HEADER / 2,
            },
        }
    }

    /// The line belongs to the hovered table.
    pub open spec fn lit_edge(self, edge: ErEdge) -> bool {
        self.hover matches Some(hover) && (hover == edge.from || hover == edge.to)
    }

    /// How far a line goes straight out of its boxes.
    pub open spec fn pull(a: int, b: int) -> int {
        larger(
            (if a >= b {
                a - b
            } else {
                b - a
            }) / 2,
            MIN_PULL as int,
        )
    }

    /// A key's curve. A table that references itself gets a loop off its right
    /// side. The parent is usually to the left: the line leaves from the
    /// child's left edge and arrives at the parent's right.
    pub open spec fn curve_is(self, curve: Curve, edge: ErEdge) -> bool {
        let from = edge.from as int;
        let to = edge.to as int;
        let parent_left = self.layout.positions@[to].x < self.layout.positions@[from].x;
        let loops = from == to;
        let a = self.anchor_of(from, Some(edge.from_row), loops || !parent_left);
        let b = self.anchor_of(to, edge.to_row, loops || parent_left);
        let pull = ErDiagram::pull(a.0, b.0);
        &&& (curve.start.x as int, curve.start.y as int) == a
        &&& (curve.end.x as int, curve.end.y as int) == b
        &&& curve.start_pull.y == curve.start.y
        &&& curve.end_pull.y == curve.end.y
        &&& curve.start_pull.x == (if loops {
            a.0 + LOOP
        } else if parent_left {
            a.0 - pull
        } else {
            a.0 + pull
        })
        &&& curve.end_pull.x == (if loops {
            b.0 + LOOP
        } else if parent_left {
            b.0 + pull
        } else {
            b.0 - pull
        })
        &&& curve.lit == self.lit_edge(edge)
    }

    fn curve(&self, edge: ErEdge) -> (curve: Curve)
        requires
            self.wf(),
            edge_fits(edge, self.tables@),
        ensures
            self.curve_is(curve, edge),
    {
        let lit = match self.hover {
            Some(hover) => hover == edge.from || hover == edge.to,
            None => false,
        };
        if edge.from == edge.to {
            let a = self.anchor(edge.from, Some(edge.from_row), true);
            let b = self.anchor(edge.to, edge.to_row, true);
            return Curve {
                start: a,
                start_pull: CurvePoint { x: a.x + LOOP, y: a.y },
                end_pull: CurvePoint { x: b.x + LOOP, y: b.y },
                end: b,
                lit,
            };
        }
        let parent_left = self.layout.positions[edge.to].x < self.layout.positions[edge.from].x;
        let a = self.anchor(edge.from, Some(edge.from_row), !parent_left);
        let b = self.anchor(edge.to, edge.to_row, parent_left);
        let apart: i64 = if a.x >= b.x {
            a.x - b.x
        } else {
            b.x - a.x
        };
        let pull: i64 = max_of(apart / 2, MIN_PULL);
        let (start_x, end_x) = if parent_left {
            (a.x - pull, b.x + pull)
        } else {
            (a.x + pull, b.x - pull)
        };
        Curve {
            start: a,
            start_pull: CurvePoint { x: start_x, y: a.y },
            end_pull: CurvePoint { x: end_x, y: b.y },
            end: b,
            lit,
        }
    }

    /// Each key as a curve, and whether it belongs to the hovered table.
    pub fn curves(&self) -> (curves: Vec<Curve>)
        requires
            self.wf(),
        ensures
            curves@.len() == self.edges@.len(),
            forall|i: int|
                0 <= i < curves@.len() ==> self.curve_is(#[trigger] curves@[i], self.edges@[i]),
    {
        let mut curves: Vec<Curve> = Vec::new();
        let mut i: usize = 0;
        while i < self.edges.len()
            invariant
                self.wf(),
                i <= self.edges@.len(),
                curves@.len() == i,
                forall|k: int|
                    0 <= k < i ==> self.curve_is(#[trigger] curves@[k], self.edges@[k]),
            decreases self.edges@.len() - i,
        {
            assert(edge_fits(self.edges@[i as int], self.tables@));
            curves.push(self.curve(self.edges[i]));
            i += 1;
        }
        curves
    }
}

proof fn lemma_widest_is_even(columns: Seq<Column>)
    ensures
        widest_row(columns) % 2 == 0,
    decreases columns.len(),
{
    if columns.len() > 0 {
        lemma_widest_is_even(columns.drop_last());
        let chars = columns.last().name@.len() + columns.last().data_type@.len();
        assert((chars * CHAR) % 2 == 0) by (nonlinear_arith)
            requires
                CHAR == 304,
        ;
    }
}

proof fn lemma_width_is_even(table: ErTable)
    ensures
        width_of(table) % 2 == 0,
{
    lemma_widest_is_even(table.columns@);
    let chars = table.table.name@.len();
    assert((chars * TITLE_CHAR) % 2 == 0) by (nonlinear_arith)
        requires
            TITLE_CHAR == 328,
    ;
}

/// A line between two boxes is pulled by exactly half the way between its ends,
/// or by the least that a line goes straight.
pub proof fn lines_are_pulled_half_the_way(diagram: ErDiagram, edge: ErEdge, curve: Curve)
    requires
        diagram.wf(),
        edge_fits(edge, diagram.tables@),
        edge.from != edge.to,
        diagram.curve_is(curve, edge),
    ensures
        ({
            let apart = if curve.start.x >= curve.end.x {
                curve.start.x - curve.end.x
            } else {
                curve.end.x - curve.start.x
            };
            let pulled = if curve.start_pull.x >= curve.start.x {
                curve.start_pull.x - curve.start.x
            } else {
                curve.start.x - curve.start_pull.x
            };
            2 * pulled == larger(apart, 2 * MIN_PULL)
        }),
{
    let from = edge.from as int;
    let to = edge.to as int;
    assert(is_place(diagram.layout.positions@[from]));
    assert(is_place(diagram.layout.positions@[to]));
    assert(node_is(diagram.sizes@[from], diagram.tables@[from]));
    assert(node_is(diagram.sizes@[to], diagram.tables@[to]));
    lemma_width_is_even(diagram.tables@[from]);
    lemma_width_is_even(diagram.tables@[to]);
}

/// A line meets its boxes on their edges, at the middle of the row it belongs to,
/// or of the heading where the referenced column is not listed.
pub proof fn a_line_meets_its_boxes(diagram: ErDiagram, edge: ErEdge, curve: Curve)
    requires
        diagram.wf(),
        edge_fits(edge, diagram.tables@),
        diagram.curve_is(curve, edge),
    ensures
        ({
            let child = diagram.layout.positions@[edge.from as int];
            let parent = diagram.layout.positions@[edge.to as int];
            let child_width = diagram.sizes@[edge.from as int].width;
            let parent_width = diagram.sizes@[edge.to as int].width;
            &&& curve.start.y == child.y + 1200 + 800 * edge.from_row + 400
            &&& edge.to_row matches Some(row) ==> curve.end.y == parent.y + 1200 + 800 * row + 400
            &&& edge.to_row is None ==> curve.end.y == parent.y + 600
            &&& curve.start.x == child.x || curve.start.x == child.x + child_width
            &&& curve.end.x == parent.x || curve.end.x == parent.x + parent_width
            &&& edge.from != edge.to && parent.x < child.x ==> curve.start.x == child.x
                && curve.end.x == parent.x + parent_width
            &&& edge.from != edge.to && parent.x >= child.x ==> curve.start.x == child.x
                + child_width && curve.end.x == parent.x
            &&& edge.from == edge.to ==> curve.start.x == child.x + child_width && curve.end.x
                == curve.start.x
        }),
{
    assert(edge.from_row * ROW == 800 * edge.from_row);
    if let Some(row) = edge.to_row {
        assert(row * ROW == 800 * row);
    }
}

/// A line leaves each of its boxes outward and level: to the left of a left edge
/// and to the right of a right one. It is lit exactly while one of the tables it
/// joins is hovered.
pub proof fn a_line_leaves_its_boxes_outward(diagram: ErDiagram, edge: ErEdge, curve: Curve)
    requires
        diagram.wf(),
        edge_fits(edge, diagram.tables@),
        diagram.curve_is(curve, edge),
    ensures
        ({
            let child = diagram.layout.positions@[edge.from as int];
            let parent = diagram.layout.positions@[edge.to as int];
            let parent_left = edge.from != edge.to && parent.x < child.x;
            &&& curve.start_pull.y == curve.start.y
            &&& curve.end_pull.y == curve.end.y
            &&& parent_left ==> curve.start_pull.x <= curve.start.x - 1600
            &&& !parent_left ==> curve.start_pull.x >= curve.start.x + 1600
            &&& parent_left || edge.from == edge.to ==> curve.end_pull.x >= curve.end.x + 1600
            &&& !parent_left && edge.from != edge.to ==> curve.end_pull.x <= curve.end.x - 1600
            &&& curve.lit <==> diagram.hover == Some(edge.from) || diagram.hover == Some(edge.to)
        }),
{
}

/// The lines that are lit, or those that are not, in their order.
pub open spec fn of_pass(curves: Seq<Curve>, lit: bool) -> Seq<Curve>
    decreases curves.len(),
{
    if curves.len() == 0 {
        curves
    } else {
        let before = of_pass(curves.drop_last(), lit);
        if curves.last().lit == lit {
            before.push(curves.last())
        } else {
            before
        }
    }
}

/// The order that the lines are painted in: unlit first, so that a lit line is
/// drawn over the ones it crosses.
pub fn paint_order(curves: &Vec<Curve>) -> (ordered: Vec<Curve>)
    ensures
        ordered@ == of_pass(curves@, false) + of_pass(curves@, true),
{
    let mut unlit: Vec<Curve> = Vec::new();
    let mut lit: Vec<Curve> = Vec::new();
    let mut i: usize = 0;
    assert(curves@.take(0) == Seq::<Curve>::empty());
    while i < curves.len()
        invariant
            i <= curves@.len(),
            unlit@ == of_pass(curves@.take(i as int), false),
            lit@ == of_pass(curves@.take(i as int), true),
        decreases curves@.len() - i,
    {
        assert(curves@.take(i + 1).drop_last() == curves@.take(i as int));
        let curve = curves[i];
        if curve.lit {
            lit.push(curve);
        } else {
            unlit.push(curve);
        }
        i += 1;
    }
    assert(curves@.take(i as int) == curves@);
    unlit.append(&mut lit);
    unlit
}

proof fn lemma_of_pass(curves: Seq<Curve>, lit: bool)
    ensures
        forall|i: int|
            0 <= i < of_pass(curves, lit).len() ==> (#[trigger] of_pass(curves, lit)[i]).lit == lit,
    decreases curves.len(),
{
    if curves.len() > 0 {
        let before = of_pass(curves.drop_last(), lit);
        lemma_of_pass(curves.drop_last(), lit);
        assert forall|i: int| 0 <= i < of_pass(curves, lit).len() implies (#[trigger] of_pass(
            curves,
            lit,
        )[i]).lit == lit by {
            if i < before.len() {
                assert(of_pass(curves, lit)[i] == before[i]);
            }
        }
    }
}

proof fn lemma_both_passes(curves: Seq<Curve>)
    ensures
        of_pass(curves, false).to_multiset().add(of_pass(curves, true).to_multiset())
            == curves.to_multiset(),
    decreases curves.len(),
{
    broadcast use vstd::seq_lib::group_to_multiset_ensures;

    if curves.len() > 0 {
        lemma_both_passes(curves.drop_last());
        assert(curves.drop_last().push(curves.last()) == curves);
    }
    assert(of_pass(curves, false).to_multiset().add(of_pass(curves, true).to_multiset())
        =~= curves.to_multiset());
}

/// Every line is painted, each as often as it is there.
pub proof fn every_line_is_painted(curves: Seq<Curve>)
    ensures
        (of_pass(curves, false) + of_pass(curves, true)).to_multiset() == curves.to_multiset(),
{
    lemma_both_passes(curves);
    vstd::seq_lib::lemma_multiset_commutative(of_pass(curves, false), of_pass(curves, true));
}

/// No unlit line is painted over a lit one.
pub proof fn lit_lines_are_painted_last(curves: Seq<Curve>, i: int, j: int)
    requires
        ({
            let ordered = of_pass(curves, false) + of_pass(curves, true);
            0 <= i < j < ordered.len() && ordered[i].lit
        }),
    ensures
        (of_pass(curves, false) + of_pass(curves, true))[j].lit,
{
    lemma_of_pass(curves, false);
    lemma_of_pass(curves, true);
    let unlit = of_pass(curves, false);
    if i < unlit.len() {
        assert(!unlit[i].lit);
    }
    assert((unlit + of_pass(curves, true))[j] == of_pass(curves, true)[j - unlit.len()]);
}

/// A schema of the catalog, as far as drawing one goes.
#[derive(Debug)]
pub struct SchemaEntry {
    pub name: String,
    /// It is unfolded in the tree.
    pub expanded: bool,
    pub tables: Vec<CatalogTable>,
}

#[derive(Debug)]
pub struct CatalogTable {
    pub table: TableRef,
    pub kind: TableKind,
}

/// The first schema that is unfolded in the tree, from `from` on.
pub open spec fn expanded_from(schemas: Seq<SchemaEntry>, from: int) -> Option<Seq<char>>
    decreases schemas.len() - from,
{
    if from >= schemas.len() {
        None
    } else if schemas[from].expanded {
        Some(schemas[from].name@)
    } else {
        expanded_from(schemas, from + 1)
    }
}

/// The schema in front: the open table's, else the first one unfolded in the
/// tree, else the first there is.
pub open spec fn schema_in_front(open: Option<Seq<char>>, schemas: Seq<SchemaEntry>) -> Option<
    Seq<char>,
> {
    match open {
        Some(schema) => Some(schema),
        None => match expanded_from(schemas, 0) {
            Some(schema) => Some(schema),
            None => if schemas.len() > 0 {
                Some(schemas[0].name@)
            } else {
                None
            },
        },
    }
}

proof fn lemma_expanded_from(schemas: Seq<SchemaEntry>, from: int)
    requires
        0 <= from,
    ensures
        forall|at: int|
            #![trigger schemas[at]]
            from <= at < schemas.len() && schemas[at].expanded && (forall|k: int|
                from <= k < at ==> !(#[trigger] schemas[k]).expanded) ==> expanded_from(
                schemas,
                from,
            ) == Some(schemas[at].name@),
        (forall|k: int| from <= k < schemas.len() ==> !(#[trigger] schemas[k]).expanded)
            ==> expanded_from(schemas, from) is None,
    decreases schemas.len() - from,
{
    if from < schemas.len() {
        lemma_expanded_from(schemas, from + 1);
    }
}

/// What is drawn is the schema of the open table; without one the first that is
/// unfolded; without one of those the first there is; and nothing only where there
/// is none.
pub proof fn the_nearest_schema_is_drawn(
    open: Option<Seq<char>>,
    schemas: Seq<SchemaEntry>,
    at: int,
)
    ensures
        open is Some ==> schema_in_front(open, schemas) == open,
        open is None && 0 <= at < schemas.len() && schemas[at].expanded && (forall|k: int|
            0 <= k < at ==> !(#[trigger] schemas[k]).expanded) ==> schema_in_front(open, schemas)
            == Some(schemas[at].name@),
        open is None && schemas.len() > 0 && (forall|k: int|
            0 <= k < schemas.len() ==> !(#[trigger] schemas[k]).expanded) ==> schema_in_front(
            open,
            schemas,
        ) == Some(schemas[0].name@),
        schema_in_front(open, schemas) is None <==> open is None && schemas.len() == 0,
{
    lemma_expanded_from(schemas, 0);
}

fn first_expanded(schemas: &Vec<SchemaEntry>) -> (schema: Option<String>)
    ensures
        opt(schema) == expanded_from(schemas@, 0),
{
    let mut i: usize = 0;
    while i < schemas.len()
        invariant
            i <= schemas@.len(),
            expanded_from(schemas@, 0) == expanded_from(schemas@, i as int),
        decreases schemas@.len() - i,
    {
        if schemas[i].expanded {
            return Some(schemas[i].name.as_str().to_string());
        }
        i += 1;
    }
    None
}

/// The schema to open the diagram for. `catalog` is the connection's, once it
/// has loaded; `open_schema` is that of the open table.
pub fn open_er_diagram(
    connected: bool,
    catalog: Option<&Vec<SchemaEntry>>,
    open_schema: &Option<String>,
) -> (schema: Result<String, Status>)
    ensures
        match schema {
            Ok(schema) => connected && (catalog matches Some(schemas) && schema_in_front(
                opt(*open_schema),
                schemas@,
            ) == Some(schema@)),
            Err(status) => if !connected {
                status.error_is("Not connected"@)
            } else {
                match catalog {
                    None => status.error_is("The catalog has not loaded yet"@),
                    Some(schemas) => schema_in_front(opt(*open_schema), schemas@) is None
                        && status.info_is("No schema to draw"@),
                }
            },
        },
{
    if !connected {
        return Err(Status::error("Not connected"));
    }
    let schemas = match catalog {
        Some(schemas) => schemas,
        None => return Err(Status::error("The catalog has not loaded yet")),
    };
    if let Some(schema) = open_schema {
        return Ok(schema.as_str().to_string());
    }
    if let Some(schema) = first_expanded(schemas) {
        return Ok(schema);
    }
    if schemas.len() > 0 {
        return Ok(schemas[0].name.as_str().to_string());
    }
    Err(Status::info("No schema to draw"))
}

/// The place of a schema among some, from `from` on.
pub open spec fn schema_from(schemas: Seq<SchemaEntry>, name: Seq<char>, from: int) -> Option<int>
    decreases schemas.len() - from,
{
    if from >= schemas.len() {
        None
    } else if schemas[from].name@ == name {
        Some(from)
    } else {
        schema_from(schemas, name, from + 1)
    }
}

/// A schema is found at the first place of its name, and not found only where no
/// schema has it.
pub proof fn a_schema_is_found_by_its_name(schemas: Seq<SchemaEntry>, name: Seq<char>)
    ensures
        match schema_from(schemas, name, 0) {
            Some(at) => {
                &&& 0 <= at < schemas.len()
                &&& schemas[at].name@ == name
                &&& forall|k: int| 0 <= k < at ==> (#[trigger] schemas[k]).name@ != name
            },
            None => forall|k: int| 0 <= k < schemas.len() ==> (#[trigger] schemas[k]).name@ != name,
        },
{
    lemma_schema_from(schemas, name, 0);
}

proof fn lemma_schema_from(schemas: Seq<SchemaEntry>, name: Seq<char>, from: int)
    requires
        0 <= from,
    ensures
        match schema_from(schemas, name, from) {
            Some(at) => {
                &&& from <= at < schemas.len()
                &&& schemas[at].name@ == name
                &&& forall|k: int| from <= k < at ==> (#[trigger] schemas[k]).name@ != name
            },
            None => forall|k: int|
                from <= k < schemas.len() ==> (#[trigger] schemas[k]).name@ != name,
        },
    decreases schemas.len() - from,
{
    if from < schemas.len() {
        lemma_schema_from(schemas, name, from + 1);
    }
}

/// Some tables, and the kind of each.
pub open spec fn listing_is(
    refs: Seq<TableRef>,
    kinds: Seq<TableKind>,
    tables: Seq<CatalogTable>,
) -> bool {
    &&& refs.len() == tables.len()
    &&& kinds.len() == tables.len()
    &&& forall|i: int|
        #![trigger refs[i]]
        #![trigger kinds[i]]
        0 <= i < tables.len() ==> refs[i].same_table(tables[i].table) && kinds[i] == tables[i].kind
}

fn listing(tables: &Vec<CatalogTable>) -> (wanted: (Vec<TableRef>, Vec<TableKind>))
    ensures
        listing_is(wanted.0@, wanted.1@, tables@),
{
    let mut refs: Vec<TableRef> = Vec::new();
    let mut kinds: Vec<TableKind> = Vec::new();
    let mut i: usize = 0;
    while i < tables.len()
        invariant
            i <= tables@.len(),
            listing_is(refs@, kinds@, tables@.take(i as int)),
        decreases tables@.len() - i,
    {
        let table = &tables[i].table;
        refs.push(TableRef::new(table.schema.as_str(), table.name.as_str()));
        kinds.push(tables[i].kind);
        i += 1;
    }
    assert(tables@.take(i as int) == tables@);
    (refs, kinds)
}

/// The tables whose columns a diagram needs, and the kind of each. `None` where
/// there is no such schema to draw.
pub fn open_er_diagram_for(schemas: &Vec<SchemaEntry>, schema: &str) -> (wanted: Option<
    (Vec<TableRef>, Vec<TableKind>),
>)
    ensures
        match schema_from(schemas@, schema@, 0) {
            Some(at) => wanted matches Some((refs, kinds)) && listing_is(
                refs@,
                kinds@,
                schemas@[at].tables@,
            ),
            None => wanted is None,
        },
{
    let mut at: usize = 0;
    while at < schemas.len()
        invariant
            at <= schemas@.len(),
            schema_from(schemas@, schema@, 0) == schema_from(schemas@, schema@, at as int),
        decreases schemas@.len() - at,
    {
        if same(schemas[at].name.as_str(), schema) {
            return Some(listing(&schemas[at].tables));
        }
        at += 1;
    }
    None
}

/// Whether columns that were read are still wanted: their diagram was neither
/// closed nor replaced by another schema's in the meantime.
pub open spec fn still_wanted(diagram: Option<ErDiagram>, schema: Seq<char>) -> bool {
    diagram matches Some(diagram) && diagram.schema@ == schema && !diagram.loaded
}

pub fn wants_columns(diagram: &Option<ErDiagram>, schema: &str) -> (wants: bool)
    ensures
        wants == still_wanted(*diagram, schema@),
{
    match diagram {
        Some(diagram) => same(diagram.schema.as_str(), schema) && !diagram.loaded,
        None => false,
    }
}

/// The tables of a schema, out of what was read of each and its kind. Past the
/// shorter of the two lists there is nothing to pair.
pub fn described_tables(
    described: Vec<(TableRef, Vec<Column>)>,
    kinds: &Vec<TableKind>,
) -> (tables: Vec<ErTable>)
    ensures
        tables@.len() == (if described@.len() <= kinds@.len() {
            described@.len()
        } else {
            kinds@.len()
        }),
        forall|i: int|
            0 <= i < tables@.len() ==> {
                &&& (#[trigger] tables@[i]).table == described@[i].0
                &&& tables@[i].columns == described@[i].1
                &&& tables@[i].kind == kinds@[i]
            },
{
    let mut left = described;
    let mut tables: Vec<ErTable> = Vec::new();
    left.truncate(kinds.len());
    while left.len() > 0
        invariant
            left@.len() + tables@.len() <= kinds@.len(),
            left@.len() + tables@.len() == (if described@.len() <= kinds@.len() {
                described@.len()
            } else {
                kinds@.len()
            }),
            forall|k: int|
                0 <= k < left@.len() ==> #[trigger] left@[k] == described@[tables@.len() + k],
            forall|k: int|
                0 <= k < tables@.len() ==> {
                    &&& (#[trigger] tables@[k]).table == described@[k].0
                    &&& tables@[k].columns == described@[k].1
                    &&& tables@[k].kind == kinds@[k]
                },
        decreases left@.len(),
    {
        let ghost before = left@;
        let (table, columns) = left.remove(0);
        assert(left@ == before.remove(0));
        assert(before[0] == described@[tables@.len() as int]);
        assert forall|k: int| 0 <= k < left@.len() implies #[trigger] left@[k] == described@[
        tables@.len() + 1 + k] by {
            assert(left@[k] == before[k + 1]);
        }
        tables.push(ErTable { table, kind: kinds[tables.len()], columns });
    }
    tables
}

impl ErDiagram {
    /// The pointer comes over a table's box, or leaves it.
    pub fn hovered(&mut self, index: usize, over: bool)
        ensures
            final(self).hover == (if over {
                Some(index)
            } else if old(self).hover == Some(index) {
                None
            } else {
                old(self).hover
            }),
            final(self).schema == old(self).schema,
            final(self).tables == old(self).tables,
            final(self).edges == old(self).edges,
            final(self).sizes == old(self).sizes,
            final(self).layout == old(self).layout,
            final(self).loaded == old(self).loaded,
    {
        let here = match self.hover {
            Some(at) => at == index,
            None => false,
        };
        if over {
            self.hover = Some(index);
        } else if here {
            self.hover = None;
        }
    }

    /// A line joins the two tables, either way.
    pub open spec fn joins(edge: ErEdge, a: int, b: int) -> bool {
        (edge.from == a && edge.to == b) || (edge.to == a && edge.from == b)
    }

    /// A table is lit while it or one that it shares a key with is hovered.
    pub open spec fn lit_table(self, index: int) -> bool {
        self.hover matches Some(hover) && (hover == index || exists|i: int|
            0 <= i < self.edges@.len() && ErDiagram::joins(
                #[trigger] self.edges@[i],
                hover as int,
                index,
            ))
    }

    pub fn is_lit(&self, index: usize) -> (lit: bool)
        ensures
            lit == self.lit_table(index as int),
    {
        let hover: usize = match self.hover {
            Some(hover) => hover,
            None => return false,
        };
        if hover == index {
            return true;
        }
        let mut i: usize = 0;
        while i < self.edges.len()
            invariant
                self.hover == Some(hover),
                hover != index,
                i <= self.edges@.len(),
                forall|k: int|
                    0 <= k < i ==> !ErDiagram::joins(
                        #[trigger] self.edges@[k],
                        hover as int,
                        index as int,
                    ),
            decreases self.edges@.len() - i,
        {
            let edge = self.edges[i];
            if (edge.from == hover && edge.to == index) || (edge.to == hover && edge.from == index) {
                assert(ErDiagram::joins(self.edges@[i as int], hover as int, index as int));
                return true;
            }
            i += 1;
        }
        false
    }
}

/// Hovering traces keys both ways: a table lights up for another exactly when
/// that one lights up for it.
pub proof fn keys_are_traced_both_ways(diagram: ErDiagram, a: usize, b: usize)
    ensures
        (ErDiagram { hover: Some(a), ..diagram }).lit_table(b as int) == (ErDiagram {
            hover: Some(b),
            ..diagram
        }).lit_table(a as int),
{
    let over_a = ErDiagram { hover: Some(a), ..diagram };
    let over_b = ErDiagram { hover: Some(b), ..diagram };
    if over_a.lit_table(b as int) && a != b {
        let i = choose|i: int|
            0 <= i < over_a.edges@.len() && ErDiagram::joins(
                #[trigger] over_a.edges@[i],
                a as int,
                b as int,
            );
        assert(ErDiagram::joins(over_b.edges@[i], b as int, a as int));
    }
    if over_b.lit_table(a as int) && a != b {
        let i = choose|i: int|
            0 <= i < over_b.edges@.len() && ErDiagram::joins(
                #[trigger] over_b.edges@[i],
                b as int,
                a as int,
            );
        assert(ErDiagram::joins(over_a.edges@[i], a as int, b as int));
    }
}

/// A table is lit while it is hovered, and while a table is that one of its keys
/// references or that references it; no other is, and none while nothing is
/// hovered.
pub proof fn a_table_is_lit_with_its_neighbours(diagram: ErDiagram, index: usize, i: int)
    ensures
        diagram.hover is None ==> !diagram.lit_table(index as int),
        diagram.hover == Some(index) ==> diagram.lit_table(index as int),
        0 <= i < diagram.edges@.len() && diagram.edges@[i].from == index && diagram.hover == Some(
            diagram.edges@[i].to,
        ) ==> diagram.lit_table(index as int),
        0 <= i < diagram.edges@.len() && diagram.edges@[i].to == index && diagram.hover == Some(
            diagram.edges@[i].from,
        ) ==> diagram.lit_table(index as int),
        diagram.lit_table(index as int) && diagram.hover != Some(index) ==> exists|k: int|
            0 <= k < diagram.edges@.len() && (((#[trigger] diagram.edges@[k]).from == index
                && diagram.hover == Some(diagram.edges@[k].to)) || (diagram.edges@[k].to == index
                && diagram.hover == Some(diagram.edges@[k].from))),
{
    if diagram.hover is Some && 0 <= i < diagram.edges@.len() {
        let hover = diagram.hover.unwrap() as int;
        assert(ErDiagram::joins(diagram.edges@[i], hover, index as int) == ((
        diagram.edges@[i].from == hover && diagram.edges@[i].to == index) || (diagram.edges@[i].to
            == hover && diagram.edges@[i].from == index)));
    }
    if diagram.lit_table(index as int) && diagram.hover != Some(index) {
        let k = choose|k: int|
            0 <= k < diagram.edges@.len() && ErDiagram::joins(
                #[trigger] diagram.edges@[k],
                diagram.hover.unwrap() as int,
                index as int,
            );
        assert(diagram.edges@[k].from == index || diagram.edges@[k].to == index);
    }
}

/// A row of a box.
#[derive(Debug)]
pub struct BoxRow {
    pub marker: String,
    pub marker_tone: Tone,
    pub name: String,
    pub name_tone: Tone,
    pub data_type: String,
}

pub open spec fn box_row_is(row: BoxRow, column: Column) -> bool {
    &&& row.marker@ == (if column.is_primary_key {
        "PK"@
    } else if column.references is Some {
        "FK"@
    } else {
        ""@
    })
    &&& row.marker_tone == (if column.is_primary_key {
        Tone::Warning
    } else {
        Tone::Accent
    })
    &&& row.name@ == column.name@
    &&& row.name_tone == (if column.nullable {
        Tone::Muted
    } else {
        Tone::Text
    })
    &&& row.data_type@ == column.data_type@
}

fn box_row(column: &Column) -> (row: BoxRow)
    ensures
        box_row_is(row, *column),
{
    BoxRow {
        marker: if column.is_primary_key {
            "PK".to_string()
        } else if column.references.is_some() {
            "FK".to_string()
        } else {
            "".to_string()
        },
        marker_tone: if column.is_primary_key {
            Tone::Warning
        } else {
            Tone::Accent
        },
        name: column.name.as_str().to_string(),
        name_tone: if column.nullable {
            Tone::Muted
        } else {
            Tone::Text
        },
        data_type: column.data_type.as_str().to_string(),
    }
}

/// A table's box.
#[derive(Debug)]
pub struct TableBox {
    pub name: String,
    pub kind: TableKind,
    pub lit: bool,
    pub place: Place,
    pub size: Node,
    pub rows: Vec<BoxRow>,
}

impl ErDiagram {
    pub open spec fn box_is(self, drawn: TableBox, index: int) -> bool {
        let table = self.tables@[index];
        &&& drawn.name@ == table.table.name@
        &&& drawn.kind == table.kind
        &&& drawn.lit == self.lit_table(index)
        &&& drawn.place == self.layout.positions@[index]
        &&& drawn.size == self.sizes@[index]
        &&& drawn.rows@.len() == table.columns@.len()
        &&& forall|i: int|
            0 <= i < drawn.rows@.len() ==> box_row_is(#[trigger] drawn.rows@[i], table.columns@[i])
    }

    fn table_box(&self, index: usize) -> (drawn: TableBox)
        requires
            self.wf(),
            index < self.tables@.len(),
        ensures
            self.box_is(drawn, index as int),
    {
        let table = &self.tables[index];
        let mut rows: Vec<BoxRow> = Vec::new();
        let mut i: usize = 0;
        while i < table.columns.len()
            invariant
                i <= table.columns@.len(),
                rows@.len() == i,
                forall|k: int|
                    0 <= k < i ==> box_row_is(#[trigger] rows@[k], table.columns@[k]),
            decreases table.columns@.len() - i,
        {
            rows.push(box_row(&table.columns[i]));
            i += 1;
        }
        TableBox {
            name: table.table.name.as_str().to_string(),
            kind: table.kind,
            lit: self.is_lit(index),
            place: self.layout.positions[index],
            size: self.sizes[index],
            rows,
        }
    }

    /// "8 tables · 11 foreign keys", once they are read.
    pub open spec fn headline_of(self) -> Seq<char> {
        if self.loaded {
            decimal(self.tables@.len()) + " tables · "@ + decimal(self.edges@.len())
                + " foreign keys"@
        } else {
            "Reading columns…"@
        }
    }

    pub fn headline(&self) -> (text: String)
        ensures
            text@ == self.headline_of(),
    {
        if !self.loaded {
            return "Reading columns…".to_string();
        }
        let mut text: String = String::new();
        push_decimal(&mut text, self.tables.len() as u64);
        text.append(" tables · ");
        push_decimal(&mut text, self.edges.len() as u64);
        text.append(" foreign keys");
        assert(text@ == self.headline_of());
        text
    }
}

/// The diagram as it is drawn.
#[derive(Debug)]
pub struct DiagramView {
    pub title: String,
    pub headline: String,
    /// What can be done with it.
    pub hint: String,
    pub zoom_out: String,
    pub zoom_in: String,
    pub close_label: String,
    /// The canvas that the boxes and the lines lie on.
    pub width: i64,
    pub height: i64,
    /// The lines, in the order that they are painted in.
    pub curves: Vec<Curve>,
    pub boxes: Vec<TableBox>,
}

pub open spec fn diagram_is(view: DiagramView, diagram: ErDiagram) -> bool {
    &&& view.title@ == diagram.schema@ + " — diagram"@
    &&& view.headline@ == diagram.headline_of()
    &&& view.hint@ == "Hover to trace keys · click to open"@
    &&& view.zoom_out@ == "−"@
    &&& view.zoom_in@ == "+"@
    &&& view.close_label@ == "Close"@
    &&& view.width == diagram.layout.width
    &&& view.height == diagram.layout.height
    &&& exists|curves: Seq<Curve>|
        {
            &&& view.curves@ == #[trigger] of_pass(curves, false) + of_pass(curves, true)
            &&& curves.len() == diagram.edges@.len()
            &&& forall|i: int|
                0 <= i < curves.len() ==> diagram.curve_is(#[trigger] curves[i], diagram.edges@[i])
        }
    &&& view.boxes@.len() == diagram.tables@.len()
    &&& forall|i: int|
        0 <= i < view.boxes@.len() ==> diagram.box_is(#[trigger] view.boxes@[i], i)
}

pub fn render_er_diagram(diagram: Option<&ErDiagram>) -> (view: Option<DiagramView>)
    requires
        diagram matches Some(diagram) ==> diagram.wf(),
    ensures
        view is Some <==> diagram is Some,
        view matches Some(view) ==> diagram_is(view, *diagram.unwrap()),
{
    let diagram = match diagram {
        Some(diagram) => diagram,
        None => return None,
    };
    let mut boxes: Vec<TableBox> = Vec::new();
    let mut i: usize = 0;
    while i < diagram.tables.len()
        invariant
            diagram.wf(),
            i <= diagram.tables@.len(),
            boxes@.len() == i,
            forall|k: int| 0 <= k < i ==> diagram.box_is(#[trigger] boxes@[k], k),
        decreases diagram.tables@.len() - i,
    {
        boxes.push(diagram.table_box(i));
        i += 1;
    }
    let curves = diagram.curves();
    let mut title: String = diagram.schema.as_str().to_string();
    title.append(" — diagram");
    Some(
        DiagramView {
            title,
            headline: diagram.headline(),
            hint: "Hover to trace keys · click to open".to_string(),
            zoom_out: "−".to_string(),
            zoom_in: "+".to_string(),
            close_label: "Close".to_string(),
            width: diagram.layout.width,
            height: diagram.layout.height,
            curves: paint_order(&curves),
            boxes,
        },
    )
}

/// A row of a box says of a column its name, its type and whether it may be empty,
/// and marks the keys: its own before another table's.
pub proof fn a_row_marks_the_keys(row: BoxRow, column: Column)
    requires
        box_row_is(row, column),
    ensures
        row.name@ == column.name@,
        row.data_type@ == column.data_type@,
        column.is_primary_key ==> row.marker@ == seq!['P', 'K'] && row.marker_tone == Tone::Warning,
        !column.is_primary_key && column.references is Some ==> row.marker@ == seq!['F', 'K']
            && row.marker_tone == Tone::Accent,
        !column.is_primary_key && column.references is None ==> row.marker@.len() == 0,
        row.name_tone == (if column.nullable {
            Tone::Muted
        } else {
            Tone::Text
        }),
{
    reveal_strlit("PK");
    reveal_strlit("FK");
    assert("PK"@ == seq!['P', 'K']);
    assert("FK"@ == seq!['F', 'K']);
    reveal_strlit("");
}

/// A box is drawn where the layout put it, in its own size, with a row for each
/// column.
pub proof fn a_box_is_drawn_where_it_was_put(diagram: ErDiagram, drawn: TableBox, index: int)
    requires
        diagram.box_is(drawn, index),
    ensures
        drawn.name@ == diagram.tables@[index].table.name@,
        drawn.kind == diagram.tables@[index].kind,
        drawn.place == diagram.layout.positions@[index],
        drawn.size == diagram.sizes@[index],
        drawn.lit == diagram.lit_table(index),
        drawn.rows@.len() == diagram.tables@[index].columns@.len(),
        forall|i: int|
            0 <= i < drawn.rows@.len() ==> (#[trigger] drawn.rows@[i]).name@
                == diagram.tables@[index].columns@[i].name@,
{
    assert forall|i: int| 0 <= i < drawn.rows@.len() implies (#[trigger] drawn.rows@[i]).name@
        == diagram.tables@[index].columns@[i].name@ by {
        assert(box_row_is(drawn.rows@[i], diagram.tables@[index].columns@[i]));
    }
}

/// The headline counts the tables and the keys, once they are read.
pub proof fn the_headline_counts_tables_and_keys(diagram: ErDiagram)
    ensures
        diagram.loaded ==> diagram.headline_of() == decimal(diagram.tables@.len()) + seq![' ', 't', 'a', 'b', 'l', 'e', 's', ' ', '·', ' ']
            + decimal(diagram.edges@.len()) + seq![' ', 'f', 'o', 'r', 'e', 'i', 'g', 'n', ' ', 'k', 'e', 'y', 's'],
        !diagram.loaded ==> diagram.headline_of() == seq!['R', 'e', 'a', 'd', 'i', 'n', 'g', ' ', 'c', 'o', 'l', 'u', 'm', 'n', 's', '…'],
{
    reveal_strlit(" tables · ");
    reveal_strlit(" foreign keys");
    reveal_strlit("Reading columns…");
    assert(" tables · "@ == seq![' ', 't', 'a', 'b', 'l', 'e', 's', ' ', '·', ' ']);
    assert(" foreign keys"@ == seq![' ', 'f', 'o', 'r', 'e', 'i', 'g', 'n', ' ', 'k', 'e', 'y', 's']);
    assert("Reading columns…"@ == seq!['R', 'e', 'a', 'd', 'i', 'n', 'g', ' ', 'c', 'o', 'l', 'u', 'm', 'n', 's', '…']);
}

/// A diagram holds a box for each table and a line for each key, on a canvas as
/// large as its layout.
pub proof fn a_diagram_holds_every_table_and_key(view: DiagramView, diagram: ErDiagram)
    requires
        diagram_is(view, diagram),
    ensures
        view.title@ == diagram.schema@ + seq![' ', '—', ' ', 'd', 'i', 'a', 'g', 'r', 'a', 'm'],
        view.headline@ == diagram.headline_of(),
        view.width == diagram.layout.width,
        view.height == diagram.layout.height,
        view.boxes@.len() == diagram.tables@.len(),
        view.curves@.len() == diagram.edges@.len(),
        forall|i: int|
            0 <= i < view.boxes@.len() ==> (#[trigger] view.boxes@[i]).name@
                == diagram.tables@[i].table.name@,
{
    reveal_strlit(" — diagram");
    assert(" — diagram"@ == seq![' ', '—', ' ', 'd', 'i', 'a', 'g', 'r', 'a', 'm']);
    let curves = choose|curves: Seq<Curve>|
        {
            &&& view.curves@ == #[trigger] of_pass(curves, false) + of_pass(curves, true)
            &&& curves.len() == diagram.edges@.len()
            &&& forall|i: int|
                0 <= i < curves.len() ==> diagram.curve_is(#[trigger] curves[i], diagram.edges@[i])
        };
    lemma_two_passes(curves);
    assert forall|i: int| 0 <= i < view.boxes@.len() implies (#[trigger] view.boxes@[i]).name@
        == diagram.tables@[i].table.name@ by {
        assert(diagram.box_is(view.boxes@[i], i));
    }
}

proof fn lemma_two_passes(curves: Seq<Curve>)
    ensures
        of_pass(curves, false).len() + of_pass(curves, true).len() == curves.len(),
    decreases curves.len(),
{
    if curves.len() > 0 {
        lemma_two_passes(curves.drop_last());
    }
}

/// Whether a line is painted in a pass.
pub open spec fn line_is_of_pass(curves: Seq<Curve>, lit: bool) -> spec_fn(int) -> bool {
    |i: int| curves[i].lit == lit
}

proof fn lemma_pass_places(curves: Seq<Curve>, lit: bool, upto: int) -> (places: Seq<int>)
    requires
        0 <= upto <= curves.len(),
    ensures
        places_where(places, upto, line_is_of_pass(curves, lit)),
        of_pass(curves.take(upto), lit) == Seq::new(places.len(), |k: int| curves[places[k]]),
    decreases upto,
{
    let holds = line_is_of_pass(curves, lit);
    let places = if upto == 0 {
        Seq::<int>::empty()
    } else {
        let n = upto - 1;
        let before = lemma_pass_places(curves, lit, n);
        lemma_places_step(before, n, holds);
        assert(curves.take(upto).drop_last() == curves.take(n));
        if holds(n) {
            before.push(n)
        } else {
            before
        }
    };
    assert(of_pass(curves.take(upto), lit) == Seq::new(places.len(), |k: int| curves[places[k]]));
    places
}

/// Each pass paints the lines that are lit, or those that are not, in order, and no
/// other.
pub proof fn a_pass_paints_its_lines_in_order(curves: Seq<Curve>, lit: bool)
    ensures
        exists|places: Seq<int>| #[trigger]
            places_where(places, curves.len() as int, line_is_of_pass(curves, lit)) && of_pass(
                curves,
                lit,
            ) == Seq::new(places.len(), |k: int| curves[places[k]]),
{
    assert(curves.take(curves.len() as int) == curves);
    let places = lemma_pass_places(curves, lit, curves.len() as int);
}

/// Every table of the schema is asked for, in order, with its kind.
pub proof fn every_table_of_the_schema_is_asked_for(
    refs: Seq<TableRef>,
    kinds: Seq<TableKind>,
    tables: Seq<CatalogTable>,
    i: int,
)
    requires
        listing_is(refs, kinds, tables),
        0 <= i < tables.len(),
    ensures
        refs.len() == tables.len() && kinds.len() == tables.len(),
        refs[i].schema@ == tables[i].table.schema@ && refs[i].name@ == tables[i].table.name@,
        kinds[i] == tables[i].kind,
{
}

/// The columns are wanted while the diagram they were asked for is open and empty.
pub proof fn columns_are_for_the_diagram_that_asked(
    diagram: Option<ErDiagram>,
    schema: Seq<char>,
)
    ensures
        still_wanted(diagram, schema) <==> diagram is Some && diagram->0.schema@ == schema
            && !diagram->0.loaded,
{
}

} // verus!
