//! The vocabulary the surfaces share: what is open, what is shown, and how the
//! last thing went.
use crate::text::same;
use vstd::prelude::*;

verus! {

/// A saved connection.
#[derive(Debug, Clone, Copy, PartialEq, Eq, Structural)]
pub struct ConnectionId(pub u64);

/// An open tab, for as long as it is open.
pub type TabId = u64;

/// What the status line says, and in what voice.
#[derive(Debug)]
pub enum Status {
    Idle,
    Busy(String),
    Info(String),
    Error(String),
}

impl Status {
    pub open spec fn busy_is(self, text: Seq<char>) -> bool {
        self matches Status::Busy(said) && said@ == text
    }

    pub open spec fn info_is(self, text: Seq<char>) -> bool {
        self matches Status::Info(said) && said@ == text
    }

    pub open spec fn error_is(self, text: Seq<char>) -> bool {
        self matches Status::Error(said) && said@ == text
    }

    pub fn info(text: &str) -> (status: Status)
        ensures
            status.info_is(text@),
    {
        Status::Info(text.to_string())
    }

    pub fn error(text: &str) -> (status: Status)
        ensures
            status.error_is(text@),
    {
        Status::Error(text.to_string())
    }
}

/// The colours a surface picks between; the theme says what they are.
#[derive(Debug, Clone, Copy, PartialEq, Eq, Structural)]
pub enum Tone {
    Text,
    Muted,
    Faint,
    Accent,
    OnAccent,
    Success,
    Warning,
    Danger,
    Border,
}

/// A window onto a table's rows.
#[derive(Debug, Clone, Copy, PartialEq, Eq, Structural)]
pub struct Page {
    pub offset: u64,
    pub limit: u32,
}

/// Where the rows on screen came from.
#[derive(Debug, Clone, Copy, PartialEq, Eq, Structural)]
pub enum ResultSource {
    Table { page: Page, total_rows: Option<i64> },
    Query,
}

/// Which side of a table a tab shows.
#[derive(Debug, Clone, Copy, PartialEq, Eq, Structural)]
pub enum TablePane {
    Data,
    Structure,
}

/// A table, by the schema it is in and its own name.
#[derive(Debug, Clone)]
pub struct TableRef {
    pub schema: String,
    pub name: String,
}

impl TableRef {
    pub open spec fn same_table(self, other: TableRef) -> bool {
        self.schema@ == other.schema@ && self.name@ == other.name@
    }

    pub fn new(schema: &str, name: &str) -> (table: TableRef)
        ensures
            table.schema@ == schema@,
            table.name@ == name@,
    {
        TableRef { schema: schema.to_string(), name: name.to_string() }
    }

    /// Whether both are the same table.
    pub fn same_as(&self, other: &TableRef) -> (is: bool)
        ensures
            is == self.same_table(*other),
    {
        same(self.schema.as_str(), other.schema.as_str()) && same(
            self.name.as_str(),
            other.name.as_str(),
        )
    }
}

/// A column of one table that refers to a column of another.
#[derive(Debug)]
pub struct ForeignKey {
    pub column: String,
    pub references: TableRef,
    pub references_column: String,
}

/// A column as the server has it.
#[derive(Debug)]
pub struct Column {
    pub name: String,
    pub data_type: String,
    pub nullable: bool,
    pub default: Option<String>,
    pub is_primary_key: bool,
    pub ordinal: u32,
    pub references: Option<ForeignKey>,
}

#[derive(Debug, Clone, Copy, PartialEq, Eq, Structural)]
pub enum TableKind {
    Table,
    View,
    MaterializedView,
}

/// What else a schema holds besides tables.
#[derive(Debug, Clone, Copy, PartialEq, Eq, Structural)]
pub enum ObjectKind {
    Function,
    Procedure,
    Trigger,
    Sequence,
    Type,
    Extension,
}

/// No row of the table lies past the page.
pub open spec fn ends_at(page: Page, total_rows: Option<i64>) -> bool {
    match total_rows {
        Some(total) => page.offset + page.limit >= total,
        None => false,
    }
}

/// Whether no row of the table lies past the page. Where the count is not known
/// there may always be more.
pub fn at_end(page: Page, total_rows: Option<i64>) -> (last: bool)
    requires
        page.offset + page.limit <= u64::MAX,
    ensures
        last == ends_at(page, total_rows),
{
    match total_rows {
        Some(total) => {
            let count: u64 = if total < 0 {
                0
            } else {
                total as u64
            };
            page.offset + page.limit as u64 >= count
        },
        None => false,
    }
}

/// A page is the last exactly when as many rows as the table has lie before its
/// end; while nobody has counted them, there may be more.
pub proof fn the_last_page_reaches_the_last_row(page: Page, total: i64)
    ensures
        ends_at(page, Some(total)) <==> total <= page.offset + page.limit,
        !ends_at(page, None),
{
}

/// Two tables are the same exactly when both the schema and the name are.
pub proof fn a_table_is_known_by_schema_and_name(a: TableRef, b: TableRef)
    ensures
        a.same_table(b) <==> a.schema@ == b.schema@ && a.name@ == b.name@,
        a.same_table(a),
        a.same_table(b) ==> b.same_table(a),
{
}

} // verus!
