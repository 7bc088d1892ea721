//! Changing a table's shape: columns, indexes, and new tables.
//!
//! Every change goes through one sheet, and the sheet's centrepiece is the SQL
//! it is going to run, rebuilt as the fields change. Nothing here reaches the
//! server until that SQL has been on screen and Run pressed.
//!
//! On success the table's rows, structure and indexes are read again and the
//! tree catches up; on failure the sheet stays open with the engine's own
//! words, so the fix is one edit away rather than a whole form retyped.
use crate::controls::{check_box_is, CheckBox};
use crate::domain::{Column, Status, TableRef};
use crate::keys::{tabbed, Keystroke};
use crate::text::{
    decimal, lemma_places_step, lowercase, opt, places_where, push_decimal, same, texts,
    to_lowercase, trim, trimmed,
};
use crate::text_input::{line_input, InputView, TextInput};
use vstd::prelude::*;
use vstd::string::*;

verus! {

#[derive(Debug)]
pub enum SheetKind {
    AddColumn,
    EditColumn(Column),
    DropColumn(String),
    /// With the table's columns, to pick the indexed ones from.
    AddIndex(Vec<String>),
    DropIndex(String),
    CreateTable,
}

/// One column of a table being created.
#[derive(Debug)]
pub struct NewColumn {
    pub name: TextInput,
    pub data_type: TextInput,
    pub nullable: bool,
    pub key: bool,
}

impl NewColumn {
    pub open spec fn is_blank(self) -> bool {
        self.name@ == line_input(Seq::empty()) && self.data_type@ == line_input(Seq::empty())
            && self.nullable && !self.key
    }

    pub fn blank() -> (column: Self)
        ensures
            column.is_blank(),
    {
        NewColumn {
            name: TextInput::new(false),
            data_type: TextInput::new(false),
            nullable: true,
            key: false,
        }
    }
}

#[derive(Debug)]
pub struct SchemaSheet {
    pub table: TableRef,
    pub kind: SheetKind,
    /// Column sheets: name, type, default. Index sheet: name. Create-table
    /// sheet: the table's name; its columns' fields are in `new_columns`.
    pub fields: Vec<TextInput>,
    pub nullable: bool,
    pub unique: bool,
    /// Index columns, in the order they were picked, which is index order.
    pub picked: Vec<String>,
    pub new_columns: Vec<NewColumn>,
    /// Which text field has the keyboard, counting every field in order.
    pub focused: usize,
    pub running: bool,
    pub error: Option<String>,
}

/// What the fields of a sheet start with, each on one line.
pub open spec fn starting_fields(table: TableRef, kind: SheetKind) -> Seq<InputView> {
    let blank = line_input(Seq::empty());
    match kind {
        SheetKind::AddColumn => seq![blank, blank, blank],
        SheetKind::EditColumn(column) => seq![
            line_input(column.name@),
            line_input(column.data_type@),
            match column.default {
                Some(default) => line_input(default@),
                None => blank,
            },
        ],
        SheetKind::AddIndex(_) => seq![blank],
        SheetKind::CreateTable => seq![line_input(table.name@)],
        _ => Seq::empty(),
    }
}

/// A sheet as it opens.
pub open spec fn opened(sheet: SchemaSheet, table: TableRef, kind: SheetKind) -> bool {
    &&& sheet.table == table
    &&& sheet.kind == kind
    &&& inputs(sheet.fields@) == starting_fields(table, kind)
    &&& sheet.nullable == (match kind {
        SheetKind::EditColumn(column) => column.nullable,
        _ => true,
    })
    &&& !sheet.unique
    &&& sheet.picked@.len() == 0
    &&& if kind is CreateTable {
        sheet.new_columns@.len() == 1 && sheet.new_columns@[0].is_blank()
    } else {
        sheet.new_columns@.len() == 0
    }
    &&& sheet.focused == 0
    &&& !sheet.running
    &&& sheet.error is None
}

/// What each input holds.
pub open spec fn inputs(fields: Seq<TextInput>) -> Seq<InputView> {
    Seq::new(fields.len(), |i: int| fields[i]@)
}

/// A column as it is asked for.
#[derive(Debug)]
pub struct ColumnSpec {
    pub name: String,
    pub data_type: String,
    pub nullable: bool,
    pub default: Option<String>,
}

/// What a column is asked for as.
pub struct ColumnView {
    pub name: Seq<char>,
    pub data_type: Seq<char>,
    pub nullable: bool,
    pub default: Option<Seq<char>>,
}

impl View for ColumnSpec {
    type V = ColumnView;

    open spec fn view(&self) -> ColumnView {
        ColumnView {
            name: self.name@,
            data_type: self.data_type@,
            nullable: self.nullable,
            default: opt(self.default),
        }
    }
}

pub open spec fn column_views(columns: Seq<ColumnSpec>) -> Seq<ColumnView> {
    Seq::new(columns.len(), |i: int| columns[i]@)
}

/// What the sheet asks the engine's dialect to write.
#[derive(Debug)]
pub enum Request<'a> {
    AddColumn(ColumnSpec),
    AlterColumn { before: &'a Column, after: ColumnSpec },
    DropColumn(&'a String),
    CreateIndex { name: String, on: &'a Vec<String>, unique: bool },
    DropIndex(&'a String),
    CreateTable { schema: &'a String, name: String, columns: Vec<ColumnSpec>, key: Vec<String> },
}

/// A row of the new table's columns that says anything at all.
pub open spec fn says_something(column: NewColumn) -> bool {
    trimmed(column.name@.text).len() > 0 || trimmed(column.data_type@.text).len() > 0
}

/// A key column is never null: said, rather than left to each engine to decide.
pub open spec fn new_column_view(column: NewColumn) -> ColumnView {
    ColumnView {
        name: trimmed(column.name@.text),
        data_type: trimmed(column.data_type@.text),
        nullable: column.nullable && !column.key,
        default: None,
    }
}

/// The columns that a new table is asked for with.
pub open spec fn new_table_columns(columns: Seq<NewColumn>) -> Seq<ColumnView>
    decreases columns.len(),
{
    if columns.len() == 0 {
        Seq::empty()
    } else {
        let before = new_table_columns(columns.drop_last());
        if says_something(columns.last()) {
            before.push(new_column_view(columns.last()))
        } else {
            before
        }
    }
}

/// The names of the columns that a new table is keyed by.
pub open spec fn new_table_key(columns: Seq<NewColumn>) -> Seq<Seq<char>>
    decreases columns.len(),
{
    if columns.len() == 0 {
        Seq::empty()
    } else {
        let before = new_table_key(columns.drop_last());
        let last = columns.last();
        if last.key && trimmed(last.name@.text).len() > 0 {
            before.push(trimmed(last.name@.text))
        } else {
            before
        }
    }
}

impl SchemaSheet {
    pub fn new(table: TableRef, kind: SheetKind) -> (sheet: Self)
        ensures
            opened(sheet, table, kind),
    {
        let mut fields: Vec<TextInput> = Vec::new();
        let mut nullable = true;
        let mut new_columns: Vec<NewColumn> = Vec::new();
        match &kind {
            SheetKind::AddColumn => {
                fields.push(TextInput::new(false));
                fields.push(TextInput::new(false));
                fields.push(TextInput::new(false));
            },
            SheetKind::EditColumn(column) => {
                fields.push(TextInput::with_text(column.name.as_str().to_string(), false));
                fields.push(TextInput::with_text(column.data_type.as_str().to_string(), false));
                let default = match &column.default {
                    Some(default) => default.as_str().to_string(),
                    None => String::new(),
                };
                fields.push(TextInput::with_text(default, false));
                nullable = column.nullable;
            },
            SheetKind::AddIndex(_) => {
                fields.push(TextInput::new(false));
            },
            SheetKind::CreateTable => {
                fields.push(TextInput::with_text(table.name.as_str().to_string(), false));
                new_columns.push(NewColumn::blank());
            },
            SheetKind::DropColumn(_) => {},
            SheetKind::DropIndex(_) => {},
        }
        assert(inputs(fields@) == starting_fields(table, kind));
        SchemaSheet {
            table,
            kind,
            fields,
            nullable,
            unique: false,
            picked: Vec::new(),
            new_columns,
            focused: 0,
            running: false,
            error: None,
        }
    }

    /// How many text fields the sheet has.
    pub open spec fn count(self) -> int {
        (self.fields@.len() + self.new_columns@.len() * 2) as int
    }

    pub fn field_count(&self) -> (count: usize)
        requires
            self.count() <= usize::MAX,
        ensures
            count == self.count(),
    {
        self.fields.len() + self.new_columns.len() * 2
    }

    /// What a field holds, without the white space around it; nothing where
    /// there is no such field.
    pub open spec fn trimmed_field(self, index: int) -> Seq<char> {
        if 0 <= index < self.fields@.len() {
            trimmed(self.fields@[index]@.text)
        } else {
            Seq::empty()
        }
    }

    fn text(&self, index: usize) -> (text: String)
        ensures
            text@ == self.trimmed_field(index as int),
    {
        if index < self.fields.len() {
            trim(self.fields[index].text())
        } else {
            String::new()
        }
    }

    pub open spec fn spec_view(self) -> ColumnView {
        ColumnView {
            name: self.trimmed_field(0),
            data_type: self.trimmed_field(1),
            nullable: self.nullable,
            default: if self.trimmed_field(2).len() == 0 {
                None
            } else {
                Some(self.trimmed_field(2))
            },
        }
    }

    /// The column that the fields describe. An empty default is none.
    pub fn column_spec(&self) -> (column: ColumnSpec)
        ensures
            column@ == self.spec_view(),
    {
        let default = self.text(2);
        ColumnSpec {
            name: self.text(0),
            data_type: self.text(1),
            nullable: self.nullable,
            default: if default.as_str().is_empty() {
                None
            } else {
                Some(default)
            },
        }
    }

    fn new_table(&self) -> (table: (Vec<ColumnSpec>, Vec<String>))
        ensures
            column_views(table.0@) == new_table_columns(self.new_columns@),
            texts(table.1@) == new_table_key(self.new_columns@),
    {
        let mut columns: Vec<ColumnSpec> = Vec::new();
        let mut key: Vec<String> = Vec::new();
        let mut i: usize = 0;
        assert(self.new_columns@.take(0) == Seq::<NewColumn>::empty());
        assert(column_views(columns@) == Seq::<ColumnView>::empty());
        assert(texts(key@) == Seq::<Seq<char>>::empty());
        while i < self.new_columns.len()
            invariant
                i <= self.new_columns@.len(),
                column_views(columns@) == new_table_columns(self.new_columns@.take(i as int)),
                texts(key@) == new_table_key(self.new_columns@.take(i as int)),
            decreases self.new_columns@.len() - i,
        {
            let column = &self.new_columns[i];
            let ghost columns_before = columns@;
            let ghost key_before = key@;
            assert(self.new_columns@.take(i + 1).drop_last() == self.new_columns@.take(i as int));
            let name = trim(column.name.text());
            let data_type = trim(column.data_type.text());
            let named = !name.as_str().is_empty();
            if column.key && named {
                key.push(name.as_str().to_string());
                assert(texts(key@) == texts(key_before).push(name@));
            }
            if named || !data_type.as_str().is_empty() {
                columns.push(
                    ColumnSpec {
                        name,
                        data_type,
                        nullable: column.nullable && !column.key,
                        default: None,
                    },
                );
                assert(column_views(columns@) == column_views(columns_before).push(
                    new_column_view(*column),
                ));
            }
            i += 1;
        }
        assert(self.new_columns@.take(i as int) == self.new_columns@);
        (columns, key)
    }

    /// What the sheet asks for.
    pub open spec fn asks(self, request: Request) -> bool {
        match self.kind {
            SheetKind::AddColumn => request matches Request::AddColumn(column) && column@
                == self.spec_view(),
            SheetKind::EditColumn(column) => request matches Request::AlterColumn { before, after }
                && *before == column && after@ == self.spec_view(),
            SheetKind::DropColumn(name) => request matches Request::DropColumn(dropped)
                && *dropped == name,
            SheetKind::AddIndex(_) => request matches Request::CreateIndex { name, on, unique }
                && name@ == self.trimmed_field(0) && *on == self.picked && unique
                == self.unique,
            SheetKind::DropIndex(name) => request matches Request::DropIndex(dropped) && *dropped
                == name,
            SheetKind::CreateTable => request matches Request::CreateTable {
                schema,
                name,
                columns,
                key,
            } && *schema == self.table.schema && name@ == self.trimmed_field(0) && column_views(
                columns@,
            ) == new_table_columns(self.new_columns@) && texts(key@) == new_table_key(
                self.new_columns@,
            ),
        }
    }

    /// What Run asks the engine's dialect to write.
    pub fn request(&self) -> (request: Request<'_>)
        ensures
            self.asks(request),
    {
        match &self.kind {
            SheetKind::AddColumn => Request::AddColumn(self.column_spec()),
            SheetKind::EditColumn(before) => Request::AlterColumn {
                before,
                after: self.column_spec(),
            },
            SheetKind::DropColumn(name) => Request::DropColumn(name),
            SheetKind::AddIndex(_) => Request::CreateIndex {
                name: self.text(0),
                on: &self.picked,
                unique: self.unique,
            },
            SheetKind::DropIndex(name) => Request::DropIndex(name),
            SheetKind::CreateTable => {
                let (columns, key) = self.new_table();
                Request::CreateTable { schema: &self.table.schema, name: self.text(0), columns, key }
            },
        }
    }

    /// What Run will send, or why it cannot: what the dialect wrote, where an
    /// edit that changes nothing is no statement yet.
    pub fn statements(&self, written: Result<Vec<String>, String>) -> (result: Result<
        Vec<String>,
        String,
    >)
        ensures
            match written {
                Ok(list) if self.kind is EditColumn && list@.len() == 0 => result matches Err(
                    problem,
                ) && problem@ == "Nothing changed yet"@,
                _ => result == written,
            },
    {
        let edits = match &self.kind {
            SheetKind::EditColumn(_) => true,
            _ => false,
        };
        match written {
            Ok(list) => {
                if edits && list.len() == 0 {
                    Err("Nothing changed yet".to_string())
                } else {
                    Ok(list)
                }
            },
            Err(problem) => Err(problem),
        }
    }

    pub open spec fn title_text(self) -> Seq<char> {
        match self.kind {
            SheetKind::AddColumn => "Add a column to "@ + self.table.name@,
            SheetKind::EditColumn(column) => "Edit "@ + self.table.name@ + "."@ + column.name@,
            SheetKind::DropColumn(name) => "Drop "@ + self.table.name@ + "."@ + name@,
            SheetKind::AddIndex(_) => "Add an index to "@ + self.table.name@,
            SheetKind::DropIndex(name) => "Drop index "@ + name@,
            SheetKind::CreateTable => "New table in "@ + self.table.schema@,
        }
    }

    pub fn title(&self) -> (title: String)
        ensures
            title@ == self.title_text(),
    {
        let mut title: String = String::new();
        match &self.kind {
            SheetKind::AddColumn => {
                title.append("Add a column to ");
                title.append(self.table.name.as_str());
            },
            SheetKind::EditColumn(column) => {
                title.append("Edit ");
                title.append(self.table.name.as_str());
                title.append(".");
                title.append(column.name.as_str());
            },
            SheetKind::DropColumn(name) => {
                title.append("Drop ");
                title.append(self.table.name.as_str());
                title.append(".");
                title.append(name.as_str());
            },
            SheetKind::AddIndex(_) => {
                title.append("Add an index to ");
                title.append(self.table.name.as_str());
            },
            SheetKind::DropIndex(name) => {
                title.append("Drop index ");
                title.append(name.as_str());
            },
            SheetKind::CreateTable => {
                title.append("New table in ");
                title.append(self.table.schema.as_str());
            },
        }
        assert(title@ == self.title_text());
        title
    }

    pub fn is_destructive(&self) -> (destructive: bool)
        ensures
            destructive == (self.kind is DropColumn || self.kind is DropIndex),
    {
        match &self.kind {
            SheetKind::DropColumn(_) => true,
            SheetKind::DropIndex(_) => true,
            _ => false,
        }
    }
}

proof fn lemma_column_sent(columns: Seq<NewColumn>, i: int)
    requires
        0 <= i < columns.len(),
        says_something(columns[i]),
    ensures
        new_table_columns(columns).contains(new_column_view(columns[i])),
    decreases columns.len(),
{
    let all = new_table_columns(columns);
    let before = new_table_columns(columns.drop_last());
    if i == columns.len() - 1 {
        assert(all[before.len() as int] == new_column_view(columns[i]));
    } else {
        lemma_column_sent(columns.drop_last(), i);
        let at = choose|at: int|
            0 <= at < before.len() && before[at] == new_column_view(columns[i]);
        assert(all[at] == before[at]);
    }
}

/// A key column of a new table is among its columns, and is never null.
pub proof fn key_columns_are_sent_and_never_null(columns: Seq<NewColumn>, i: int)
    requires
        0 <= i < columns.len(),
        columns[i].key,
        trimmed(columns[i].name@.text).len() > 0,
    ensures
        new_table_columns(columns).contains(new_column_view(columns[i])),
        !new_column_view(columns[i]).nullable,
        new_column_view(columns[i]).name == trimmed(columns[i].name@.text),
{
    lemma_column_sent(columns, i);
}

/// The row of a new table there says something: a name or a type.
pub open spec fn row_is_filled_in(rows: Seq<NewColumn>) -> spec_fn(int) -> bool {
    |i: int| trimmed(rows[i].name@.text).len() > 0 || trimmed(rows[i].data_type@.text).len() > 0
}

/// The row of a new table there is a key and has a name.
pub open spec fn row_is_a_key(rows: Seq<NewColumn>) -> spec_fn(int) -> bool {
    |i: int| rows[i].key && trimmed(rows[i].name@.text).len() > 0
}

proof fn lemma_new_columns(rows: Seq<NewColumn>, upto: int) -> (places: (Seq<int>, Seq<int>))
    requires
        0 <= upto <= rows.len(),
    ensures
        places_where(places.0, upto, row_is_filled_in(rows)),
        new_table_columns(rows.take(upto)).len() == places.0.len(),
        forall|j: int|
            0 <= j < places.0.len() ==> {
                let row = rows[places.0[j]];
                let sent = #[trigger] new_table_columns(rows.take(upto))[j];
                &&& sent.name == trimmed(row.name@.text)
                &&& sent.data_type == trimmed(row.data_type@.text)
                &&& sent.nullable <==> row.nullable && !row.key
                &&& sent.default is None
            },
        places_where(places.1, upto, row_is_a_key(rows)),
        new_table_key(rows.take(upto)) == Seq::new(
            places.1.len(),
            |j: int| trimmed(rows[places.1[j]].name@.text),
        ),
    decreases upto,
{
    if upto == 0 {
        assert(rows.take(0) == Seq::<NewColumn>::empty());
        let none = Seq::<int>::empty();
        assert(new_table_key(rows.take(upto)) == Seq::new(
            none.len(),
            |j: int| trimmed(rows[none[j]].name@.text),
        ));
        (none, none)
    } else {
        let n = upto - 1;
        let before = lemma_new_columns(rows, n);
        lemma_places_step(before.0, n, row_is_filled_in(rows));
        lemma_places_step(before.1, n, row_is_a_key(rows));
        assert(rows.take(upto).drop_last() == rows.take(n));
        assert(rows.take(upto).last() == rows[n]);
        let filled = if says_something(rows[n]) {
            before.0.push(n)
        } else {
            before.0
        };
        let keys = if row_is_a_key(rows)(n) {
            before.1.push(n)
        } else {
            before.1
        };
        assert(row_is_filled_in(rows)(n) == says_something(rows[n]));
        let sent_before = new_table_columns(rows.take(n));
        let all = new_table_columns(rows.take(upto));
        assert forall|j: int| 0 <= j < filled.len() implies {
            let row = rows[filled[j]];
            let sent = #[trigger] all[j];
            &&& sent.name == trimmed(row.name@.text)
            &&& sent.data_type == trimmed(row.data_type@.text)
            &&& sent.nullable <==> row.nullable && !row.key
            &&& sent.default is None
        } by {
            if j < sent_before.len() {
                assert(all[j] == sent_before[j]);
            }
        }
        assert(new_table_key(rows.take(upto)) == Seq::new(
            keys.len(),
            |j: int| trimmed(rows[keys[j]].name@.text),
        ));
        (filled, keys)
    }
}

/// A new table is asked for as its sheet was filled in: a column for every row
/// that says something, in their order, with its name and its type, and allowing
/// NULL exactly where its Null box is on and it is no key; and keyed by the rows
/// whose Key box is on, in their order.
pub proof fn a_new_table_is_as_it_was_filled_in(sheet: SchemaSheet, request: Request)
    requires
        sheet.kind is CreateTable,
        sheet.asks(request),
    ensures
        request matches Request::CreateTable { schema, name, columns, key } && {
            let rows = sheet.new_columns@;
            &&& schema@ == sheet.table.schema@
            &&& sheet.fields@.len() > 0 ==> name@ == trimmed(sheet.fields@[0]@.text)
            &&& exists|places: Seq<int>|
                {
                    &&& #[trigger] places_where(places, rows.len() as int, row_is_filled_in(rows))
                    &&& columns@.len() == places.len()
                    &&& forall|j: int|
                        0 <= j < places.len() ==> {
                            let row = rows[places[j]];
                            let sent = #[trigger] columns@[j];
                            &&& sent.name@ == trimmed(row.name@.text)
                            &&& sent.data_type@ == trimmed(row.data_type@.text)
                            &&& sent.nullable <==> row.nullable && !row.key
                            &&& sent.default is None
                        }
                }
            &&& exists|places: Seq<int>|
                {
                    &&& #[trigger] places_where(places, rows.len() as int, row_is_a_key(rows))
                    &&& key@.len() == places.len()
                    &&& forall|j: int|
                        0 <= j < places.len() ==> (#[trigger] key@[j])@ == trimmed(
                            rows[places[j]].name@.text,
                        )
                }
        },
{
    if let Request::CreateTable { schema, name, columns, key } = request {
        let rows = sheet.new_columns@;
        assert(rows.take(rows.len() as int) == rows);
        let (filled, keys) = lemma_new_columns(rows, rows.len() as int);
        assert(columns@.len() == column_views(columns@).len());
        assert forall|j: int| 0 <= j < filled.len() implies {
            let row = rows[filled[j]];
            let sent = #[trigger] columns@[j];
            &&& sent.name@ == trimmed(row.name@.text)
            &&& sent.data_type@ == trimmed(row.data_type@.text)
            &&& sent.nullable <==> row.nullable && !row.key
            &&& sent.default is None
        } by {
            assert(column_views(columns@)[j] == columns@[j]@);
            assert(new_table_columns(rows.take(rows.len() as int))[j].default is None);
        }
        assert(key@.len() == texts(key@).len());
        assert forall|j: int| 0 <= j < keys.len() implies (#[trigger] key@[j])@ == trimmed(
            rows[keys[j]].name@.text,
        ) by {
            assert(texts(key@)[j] == key@[j]@);
        }
        assert(places_where(filled, rows.len() as int, row_is_filled_in(rows)));
        assert(places_where(keys, rows.len() as int, row_is_a_key(rows)));
    }
}

/// A column is asked for as its fields say: name, type and default without the
/// white space around them, an empty default as none, and NULL as its box has it.
pub proof fn a_column_is_as_its_fields_say(sheet: SchemaSheet, request: Request)
    requires
        sheet.kind is AddColumn || sheet.kind is EditColumn,
        sheet.fields@.len() == 3,
        sheet.asks(request),
    ensures
        ({
            let asked = match request {
                Request::AddColumn(column) => Some(column),
                Request::AlterColumn { after, .. } => Some(after),
                _ => None,
            };
            &&& request is AddColumn <==> sheet.kind is AddColumn
            &&& request matches Request::AlterColumn { before, .. } ==> (
            sheet.kind matches SheetKind::EditColumn(column) && *before == column)
            &&& asked matches Some(column)
            &&& column.name@ == trimmed(sheet.fields@[0]@.text)
            &&& column.data_type@ == trimmed(sheet.fields@[1]@.text)
            &&& column.nullable <==> sheet.nullable
            &&& column.default is None <==> trimmed(sheet.fields@[2]@.text).len() == 0
            &&& column.default matches Some(default) ==> default@ == trimmed(
                sheet.fields@[2]@.text,
            )
        }),
{
    match request {
        Request::AddColumn(column) => {
            assert(column@.default == opt(column.default));
            assert(column@ == sheet.spec_view());
        },
        Request::AlterColumn { before, after } => {
            assert(after@.default == opt(after.default));
            assert(after@ == sheet.spec_view());
        },
        _ => {},
    }
}

/// An edit that nothing was changed in asks for the column as it is, but for white
/// space around what it is called and an empty default.
pub proof fn an_untouched_edit_asks_for_the_same_column(
    sheet: SchemaSheet,
    table: TableRef,
    column: Column,
    request: Request,
)
    requires
        opened(sheet, table, SheetKind::EditColumn(column)),
        sheet.asks(request),
    ensures
        request matches Request::AlterColumn { before, after } && {
            &&& *before == column
            &&& after.name@ == trimmed(column.name@)
            &&& after.data_type@ == trimmed(column.data_type@)
            &&& after.nullable == column.nullable
            &&& column.default is None ==> after.default is None
            &&& column.default matches Some(default) ==> trimmed(default@).len() > 0 ==> opt(
                after.default,
            ) == Some(trimmed(default@))
        },
{
    assert(inputs(sheet.fields@).len() == sheet.fields@.len());
    assert(sheet.fields@.len() == 3);
    assert(inputs(sheet.fields@)[0] == sheet.fields@[0]@);
    assert(inputs(sheet.fields@)[1] == sheet.fields@[1]@);
    assert(inputs(sheet.fields@)[2] == sheet.fields@[2]@);
    a_column_is_as_its_fields_say(sheet, request);
    assert(trimmed(Seq::<char>::empty()) == Seq::<char>::empty());
}

/// An index is asked for with the columns that were picked, in that order, and
/// what is dropped is what the sheet was opened on.
pub proof fn an_index_and_a_drop_are_as_asked(sheet: SchemaSheet, request: Request)
    requires
        sheet.asks(request),
    ensures
        sheet.kind is AddIndex <==> request is CreateIndex,
        request matches Request::CreateIndex { name, on, unique } ==> {
            &&& sheet.fields@.len() > 0 ==> name@ == trimmed(sheet.fields@[0]@.text)
            &&& texts(on@) == texts(sheet.picked@)
            &&& unique == sheet.unique
        },
        sheet.kind is DropColumn <==> request is DropColumn,
        request matches Request::DropColumn(name) ==> (
        sheet.kind matches SheetKind::DropColumn(asked) && name@ == asked@),
        sheet.kind is DropIndex <==> request is DropIndex,
        request matches Request::DropIndex(name) ==> (
        sheet.kind matches SheetKind::DropIndex(asked) && name@ == asked@),
{
}

/// Opens a sheet. A read-only connection refuses: what it would not do.
pub fn open_schema_sheet(read_only: bool, table: TableRef, kind: SheetKind) -> (sheet: Result<
    SchemaSheet,
    String,
>)
    ensures
        match sheet {
            Ok(sheet) => !read_only && opened(sheet, table, kind),
            Err(what) => read_only && what@ == "Changing a table"@,
        },
{
    if read_only {
        Err("Changing a table".to_string())
    } else {
        Ok(SchemaSheet::new(table, kind))
    }
}

/// A sheet on the table in front, where there is one.
pub open spec fn opened_on(
    sheet: Option<Result<SchemaSheet, String>>,
    read_only: bool,
    table: Option<TableRef>,
    kind: SheetKind,
) -> bool {
    match (sheet, table) {
        (Some(Ok(sheet)), Some(table)) => !read_only && opened(sheet, table, kind),
        (Some(Err(what)), Some(_)) => read_only && what@ == "Changing a table"@,
        (None, None) => true,
        _ => false,
    }
}

fn sheet_in_front(read_only: bool, table: Option<TableRef>, kind: SheetKind) -> (sheet: Option<
    Result<SchemaSheet, String>,
>)
    ensures
        opened_on(sheet, read_only, table, kind),
{
    match table {
        Some(table) => Some(open_schema_sheet(read_only, table, kind)),
        None => None,
    }
}

/// "Add Column…" on the table in front.
pub fn add_column_sheet(read_only: bool, table: Option<TableRef>) -> (sheet: Option<
    Result<SchemaSheet, String>,
>)
    ensures
        opened_on(sheet, read_only, table, SheetKind::AddColumn),
{
    sheet_in_front(read_only, table, SheetKind::AddColumn)
}

/// "Edit Column…", from what the column is now.
pub fn edit_column_sheet(read_only: bool, table: Option<TableRef>, column: Column) -> (sheet:
    Option<Result<SchemaSheet, String>>)
    ensures
        opened_on(sheet, read_only, table, SheetKind::EditColumn(column)),
{
    sheet_in_front(read_only, table, SheetKind::EditColumn(column))
}

/// "Drop Column…".
pub fn drop_column_sheet(read_only: bool, table: Option<TableRef>, name: String) -> (sheet: Option<
    Result<SchemaSheet, String>,
>)
    ensures
        opened_on(sheet, read_only, table, SheetKind::DropColumn(name)),
{
    sheet_in_front(read_only, table, SheetKind::DropColumn(name))
}

/// "Drop Index…".
pub fn drop_index_sheet(read_only: bool, table: Option<TableRef>, name: String) -> (sheet: Option<
    Result<SchemaSheet, String>,
>)
    ensures
        opened_on(sheet, read_only, table, SheetKind::DropIndex(name)),
{
    sheet_in_front(read_only, table, SheetKind::DropIndex(name))
}

/// "Add Index…" on the table in front, with its columns to pick from: none, where
/// its structure has not been read.
pub fn add_index_sheet(
    read_only: bool,
    table: Option<TableRef>,
    structure: Option<&Vec<Column>>,
) -> (sheet: Option<Result<SchemaSheet, String>>)
    ensures
        match (sheet, table) {
            (Some(Ok(sheet)), Some(table)) => {
                &&& !read_only
                &&& sheet.kind matches SheetKind::AddIndex(names)
                &&& opened(sheet, table, sheet.kind)
                &&& texts(names@) == (match structure {
                    Some(columns) => names_of(columns@),
                    None => Seq::empty(),
                })
            },
            (Some(Err(what)), Some(_)) => read_only && what@ == "Changing a table"@,
            (None, None) => true,
            _ => false,
        },
{
    let table = match table {
        Some(table) => table,
        None => return None,
    };
    let mut names: Vec<String> = Vec::new();
    assert(texts(names@) == Seq::<Seq<char>>::empty());
    if let Some(columns) = structure {
        let mut i: usize = 0;
        assert(names_of(columns@.take(0)) == Seq::<Seq<char>>::empty());
        while i < columns.len()
            invariant
                i <= columns@.len(),
                texts(names@) == names_of(columns@.take(i as int)),
            decreases columns@.len() - i,
        {
            let ghost before = names@;
            names.push(columns[i].name.as_str().to_string());
            assert(texts(names@) == texts(before).push(columns@[i as int].name@));
            assert(names_of(columns@.take(i + 1)) == names_of(columns@.take(i as int)).push(
                columns@[i as int].name@,
            ));
            i += 1;
        }
        assert(columns@.take(i as int) == columns@);
    }
    Some(open_schema_sheet(read_only, table, SheetKind::AddIndex(names)))
}

/// "New Table…": in the schema asked for, or that of the table in front, or the
/// connection's first.
pub fn create_table_sheet(
    read_only: bool,
    asked: Option<String>,
    front: Option<String>,
    first: Option<String>,
) -> (sheet: Result<Result<SchemaSheet, String>, Status>)
    ensures
        match nearest_schema(asked, front, first) {
            Some(schema) => {
                &&& sheet matches Ok(sheet)
                &&& match sheet {
                    Ok(sheet) => {
                        &&& !read_only
                        &&& sheet.table.schema == schema
                        &&& sheet.table.name@ == ""@
                        &&& opened(sheet, sheet.table, SheetKind::CreateTable)
                    },
                    Err(what) => read_only && what@ == "Changing a table"@,
                }
            },
            None => sheet matches Err(status) && status.info_is(
                "Connect first — a table needs a schema to live in"@,
            ),
        },
{
    let schema = match (asked, front, first) {
        (Some(name), _, _) => name,
        (None, Some(name), _) => name,
        (None, None, Some(name)) => name,
        (None, None, None) => return Err(
            Status::info("Connect first — a table needs a schema to live in"),
        ),
    };
    let table = TableRef { schema, name: "".to_string() };
    Ok(open_schema_sheet(read_only, table, SheetKind::CreateTable))
}

pub open spec fn nearest_schema(
    asked: Option<String>,
    front: Option<String>,
    first: Option<String>,
) -> Option<String> {
    if asked is Some {
        asked
    } else if front is Some {
        front
    } else {
        first
    }
}

pub open spec fn names_of(columns: Seq<Column>) -> Seq<Seq<char>> {
    Seq::new(columns.len(), |i: int| columns[i].name@)
}

/// The index list after a reading. A table the engine will not list indexes for
/// still shows its columns; the index list just says none.
pub fn indexes_landed<T>(landed: Option<Result<Vec<T>, String>>) -> (indexes: Vec<T>)
    ensures
        match landed {
            Some(Ok(found)) => indexes == found,
            _ => indexes@.len() == 0,
        },
{
    match landed {
        Some(Ok(found)) => found,
        _ => Vec::new(),
    }
}

/// What Run comes to.
#[derive(Debug)]
pub enum RunStart {
    /// The connection is read-only: what it would not do.
    Refused(String),
    NotConnected(Status),
    Nothing,
    /// The statements go out; `created` is the table that they create.
    Send { statements: Vec<String>, status: Status, created: Option<TableRef> },
}

/// The sheet with nothing changed but whether it runs and what it was told.
pub open spec fn same_sheet(a: SchemaSheet, b: SchemaSheet) -> bool {
    a.table == b.table && a.kind == b.kind && a.fields == b.fields && a.nullable == b.nullable
        && a.unique == b.unique && a.picked == b.picked && a.new_columns == b.new_columns
        && a.focused == b.focused
}

/// The sheet with nothing changed but what its text fields hold.
pub open spec fn same_but_inputs(a: SchemaSheet, b: SchemaSheet) -> bool {
    a.table == b.table && a.kind == b.kind && a.nullable == b.nullable && a.unique == b.unique
        && a.picked == b.picked && a.focused == b.focused && a.running == b.running && a.error
        == b.error
}

/// Run: send the previewed statements. The read-only flag is looked at again; a
/// sheet that is running already is left alone.
pub fn run_schema_sheet(
    sheet: Option<SchemaSheet>,
    read_only: bool,
    connected: bool,
    statements: Result<Vec<String>, String>,
) -> (step: (Option<SchemaSheet>, RunStart))
    ensures
        match sheet {
            _ if read_only => step.0 is None && (step.1 matches RunStart::Refused(what) && what@
                == "Changing a table"@),
            _ if !connected => step.0 == sheet && (step.1 matches RunStart::NotConnected(status)
                && status.error_is("Not connected"@)),
            None => step.0 is None && step.1 is Nothing,
            Some(sheet) => if sheet.running {
                step.0 == Some(sheet) && step.1 is Nothing
            } else {
                match statements {
                    Err(problem) => {
                        &&& step.1 is Nothing
                        &&& step.0 is Some
                        &&& same_sheet(step.0.unwrap(), sheet)
                        &&& !step.0.unwrap().running
                        &&& step.0.unwrap().error == Some(problem)
                    },
                    Ok(list) => {
                        &&& step.0 is Some
                        &&& same_sheet(step.0.unwrap(), sheet)
                        &&& step.0.unwrap().running
                        &&& step.0.unwrap().error is None
                        &&& step.1 matches RunStart::Send { statements: sent, status, created }
                        &&& sent == list
                        &&& status.busy_is("Changing the table…"@)
                        &&& match created {
                            Some(table) => sheet.kind is CreateTable && table.schema@
                                == sheet.table.schema@ && table.name@ == sheet.trimmed_field(0),
                            None => !(sheet.kind is CreateTable),
                        }
                    },
                }
            },
        },
{
    if read_only {
        return (None, RunStart::Refused("Changing a table".to_string()));
    }
    if !connected {
        return (sheet, RunStart::NotConnected(Status::error("Not connected")));
    }
    let mut open = match sheet {
        Some(open) => open,
        None => return (None, RunStart::Nothing),
    };
    if open.running {
        return (Some(open), RunStart::Nothing);
    }
    match statements {
        Err(problem) => {
            open.error = Some(problem);
            (Some(open), RunStart::Nothing)
        },
        Ok(list) => {
            let creates = match &open.kind {
                SheetKind::CreateTable => true,
                _ => false,
            };
            let created = if creates {
                Some(
                    TableRef {
                        schema: open.table.schema.as_str().to_string(),
                        name: open.text(0),
                    },
                )
            } else {
                None
            };
            open.running = true;
            open.error = None;
            (
                Some(open),
                RunStart::Send {
                    statements: list,
                    status: Status::Busy("Changing the table…".to_string()),
                    created,
                },
            )
        },
    }
}

/// What the status line says of a change that went through, under the sheet's
/// title in lower case.
pub fn done_status(title_lower: &str) -> (status: Status)
    ensures
        status.info_is("Done: "@ + title_lower@),
{
    let mut line: String = "Done: ".to_string();
    line.append(title_lower);
    Status::Info(line)
}

/// What follows the end of a change: the status line, whether the new table
/// opens on its structure, and whether the table in front is read again.
#[derive(Debug)]
pub struct RunEnd {
    pub status: Option<Status>,
    pub refresh_catalog: bool,
    pub open_created: bool,
    pub refresh_table: bool,
}

/// What a change's end leaves of the sheet, and what follows.
pub fn run_landed(
    sheet: Option<SchemaSheet>,
    landed: &Option<Result<(), String>>,
    title: &str,
    creates: bool,
) -> (step: (Option<SchemaSheet>, RunEnd))
    ensures
        match landed {
            Some(Ok(_)) => {
                &&& step.0 is None
                &&& step.1.status matches Some(status) && status.info_is(
                    "Done: "@ + lowercase(title@),
                )
                &&& step.1.refresh_catalog
                &&& step.1.open_created == creates
                &&& step.1.refresh_table == !creates
            },
            Some(Err(error)) => {
                &&& match (step.0, sheet) {
                    (Some(after), Some(before)) => same_sheet(after, before) && !after.running
                        && opt(after.error) == Some(error@),
                    (None, None) => true,
                    _ => false,
                }
                &&& step.1.status matches Some(status) && status.error_is(error@)
                &&& !step.1.refresh_catalog && !step.1.open_created && !step.1.refresh_table
            },
            None => {
                &&& match (step.0, sheet) {
                    (Some(after), Some(before)) => same_sheet(after, before) && !after.running
                        && after.error == before.error,
                    (None, None) => true,
                    _ => false,
                }
                &&& step.1.status is None
                &&& !step.1.refresh_catalog && !step.1.open_created && !step.1.refresh_table
            },
        },
{
    match landed {
        Some(Ok(_)) => {
            let lower = to_lowercase(title);
            (
                None,
                RunEnd {
                    status: Some(done_status(lower.as_str())),
                    refresh_catalog: true,
                    open_created: creates,
                    refresh_table: !creates,
                },
            )
        },
        Some(Err(error)) => {
            let left = match sheet {
                Some(mut open) => {
                    open.running = false;
                    open.error = Some(error.as_str().to_string());
                    Some(open)
                },
                None => None,
            };
            (
                left,
                RunEnd {
                    status: Some(Status::error(error.as_str())),
                    refresh_catalog: false,
                    open_created: false,
                    refresh_table: false,
                },
            )
        },
        None => {
            let left = match sheet {
                Some(mut open) => {
                    open.running = false;
                    Some(open)
                },
                None => None,
            };
            (
                left,
                RunEnd {
                    status: None,
                    refresh_catalog: false,
                    open_created: false,
                    refresh_table: false,
                },
            )
        },
    }
}

/// Where a text field is, by its place in the tab order.
#[derive(Debug, Clone, Copy, PartialEq, Eq, Structural)]
pub enum InputPlace {
    Field(usize),
    ColumnName(usize),
    ColumnType(usize),
}

pub open spec fn input_place(fields: nat, columns: nat, index: int) -> Option<InputPlace> {
    if index < fields {
        Some(InputPlace::Field(index as usize))
    } else if (index - fields) / 2 < columns {
        if (index - fields) % 2 == 0 {
            Some(InputPlace::ColumnName(((index - fields) / 2) as usize))
        } else {
            Some(InputPlace::ColumnType(((index - fields) / 2) as usize))
        }
    } else {
        None
    }
}

/// Every place in the tab order is a field, and no place past it is.
pub proof fn the_tab_order_covers_the_fields(fields: nat, columns: nat, index: int)
    requires
        0 <= index,
    ensures
        input_place(fields, columns, index) is Some <==> index < fields + columns * 2,
{
}

/// The sheet's own fields come first in the tab order, then each new column's
/// name with its type right after it.
pub proof fn a_column_has_its_name_before_its_type(fields: nat, columns: nat, at: nat)
    requires
        fields + columns * 2 <= usize::MAX,
    ensures
        at < fields ==> input_place(fields, columns, at as int) == Some(
            InputPlace::Field(at as usize),
        ),
        at < columns ==> input_place(fields, columns, (fields + at * 2) as int) == Some(
            InputPlace::ColumnName(at as usize),
        ),
        at < columns ==> input_place(fields, columns, (fields + at * 2 + 1) as int) == Some(
            InputPlace::ColumnType(at as usize),
        ),
{
}

/// What a key does in the sheet.
#[derive(Debug, Clone, Copy, PartialEq, Eq, Structural)]
pub enum SheetKey {
    Close,
    Run,
    Moved,
    /// The input there takes it, if it wants it.
    Edit(InputPlace),
    Ignored,
}

impl SchemaSheet {
    /// The text field at focus position `index`.
    pub fn input_at(&self, index: usize) -> (place: Option<InputPlace>)
        ensures
            place == input_place(self.fields@.len(), self.new_columns@.len(), index as int),
    {
        let fields: usize = self.fields.len();
        if index < fields {
            return Some(InputPlace::Field(index));
        }
        let at: usize = index - fields;
        if at / 2 < self.new_columns.len() {
            if at % 2 == 0 {
                Some(InputPlace::ColumnName(at / 2))
            } else {
                Some(InputPlace::ColumnType(at / 2))
            }
        } else {
            None
        }
    }

    /// The text field at focus position `index`, to be typed into.
    pub fn input_mut(&mut self, index: usize) -> (input: Option<&mut TextInput>)
        ensures
            ({
                let place = input_place(
                    old(self).fields@.len(),
                    old(self).new_columns@.len(),
                    index as int,
                );
                match input {
                    Some(input) => {
                        &&& same_but_inputs(*final(self), *old(self))
                        &&& match place {
                            Some(InputPlace::Field(at)) => {
                                &&& *input == old(self).fields@[at as int]
                                &&& final(self).fields@ == old(self).fields@.update(
                                    at as int,
                                    *final(input),
                                )
                                &&& final(self).new_columns == old(self).new_columns
                            },
                            Some(InputPlace::ColumnName(at)) => {
                                let column = old(self).new_columns@[at as int];
                                &&& *input == column.name
                                &&& final(self).fields == old(self).fields
                                &&& final(self).new_columns@ == old(self).new_columns@.update(
                                    at as int,
                                    (NewColumn { name: *final(input), ..column }),
                                )
                            },
                            Some(InputPlace::ColumnType(at)) => {
                                let column = old(self).new_columns@[at as int];
                                &&& *input == column.data_type
                                &&& final(self).fields == old(self).fields
                                &&& final(self).new_columns@ == old(self).new_columns@.update(
                                    at as int,
                                    (NewColumn { data_type: *final(input), ..column }),
                                )
                            },
                            None => false,
                        }
                    },
                    None => place is None && *final(self) == *old(self),
                }
            }),
    {
        let fields: usize = self.fields.len();
        if index < fields {
            return Some(&mut self.fields[index]);
        }
        let at: usize = index - fields;
        if at / 2 >= self.new_columns.len() {
            return None;
        }
        let column = &mut self.new_columns[at / 2];
        if at % 2 == 0 {
            Some(&mut column.name)
        } else {
            Some(&mut column.data_type)
        }
    }

    /// What a key that went to a text field leaves: one that the field took clears
    /// the complaint.
    pub fn key_landed(&mut self, taken: bool)
        ensures
            same_sheet(*final(self), *old(self)),
            final(self).running == old(self).running,
            final(self).error == (if taken {
                None
            } else {
                old(self).error
            }),
    {
        if taken {
            self.error = None;
        }
    }

    /// Keys while the sheet is up: it is modal, so everything stops here.
    pub fn handle_schema_sheet_key(&mut self, keystroke: &Keystroke) -> (does: SheetKey)
        requires
            old(self).focused + old(self).count() <= usize::MAX,
        ensures
            final(self).table == old(self).table,
            final(self).kind == old(self).kind,
            final(self).fields == old(self).fields,
            final(self).nullable == old(self).nullable,
            final(self).unique == old(self).unique,
            final(self).picked == old(self).picked,
            final(self).new_columns == old(self).new_columns,
            final(self).running == old(self).running,
            final(self).error == old(self).error,
            final(self).focused == (if does == SheetKey::Moved {
                tabbed(old(self).focused as int, old(self).count(), keystroke.shift)
            } else {
                old(self).focused as int
            }),
            does == (if keystroke.key@ == "escape"@ {
                SheetKey::Close
            } else if keystroke.key@ == "enter"@ && !keystroke.platform {
                SheetKey::Run
            } else if keystroke.key@ == "tab"@ {
                SheetKey::Moved
            } else if old(self).running {
                SheetKey::Ignored
            } else {
                match input_place(
                    old(self).fields@.len(),
                    old(self).new_columns@.len(),
                    old(self).focused as int,
                ) {
                    Some(place) => SheetKey::Edit(place),
                    None => SheetKey::Ignored,
                }
            }),
    {
        let key = keystroke.key.as_str();
        if same(key, "escape") {
            return SheetKey::Close;
        }
        if same(key, "enter") && !keystroke.platform {
            return SheetKey::Run;
        }
        if same(key, "tab") {
            let count: usize = self.field_count();
            if count > 0 {
                self.focused = if keystroke.shift {
                    (self.focused + (count - 1)) % count
                } else {
                    (self.focused + 1) % count
                };
            }
            return SheetKey::Moved;
        }
        if self.running {
            return SheetKey::Ignored;
        }
        match self.input_at(self.focused) {
            Some(place) => SheetKey::Edit(place),
            None => SheetKey::Ignored,
        }
    }

    /// A click on an index column: out where it was picked, last where it was
    /// not.
    pub fn toggle_pick(&mut self, name: &str)
        ensures
            texts(final(self).picked@) == picked_after(texts(old(self).picked@), name@),
            final(self).error is None,
            final(self).table == old(self).table,
            final(self).kind == old(self).kind,
            final(self).fields == old(self).fields,
            final(self).nullable == old(self).nullable,
            final(self).unique == old(self).unique,
            final(self).new_columns == old(self).new_columns,
            final(self).running == old(self).running,
            final(self).focused == old(self).focused,
    {
        let ghost before = texts(self.picked@);
        match pick_place(&self.picked, name) {
            Some(at) => {
                let _ = self.picked.remove(at);
                assert(texts(self.picked@) == before.remove(at as int));
            },
            None => {
                self.picked.push(name.to_string());
                assert(texts(self.picked@) == before.push(name@));
            },
        }
        self.error = None;
    }

    /// A click on a column's key box. A place with no column has none.
    pub fn toggle_key(&mut self, at: usize)
        ensures
            same_but_inputs(*final(self), *old(self)),
            final(self).fields == old(self).fields,
            final(self).new_columns@ == (if at < old(self).new_columns@.len() {
                let column = old(self).new_columns@[at as int];
                old(self).new_columns@.update(at as int, (NewColumn { key: !column.key, ..column }))
            } else {
                old(self).new_columns@
            }),
    {
        if at < self.new_columns.len() {
            let column = &mut self.new_columns[at];
            column.key = !column.key;
        }
    }

    /// A click on a column's NULL box. A place with no column has none.
    pub fn toggle_null(&mut self, at: usize)
        ensures
            same_but_inputs(*final(self), *old(self)),
            final(self).fields == old(self).fields,
            final(self).new_columns@ == (if at < old(self).new_columns@.len() {
                let column = old(self).new_columns@[at as int];
                old(self).new_columns@.update(
                    at as int,
                    (NewColumn { nullable: !column.nullable, ..column }),
                )
            } else {
                old(self).new_columns@
            }),
    {
        if at < self.new_columns.len() {
            let column = &mut self.new_columns[at];
            column.nullable = !column.nullable;
        }
    }

    /// A click on the sheet's NULL box: whether the column takes NULL.
    pub fn toggle_nullable(&mut self)
        ensures
            *final(self) == (SchemaSheet { nullable: !old(self).nullable, ..*old(self) }),
    {
        self.nullable = !self.nullable;
    }

    /// A click on the sheet's UNIQUE box: whether the index is unique.
    pub fn toggle_unique(&mut self)
        ensures
            *final(self) == (SchemaSheet { unique: !old(self).unique, ..*old(self) }),
    {
        self.unique = !self.unique;
    }

    /// "+ Column": one more blank column, its name ready to be typed.
    pub fn add_new_column(&mut self)
        requires
            old(self).count() + 2 <= usize::MAX,
        ensures
            final(self).new_columns@.len() == old(self).new_columns@.len() + 1,
            final(self).new_columns@.drop_last() == old(self).new_columns@,
            final(self).new_columns@.last().is_blank(),
            final(self).focused == final(self).count() - 2,
            input_place(
                final(self).fields@.len(),
                final(self).new_columns@.len(),
                final(self).focused as int,
            ) == Some(InputPlace::ColumnName(old(self).new_columns@.len() as usize)),
            final(self).table == old(self).table,
            final(self).kind == old(self).kind,
            final(self).fields == old(self).fields,
            final(self).nullable == old(self).nullable,
            final(self).unique == old(self).unique,
            final(self).picked == old(self).picked,
            final(self).running == old(self).running,
            final(self).error == old(self).error,
    {
        self.new_columns.push(NewColumn::blank());
        self.focused = self.field_count() - 2;
        assert(self.new_columns@.drop_last() == old(self).new_columns@);
    }
}

/// The first place of a name in the list.
pub open spec fn first_place(list: Seq<Seq<char>>, name: Seq<char>) -> int {
    list.index_of_first(name).unwrap()
}

/// The picked columns after a click on one of them.
pub open spec fn picked_after(picked: Seq<Seq<char>>, name: Seq<char>) -> Seq<Seq<char>> {
    if picked.contains(name) {
        picked.remove(first_place(picked, name))
    } else {
        picked.push(name)
    }
}

fn pick_place(picked: &Vec<String>, name: &str) -> (at: Option<usize>)
    ensures
        match at {
            Some(at) => at < picked@.len() && texts(picked@).contains(name@) && at == first_place(
                texts(picked@),
                name@,
            ),
            None => !texts(picked@).contains(name@),
        },
{
    let mut i: usize = 0;
    while i < picked.len()
        invariant
            i <= picked@.len(),
            forall|k: int| 0 <= k < i ==> texts(picked@)[k] != name@,
        decreases picked@.len() - i,
    {
        assert(texts(picked@)[i as int] == picked@[i as int]@);
        if same(picked[i].as_str(), name) {
            proof {
                texts(picked@).index_of_first_ensures(name@);
            }
            return Some(i);
        }
        i += 1;
    }
    None
}

/// No column is in an index twice, however it is clicked together.
pub proof fn a_column_is_picked_once(picked: Seq<Seq<char>>, name: Seq<char>)
    requires
        picked.no_duplicates(),
    ensures
        picked_after(picked, name).no_duplicates(),
        picked_after(picked, name).contains(name) == !picked.contains(name),
{
    let after = picked_after(picked, name);
    picked.index_of_first_ensures(name);
    if picked.contains(name) {
        let at = first_place(picked, name);
        assert forall|i: int, j: int| 0 <= i < j < after.len() implies after[i] != after[j] by {
            let from_i = if i < at {
                i
            } else {
                i + 1
            };
            let from_j = if j < at {
                j
            } else {
                j + 1
            };
            assert(after[i] == picked[from_i]);
            assert(after[j] == picked[from_j]);
        }
        assert forall|i: int| 0 <= i < after.len() implies after[i] != name by {
            let from_i = if i < at {
                i
            } else {
                i + 1
            };
            assert(after[i] == picked[from_i]);
        }
    } else {
        assert(after[picked.len() as int] == name);
    }
}

/// A column that is picked goes last; one that is taken out leaves the others in
/// their order.
pub proof fn picking_keeps_the_order(picked: Seq<Seq<char>>, name: Seq<char>, at: int)
    ensures
        (forall|i: int| 0 <= i < picked.len() ==> picked[i] != name) ==> picked_after(picked, name)
            == picked + seq![name],
        0 <= at < picked.len() && picked[at] == name && (forall|i: int|
            0 <= i < at ==> picked[i] != name) ==> picked_after(picked, name) == picked.take(at)
            + picked.skip(at + 1),
{
    if forall|i: int| 0 <= i < picked.len() ==> picked[i] != name {
        assert(!picked.contains(name));
        assert(picked_after(picked, name) == picked + seq![name]);
    }
    if 0 <= at < picked.len() && picked[at] == name && (forall|i: int|
        0 <= i < at ==> picked[i] != name) {
        assert(picked.contains(name));
        picked.index_of_first_ensures(name);
        assert(first_place(picked, name) == at);
        assert(picked_after(picked, name) == picked.take(at) + picked.skip(at + 1));
    }
}

/// A text field of the sheet as it is drawn.
#[derive(Debug)]
pub struct SheetField {
    pub label: String,
    pub text: String,
    /// What it says while it is empty.
    pub hint: String,
    pub index: usize,
    pub focused: bool,
}

/// A column on offer for an index.
#[derive(Debug)]
pub struct IndexChip {
    /// The column's name, after its place in the index where it is picked.
    pub label: String,
    pub picked: bool,
}

/// A column of a new table as it is drawn.
#[derive(Debug)]
pub struct NewColumnLine {
    /// The place of its name field; its type's is the next.
    pub name_index: usize,
    pub name: String,
    pub name_hint: String,
    pub name_focused: bool,
    pub data_type: String,
    pub type_hint: String,
    pub type_focused: bool,
    pub key: CheckBox,
    pub null: CheckBox,
}

#[derive(Debug)]
pub enum SheetBody {
    Column { fields: Vec<SheetField>, nullable: CheckBox },
    Index { field: SheetField, caption: String, chips: Vec<IndexChip>, unique: CheckBox },
    Table { field: SheetField, columns: Vec<NewColumnLine>, add_column: String },
    Warning(String),
}

#[derive(Debug)]
pub struct SheetView {
    pub title: String,
    pub body: SheetBody,
    pub preview_caption: String,
    pub preview: String,
    pub preview_ok: bool,
    pub cancel: String,
    pub run_label: String,
    pub destructive: bool,
    pub can_run: bool,
    pub error: Option<String>,
}

/// The sheet has the text fields that its kind draws.
pub open spec fn fields_fit(sheet: SchemaSheet) -> bool {
    match sheet.kind {
        SheetKind::AddColumn | SheetKind::EditColumn(_) => sheet.fields@.len() >= 3,
        SheetKind::AddIndex(_) | SheetKind::CreateTable => sheet.fields@.len() >= 1,
        SheetKind::DropColumn(_) | SheetKind::DropIndex(_) => true,
    }
}

/// A sheet that was just opened can be drawn.
pub proof fn an_opened_sheet_can_be_drawn(sheet: SchemaSheet, table: TableRef, kind: SheetKind)
    requires
        opened(sheet, table, kind),
    ensures
        fields_fit(sheet),
{
    assert(inputs(sheet.fields@).len() == sheet.fields@.len());
}

pub open spec fn sheet_field_is(
    field: SheetField,
    label: Seq<char>,
    hint: Seq<char>,
    index: int,
    sheet: SchemaSheet,
) -> bool {
    &&& field.label@ == label
    &&& field.text@ == sheet.fields@[index]@.text
    &&& field.hint@ == hint
    &&& field.index == index
    &&& field.focused == (sheet.focused == index)
}

fn sheet_field(label: &str, hint: &str, index: usize, sheet: &SchemaSheet) -> (field: SheetField)
    requires
        index < sheet.fields@.len(),
    ensures
        sheet_field_is(field, label@, hint@, index as int, *sheet),
{
    SheetField {
        label: label.to_string(),
        text: sheet.fields[index].text().to_string(),
        hint: hint.to_string(),
        index,
        focused: sheet.focused == index,
    }
}

pub open spec fn chip_is(chip: IndexChip, name: Seq<char>, picked: Seq<Seq<char>>) -> bool {
    &&& chip.picked == picked.contains(name)
    &&& chip.label@ == (if picked.contains(name) {
        decimal((first_place(picked, name) + 1) as nat) + " "@ + name
    } else {
        name
    })
}

pub open spec fn new_line_is(line: NewColumnLine, sheet: SchemaSheet, at: int) -> bool {
    let name_index = sheet.fields@.len() + at * 2;
    let column = sheet.new_columns@[at];
    &&& line.name_index == name_index
    &&& line.name@ == column.name@.text
    &&& line.name_hint@ == "column"@
    &&& line.name_focused == (sheet.focused == name_index)
    &&& line.data_type@ == column.data_type@.text
    &&& line.type_hint@ == "type"@
    &&& line.type_focused == (sheet.focused == name_index + 1)
    &&& check_box_is(line.key, "Key"@, column.key)
    &&& check_box_is(line.null, "Null"@, column.nullable && !column.key)
}

pub open spec fn body_is(body: SheetBody, sheet: SchemaSheet) -> bool {
    match (sheet.kind, body) {
        (
            SheetKind::AddIndex(columns),
            SheetBody::Index { field, caption, chips, unique },
        ) => {
            &&& sheet_field_is(field, "Name"@, "index_name"@, 0, sheet)
            &&& caption@ == "Columns, in index order — click to add or remove"@
            &&& chips@.len() == columns@.len()
            &&& forall|i: int|
                0 <= i < chips@.len() ==> chip_is(
                    #[trigger] chips@[i],
                    columns@[i]@,
                    texts(sheet.picked@),
                )
            &&& check_box_is(unique, "Unique"@, sheet.unique)
        },
        (SheetKind::CreateTable, SheetBody::Table { field, columns, add_column }) => {
            &&& sheet_field_is(field, "Name"@, "table_name"@, 0, sheet)
            &&& columns@.len() == sheet.new_columns@.len()
            &&& forall|i: int|
                0 <= i < columns@.len() ==> new_line_is(#[trigger] columns@[i], sheet, i)
            &&& add_column@ == "+ Column"@
        },
        (
            SheetKind::DropColumn(_) | SheetKind::DropIndex(_),
            SheetBody::Warning(text),
        ) => text@ == "This cannot be undone from here."@,
        (
            SheetKind::AddColumn | SheetKind::EditColumn(_),
            SheetBody::Column { fields, nullable },
        ) => {
            &&& fields@.len() == 3
            &&& sheet_field_is(fields@[0], "Name"@, "column_name"@, 0, sheet)
            &&& sheet_field_is(fields@[1], "Type"@, "text, integer, numeric(10,2)…"@, 1, sheet)
            &&& sheet_field_is(
                fields@[2],
                "Default"@,
                "none — or an expression: 0, now()"@,
                2,
                sheet,
            )
            &&& check_box_is(nullable, "Allows NULL"@, sheet.nullable)
        },
        _ => false,
    }
}

/// The statements one to a line, each with its semicolon.
pub open spec fn preview_text(statements: Seq<Seq<char>>) -> Seq<char>
    decreases statements.len(),
{
    if statements.len() == 0 {
        Seq::empty()
    } else if statements.len() == 1 {
        statements[0] + ";"@
    } else {
        preview_text(statements.drop_last()) + "\n"@ + statements.last() + ";"@
    }
}

/// The preview is the statements in their order, each with its semicolon, and a
/// line break between two.
pub proof fn the_preview_is_what_is_sent(a: Seq<Seq<char>>, b: Seq<Seq<char>>)
    requires
        a.len() > 0,
        b.len() > 0,
    ensures
        preview_text(seq![a[0]]) == a[0].push(';'),
        preview_text(a + b) == preview_text(a).push('\n') + preview_text(b),
    decreases b.len(),
{
    reveal_strlit(";");
    reveal_strlit("\n");
    assert(preview_text(seq![a[0]]) == a[0].push(';'));
    let all = a + b;
    assert(all.drop_last() == a + b.drop_last());
    assert(all.last() == b.last());
    if b.len() == 1 {
        assert(all.drop_last() == a);
        assert(preview_text(b) == b[0] + ";"@);
        assert(preview_text(all) == preview_text(a).push('\n') + preview_text(b));
    } else {
        the_preview_is_what_is_sent(a, b.drop_last());
        assert(preview_text(all) == preview_text(a).push('\n') + preview_text(b));
    }
}

fn preview_of(statements: &Vec<String>) -> (preview: String)
    ensures
        preview@ == preview_text(texts(statements@)),
{
    let ghost all = texts(statements@);
    let mut preview: String = String::new();
    let mut i: usize = 0;
    while i < statements.len()
        invariant
            i <= statements@.len(),
            all == texts(statements@),
            preview@ == preview_text(all.take(i as int)),
        decreases statements@.len() - i,
    {
        let ghost before = preview@;
        assert(all.take(i + 1).drop_last() == all.take(i as int));
        assert(all.take(i + 1).last() == statements@[i as int]@);
        if i > 0 {
            preview.append("\n");
        } else {
            assert(all.take(0) == Seq::<Seq<char>>::empty());
        }
        preview.append(statements[i].as_str());
        preview.append(";");
        proof {
            if i == 0 {
                assert(all.take(1)[0] == statements@[0]@);
                assert(preview@ == statements@[0]@ + ";"@);
            } else {
                assert(preview@ == before + "\n"@ + statements@[i as int]@ + ";"@);
            }
        }
        i += 1;
    }
    assert(all.take(i as int) == all);
    preview
}

fn index_chips(columns: &Vec<String>, picked: &Vec<String>) -> (chips: Vec<IndexChip>)
    ensures
        chips@.len() == columns@.len(),
        forall|i: int|
            0 <= i < chips@.len() ==> chip_is(
                #[trigger] chips@[i],
                columns@[i]@,
                texts(picked@),
            ),
{
    let mut chips: Vec<IndexChip> = Vec::new();
    let mut i: usize = 0;
    while i < columns.len()
        invariant
            i <= columns@.len(),
            chips@.len() == i,
            forall|k: int|
                0 <= k < i ==> chip_is(#[trigger] chips@[k], columns@[k]@, texts(picked@)),
        decreases columns@.len() - i,
    {
        let name = columns[i].as_str();
        let chip = match pick_place(picked, name) {
            Some(at) => {
                let mut label: String = String::new();
                let total: usize = picked.len();
                assert(at < total);
                push_decimal(&mut label, at as u64 + 1);
                label.append(" ");
                label.append(name);
                assert(label@ == decimal((at + 1) as nat) + " "@ + name@);
                IndexChip { label, picked: true }
            },
            None => IndexChip { label: name.to_string(), picked: false },
        };
        chips.push(chip);
        i += 1;
    }
    chips
}

fn new_column_lines(sheet: &SchemaSheet) -> (lines: Vec<NewColumnLine>)
    requires
        sheet.count() <= usize::MAX,
    ensures
        lines@.len() == sheet.new_columns@.len(),
        forall|i: int| 0 <= i < lines@.len() ==> new_line_is(#[trigger] lines@[i], *sheet, i),
{
    let base: usize = sheet.fields.len();
    let mut lines: Vec<NewColumnLine> = Vec::new();
    let mut at: usize = 0;
    while at < sheet.new_columns.len()
        invariant
            at <= sheet.new_columns@.len(),
            base == sheet.fields@.len(),
            sheet.count() <= usize::MAX,
            lines@.len() == at,
            forall|k: int| 0 <= k < at ==> new_line_is(#[trigger] lines@[k], *sheet, k),
        decreases sheet.new_columns@.len() - at,
    {
        let column = &sheet.new_columns[at];
        let name_index: usize = base + at * 2;
        lines.push(
            NewColumnLine {
                name_index,
                name: column.name.text().to_string(),
                name_hint: "column".to_string(),
                name_focused: sheet.focused == name_index,
                data_type: column.data_type.text().to_string(),
                type_hint: "type".to_string(),
                type_focused: sheet.focused == name_index + 1,
                key: CheckBox { label: "Key".to_string(), on: column.key },
                null: CheckBox { label: "Null".to_string(), on: column.nullable && !column.key },
            },
        );
        at += 1;
    }
    lines
}

/// What the sheet shows, with what Run would send. What an engine cannot do in
/// place is said in the preview's place, and Run stays off.
pub fn render_schema_sheet(sheet: &SchemaSheet, preview: &Result<Vec<String>, String>) -> (view:
    SheetView)
    requires
        sheet.count() <= usize::MAX,
        fields_fit(*sheet),
    ensures
        view.preview_caption@ == "SQL"@,
        view.cancel@ == "Cancel"@,
        view.title@ == sheet.title_text(),
        body_is(view.body, *sheet),
        view.preview@ == (match preview {
            Ok(statements) => preview_text(texts(statements@)),
            Err(problem) => problem@,
        }),
        view.preview_ok == preview is Ok,
        view.destructive == (sheet.kind is DropColumn || sheet.kind is DropIndex),
        view.can_run == (preview is Ok && !sheet.running),
        view.run_label@ == (if sheet.running {
            "Running…"@
        } else if view.destructive {
            "Drop"@
        } else {
            "Run"@
        }),
        opt(view.error) == opt(sheet.error),
{
    let destructive = sheet.is_destructive();
    let body = match &sheet.kind {
        SheetKind::AddIndex(columns) => SheetBody::Index {
            field: sheet_field("Name", "index_name", 0, sheet),
            caption: "Columns, in index order — click to add or remove".to_string(),
            chips: index_chips(columns, &sheet.picked),
            unique: CheckBox { label: "Unique".to_string(), on: sheet.unique },
        },
        SheetKind::CreateTable => SheetBody::Table {
            field: sheet_field("Name", "table_name", 0, sheet),
            columns: new_column_lines(sheet),
            add_column: "+ Column".to_string(),
        },
        SheetKind::DropColumn(_) | SheetKind::DropIndex(_) => SheetBody::Warning(
            "This cannot be undone from here.".to_string(),
        ),
        SheetKind::AddColumn | SheetKind::EditColumn(_) => {
            let fields = vec![
                sheet_field("Name", "column_name", 0, sheet),
                sheet_field("Type", "text, integer, numeric(10,2)…", 1, sheet),
                sheet_field("Default", "none — or an expression: 0, now()", 2, sheet),
            ];
            SheetBody::Column {
                fields,
                nullable: CheckBox { label: "Allows NULL".to_string(), on: sheet.nullable },
            }
        },
    };
    let (preview_line, ok) = match preview {
        Ok(statements) => (preview_of(statements), true),
        Err(problem) => (problem.as_str().to_string(), false),
    };
    let run_label = if sheet.running {
        "Running…".to_string()
    } else if destructive {
        "Drop".to_string()
    } else {
        "Run".to_string()
    };
    let error = match &sheet.error {
        Some(error) => Some(error.as_str().to_string()),
        None => None,
    };
    SheetView {
        title: sheet.title(),
        body,
        preview_caption: "SQL".to_string(),
        preview: preview_line,
        preview_ok: ok,
        cancel: "Cancel".to_string(),
        run_label,
        destructive,
        can_run: ok && !sheet.running,
        error,
    }
}

/// The title says what the sheet does, and to what.
pub proof fn the_title_says_what_the_sheet_does(sheet: SchemaSheet)
    ensures
        sheet.kind is AddColumn ==> sheet.title_text() == seq!['A', 'd', 'd', ' ', 'a', ' ', 'c', 'o', 'l', 'u', 'm', 'n', ' ', 't', 'o', ' ']
            + sheet.table.name@,
        sheet.kind matches SheetKind::EditColumn(column) ==> sheet.title_text() == seq!['E', 'd', 'i', 't', ' ']
            + sheet.table.name@ + seq!['.'] + column.name@,
        sheet.kind matches SheetKind::DropColumn(name) ==> sheet.title_text() == seq!['D', 'r', 'o', 'p', ' ']
            + sheet.table.name@ + seq!['.'] + name@,
        sheet.kind is AddIndex ==> sheet.title_text() == seq!['A', 'd', 'd', ' ', 'a', 'n', ' ', 'i', 'n', 'd', 'e', 'x', ' ', 't', 'o', ' ']
            + sheet.table.name@,
        sheet.kind matches SheetKind::DropIndex(name) ==> sheet.title_text() == seq!['D', 'r', 'o', 'p', ' ', 'i', 'n', 'd', 'e', 'x', ' ']
            + name@,
        sheet.kind is CreateTable ==> sheet.title_text() == seq!['N', 'e', 'w', ' ', 't', 'a', 'b', 'l', 'e', ' ', 'i', 'n', ' ']
            + sheet.table.schema@,
{
    reveal_strlit("Add a column to ");
    reveal_strlit("Edit ");
    reveal_strlit("Drop ");
    reveal_strlit(".");
    reveal_strlit("Add an index to ");
    reveal_strlit("Drop index ");
    reveal_strlit("New table in ");
    assert("Add a column to "@ == seq!['A', 'd', 'd', ' ', 'a', ' ', 'c', 'o', 'l', 'u', 'm', 'n', ' ', 't', 'o', ' ']);
    assert("Edit "@ == seq!['E', 'd', 'i', 't', ' ']);
    assert("Drop "@ == seq!['D', 'r', 'o', 'p', ' ']);
    assert("."@ == seq!['.']);
    assert("Add an index to "@ == seq!['A', 'd', 'd', ' ', 'a', 'n', ' ', 'i', 'n', 'd', 'e', 'x', ' ', 't', 'o', ' ']);
    assert("Drop index "@ == seq!['D', 'r', 'o', 'p', ' ', 'i', 'n', 'd', 'e', 'x', ' ']);
    assert("New table in "@ == seq!['N', 'e', 'w', ' ', 't', 'a', 'b', 'l', 'e', ' ', 'i', 'n', ' ']);
}

/// A column that is in the index is marked with its place in it, counted from one.
pub proof fn a_picked_column_shows_its_place(
    chip: IndexChip,
    picked: Seq<Seq<char>>,
    name: Seq<char>,
    at: int,
)
    requires
        chip_is(chip, name, picked),
    ensures
        chip.picked <==> picked.contains(name),
        !picked.contains(name) ==> chip.label@ == name,
        0 <= at < picked.len() && picked[at] == name && (forall|i: int|
            0 <= i < at ==> #[trigger] picked[i] != name) ==> chip.label@ == decimal(
            (at + 1) as nat,
        ) + seq![' '] + name,
{
    reveal_strlit(" ");
    assert(" "@ == seq![' ']);
    if 0 <= at < picked.len() && picked[at] == name && (forall|i: int|
        0 <= i < at ==> #[trigger] picked[i] != name) {
        assert(picked.contains(name));
        picked.index_of_first_ensures(name);
        let found = picked.index_of_first(name)->0;
        if found < at {
            assert(picked[found] != name);
        }
    }
}

/// A table is made in the schema that was asked for, or else in the one in front,
/// or else in the first.
pub proof fn a_table_is_made_in_the_nearest_schema(
    asked: Option<String>,
    front: Option<String>,
    first: Option<String>,
)
    ensures
        asked is Some ==> nearest_schema(asked, front, first) == asked,
        asked is None && front is Some ==> nearest_schema(asked, front, first) == front,
        asked is None && front is None ==> nearest_schema(asked, front, first) == first,
{
}

/// A sheet opens on the table in front, unless that may not be written to; without
/// a table there is none.
pub proof fn a_sheet_opens_on_the_table_in_front(
    sheet: Option<Result<SchemaSheet, String>>,
    read_only: bool,
    table: Option<TableRef>,
    kind: SheetKind,
)
    requires
        opened_on(sheet, read_only, table, kind),
    ensures
        sheet is Some <==> table is Some,
        sheet is Some ==> (sheet->0 is Ok <==> !read_only),
        sheet is Some && !read_only ==> (sheet->0)->Ok_0.table == table->0 && (
        sheet->0)->Ok_0.kind == kind,
{
}

/// A sheet opens ready to be filled in: nothing picked, nothing running, nothing
/// wrong. A column that is edited may be empty as it could before; a new table has
/// one row to fill in.
pub proof fn a_sheet_opens_ready_to_be_filled_in(
    sheet: SchemaSheet,
    table: TableRef,
    kind: SheetKind,
)
    requires
        opened(sheet, table, kind),
    ensures
        sheet.table == table && sheet.kind == kind,
        kind matches SheetKind::EditColumn(column) ==> sheet.nullable == column.nullable,
        !(kind is EditColumn) ==> sheet.nullable,
        !sheet.unique && sheet.picked@.len() == 0 && sheet.focused == 0,
        !sheet.running && sheet.error is None,
        sheet.new_columns@.len() == (if kind is CreateTable {
            1int
        } else {
            0
        }),
{
}

/// The line of a new column shows what is typed for it, in the two places that
/// follow those of the line above. A key cannot be empty, so it is not shown as one
/// that may be.
pub proof fn a_new_column_shows_what_is_typed(line: NewColumnLine, sheet: SchemaSheet, at: int)
    requires
        new_line_is(line, sheet, at),
    ensures
        ({
            let column = sheet.new_columns@[at];
            let first = sheet.fields@.len() + at + at;
            &&& line.name_index == first
            &&& line.name@ == column.name@.text
            &&& line.data_type@ == column.data_type@.text
            &&& line.name_focused <==> sheet.focused == first
            &&& line.type_focused <==> sheet.focused == first + 1
            &&& line.key.on == column.key
            &&& line.null.on <==> column.nullable && !column.key
        }),
{
}

/// A field shows what is typed in it, and whether it has the keyboard.
pub proof fn a_sheet_field_shows_what_is_typed(
    field: SheetField,
    label: Seq<char>,
    hint: Seq<char>,
    index: int,
    sheet: SchemaSheet,
)
    requires
        sheet_field_is(field, label, hint, index, sheet),
    ensures
        field.label@ == label && field.hint@ == hint,
        field.text@ == sheet.fields@[index]@.text,
        field.index == index,
        field.focused <==> sheet.focused == index,
{
}

/// Each kind of sheet has its own body: the fields of a column, the columns of an
/// index or of a table, or a warning.
pub proof fn a_sheet_is_drawn_by_its_kind(body: SheetBody, sheet: SchemaSheet)
    requires
        body_is(body, sheet),
    ensures
        body is Column <==> sheet.kind is AddColumn || sheet.kind is EditColumn,
        body is Index <==> sheet.kind is AddIndex,
        body is Table <==> sheet.kind is CreateTable,
        body is Warning <==> sheet.kind is DropColumn || sheet.kind is DropIndex,
        body matches SheetBody::Column { fields, nullable } ==> fields@.len() == 3
            && fields@[0].text@ == sheet.fields@[0]@.text && fields@[1].text@
            == sheet.fields@[1]@.text && fields@[2].text@ == sheet.fields@[2]@.text && nullable.on
            == sheet.nullable,
        body matches SheetBody::Index { field, chips, unique, .. } ==> field.text@
            == sheet.fields@[0]@.text && unique.on == sheet.unique && chips@.len()
            == sheet.kind->AddIndex_0@.len(),
        body matches SheetBody::Table { field, columns, .. } ==> field.text@
            == sheet.fields@[0]@.text && columns@.len() == sheet.new_columns@.len(),
{
}

} // verus!
