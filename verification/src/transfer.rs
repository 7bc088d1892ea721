//! Rows in and out of files, and whole databases.
//!
//! Export writes the table rather than the page on screen; import stages rather
//! than writes; a dump writes every schema as one SQL file, and a script runs
//! one statement at a time. What is decided here is which of these may start,
//! what the file is called, and what the status line says as it goes.
use crate::domain::Status;
use crate::text::{
    ascii_lower, begins, chars_of, decimal, lemma_places_step, places_where, plural, plural_s,
    push_decimal, same, slice, starts_with, string_of_range, texts, to_ascii_lower, trim, trimmed,
    trimming_is_final,
};
use std::ops::Range;
use vstd::prelude::*;
use vstd::string::*;
use vstd::utf8::{decode_utf8, encode_utf8, encode_utf8_decode_utf8, is_char_boundary};

verus! {

/// The last slash of the first `upto` characters; -1 where there is none.
pub open spec fn last_slash(path: Seq<char>, upto: int) -> int
    decreases upto,
{
    if upto <= 0 {
        -1
    } else if path[upto - 1] == '/' {
        upto - 1
    } else {
        last_slash(path, upto - 1)
    }
}

/// The last component of a Unix path. A slash at the end and a `.` component
/// are passed over; a path that ends in `..`, or has no component, names
/// nothing.
pub open spec fn last_name(path: Seq<char>) -> Seq<char>
    decreases path.len(),
    via last_name_shrinks
{
    let cut = last_slash(path, path.len() as int);
    let component = path.subrange(cut + 1, path.len() as int);
    if component.len() == 0 || component == seq!['.'] {
        if cut < 0 {
            Seq::empty()
        } else {
            last_name(path.take(cut))
        }
    } else if component == seq!['.', '.'] {
        Seq::empty()
    } else {
        component
    }
}

#[via_fn]
proof fn last_name_shrinks(path: Seq<char>) {
    lemma_last_slash(path, path.len() as int);
}

proof fn lemma_last_slash(path: Seq<char>, upto: int)
    requires
        0 <= upto <= path.len(),
    ensures
        -1 <= last_slash(path, upto) < upto || upto == 0,
        -1 <= last_slash(path, upto),
        last_slash(path, upto) >= 0 ==> path[last_slash(path, upto)] == '/',
        forall|i: int| last_slash(path, upto) < i < upto ==> path[i] != '/',
    decreases upto,
{
    if upto > 0 && path[upto - 1] != '/' {
        lemma_last_slash(path, upto - 1);
    }
}

/// What a file is called: the last component of its path, and nothing where
/// there is none.
pub fn display_name(path: &str) -> (name: String)
    ensures
        name@ == last_name(path@),
{
    let chars = chars_of(path);
    let mut end: usize = chars.len();
    assert(path@.take(end as int) == path@);
    loop
        invariant
            chars@ == path@,
            end <= chars@.len(),
            last_name(path@) == last_name(path@.take(end as int)),
        decreases end,
    {
        let ghost head = path@.take(end as int);
        let mut start: usize = end;
        while start > 0 && chars[start - 1] != '/'
            invariant
                chars@ == path@,
                start <= end <= chars@.len(),
                head == path@.take(end as int),
                last_slash(head, end as int) == last_slash(head, start as int),
            decreases start,
        {
            assert(head[start - 1] == chars@[start - 1]);
            start -= 1;
        }
        proof {
            if start > 0 {
                assert(head[start - 1] == chars@[start - 1]);
            }
            assert(last_slash(head, end as int) == start - 1);
        }
        let ghost component = head.subrange(start as int, end as int);
        assert(component == path@.subrange(start as int, end as int));
        let width: usize = end - start;
        let skipped = width == 0 || (width == 1 && chars[start] == '.');
        assert(skipped == (component.len() == 0 || component == seq!['.'])) by {
            if width == 1 {
                assert(component[0] == path@[start as int]);
                if chars@[start as int] == '.' {
                    assert(component == seq!['.']);
                }
            }
        }
        if skipped {
            if start == 0 {
                return String::new();
            }
            assert(head.take(start - 1) == path@.take(start - 1));
            end = start - 1;
        } else {
            let parent = width == 2 && chars[start] == '.' && chars[start + 1] == '.';
            assert(parent == (component == seq!['.', '.'])) by {
                if width == 2 {
                    assert(component[0] == path@[start as int]);
                    assert(component[1] == path@[start + 1]);
                    if chars@[start as int] == '.' && chars@[start + 1] == '.' {
                        assert(component == seq!['.', '.']);
                    }
                }
            }
            if parent {
                return String::new();
            }
            return string_of_range(&chars, start, end);
        }
    }
}

/// A file's name is one component: it holds no slash.
pub proof fn a_display_name_holds_no_slash(path: Seq<char>)
    ensures
        !last_name(path).contains('/'),
    decreases path.len(),
{
    lemma_last_slash(path, path.len() as int);
    let cut = last_slash(path, path.len() as int);
    let component = path.subrange(cut + 1, path.len() as int);
    if component.len() == 0 || component == seq!['.'] {
        if cut >= 0 {
            a_display_name_holds_no_slash(path.take(cut));
        }
    } else if component != seq!['.', '.'] {
        assert forall|i: int| 0 <= i < component.len() implies component[i] != '/' by {
            assert(component[i] == path[cut + 1 + i]);
        }
    }
}

/// A `.tsv` file is the clipboard's own shape: the extension is `tsv`, in either
/// case, and there is a name in front of it.
pub open spec fn has_tsv_extension(path: Seq<char>) -> bool {
    let name = last_name(path);
    let at = name.len() - 4;
    &&& at > 0
    &&& name[at] == '.'
    &&& ascii_lower(name[at + 1]) == 't'
    &&& ascii_lower(name[at + 2]) == 's'
    &&& ascii_lower(name[at + 3]) == 'v'
}

/// Whether a file is read as tab-separated; anything else is CSV.
pub fn is_tsv(path: &str) -> (tsv: bool)
    ensures
        tsv == has_tsv_extension(path@),
{
    let name = display_name(path);
    let chars = chars_of(name.as_str());
    if chars.len() <= 4 {
        return false;
    }
    let at: usize = chars.len() - 4;
    chars[at] == '.' && to_ascii_lower(chars[at + 1]) == 't' && to_ascii_lower(chars[at + 2]) == 's'
        && to_ascii_lower(chars[at + 3]) == 'v'
}

/// A name without what a file name cannot carry.
pub open spec fn file_safe(name: Seq<char>) -> Seq<char> {
    Seq::new(
        name.len(),
        |i: int|
            if name[i] == '/' || name[i] == '\\' || name[i] == ' ' {
                '-'
            } else {
                name[i]
            },
    )
}

/// The file that a dump of `name` is offered as.
pub fn dump_file_name(name: &str) -> (suggested: String)
    ensures
        suggested@ == file_safe(name@) + ".sql"@,
{
    let chars = chars_of(name);
    let mut suggested: String = String::new();
    let mut i: usize = 0;
    while i < chars.len()
        invariant
            chars@ == name@,
            i <= chars@.len(),
            suggested@ == file_safe(name@.take(i as int)),
        decreases chars@.len() - i,
    {
        let c = chars[i];
        suggested.push(
            if c == '/' || c == '\\' || c == ' ' {
                '-'
            } else {
                c
            },
        );
        i += 1;
        assert(suggested@ == file_safe(name@.take(i as int)));
    }
    assert(name@.take(i as int) == name@);
    suggested.append(".sql");
    suggested
}

/// The name offered for a dump stays one component without spaces.
pub proof fn a_dump_file_name_is_safe(name: Seq<char>)
    ensures
        file_safe(name).len() == name.len(),
        !file_safe(name).contains('/'),
        !file_safe(name).contains('\\'),
        !file_safe(name).contains(' '),
{
}

/// The front tab, as far as an export reads it.
#[derive(Debug)]
pub enum ExportTab {
    Nothing,
    Table { name: String },
    Sql { has_result: bool },
}

/// "Export as …": the file name to offer, or why there is nothing to export.
pub fn export_rows(tab: &ExportTab, extension: &str) -> (offer: Result<String, Status>)
    ensures
        match offer {
            Ok(suggested) => match tab {
                ExportTab::Table { name } => suggested@ == name@ + "."@ + extension@,
                ExportTab::Sql { has_result } => *has_result && suggested@ == "query"@ + "."@
                    + extension@,
                ExportTab::Nothing => false,
            },
            Err(status) => {
                &&& *tab is Nothing || *tab == (ExportTab::Sql { has_result: false })
                &&& status.info_is("Open a table or run a query to export it"@)
            },
        },
{
    let mut suggested: String = match tab {
        ExportTab::Table { name } => name.as_str().to_string(),
        ExportTab::Sql { has_result: true } => "query".to_string(),
        _ => return Err(Status::info("Open a table or run a query to export it")),
    };
    suggested.append(".");
    suggested.append(extension);
    Ok(suggested)
}

/// `"{what} {path}: {error}"`.
pub open spec fn failure_text(what: Seq<char>, path: Seq<char>, error: Seq<char>) -> Seq<char> {
    what + path + ": "@ + error
}

fn failure_line(what: &str, path: &str, error: &str) -> (line: String)
    ensures
        line@ == failure_text(what@, path@, error@),
{
    let mut line: String = what.to_string();
    line.append(path);
    line.append(": ");
    line.append(error);
    line
}

/// What an export's file could not take.
pub fn write_failure(path: &str, error: &str) -> (line: String)
    ensures
        line@ == failure_text("Could not write "@, path@, error@),
{
    failure_line("Could not write ", path, error)
}

/// What a file that cannot be read is answered with.
pub fn read_failure(path: &str, error: &str) -> (status: Status)
    ensures
        status.error_is(failure_text("Could not read "@, path@, error@)),
{
    Status::Error(failure_line("Could not read ", path, error))
}

/// What happens once the save sheet has given a path.
#[derive(Debug)]
pub enum ExportStart {
    /// Not at all, for this reason.
    Refused(Status),
    /// The tab went away, or never had a result.
    Nothing,
    /// Every row of the table that the filter matches, a page at a time.
    Table(Status),
    /// The rows of the result.
    Rows(Status),
}

pub open spec fn exporting(path: Seq<char>) -> Seq<char> {
    "Exporting to "@ + last_name(path) + "…"@
}

/// Write the front tab's rows to `path`: what the created file, the tab and the
/// connection allow.
pub fn export_to_path(path: &str, create_error: Option<&str>, tab: &ExportTab, connected: bool) -> (
start: ExportStart)
    ensures
        match create_error {
            Some(error) => start matches ExportStart::Refused(status) && status.error_is(
                failure_text("Could not create "@, path@, error@),
            ),
            None => match tab {
                ExportTab::Nothing => start is Nothing,
                ExportTab::Table { .. } => if connected {
                    start matches ExportStart::Table(status) && status.busy_is(exporting(path@))
                } else {
                    start matches ExportStart::Refused(status) && status.error_is(
                        "Not connected"@,
                    )
                },
                ExportTab::Sql { has_result } => if *has_result {
                    start matches ExportStart::Rows(status) && status.busy_is(exporting(path@))
                } else {
                    start is Nothing
                },
            },
        },
{
    if let Some(error) = create_error {
        return ExportStart::Refused(Status::Error(failure_line("Could not create ", path, error)));
    }
    let mut line: String = "Exporting to ".to_string();
    line.append(display_name(path).as_str());
    line.append("…");
    match tab {
        ExportTab::Nothing => ExportStart::Nothing,
        ExportTab::Table { .. } => {
            if connected {
                ExportStart::Table(Status::Busy(line))
            } else {
                ExportStart::Refused(Status::error("Not connected"))
            }
        },
        ExportTab::Sql { has_result } => {
            if *has_result {
                ExportStart::Rows(Status::Busy(line))
            } else {
                ExportStart::Nothing
            }
        },
    }
}

/// What the status line says once an export has ended, or was dropped.
pub fn export_landed(landed: &Option<Result<u64, String>>, file_name: &str) -> (status: Status)
    ensures
        match landed {
            Some(Ok(rows)) => status.info_is(
                "Exported "@ + decimal(*rows as nat) + " "@ + (if *rows == 1 {
                    "row"@
                } else {
                    "rows"@
                }) + " to "@ + file_name@,
            ),
            Some(Err(message)) => status.error_is(message@),
            None => status.error_is("The export stopped before it finished"@),
        },
{
    match landed {
        Some(Ok(rows)) => {
            let mut line: String = "Exported ".to_string();
            push_decimal(&mut line, *rows);
            line.append(" ");
            line.append(
                if *rows == 1 {
                    "row"
                } else {
                    "rows"
                },
            );
            line.append(" to ");
            line.append(file_name);
            Status::Info(line)
        },
        Some(Err(message)) => Status::error(message.as_str()),
        None => Status::error("The export stopped before it finished"),
    }
}

/// "Import CSV…": needs a table with its rows on screen to import into.
pub fn import_csv(front_has_rows: bool) -> (refusal: Option<Status>)
    ensures
        match refusal {
            Some(status) => !front_has_rows && status.info_is(
                "Open the table to import into first"@,
            ),
            None => front_has_rows,
        },
{
    if front_has_rows {
        None
    } else {
        Some(Status::info("Open the table to import into first"))
    }
}

/// The rows of a file with what staging them is reported as, or why the file
/// cannot be staged: it holds no table.
pub fn import_csv_from_path<Rows>(path: &str, parsed: Option<Rows>) -> (outcome: Result<
    (Rows, String),
    Status,
>)
    ensures
        match outcome {
            Ok((rows, report)) => parsed == Some(rows) && report@ == "Imported from "@ + last_name(
                path@,
            ),
            Err(status) => parsed is None && status.error_is(
                "That file is not a table: it needs a header row and at least one row under it"@,
            ),
        },
{
    match parsed {
        Some(rows) => {
            let mut report: String = "Imported from ".to_string();
            report.append(display_name(path).as_str());
            Ok((rows, report))
        },
        None => Err(
            Status::error(
                "That file is not a table: it needs a header row and at least one row under it",
            ),
        ),
    }
}

/// The connection in front, as far as a dump reads it.
#[derive(Debug)]
pub struct DumpEntry {
    pub connected: bool,
    /// The database is a file, so it has no name of its own.
    pub file_based: bool,
    pub name: String,
    pub database: String,
}

/// What a dump is called after: the database, or the connection where the
/// database has no name.
pub open spec fn dump_stem(entry: DumpEntry) -> Seq<char> {
    if entry.file_based || entry.database@.len() == 0 {
        entry.name@
    } else {
        entry.database@
    }
}

/// "Dump Database…": the file name to offer, or why there is nothing to dump.
pub fn dump_database(entry: &Option<DumpEntry>) -> (offer: Result<String, Status>)
    ensures
        match offer {
            Ok(suggested) => {
                &&& *entry is Some
                &&& entry.unwrap().connected
                &&& suggested@ == file_safe(dump_stem(entry.unwrap())) + ".sql"@
            },
            Err(status) => match entry {
                None => status.error_is("Not connected"@),
                Some(entry) => !entry.connected && status.error_is("Connect first, then dump"@),
            },
        },
{
    match entry {
        None => Err(Status::error("Not connected")),
        Some(entry) => {
            if !entry.connected {
                return Err(Status::error("Connect first, then dump"));
            }
            if entry.file_based || entry.database.as_str().is_empty() {
                Ok(dump_file_name(entry.name.as_str()))
            } else {
                Ok(dump_file_name(entry.database.as_str()))
            }
        },
    }
}

/// "Dump Schema…" from the tree: the same dump, of one schema.
pub fn dump_schema(schema: &str) -> (suggested: String)
    ensures
        suggested@ == file_safe(schema@) + ".sql"@,
{
    dump_file_name(schema)
}

pub open spec fn dumping(file_name: Seq<char>) -> Seq<char> {
    "Dumping to "@ + file_name + "…"@
}

/// What happens once the save sheet has given a path for a dump.
#[derive(Debug)]
pub enum DumpStart {
    /// There is no connection any more.
    Nothing,
    Refused(Status),
    Running(Status),
}

/// Write the dump to `path`: it needs a connection and its catalog.
pub fn dump_database_to(path: &str, connected: bool, catalog_loaded: bool) -> (start: DumpStart)
    ensures
        match start {
            DumpStart::Nothing => !connected,
            DumpStart::Refused(status) => connected && !catalog_loaded && status.error_is(
                "The catalog has not loaded yet"@,
            ),
            DumpStart::Running(status) => connected && catalog_loaded && status.busy_is(
                dumping(last_name(path@)),
            ),
        },
{
    if !connected {
        DumpStart::Nothing
    } else if !catalog_loaded {
        DumpStart::Refused(Status::error("The catalog has not loaded yet"))
    } else {
        DumpStart::Running(Status::Busy(dumping_line(display_name(path).as_str())))
    }
}

fn dumping_line(file_name: &str) -> (line: String)
    ensures
        line@ == dumping(file_name@),
{
    let mut line: String = "Dumping to ".to_string();
    line.append(file_name);
    line.append("…");
    line
}

/// A dump still owns the status line while that says so.
pub open spec fn still_dumping(status: Status) -> bool {
    status matches Status::Busy(line) && begins(line@, "Dumping"@)
}

/// The status line follows the dump table by table: whether the dump still owns
/// the line, and what the line becomes where it moved on.
pub fn dump_tick(status: &Status, file_name: &str, shown: &str, current: &str) -> (tick: (
    bool,
    Option<Status>,
))
    ensures
        tick.0 == still_dumping(*status),
        match tick.1 {
            Some(next) => tick.0 && current@ != shown@ && current@.len() > 0 && next.busy_is(
                dumping(file_name@) + " "@ + current@,
            ),
            None => !(tick.0 && current@ != shown@ && current@.len() > 0),
        },
{
    let busy = match status {
        Status::Busy(line) => starts_with(line.as_str(), "Dumping"),
        _ => false,
    };
    if busy && !same(current, shown) && !current.is_empty() {
        let mut line = dumping_line(file_name);
        line.append(" ");
        line.append(current);
        (busy, Some(Status::Busy(line)))
    } else {
        (busy, None)
    }
}

/// What the status line says once a dump has ended, or was dropped. The report
/// says how much was dumped.
pub fn dump_landed(landed: &Option<Result<String, String>>, file_name: &str) -> (status: Status)
    ensures
        match landed {
            Some(Ok(report)) => status.info_is("Dumped "@ + report@ + " to "@ + file_name@),
            Some(Err(message)) => status.error_is("Dump failed: "@ + message@),
            None => status.error_is("The dump stopped before it finished"@),
        },
{
    match landed {
        Some(Ok(report)) => {
            let mut line: String = "Dumped ".to_string();
            line.append(report.as_str());
            line.append(" to ");
            line.append(file_name);
            Status::Info(line)
        },
        Some(Err(message)) => {
            let mut line: String = "Dump failed: ".to_string();
            line.append(message.as_str());
            Status::Error(line)
        },
        None => Status::error("The dump stopped before it finished"),
    }
}

/// "Run SQL File…" needs a connection.
pub fn run_sql_file(connected: bool) -> (refusal: Option<Status>)
    ensures
        match refusal {
            Some(status) => !connected && status.error_is("Connect first, then run a file"@),
            None => connected,
        },
{
    if connected {
        None
    } else {
        Some(Status::error("Connect first, then run a file"))
    }
}

/// The text between two byte offsets.
pub open spec fn text_at(text: Seq<char>, range: Range<usize>) -> Seq<char> {
    decode_utf8(encode_utf8(text).subrange(range.start as int, range.end as int))
}

/// The statements of a file: each piece trimmed, the empty ones dropped.
pub open spec fn statements_of(text: Seq<char>, pieces: Seq<Range<usize>>) -> Seq<Seq<char>>
    decreases pieces.len(),
{
    if pieces.len() == 0 {
        Seq::empty()
    } else {
        let before = statements_of(text, pieces.drop_last());
        let statement = trimmed(text_at(text, pieces.last()));
        if statement.len() == 0 {
            before
        } else {
            before.push(statement)
        }
    }
}

/// Each piece lies around whole characters of the text.
pub open spec fn pieces_fit(text: Seq<char>, pieces: Seq<Range<usize>>) -> bool {
    forall|i: int|
        0 <= i < pieces.len() ==> (#[trigger] pieces[i]).start <= pieces[i].end <= encode_utf8(
            text,
        ).len() && is_char_boundary(encode_utf8(text), pieces[i].start as int)
            && is_char_boundary(encode_utf8(text), pieces[i].end as int)
}

/// The statements of a file, out of the pieces that the engine's own splitting
/// gave.
pub fn script_statements(text: &str, pieces: &Vec<Range<usize>>) -> (statements: Vec<String>)
    requires
        pieces_fit(text@, pieces@),
    ensures
        texts(statements@) == statements_of(text@, pieces@),
{
    let mut statements: Vec<String> = Vec::new();
    let mut i: usize = 0;
    assert(pieces@.take(0) == Seq::<Range<usize>>::empty());
    assert(texts(statements@) == Seq::<Seq<char>>::empty());
    while i < pieces.len()
        invariant
            pieces_fit(text@, pieces@),
            i <= pieces@.len(),
            texts(statements@) == statements_of(text@, pieces@.take(i as int)),
        decreases pieces@.len() - i,
    {
        let piece = slice(text, pieces[i].start, pieces[i].end);
        proof {
            encode_utf8_decode_utf8(piece@);
            assert(piece@ == text_at(text@, pieces@[i as int]));
            assert(pieces@.take(i + 1).drop_last() == pieces@.take(i as int));
        }
        let statement = trim(piece);
        if !statement.as_str().is_empty() {
            let ghost before = statements@;
            statements.push(statement);
            assert(texts(statements@) == texts(before).push(statement@));
        }
        i += 1;
    }
    assert(pieces@.take(i as int) == pieces@);
    statements
}

/// No statement that runs is empty, or carries white space around it.
pub proof fn statements_are_trimmed(text: Seq<char>, pieces: Seq<Range<usize>>)
    ensures
        forall|i: int|
            0 <= i < statements_of(text, pieces).len() ==> {
                let statement = #[trigger] statements_of(text, pieces)[i];
                statement.len() > 0 && trimmed(statement) == statement
            },
    decreases pieces.len(),
{
    if pieces.len() > 0 {
        statements_are_trimmed(text, pieces.drop_last());
        trimming_is_final(text_at(text, pieces.last()));
        let before = statements_of(text, pieces.drop_last());
        let all = statements_of(text, pieces);
        assert forall|i: int| 0 <= i < all.len() implies (#[trigger] all[i]).len() > 0 && trimmed(
            all[i],
        ) == all[i] by {
            if i < before.len() {
                assert(all[i] == before[i]);
            }
        }
    }
}

/// What running a file comes to before any of it runs.
#[derive(Debug)]
pub enum ScriptStart {
    /// The file holds nothing to run.
    Empty(Status),
    /// It writes, and the connection is read-only: what it would not do.
    ReadOnly(String),
    /// It writes, and production asks first; the file's name.
    Held(String),
    /// It runs, under the file's name.
    Run(String),
}

/// Whether the statements of a file run: after the same read-only and
/// production checks as the editor's, since a file is almost always writes.
pub fn run_sql_file_at(
    path: &str,
    statements: usize,
    writes: bool,
    read_only: bool,
    production_asks: bool,
) -> (start: ScriptStart)
    ensures
        match start {
            ScriptStart::Empty(status) => statements == 0 && status.info_is(
                last_name(path@) + " has no statements"@,
            ),
            ScriptStart::ReadOnly(what) => statements > 0 && writes && read_only && what@
                == "Running a file that writes"@,
            ScriptStart::Held(name) => statements > 0 && writes && !read_only && production_asks
                && name@ == last_name(path@),
            ScriptStart::Run(name) => statements > 0 && !(writes && (read_only || production_asks))
                && name@ == last_name(path@),
        },
{
    if statements == 0 {
        let mut line = display_name(path);
        line.append(" has no statements");
        ScriptStart::Empty(Status::Info(line))
    } else if writes && read_only {
        ScriptStart::ReadOnly("Running a file that writes".to_string())
    } else if writes && production_asks {
        ScriptStart::Held(display_name(path))
    } else {
        ScriptStart::Run(display_name(path))
    }
}

/// Whether any of the statements writes.
pub fn any_writes(writes: &Vec<bool>) -> (any: bool)
    ensures
        any == writes@.contains(true),
{
    let mut i: usize = 0;
    while i < writes.len()
        invariant
            i <= writes@.len(),
            forall|k: int| 0 <= k < i ==> !writes@[k],
        decreases writes@.len() - i,
    {
        if writes[i] {
            assert(writes@[i as int]);
            return true;
        }
        i += 1;
    }
    false
}

pub open spec fn running_text(name: Seq<char>, count: nat, total: nat) -> Seq<char> {
    "Running "@ + name + "… "@ + decimal(count) + " of "@ + decimal(total)
}

/// What the status line says as a file's statements go out; none where the
/// connection is gone, and nothing goes out.
pub fn run_script(connected: bool, name: &str, total: usize) -> (status: Option<Status>)
    ensures
        match status {
            Some(status) => connected && status.busy_is(running_text(name@, 0, total as nat)),
            None => !connected,
        },
{
    script_tick(connected, name, 0, total)
}

/// The count on the status line while a file runs; none once it has stopped.
pub fn script_tick(running: bool, name: &str, count: usize, total: usize) -> (status: Option<
    Status,
>)
    ensures
        match status {
            Some(status) => running && status.busy_is(
                running_text(name@, count as nat, total as nat),
            ),
            None => !running,
        },
{
    if !running {
        return None;
    }
    let mut line: String = "Running ".to_string();
    line.append(name);
    line.append("… ");
    push_decimal(&mut line, count as u64);
    line.append(" of ");
    push_decimal(&mut line, total as u64);
    Some(Status::Busy(line))
}

/// How a file's run ended.
#[derive(Debug)]
pub struct ScriptOutcome {
    pub ran: usize,
    pub total: usize,
    /// The statement it stopped at, and what the server said.
    pub failure: Option<(usize, String)>,
    /// How long it took, in seconds with one decimal.
    pub seconds: String,
}

/// What the status line says once a file has run, or was dropped.
pub fn script_landed(outcome: &Option<ScriptOutcome>, name: &str) -> (status: Status)
    ensures
        match outcome {
            Some(outcome) => match outcome.failure {
                None => status.info_is(
                    "Ran "@ + name@ + ": "@ + decimal(outcome.ran as nat) + " statement"@
                        + plural_s(outcome.ran as nat) + " in "@ + outcome.seconds@ + " s"@,
                ),
                Some((index, error)) => status.error_is(
                    name@ + " stopped at statement "@ + decimal(index as nat) + " of "@ + decimal(
                        outcome.total as nat,
                    ) + ": "@ + error@,
                ),
            },
            None => status.error_is(name@ + " stopped before it finished"@),
        },
{
    match outcome {
        Some(outcome) => match &outcome.failure {
            None => {
                let mut line: String = "Ran ".to_string();
                line.append(name);
                line.append(": ");
                push_decimal(&mut line, outcome.ran as u64);
                line.append(" statement");
                line.append(plural(outcome.ran as u64));
                line.append(" in ");
                line.append(outcome.seconds.as_str());
                line.append(" s");
                Status::Info(line)
            },
            Some((index, error)) => {
                let mut line: String = name.to_string();
                line.append(" stopped at statement ");
                push_decimal(&mut line, *index as u64);
                line.append(" of ");
                push_decimal(&mut line, outcome.total as u64);
                line.append(": ");
                line.append(error.as_str());
                Status::Error(line)
            },
        },
        None => {
            let mut line: String = name.to_string();
            line.append(" stopped before it finished");
            Status::Error(line)
        },
    }
}

proof fn lemma_last_slash_is(path: Seq<char>, at: int, upto: int)
    requires
        -1 <= at < upto <= path.len() || upto == 0 && at == -1,
        at >= 0 ==> path[at] == '/',
        forall|i: int| at < i < upto ==> path[i] != '/',
    ensures
        last_slash(path, upto) == at,
    decreases upto,
{
    if upto > 0 && at < upto - 1 {
        assert(path[upto - 1] != '/');
        lemma_last_slash_is(path, at, upto - 1);
    }
}

/// A file is shown by its own name, whatever directory it is in; slashes and dots
/// after the name change nothing, and the way up has no name.
pub proof fn a_file_is_shown_by_its_name(directory: Seq<char>, name: Seq<char>)
    requires
        name.len() > 0,
        !name.contains('/'),
        name != seq!['.'],
        name != seq!['.', '.'],
    ensures
        last_name(name) == name,
        last_name(directory + seq!['/'] + name) == name,
        last_name(directory + seq!['/'] + name + seq!['/']) == name,
        last_name(directory + seq!['/'] + name + seq!['/', '.']) == name,
        last_name(directory + seq!['/', '.', '.']).len() == 0,
{
    assert forall|i: int| 0 <= i < name.len() implies name[i] != '/' by {
        assert(name.contains(name[i]));
    }
    lemma_last_slash_is(name, -1, name.len() as int);
    assert(name.subrange(0, name.len() as int) == name);
    let path = directory + seq!['/'] + name;
    let cut = directory.len() as int;
    assert forall|i: int| cut < i < path.len() implies path[i] != '/' by {
        assert(path[i] == name[i - cut - 1]);
    }
    lemma_last_slash_is(path, cut, path.len() as int);
    assert(path.subrange(cut + 1, path.len() as int) == name);
    let closed = path + seq!['/'];
    lemma_last_slash_is(closed, path.len() as int, closed.len() as int);
    assert(closed.subrange(path.len() as int + 1, closed.len() as int) == Seq::<char>::empty());
    assert(closed.take(path.len() as int) == path);
    let dotted = path + seq!['/', '.'];
    lemma_last_slash_is(dotted, path.len() as int, dotted.len() as int);
    assert(dotted.subrange(path.len() as int + 1, dotted.len() as int) == seq!['.']);
    assert(dotted.take(path.len() as int) == path);
    let up = directory + seq!['/', '.', '.'];
    lemma_last_slash_is(up, cut, up.len() as int);
    assert(up.subrange(cut + 1, up.len() as int) == seq!['.', '.']);
}

/// A file is tab separated exactly when its name ends in ".tsv", in either case,
/// behind something.
pub proof fn tab_separated_files_are_told_by_name(path: Seq<char>)
    ensures
        has_tsv_extension(path) <==> ({
            let name = last_name(path);
            let n = name.len() as int;
            &&& n > 4
            &&& name[n - 4] == '.'
            &&& name[n - 3] == 't' || name[n - 3] == 'T'
            &&& name[n - 2] == 's' || name[n - 2] == 'S'
            &&& name[n - 1] == 'v' || name[n - 1] == 'V'
        }),
{
}

/// A name is made a file's by putting a dash for each slash, backslash and space,
/// and keeping the rest.
pub proof fn a_file_name_keeps_the_rest(name: Seq<char>, i: int)
    requires
        0 <= i < name.len(),
    ensures
        name[i] == '/' || name[i] == '\\' || name[i] == ' ' ==> file_safe(name)[i] == '-',
        name[i] != '/' && name[i] != '\\' && name[i] != ' ' ==> file_safe(name)[i] == name[i],
{
}

/// A dump is named after the database, or after the connection where that is a file
/// or has no database of its own.
pub proof fn a_dump_is_named_after_its_database(entry: DumpEntry)
    ensures
        entry.file_based || entry.database@.len() == 0 ==> dump_stem(entry) == entry.name@,
        !entry.file_based && entry.database@.len() > 0 ==> dump_stem(entry) == entry.database@,
{
}

/// Whether a piece of a script holds a statement.
pub open spec fn piece_says_something(
    text: Seq<char>,
    pieces: Seq<Range<usize>>,
) -> spec_fn(int) -> bool {
    |i: int| trimmed(text_at(text, pieces[i])).len() > 0
}

proof fn lemma_statements_kept(
    text: Seq<char>,
    pieces: Seq<Range<usize>>,
    upto: int,
) -> (places: Seq<int>)
    requires
        0 <= upto <= pieces.len(),
    ensures
        places_where(places, upto, piece_says_something(text, pieces)),
        statements_of(text, pieces.take(upto)) == Seq::new(
            places.len(),
            |k: int| trimmed(text_at(text, pieces[places[k]])),
        ),
    decreases upto,
{
    let holds = piece_says_something(text, pieces);
    let places = if upto == 0 {
        Seq::<int>::empty()
    } else {
        let n = upto - 1;
        let before = lemma_statements_kept(text, pieces, n);
        lemma_places_step(before, n, holds);
        assert(pieces.take(upto).drop_last() == pieces.take(n));
        if holds(n) {
            before.push(n)
        } else {
            before
        }
    };
    assert(statements_of(text, pieces.take(upto)) == Seq::new(
        places.len(),
        |k: int| trimmed(text_at(text, pieces[places[k]])),
    ));
    places
}

/// A script is run piece by piece, in order; only the pieces that are white space
/// alone are left out.
pub proof fn a_script_is_run_in_order(text: Seq<char>, pieces: Seq<Range<usize>>)
    ensures
        exists|places: Seq<int>| #[trigger]
            places_where(places, pieces.len() as int, piece_says_something(text, pieces))
                && statements_of(text, pieces) == Seq::new(
                places.len(),
                |k: int| trimmed(text_at(text, pieces[places[k]])),
            ),
{
    assert(pieces.take(pieces.len() as int) == pieces);
    let places = lemma_statements_kept(text, pieces, pieces.len() as int);
}

/// What is said while a file is written or read names it and how far it has got.
pub proof fn progress_names_the_file(path: Seq<char>, name: Seq<char>, count: nat, total: nat)
    ensures
        exporting(path) == seq!['E', 'x', 'p', 'o', 'r', 't', 'i', 'n', 'g', ' ', 't', 'o', ' '] + last_name(path) + seq!['…'],
        dumping(name) == seq!['D', 'u', 'm', 'p', 'i', 'n', 'g', ' ', 't', 'o', ' '] + name + seq!['…'],
        running_text(name, count, total) == seq!['R', 'u', 'n', 'n', 'i', 'n', 'g', ' '] + name + seq!['…', ' '] + decimal(count) + seq![' ', 'o', 'f', ' ']
            + decimal(total),
{
    reveal_strlit("Exporting to ");
    reveal_strlit("Dumping to ");
    reveal_strlit("…");
    reveal_strlit("Running ");
    reveal_strlit("… ");
    reveal_strlit(" of ");
    assert("Exporting to "@ == seq!['E', 'x', 'p', 'o', 'r', 't', 'i', 'n', 'g', ' ', 't', 'o', ' ']);
    assert("Dumping to "@ == seq!['D', 'u', 'm', 'p', 'i', 'n', 'g', ' ', 't', 'o', ' ']);
    assert("…"@ == seq!['…']);
    assert("Running "@ == seq!['R', 'u', 'n', 'n', 'i', 'n', 'g', ' ']);
    assert("… "@ == seq!['…', ' ']);
    assert(" of "@ == seq![' ', 'o', 'f', ' ']);
}

/// A failure says what failed, on which file, and why.
pub proof fn a_failure_says_why(what: Seq<char>, path: Seq<char>, error: Seq<char>)
    ensures
        failure_text(what, path, error) == what + path + seq![':', ' '] + error,
{
    reveal_strlit(": ");
    assert(": "@ == seq![':', ' ']);
}

/// A dump is under way while the line that says so is on show.
pub proof fn a_dump_is_under_way_while_it_says_so(name: Seq<char>, status: Status)
    ensures
        status.busy_is(dumping(name)) ==> still_dumping(status),
        !(status is Busy) ==> !still_dumping(status),
        still_dumping(status) ==> status->Busy_0@.take(7) == seq!['D', 'u', 'm', 'p', 'i', 'n', 'g'],
{
    reveal_strlit("Dumping");
    reveal_strlit("Dumping to ");
    assert("Dumping"@ == seq!['D', 'u', 'm', 'p', 'i', 'n', 'g']);
    assert("Dumping to "@ == seq!['D', 'u', 'm', 'p', 'i', 'n', 'g', ' ', 't', 'o', ' ']);
    if status.busy_is(dumping(name)) {
        assert(dumping(name).subrange(0, 7) == "Dumping"@);
    }
    if still_dumping(status) {
        assert(status->Busy_0@.subrange(0, 7) == "Dumping"@);
        assert(status->Busy_0@.take(7) == status->Busy_0@.subrange(0, 7));
    }
}

} // verus!
