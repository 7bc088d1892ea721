use dbui_ui::domain::Status;
use dbui_ui::transfer::{
    any_writes, display_name, dump_database, dump_database_to, dump_landed, dump_schema, dump_tick,
    export_landed, export_rows, export_to_path, import_csv, import_csv_from_path, is_tsv,
    read_failure, run_script, run_sql_file, run_sql_file_at, script_landed, script_statements, script_tick,
    write_failure, DumpEntry, DumpStart, ExportStart, ExportTab, ScriptOutcome, ScriptStart,
};

fn said(status: &Status) -> (&'static str, &str) {
    match status {
        Status::Idle => ("idle", ""),
        Status::Busy(text) => ("busy", text.as_str()),
        Status::Info(text) => ("info", text.as_str()),
        Status::Error(text) => ("error", text.as_str()),
    }
}

#[test]
fn a_file_is_called_by_its_last_component() {
    for path in [
        "", "/", ".", "..", "a", "a/", "a/.", "a/./.", "a/..", "./a", "/a//b/", "./", "/.", "a/b.sql", "a.b/..",
        "é/ü.tsv",
    ] {
        let expected = std::path::Path::new(path)
            .file_name()
            .map(|name| name.to_string_lossy().to_string())
            .unwrap_or_default();
        assert_eq!(display_name(path), expected, "{path}");
    }
}

#[test]
fn only_a_tsv_extension_is_tab_separated() {
    for path in ["a.tsv", "a.TSV", ".tsv", "a.csv", "tsv", "x/a.b.tSv", "a.tsv/", "a.tsv/.."] {
        let expected = std::path::Path::new(path)
            .extension()
            .is_some_and(|extension| extension.eq_ignore_ascii_case("tsv"));
        assert_eq!(is_tsv(path), expected, "{path}");
    }
}

#[test]
fn an_export_is_offered_under_the_tables_name() {
    let table = ExportTab::Table { name: "users".to_string() };
    assert_eq!(export_rows(&table, "csv").unwrap(), "users.csv");
    assert_eq!(export_rows(&ExportTab::Sql { has_result: true }, "json").unwrap(), "query.json");
    for tab in [ExportTab::Nothing, ExportTab::Sql { has_result: false }] {
        let refusal = export_rows(&tab, "csv").unwrap_err();
        assert_eq!(said(&refusal), ("info", "Open a table or run a query to export it"));
    }
}

#[test]
fn an_export_starts_or_says_why_not() {
    let table = ExportTab::Table { name: "users".to_string() };
    match export_to_path("/tmp/u.csv", Some("denied"), &table, true) {
        ExportStart::Refused(status) => {
            assert_eq!(said(&status), ("error", "Could not create /tmp/u.csv: denied"))
        }
        other => panic!("{other:?}"),
    }
    match export_to_path("/tmp/u.csv", None, &table, false) {
        ExportStart::Refused(status) => assert_eq!(said(&status), ("error", "Not connected")),
        other => panic!("{other:?}"),
    }
    match export_to_path("/tmp/u.csv", None, &table, true) {
        ExportStart::Table(status) => assert_eq!(said(&status), ("busy", "Exporting to u.csv…")),
        other => panic!("{other:?}"),
    }
    assert!(matches!(
        export_to_path("/tmp/u.csv", None, &ExportTab::Sql { has_result: true }, false),
        ExportStart::Rows(_)
    ));
    assert!(matches!(
        export_to_path("/tmp/u.csv", None, &ExportTab::Sql { has_result: false }, true),
        ExportStart::Nothing
    ));
    assert!(matches!(
        export_to_path("/tmp/u.csv", None, &ExportTab::Nothing, true),
        ExportStart::Nothing
    ));
}

#[test]
fn an_export_reports_its_rows() {
    assert_eq!(said(&export_landed(&Some(Ok(1)), "u.csv")), ("info", "Exported 1 row to u.csv"));
    assert_eq!(said(&export_landed(&Some(Ok(20)), "u.csv")), ("info", "Exported 20 rows to u.csv"));
    assert_eq!(said(&export_landed(&Some(Err("full".to_string())), "u.csv")), ("error", "full"));
    assert_eq!(
        said(&export_landed(&None, "u.csv")),
        ("error", "The export stopped before it finished")
    );
    assert_eq!(write_failure("u.csv", "full"), "Could not write u.csv: full");
    assert_eq!(said(&read_failure("u.csv", "gone")), ("error", "Could not read u.csv: gone"));
}

#[test]
fn an_import_needs_a_table_on_both_sides() {
    assert!(import_csv(true).is_none());
    assert_eq!(
        said(&import_csv(false).unwrap()),
        ("info", "Open the table to import into first")
    );
    let (rows, report) = import_csv_from_path("/x/people.csv", Some(7)).unwrap();
    assert_eq!((rows, report.as_str()), (7, "Imported from people.csv"));
    assert_eq!(
        said(&import_csv_from_path::<i32>("/x/people.csv", None).unwrap_err()),
        (
            "error",
            "That file is not a table: it needs a header row and at least one row under it"
        )
    );
}

fn entry(connected: bool, file_based: bool, database: &str) -> Option<DumpEntry> {
    Some(DumpEntry {
        connected,
        file_based,
        name: "My DB/x".to_string(),
        database: database.to_string(),
    })
}

#[test]
fn a_dump_is_named_after_the_database_or_the_connection() {
    assert_eq!(dump_database(&entry(true, false, "app prod")).unwrap(), "app-prod.sql");
    assert_eq!(dump_database(&entry(true, false, "")).unwrap(), "My-DB-x.sql");
    assert_eq!(dump_database(&entry(true, true, "file.db")).unwrap(), "My-DB-x.sql");
    assert_eq!(
        said(&dump_database(&entry(false, false, "a")).unwrap_err()),
        ("error", "Connect first, then dump")
    );
    assert_eq!(said(&dump_database(&None).unwrap_err()), ("error", "Not connected"));
    assert_eq!(dump_schema("a\\b"), "a-b.sql");
}

#[test]
fn a_dump_follows_its_tables() {
    assert!(matches!(dump_database_to("/d/a.sql", false, true), DumpStart::Nothing));
    match dump_database_to("/d/a.sql", true, false) {
        DumpStart::Refused(status) => {
            assert_eq!(said(&status), ("error", "The catalog has not loaded yet"))
        }
        other => panic!("{other:?}"),
    }
    let running = match dump_database_to("/d/a.sql", true, true) {
        DumpStart::Running(status) => status,
        other => panic!("{other:?}"),
    };
    assert_eq!(said(&running), ("busy", "Dumping to a.sql…"));
    let (still, next) = dump_tick(&running, "a.sql", "", "public.users");
    assert!(still);
    assert_eq!(said(&next.unwrap()), ("busy", "Dumping to a.sql… public.users"));
    assert!(dump_tick(&running, "a.sql", "x", "x").1.is_none());
    assert!(dump_tick(&running, "a.sql", "x", "").1.is_none());
    assert!(!dump_tick(&Status::Info("Dumping".to_string()), "a.sql", "", "x").0);
    assert_eq!(
        said(&dump_landed(&Some(Ok("3 tables".to_string())), "a.sql")),
        ("info", "Dumped 3 tables to a.sql")
    );
    assert_eq!(
        said(&dump_landed(&Some(Err("no".to_string())), "a.sql")),
        ("error", "Dump failed: no")
    );
    assert_eq!(said(&dump_landed(&None, "a.sql")), ("error", "The dump stopped before it finished"));
}

#[test]
fn a_scripts_statements_are_trimmed_and_empty_ones_dropped() {
    let text = " select 1 ;\n;\tinsert é ";
    let statements = script_statements(text, &vec![0..10, 11..12, 13..24]);
    assert_eq!(statements, vec!["select 1".to_string(), "insert é".to_string()]);
}

#[test]
fn a_script_passes_the_same_checks_as_the_editor() {
    match run_sql_file_at("/s/x.sql", 0, true, true, true) {
        ScriptStart::Empty(status) => assert_eq!(said(&status), ("info", "x.sql has no statements")),
        other => panic!("{other:?}"),
    }
    assert!(matches!(run_sql_file_at("x", 1, true, true, true), ScriptStart::ReadOnly(what) if what == "Running a file that writes"));
    assert!(matches!(run_sql_file_at("/s/x", 1, true, false, true), ScriptStart::Held(name) if name == "x"));
    assert!(matches!(run_sql_file_at("/s/x", 1, true, false, false), ScriptStart::Run(name) if name == "x"));
    assert!(matches!(run_sql_file_at("x", 1, false, true, true), ScriptStart::Run(_)));
    assert_eq!(said(&run_script(true, "x.sql", 12).unwrap()), ("busy", "Running x.sql… 0 of 12"));
    assert!(run_script(false, "x.sql", 12).is_none());
    assert!(any_writes(&vec![false, true]));
    assert!(!any_writes(&vec![false]));
    assert!(run_sql_file(true).is_none());
    assert_eq!(said(&run_sql_file(false).unwrap()), ("error", "Connect first, then run a file"));
}

#[test]
fn a_script_counts_its_statements() {
    assert_eq!(said(&script_tick(true, "x.sql", 3, 12).unwrap()), ("busy", "Running x.sql… 3 of 12"));
    assert!(script_tick(false, "x.sql", 3, 12).is_none());
    let outcome = |ran: usize, failure: Option<(usize, String)>| {
        Some(ScriptOutcome {
            ran,
            total: 12,
            failure,
            seconds: "0.4".to_string(),
        })
    };
    assert_eq!(
        said(&script_landed(&outcome(1, None), "x.sql")),
        ("info", "Ran x.sql: 1 statement in 0.4 s")
    );
    assert_eq!(
        said(&script_landed(&outcome(12, None), "x.sql")),
        ("info", "Ran x.sql: 12 statements in 0.4 s")
    );
    assert_eq!(
        said(&script_landed(&outcome(4, Some((5, "syntax".to_string()))), "x.sql")),
        ("error", "x.sql stopped at statement 5 of 12: syntax")
    );
    assert_eq!(said(&script_landed(&None, "x.sql")), ("error", "x.sql stopped before it finished"));
}
