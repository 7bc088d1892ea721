use dbui_ui::domain::Status;
use dbui_ui::production_guard::{
    first_line, render_production_guard, FrontConnection, GuardedStatement, GuardedWrite,
    ProductionGuard, ProductionState,
};

fn guard(write: GuardedWrite) -> ProductionGuard {
    ProductionGuard {
        write,
        connection: "prod-db".into(),
    }
}

fn statement(sql: &str, writes: bool) -> GuardedStatement {
    GuardedStatement {
        sql: sql.to_string(),
        writes,
    }
}

#[test]
fn a_commit_counts_its_changes() {
    assert_eq!(
        guard(GuardedWrite::Commit { changes: 1 }).body(),
        "1 staged change will be committed."
    );
    assert_eq!(
        guard(GuardedWrite::Commit { changes: 3 }).body(),
        "3 staged changes will be committed."
    );
}

#[test]
fn statements_name_the_first_write_not_the_first_statement() {
    let body = guard(GuardedWrite::Statements(vec![
        statement("SELECT 1", false),
        statement("DELETE FROM orders\nWHERE id = 4", true),
        statement("UPDATE t SET a = 1", true),
    ]))
    .body();
    assert_eq!(
        body,
        "2 of these statements write, starting with: DELETE FROM orders…"
    );
}

#[test]
fn a_glance_at_a_statement_is_short() {
    assert_eq!(first_line("  SELECT 1  "), "SELECT 1");
    assert_eq!(first_line("SELECT 1\n"), "SELECT 1");
    assert_eq!(first_line("SELECT 1 \n FROM t"), "SELECT 1…");
    let long = "x".repeat(90);
    assert_eq!(first_line(&long), format!("{}…", "x".repeat(80)));
    let body = guard(GuardedWrite::Statements(vec![statement("DROP TABLE t", true)])).body();
    assert_eq!(body, "This statement writes: DROP TABLE t");
}

#[test]
fn a_production_write_passes_once_it_was_asked_about() {
    let front = Some(FrontConnection {
        name: "prod-db".to_string(),
        confirms_writes: true,
    });
    let mut state = ProductionState { guard: None, confirmed: false };
    assert!(state.hold_for_production(GuardedWrite::Commit { changes: 2 }, &front));
    let question = render_production_guard(&state.guard).unwrap();
    assert_eq!(question.title, "Write to production — “prod-db”?");
    assert_eq!((question.badge.as_str(), question.cancel.as_str()), ("PRODUCTION", "Cancel"));
    assert_eq!(question.hint, "↵ goes ahead. Esc cancels; nothing is sent.");
    assert_eq!(question.confirm, "Commit to Production");
    assert!(matches!(
        state.confirm_production_write(),
        Some(GuardedWrite::Commit { changes: 2 })
    ));
    assert!(!state.hold_for_production(GuardedWrite::Commit { changes: 2 }, &front));
    state.end_confirmed_write();
    assert!(state.hold_for_production(GuardedWrite::Commit { changes: 2 }, &front));
    assert!(matches!(state.cancel_production_write(), Some(Status::Info(_))));
    assert!(state.guard.is_none());
    assert!(state.confirm_production_write().is_none());

    let test = Some(FrontConnection {
        name: "test".to_string(),
        confirms_writes: false,
    });
    assert!(!state.hold_for_production(GuardedWrite::Commit { changes: 2 }, &test));
    assert!(render_production_guard(&None).is_none());
}
