use dbui_ui::activity::{
    end_landed, end_session, hours_and_minutes, one_line, open_activity, reads_again,
    refresh_landed, refresh_once_landed, render_activity, ActivityBody, ActivityPanel, EndStart,
    ServerSession, SessionActions,
};
use dbui_ui::domain::{Status, Tone};

fn session(id: i64, state: &str, idle: bool) -> ServerSession {
    ServerSession {
        id,
        user: "ada".to_string(),
        database: "shop".to_string(),
        state: state.to_string(),
        waiting_on: None,
        client: "10.0.0.1".to_string(),
        query: "SELECT *\n  FROM orders".to_string(),
        idle,
        is_self: false,
        running_for: Some("42 s".to_string()),
        long_running: true,
    }
}

fn panel() -> ActivityPanel {
    match open_activity(true, false, 4) {
        Ok(panel) => panel,
        Err(_) => panic!("a server has sessions"),
    }
}

#[test]
fn statements_fold_to_one_line() {
    assert_eq!(
        one_line("SELECT *\n  FROM t\n WHERE a = 1"),
        "SELECT * FROM t WHERE a = 1"
    );
}

#[test]
fn hours_are_told_with_their_minutes() {
    assert_eq!(hours_and_minutes(125), "2 h 5 min");
    assert_eq!(hours_and_minutes(120), "2 h 0 min");
}

#[test]
fn activity_opens_on_a_server_only() {
    assert!(matches!(open_activity(false, false, 0), Err(Status::Error(text)) if text == "Not connected"));
    assert!(matches!(open_activity(true, true, 0), Err(Status::Info(text))
        if text == "A SQLite file has no server, so no other sessions"));
    let opened = panel();
    assert_eq!(opened.generation, 5);
    assert!(!opened.loaded && opened.sessions.is_empty());
}

#[test]
fn idle_sessions_are_shown_on_request() {
    let mut open = panel();
    open.sessions = vec![session(1, "active", false), session(2, "idle", true), session(3, "idle", true)];
    open.sessions[2].is_self = true;
    let ids: Vec<i64> = open.visible().iter().map(|s| s.id).collect();
    assert_eq!(ids, vec![1], "this app's own is idle too");
    open.toggle_activity_idle();
    let ids: Vec<i64> = open.visible().iter().map(|s| s.id).collect();
    assert_eq!(ids, vec![1, 2, 3]);
}

#[test]
fn a_reading_for_an_earlier_opening_is_dropped() {
    assert!(reads_again(&Some(panel()), 5, true));
    assert!(!reads_again(&Some(panel()), 4, true));
    assert!(!reads_again(&Some(panel()), 5, false));
    assert!(!reads_again(&None, 5, true));

    let (left, goes_on) = refresh_landed(Some(panel()), 5, Some(Ok(vec![session(1, "active", false)])));
    assert!(goes_on);
    assert_eq!(left.unwrap().sessions.len(), 1);

    let (left, goes_on) = refresh_landed(Some(panel()), 4, Some(Ok(vec![session(1, "active", false)])));
    assert!(!goes_on);
    assert!(left.unwrap().sessions.is_empty());

    let (left, goes_on) = refresh_landed(Some(panel()), 5, Some(Err("denied".to_string())));
    assert!(goes_on);
    assert_eq!(left.unwrap().error.as_deref(), Some("denied"));

    let left = refresh_once_landed(Some(panel()), 5, Some(Err("denied".to_string())));
    assert!(left.unwrap().error.is_none());
    let left = refresh_once_landed(Some(panel()), 5, Some(Ok(vec![session(1, "active", false)])));
    assert!(left.unwrap().loaded);
}

#[test]
fn ending_a_session_asks_first_and_says_what_came_of_it() {
    let mut open = panel();
    open.ask_end_session(7, true);
    assert_eq!(open.confirming, Some((7, true)));
    open.answer();
    assert_eq!(open.confirming, None);

    let mut up = Some(open);
    up.as_mut().unwrap().ask_end_session(7, false);
    assert_eq!(
        end_session(&mut up, true, true),
        EndStart::Refused("Ending a session".to_string())
    );
    assert_eq!(up.as_ref().unwrap().confirming, None);
    assert_eq!(end_session(&mut up, false, true), EndStart::Send);
    assert_eq!(end_session(&mut None, false, false), EndStart::Nothing);

    assert!(matches!(end_landed(-7, true, &Some(Ok(()))), Some(Status::Info(text)) if text == "Ended session -7"));
    assert!(matches!(end_landed(7, false, &Some(Ok(()))), Some(Status::Info(text))
        if text == "Cancelled the statement on session 7"));
    assert!(matches!(end_landed(7, false, &Some(Err("no".to_string()))), Some(Status::Error(text)) if text == "no"));
    assert!(end_landed(7, true, &None).is_none());
}

#[test]
fn the_panel_points_at_what_holds_everything_up() {
    assert!(render_activity(&None).is_none());
    let mut open = panel();
    let view = render_activity(&Some(panel())).unwrap();
    assert_eq!(view.headline, "0 sessions · 0 busy");
    assert!(matches!(view.body, ActivityBody::Caption(text) if text == "Reading sessions…"));

    open.loaded = true;
    open.sessions = vec![session(1, "active", false), session(2, "idle in transaction", false)];
    open.confirming = Some((2, true));
    let view = render_activity(&Some(open)).unwrap();
    assert_eq!(view.headline, "2 sessions · 2 busy");
    assert_eq!(view.idle_button, "Show idle");
    assert_eq!((view.title.as_str(), view.refresh_note.as_str()), ("Server activity", "Refreshes every 2 s"));
    assert_eq!(view.columns, vec!["ID", "USER", "DATABASE", "STATE", "TIME", "STATEMENT"]);
    match view.body {
        ActivityBody::Rows(rows) => {
            assert_eq!(rows[0].statement, "SELECT * FROM orders");
            assert_eq!(rows[0].time, "42 s");
            assert!(rows[0].highlighted);
            assert_eq!(rows[0].actions, SessionActions::Offer { cancel: true });
            assert_eq!(rows[1].state_tone, Tone::Warning);
            assert_eq!(rows[1].actions, SessionActions::Confirming { terminate: true });
            assert_eq!(rows[0].buttons, vec!["Cancel", "End"]);
            assert_eq!(rows[1].actions_caption.as_deref(), Some("End it?"));
            assert_eq!(rows[1].buttons, vec!["Yes", "No"]);
        }
        _ => panic!("there are rows"),
    }

    let mut failed = panel();
    failed.loaded = true;
    let view = render_activity(&Some(failed)).unwrap();
    assert!(matches!(view.body, ActivityBody::Caption(text)
        if text == "Nothing is running. Show idle to see every session."));
    let mut failed = panel();
    failed.error = Some("denied".to_string());
    let view = render_activity(&Some(failed)).unwrap();
    assert!(matches!(view.body, ActivityBody::Error(text) if text == "denied"));
}
