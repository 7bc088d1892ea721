//! Server activity: who is connected, what each is running, and a way to
//! stop one.
//!
//! The question it answers is usually "why is everything slow?", and the answer
//! is usually one statement that has been running for twenty minutes or a
//! session sitting idle inside a transaction, holding locks. So the list shows
//! how long each statement has run, and can hide the idle ones. It refreshes
//! itself while open.
//!
//! Cancelling a statement and ending a session both ask once, on the row,
//! before anything is sent: they act on somebody else's work.
use crate::domain::{Status, Tone};
use crate::text::{
    begins, contains, decimal, lemma_places_step, occurs, only_one_is_singular, opt, places_where,
    plural, plural_s, push_decimal, push_text, signed_decimal, signed_decimal_text, squeeze, squeezed,
    starts_with, texts,
};
use vstd::prelude::*;
use vstd::string::*;

verus! {

/// How often an open panel reads the list again, in seconds.
pub const REFRESH_EVERY: u64 = 2;

/// A session on the server.
#[derive(Debug)]
pub struct ServerSession {
    pub id: i64,
    pub user: String,
    pub database: String,
    pub state: String,
    pub waiting_on: Option<String>,
    pub client: String,
    pub query: String,
    /// It is doing nothing.
    pub idle: bool,
    /// It is this app's own.
    pub is_self: bool,
    /// How long its statement has been going, in words.
    pub running_for: Option<String>,
    /// That is ten seconds or more.
    pub long_running: bool,
}

#[derive(Debug)]
pub struct ActivityPanel {
    pub sessions: Vec<ServerSession>,
    /// False until the first answer lands, so an empty list is not claimed
    /// before it is known.
    pub loaded: bool,
    pub error: Option<String>,
    pub show_idle: bool,
    /// A row waiting on "are you sure?": its id, and whether it is the
    /// whole session (true) or just its statement.
    pub confirming: Option<(i64, bool)>,
    /// Bumped each time the panel opens; a refresh loop from an earlier
    /// opening sees the number change and stops.
    pub generation: u64,
}

/// Whether a session is drawn: the idle ones only on request.
pub open spec fn drawn(session: ServerSession, show_idle: bool) -> bool {
    show_idle || !session.idle
}

/// The sessions that are drawn, in order.
pub open spec fn visible_of(sessions: Seq<ServerSession>, show_idle: bool) -> Seq<ServerSession>
    decreases sessions.len(),
{
    if sessions.len() == 0 {
        sessions
    } else {
        let before = visible_of(sessions.drop_last(), show_idle);
        if drawn(sessions.last(), show_idle) {
            before.push(sessions.last())
        } else {
            before
        }
    }
}

/// The sessions behind a list of references to them.
pub open spec fn sessions_of(list: Seq<&ServerSession>) -> Seq<ServerSession> {
    Seq::new(list.len(), |i: int| *list[i])
}

impl ActivityPanel {
    /// The rows drawn: everything, or everything but the idle.
    pub fn visible(&self) -> (rows: Vec<&ServerSession>)
        ensures
            sessions_of(rows@) == visible_of(self.sessions@, self.show_idle),
    {
        let mut rows: Vec<&ServerSession> = Vec::new();
        let mut i: usize = 0;
        assert(self.sessions@.take(0) == Seq::<ServerSession>::empty());
        assert(sessions_of(rows@) == Seq::<ServerSession>::empty());
        while i < self.sessions.len()
            invariant
                i <= self.sessions@.len(),
                sessions_of(rows@) == visible_of(self.sessions@.take(i as int), self.show_idle),
            decreases self.sessions@.len() - i,
        {
            let session = &self.sessions[i];
            assert(self.sessions@.take(i + 1).drop_last() == self.sessions@.take(i as int));
            if self.show_idle || !session.idle {
                let ghost before = rows@;
                rows.push(session);
                assert(sessions_of(rows@) == sessions_of(before).push(*session));
            }
            i += 1;
        }
        assert(self.sessions@.take(i as int) == self.sessions@);
        rows
    }
}

/// With the idle ones asked for, every session is drawn; without, exactly the
/// busy ones are.
pub proof fn idle_sessions_show_on_request(sessions: Seq<ServerSession>)
    ensures
        visible_of(sessions, true) == sessions,
        forall|i: int|
            0 <= i < visible_of(sessions, false).len() ==> {
                let session = #[trigger] visible_of(sessions, false)[i];
                !session.idle
            },
        forall|i: int|
            0 <= i < sessions.len() && !(#[trigger] sessions[i]).idle ==> visible_of(
                sessions,
                false,
            ).contains(sessions[i]),
    decreases sessions.len(),
{
    if sessions.len() > 0 {
        idle_sessions_show_on_request(sessions.drop_last());
        assert(sessions.drop_last().push(sessions.last()) == sessions);
        let before = visible_of(sessions.drop_last(), false);
        let after = visible_of(sessions, false);
        assert forall|i: int|
            0 <= i < sessions.len() && !(#[trigger] sessions[i]).idle implies after.contains(
            sessions[i],
        ) by {
            if i < sessions.len() - 1 {
                assert(sessions.drop_last()[i] == sessions[i]);
                let k = choose|k: int| 0 <= k < before.len() && before[k] == sessions[i];
                assert(after[k] == sessions[i]);
            } else {
                assert(after.last() == sessions[i]);
            }
        }
    }
}

/// "2 h 5 min": how long a statement has been going, once that is hours.
pub fn hours_and_minutes(minutes: u64) -> (text: String)
    ensures
        text@ == decimal((minutes / 60) as nat) + " h "@ + decimal((minutes % 60) as nat)
            + " min"@,
{
    let mut text: String = String::new();
    push_decimal(&mut text, minutes / 60);
    text.append(" h ");
    push_decimal(&mut text, minutes % 60);
    text.append(" min");
    assert(text@ == decimal((minutes / 60) as nat) + " h "@ + decimal((minutes % 60) as nat)
        + " min"@);
    text
}

/// One line of a statement: newlines and runs of spaces folded.
pub fn one_line(sql: &str) -> (line: String)
    ensures
        line@ == squeezed(sql@),
{
    squeeze(sql)
}

/// The panel, opened on a server. `generation` is that of the last opening.
pub fn open_activity(connected: bool, file_based: bool, generation: u64) -> (open: Result<
    ActivityPanel,
    Status,
>)
    ensures
        match open {
            Ok(panel) => {
                &&& connected && !file_based
                &&& panel.sessions@.len() == 0
                &&& !panel.loaded && !panel.show_idle
                &&& panel.error is None && panel.confirming is None
                &&& panel.generation == (if generation == u64::MAX {
                    0
                } else {
                    generation + 1
                })
            },
            Err(status) => if !connected {
                status.error_is("Not connected"@)
            } else {
                file_based && status.info_is(
                    "A SQLite file has no server, so no other sessions"@,
                )
            },
        },
{
    if !connected {
        return Err(Status::error("Not connected"));
    }
    if file_based {
        return Err(Status::info("A SQLite file has no server, so no other sessions"));
    }
    Ok(
        ActivityPanel {
            sessions: Vec::new(),
            loaded: false,
            error: None,
            show_idle: false,
            confirming: None,
            generation: if generation == u64::MAX {
                0
            } else {
                generation + 1
            },
        },
    )
}

/// The panel that a refresh loop was started for is still up.
pub open spec fn still_for(panel: Option<ActivityPanel>, generation: u64) -> bool {
    panel matches Some(panel) && panel.generation == generation
}

/// Whether a refresh loop reads the list again: while its own panel is up and
/// the server is there.
pub fn reads_again(panel: &Option<ActivityPanel>, generation: u64, connected: bool) -> (reads: bool)
    ensures
        reads == (still_for(*panel, generation) && connected),
{
    match panel {
        Some(panel) => panel.generation == generation && connected,
        None => false,
    }
}

/// The parts of a panel that a reading does not touch.
pub open spec fn same_panel(a: ActivityPanel, b: ActivityPanel) -> bool {
    a.show_idle == b.show_idle && a.confirming == b.confirming && a.generation == b.generation
}

/// A reading landed: what it leaves of the panel, and whether the loop goes on.
/// One for an earlier opening changes nothing.
pub fn refresh_landed(
    panel: Option<ActivityPanel>,
    generation: u64,
    landed: Option<Result<Vec<ServerSession>, String>>,
) -> (step: (Option<ActivityPanel>, bool))
    ensures
        step.1 == (still_for(panel, generation) && landed is Some),
        !step.1 ==> step.0 == panel,
        step.1 ==> {
            &&& step.0 is Some
            &&& same_panel(step.0.unwrap(), panel.unwrap())
            &&& step.0.unwrap().loaded
            &&& match landed.unwrap() {
                Ok(sessions) => step.0.unwrap().sessions == sessions && step.0.unwrap().error
                    is None,
                Err(error) => step.0.unwrap().sessions == panel.unwrap().sessions && opt(
                    step.0.unwrap().error,
                ) == Some(error@),
            }
        },
{
    let mut open = match panel {
        Some(open) => open,
        None => return (None, false),
    };
    if open.generation != generation {
        return (Some(open), false);
    }
    match landed {
        Some(Ok(sessions)) => {
            open.sessions = sessions;
            open.error = None;
        },
        Some(Err(error)) => {
            open.error = Some(error);
        },
        None => return (Some(open), false),
    }
    open.loaded = true;
    (Some(open), true)
}

/// A reading made once, after a cancel: only a good one is taken, and only by
/// the panel it was made for.
pub fn refresh_once_landed(
    panel: Option<ActivityPanel>,
    generation: u64,
    landed: Option<Result<Vec<ServerSession>, String>>,
) -> (left: Option<ActivityPanel>)
    ensures
        match landed {
            Some(Ok(sessions)) if still_for(panel, generation) => {
                &&& left is Some
                &&& same_panel(left.unwrap(), panel.unwrap())
                &&& left.unwrap().loaded
                &&& left.unwrap().sessions == sessions
                &&& left.unwrap().error == panel.unwrap().error
            },
            _ => left == panel,
        },
{
    match (panel, landed) {
        (Some(mut open), Some(Ok(sessions))) => {
            if open.generation == generation {
                open.sessions = sessions;
                open.loaded = true;
            }
            Some(open)
        },
        (panel, _) => panel,
    }
}

impl ActivityPanel {
    /// Nothing but the question on a row changes.
    pub open spec fn same_but_question(self, other: ActivityPanel) -> bool {
        self.sessions == other.sessions && self.loaded == other.loaded && self.error == other.error
            && self.show_idle == other.show_idle && self.generation == other.generation
    }

    /// "Cancel" or "End" on a row: ask first.
    pub fn ask_end_session(&mut self, id: i64, terminate: bool)
        ensures
            final(self).confirming == Some((id, terminate)),
            final(self).same_but_question(*old(self)),
    {
        self.confirming = Some((id, terminate));
    }

    /// The question is answered, either way.
    pub fn answer(&mut self)
        ensures
            final(self).confirming is None,
            final(self).same_but_question(*old(self)),
    {
        self.confirming = None;
    }

    pub fn toggle_activity_idle(&mut self)
        ensures
            final(self).show_idle == !old(self).show_idle,
            final(self).sessions == old(self).sessions,
            final(self).loaded == old(self).loaded,
            final(self).error == old(self).error,
            final(self).confirming == old(self).confirming,
            final(self).generation == old(self).generation,
    {
        self.show_idle = !self.show_idle;
    }
}

/// What saying "Yes" comes to.
#[derive(Debug, PartialEq, Eq)]
pub enum EndStart {
    /// Somebody else's work, on a connection marked safe to browse: what was not
    /// done.
    Refused(String),
    Nothing,
    Send,
}

/// "Yes": the question is answered, and the request sent unless the connection
/// is read-only or gone.
pub fn end_session(panel: &mut Option<ActivityPanel>, read_only: bool, connected: bool) -> (start:
    EndStart)
    ensures
        match (*old(panel), *final(panel)) {
            (Some(before), Some(after)) => after.confirming is None && after.same_but_question(
                before,
            ),
            (None, None) => true,
            _ => false,
        },
        match start {
            EndStart::Refused(what) => read_only && what@ == "Ending a session"@,
            EndStart::Send => !read_only && connected,
            EndStart::Nothing => !read_only && !connected,
        },
{
    if let Some(open) = panel {
        open.answer();
    }
    if read_only {
        EndStart::Refused("Ending a session".to_string())
    } else if connected {
        EndStart::Send
    } else {
        EndStart::Nothing
    }
}

pub open spec fn ended_text(id: int, terminate: bool) -> Seq<char> {
    (if terminate {
        "Ended session "@
    } else {
        "Cancelled the statement on session "@
    }) + signed_decimal(id)
}

/// What the status line says once the server has answered. Where it never did,
/// nothing, and the list is not read again.
pub fn end_landed(id: i64, terminate: bool, landed: &Option<Result<(), String>>) -> (status: Option<
    Status,
>)
    ensures
        match (landed, status) {
            (Some(Ok(_)), Some(status)) => status.info_is(ended_text(id as int, terminate)),
            (Some(Err(error)), Some(status)) => status.error_is(error@),
            (None, None) => true,
            _ => false,
        },
{
    match landed {
        Some(Ok(_)) => {
            let mut line: String = if terminate {
                "Ended session ".to_string()
            } else {
                "Cancelled the statement on session ".to_string()
            };
            line.append(signed_decimal_text(id).as_str());
            Some(Status::Info(line))
        },
        Some(Err(error)) => Some(Status::error(error.as_str())),
        None => None,
    }
}

/// What a row offers to do.
#[derive(Debug, Clone, Copy, PartialEq, Eq, Structural)]
pub enum SessionActions {
    /// This app's own session is not offered anything.
    ThisApp,
    /// "Are you sure?", about the session or its statement.
    Confirming { terminate: bool },
    /// Idle in a transaction there is no statement to cancel; ending the session
    /// is what lets go.
    Offer { cancel: bool },
}

#[derive(Debug)]
pub struct SessionRow {
    pub id: String,
    pub user: String,
    pub database: String,
    pub state: String,
    pub state_tone: Tone,
    pub waiting_on: Option<String>,
    pub time: String,
    pub time_tone: Tone,
    pub statement: String,
    pub statement_tone: Tone,
    pub client: String,
    /// A long-running statement, or a transaction left open: what the panel
    /// exists to find.
    pub highlighted: bool,
    pub actions: SessionActions,
    /// What stands in front of the buttons, and what they say.
    pub actions_caption: Option<String>,
    pub buttons: Vec<String>,
}

pub open spec fn caption_of(actions: SessionActions) -> Option<Seq<char>> {
    match actions {
        SessionActions::ThisApp => Some("this app"@),
        SessionActions::Confirming { terminate } => Some(
            if terminate {
                "End it?"@
            } else {
                "Cancel it?"@
            },
        ),
        SessionActions::Offer { .. } => None,
    }
}

pub open spec fn buttons_of(actions: SessionActions) -> Seq<Seq<char>> {
    match actions {
        SessionActions::ThisApp => Seq::empty(),
        SessionActions::Confirming { .. } => seq!["Yes"@, "No"@],
        SessionActions::Offer { cancel } => if cancel {
            seq!["Cancel"@, "End"@]
        } else {
            seq!["End"@]
        },
    }
}

fn action_words(actions: SessionActions) -> (words: (Option<String>, Vec<String>))
    ensures
        opt(words.0) == caption_of(actions),
        texts(words.1@) == buttons_of(actions),
{
    let mut buttons: Vec<String> = Vec::new();
    assert(texts(buttons@) == Seq::<Seq<char>>::empty());
    let caption = match actions {
        SessionActions::ThisApp => Some("this app".to_string()),
        SessionActions::Confirming { terminate } => {
            push_text(&mut buttons, "Yes");
            push_text(&mut buttons, "No");
            Some(
                if terminate {
                    "End it?".to_string()
                } else {
                    "Cancel it?".to_string()
                },
            )
        },
        SessionActions::Offer { cancel } => {
            if cancel {
                push_text(&mut buttons, "Cancel");
            }
            push_text(&mut buttons, "End");
            None
        },
    };
    assert(texts(buttons@) == buttons_of(actions));
    (caption, buttons)
}

pub open spec fn idle_in_transaction(session: ServerSession) -> bool {
    occurs(session.state@, "idle in transaction"@)
}

pub open spec fn is_slow(session: ServerSession) -> bool {
    !session.idle && session.running_for is Some && session.long_running
}

pub open spec fn actions_for(session: ServerSession, confirming: Option<(i64, bool)>) -> SessionActions {
    if session.is_self {
        SessionActions::ThisApp
    } else {
        match confirming {
            Some((id, terminate)) if id == session.id => SessionActions::Confirming { terminate },
            _ => SessionActions::Offer {
                cancel: !session.idle && !begins(session.state@, "idle"@),
            },
        }
    }
}

/// Nothing is sent unasked: "Yes" stands on the one row that was asked about, for
/// what it was asked about, and never on this app's own session. Once the
/// question is answered it stands nowhere.
pub proof fn nothing_is_sent_unasked(
    session: ServerSession,
    confirming: Option<(i64, bool)>,
    terminate: bool,
)
    ensures
        actions_for(session, confirming) == (SessionActions::Confirming { terminate })
            <==> confirming == Some((session.id, terminate)) && !session.is_self,
        !(actions_for(session, None) is Confirming),
{
}

pub open spec fn row_is(
    row: SessionRow,
    session: ServerSession,
    confirming: Option<(i64, bool)>,
) -> bool {
    &&& row.id@ == signed_decimal(session.id as int)
    &&& row.user@ == session.user@
    &&& row.database@ == session.database@
    &&& row.state@ == session.state@
    &&& row.state_tone == (if idle_in_transaction(session) {
        Tone::Warning
    } else if !session.idle {
        Tone::Success
    } else {
        Tone::Faint
    })
    &&& opt(row.waiting_on) == opt(session.waiting_on)
    &&& row.time@ == (match session.running_for {
        Some(time) if !session.idle => time@,
        _ => Seq::empty(),
    })
    &&& row.time_tone == (if is_slow(session) {
        Tone::Warning
    } else {
        Tone::Muted
    })
    &&& row.statement@ == squeezed(session.query@)
    &&& row.statement_tone == (if session.idle {
        Tone::Faint
    } else {
        Tone::Text
    })
    &&& row.client@ == session.client@
    &&& row.highlighted == (is_slow(session) || idle_in_transaction(session))
    &&& row.actions == actions_for(session, confirming)
    &&& opt(row.actions_caption) == caption_of(row.actions)
    &&& texts(row.buttons@) == buttons_of(row.actions)
}

fn session_row(session: &ServerSession, confirming: Option<(i64, bool)>) -> (row: SessionRow)
    ensures
        row_is(row, *session, confirming),
{
    let busy = !session.idle;
    let slow = busy && session.running_for.is_some() && session.long_running;
    let idle_in_tx = contains(session.state.as_str(), "idle in transaction");
    let actions = if session.is_self {
        SessionActions::ThisApp
    } else {
        let offer = SessionActions::Offer {
            cancel: busy && !starts_with(session.state.as_str(), "idle"),
        };
        match confirming {
            Some((id, terminate)) => {
                if id == session.id {
                    SessionActions::Confirming { terminate }
                } else {
                    offer
                }
            },
            None => offer,
        }
    };
    let waiting_on = match &session.waiting_on {
        Some(waiting) => Some(waiting.as_str().to_string()),
        None => None,
    };
    let time: String = match &session.running_for {
        Some(time) => {
            if busy {
                time.as_str().to_string()
            } else {
                String::new()
            }
        },
        None => String::new(),
    };
    let (actions_caption, buttons) = action_words(actions);
    SessionRow {
        id: signed_decimal_text(session.id),
        user: session.user.as_str().to_string(),
        database: session.database.as_str().to_string(),
        state: session.state.as_str().to_string(),
        state_tone: if idle_in_tx {
            Tone::Warning
        } else if busy {
            Tone::Success
        } else {
            Tone::Faint
        },
        waiting_on,
        time,
        time_tone: if slow {
            Tone::Warning
        } else {
            Tone::Muted
        },
        statement: one_line(session.query.as_str()),
        statement_tone: if busy {
            Tone::Text
        } else {
            Tone::Faint
        },
        client: session.client.as_str().to_string(),
        highlighted: slow || idle_in_tx,
        actions,
        actions_caption,
        buttons,
    }
}

#[derive(Debug)]
pub enum ActivityBody {
    Error(String),
    Caption(String),
    Rows(Vec<SessionRow>),
}

#[derive(Debug)]
pub struct ActivityView {
    pub title: String,
    pub headline: String,
    /// How often the list is read again.
    pub refresh_note: String,
    pub idle_button: String,
    pub close_button: String,
    /// What stands over the columns of the list.
    pub columns: Vec<String>,
    pub body: ActivityBody,
}

pub open spec fn column_names() -> Seq<Seq<char>> {
    seq!["ID"@, "USER"@, "DATABASE"@, "STATE"@, "TIME"@, "STATEMENT"@]
}

fn columns_text() -> (columns: Vec<String>)
    ensures
        texts(columns@) == column_names(),
{
    let mut columns: Vec<String> = Vec::new();
    assert(texts(columns@) == Seq::<Seq<char>>::empty());
    push_text(&mut columns, "ID");
    push_text(&mut columns, "USER");
    push_text(&mut columns, "DATABASE");
    push_text(&mut columns, "STATE");
    push_text(&mut columns, "TIME");
    push_text(&mut columns, "STATEMENT");
    assert(texts(columns@) == column_names());
    columns
}

/// How many of the sessions are doing something.
pub open spec fn busy_count(sessions: Seq<ServerSession>) -> nat
    decreases sessions.len(),
{
    if sessions.len() == 0 {
        0
    } else {
        busy_count(sessions.drop_last()) + (if sessions.last().idle {
            0nat
        } else {
            1nat
        })
    }
}

fn count_busy(sessions: &Vec<ServerSession>) -> (count: usize)
    ensures
        count == busy_count(sessions@),
{
    let mut count: usize = 0;
    let mut i: usize = 0;
    assert(sessions@.take(0) == Seq::<ServerSession>::empty());
    while i < sessions.len()
        invariant
            count <= i <= sessions@.len(),
            count == busy_count(sessions@.take(i as int)),
        decreases sessions@.len() - i,
    {
        assert(sessions@.take(i + 1).drop_last() == sessions@.take(i as int));
        assert(sessions@.take(i + 1).last() == sessions@[i as int]);
        if !sessions[i].idle {
            count += 1;
        }
        i += 1;
    }
    assert(sessions@.take(i as int) == sessions@);
    count
}

pub open spec fn headline_text(total: nat, busy: nat) -> Seq<char> {
    decimal(total) + " session"@ + plural_s(total) + " · "@ + decimal(busy) + " busy"@
}

/// What the panel shows: an error before anything else, and no empty list before
/// it is known to be empty.
pub open spec fn body_is(body: ActivityBody, panel: ActivityPanel) -> bool {
    let visible = visible_of(panel.sessions@, panel.show_idle);
    match panel.error {
        Some(error) => body matches ActivityBody::Error(text) && text@ == error@,
        None => if !panel.loaded {
            body matches ActivityBody::Caption(text) && text@ == "Reading sessions…"@
        } else if visible.len() == 0 {
            body matches ActivityBody::Caption(text) && text@
                == "Nothing is running. Show idle to see every session."@
        } else {
            body matches ActivityBody::Rows(rows) && rows@.len() == visible.len() && forall|i: int|
                0 <= i < rows@.len() ==> row_is(#[trigger] rows@[i], visible[i], panel.confirming)
        },
    }
}

/// The panel, while it is up.
pub fn render_activity(panel: &Option<ActivityPanel>) -> (view: Option<ActivityView>)
    ensures
        match (panel, view) {
            (Some(panel), Some(view)) => {
                &&& view.title@ == "Server activity"@
                &&& view.refresh_note@ == "Refreshes every 2 s"@
                &&& view.close_button@ == "Close"@
                &&& texts(view.columns@) == column_names()
                &&& view.headline@ == headline_text(
                    panel.sessions@.len(),
                    busy_count(panel.sessions@),
                )
                &&& body_is(view.body, *panel)
                &&& view.idle_button@ == (if panel.show_idle {
                    "Hide idle"@
                } else {
                    "Show idle"@
                })
            },
            (None, None) => true,
            _ => false,
        },
{
    let panel = match panel {
        Some(panel) => panel,
        None => return None,
    };
    let visible = panel.visible();
    let ghost shown = visible_of(panel.sessions@, panel.show_idle);
    let mut headline: String = String::new();
    let total: usize = panel.sessions.len();
    push_decimal(&mut headline, total as u64);
    headline.append(" session");
    headline.append(plural(total as u64));
    headline.append(" · ");
    push_decimal(&mut headline, count_busy(&panel.sessions) as u64);
    headline.append(" busy");
    assert(headline@ == headline_text(total as nat, busy_count(panel.sessions@)));
    assert(visible@.len() == shown.len());
    let body = match &panel.error {
        Some(error) => ActivityBody::Error(error.as_str().to_string()),
        None => {
            if !panel.loaded {
                ActivityBody::Caption("Reading sessions…".to_string())
            } else if visible.len() == 0 {
                ActivityBody::Caption(
                    "Nothing is running. Show idle to see every session.".to_string(),
                )
            } else {
                let mut rows: Vec<SessionRow> = Vec::new();
                let mut i: usize = 0;
                while i < visible.len()
                    invariant
                        i <= visible@.len(),
                        rows@.len() == i,
                        sessions_of(visible@) == shown,
                        forall|k: int|
                            0 <= k < i ==> row_is(#[trigger] rows@[k], shown[k], panel.confirming),
                    decreases visible@.len() - i,
                {
                    assert(shown[i as int] == *visible@[i as int]);
                    rows.push(session_row(visible[i], panel.confirming));
                    i += 1;
                }
                ActivityBody::Rows(rows)
            }
        },
    };
    let idle_button = if panel.show_idle {
        "Hide idle".to_string()
    } else {
        "Show idle".to_string()
    };
    Some(
        ActivityView {
            title: "Server activity".to_string(),
            headline,
            refresh_note: "Refreshes every 2 s".to_string(),
            idle_button,
            close_button: "Close".to_string(),
            columns: columns_text(),
            body,
        },
    )
}

/// Whether the panel lists a session: a busy one always, an idle one on request.
pub open spec fn session_is_listed(
    sessions: Seq<ServerSession>,
    show_idle: bool,
) -> spec_fn(int) -> bool {
    |i: int| sessions[i].idle ==> show_idle
}

/// Whether a session is busy.
pub open spec fn session_is_busy(sessions: Seq<ServerSession>) -> spec_fn(int) -> bool {
    |i: int| !sessions[i].idle
}

proof fn lemma_sessions_listed(
    sessions: Seq<ServerSession>,
    show_idle: bool,
    upto: int,
) -> (places: Seq<int>)
    requires
        0 <= upto <= sessions.len(),
    ensures
        places_where(places, upto, session_is_listed(sessions, show_idle)),
        visible_of(sessions.take(upto), show_idle) == Seq::new(
            places.len(),
            |k: int| sessions[places[k]],
        ),
    decreases upto,
{
    let holds = session_is_listed(sessions, show_idle);
    let places = if upto == 0 {
        Seq::<int>::empty()
    } else {
        let n = upto - 1;
        let before = lemma_sessions_listed(sessions, show_idle, n);
        lemma_places_step(before, n, holds);
        assert(sessions.take(upto).drop_last() == sessions.take(n));
        if holds(n) {
            before.push(n)
        } else {
            before
        }
    };
    assert(visible_of(sessions.take(upto), show_idle) == Seq::new(
        places.len(),
        |k: int| sessions[places[k]],
    ));
    places
}

proof fn lemma_sessions_busy(sessions: Seq<ServerSession>, upto: int) -> (places: Seq<int>)
    requires
        0 <= upto <= sessions.len(),
    ensures
        places_where(places, upto, session_is_busy(sessions)),
        busy_count(sessions.take(upto)) == places.len(),
    decreases upto,
{
    let holds = session_is_busy(sessions);
    if upto == 0 {
        Seq::<int>::empty()
    } else {
        let n = upto - 1;
        let before = lemma_sessions_busy(sessions, n);
        lemma_places_step(before, n, holds);
        assert(sessions.take(upto).drop_last() == sessions.take(n));
        if holds(n) {
            before.push(n)
        } else {
            before
        }
    }
}

/// Every busy session is listed, every idle one on request, each once, in the
/// order in which the server gave them.
pub proof fn the_sessions_are_listed_in_order(sessions: Seq<ServerSession>, show_idle: bool)
    ensures
        exists|places: Seq<int>| #[trigger]
            places_where(places, sessions.len() as int, session_is_listed(sessions, show_idle))
                && visible_of(sessions, show_idle) == Seq::new(
                places.len(),
                |k: int| sessions[places[k]],
            ),
{
    assert(sessions.take(sessions.len() as int) == sessions);
    let places = lemma_sessions_listed(sessions, show_idle, sessions.len() as int);
}

/// The headline counts every session, and how many of them are not idle.
pub proof fn the_headline_counts_the_busy_sessions(sessions: Seq<ServerSession>)
    ensures
        exists|places: Seq<int>| #[trigger]
            places_where(places, sessions.len() as int, session_is_busy(sessions)) && busy_count(
                sessions,
            ) == places.len(),
        sessions.len() == 1 ==> headline_text(sessions.len(), busy_count(sessions)) == decimal(1)
            + seq![' ', 's', 'e', 's', 's', 'i', 'o', 'n', ' ', '·', ' '] + decimal(busy_count(sessions)) + seq![' ', 'b', 'u', 's', 'y'],
        sessions.len() != 1 ==> headline_text(sessions.len(), busy_count(sessions)) == decimal(
            sessions.len(),
        ) + seq![' ', 's', 'e', 's', 's', 'i', 'o', 'n', 's', ' ', '·', ' '] + decimal(busy_count(sessions)) + seq![' ', 'b', 'u', 's', 'y'],
{
    assert(sessions.take(sessions.len() as int) == sessions);
    let places = lemma_sessions_busy(sessions, sessions.len() as int);
    only_one_is_singular(sessions.len());
    reveal_strlit(" session");
    reveal_strlit(" · ");
    reveal_strlit(" busy");
    let busy = decimal(busy_count(sessions));
    if sessions.len() == 1 {
        assert(headline_text(sessions.len(), busy_count(sessions)) == decimal(1) + seq![' ', 's', 'e', 's', 's', 'i', 'o', 'n', ' ', '·', ' ']
            + busy + seq![' ', 'b', 'u', 's', 'y']);
    } else {
        assert(headline_text(sessions.len(), busy_count(sessions)) == decimal(sessions.len())
            + seq![' ', 's', 'e', 's', 's', 'i', 'o', 'n', 's', ' ', '·', ' '] + busy + seq![' ', 'b', 'u', 's', 'y']);
    }
}

/// A row says what the server said of its session. It stands out where a
/// statement runs for long and where a transaction is left open, and it is only a
/// running statement that has a time.
pub proof fn a_row_is_read_off_its_session(
    row: SessionRow,
    session: ServerSession,
    confirming: Option<(i64, bool)>,
)
    requires
        row_is(row, session, confirming),
    ensures
        row.id@ == signed_decimal(session.id as int),
        row.user@ == session.user@,
        row.database@ == session.database@,
        row.state@ == session.state@,
        row.client@ == session.client@,
        opt(row.waiting_on) == opt(session.waiting_on),
        row.statement@ == squeezed(session.query@),
        session.idle ==> row.time@.len() == 0 && row.statement_tone == Tone::Faint,
        !session.idle ==> row.statement_tone == Tone::Text,
        !session.idle && session.running_for is Some ==> row.time@ == session.running_for->0@,
        session.running_for is None ==> row.time@.len() == 0,
        occurs(session.state@, seq!['i', 'd', 'l', 'e', ' ', 'i', 'n', ' ', 't', 'r', 'a', 'n', 's', 'a', 'c', 't', 'i', 'o', 'n']) ==> row.highlighted && row.state_tone
            == Tone::Warning,
        !occurs(session.state@, seq!['i', 'd', 'l', 'e', ' ', 'i', 'n', ' ', 't', 'r', 'a', 'n', 's', 'a', 'c', 't', 'i', 'o', 'n']) ==> row.state_tone == (if session.idle {
            Tone::Faint
        } else {
            Tone::Success
        }),
        !session.idle && session.running_for is Some && session.long_running ==> row.highlighted
            && row.time_tone == Tone::Warning,
        session.idle || !session.long_running ==> row.time_tone == Tone::Muted,
        row.highlighted ==> occurs(session.state@, seq!['i', 'd', 'l', 'e', ' ', 'i', 'n', ' ', 't', 'r', 'a', 'n', 's', 'a', 'c', 't', 'i', 'o', 'n']) || session.long_running
            && !session.idle,
{
    reveal_strlit("idle in transaction");
    assert("idle in transaction"@ == seq!['i', 'd', 'l', 'e', ' ', 'i', 'n', ' ', 't', 'r', 'a', 'n', 's', 'a', 'c', 't', 'i', 'o', 'n']);
}

/// This program's own session can be neither cancelled nor ended. Another's can
/// be ended, and what it runs can be cancelled unless it runs nothing.
pub proof fn only_what_runs_can_be_cancelled(session: ServerSession, asked: Option<(i64, bool)>)
    ensures
        session.is_self ==> buttons_of(actions_for(session, asked)).len() == 0,
        !session.is_self && asked is None && session.idle ==> buttons_of(
            actions_for(session, asked),
        ) == seq![seq!['E', 'n', 'd']],
        !session.is_self && asked is None && begins(session.state@, seq!['i', 'd', 'l', 'e']) ==> buttons_of(
            actions_for(session, asked),
        ) == seq![seq!['E', 'n', 'd']],
        !session.is_self && asked is None && !session.idle && !begins(session.state@, seq!['i', 'd', 'l', 'e'])
            ==> buttons_of(actions_for(session, asked)) == seq![seq!['C', 'a', 'n', 'c', 'e', 'l'], seq!['E', 'n', 'd']],
        !session.is_self && asked is Some && (asked->0).0 == session.id ==> buttons_of(
            actions_for(session, asked),
        ) == seq![seq!['Y', 'e', 's'], seq!['N', 'o']] && caption_of(actions_for(session, asked)) == Some(
            if (asked->0).1 {
                seq!['E', 'n', 'd', ' ', 'i', 't', '?']
            } else {
                seq!['C', 'a', 'n', 'c', 'e', 'l', ' ', 'i', 't', '?']
            },
        ),
        !session.is_self && asked is Some && (asked->0).0 != session.id ==> actions_for(
            session,
            asked,
        ) == actions_for(session, None),
{
    reveal_strlit("idle");
    reveal_strlit("Cancel");
    reveal_strlit("End");
    reveal_strlit("Yes");
    reveal_strlit("No");
    reveal_strlit("End it?");
    reveal_strlit("Cancel it?");
    assert("idle"@ == seq!['i', 'd', 'l', 'e']);
    assert("Cancel"@ == seq!['C', 'a', 'n', 'c', 'e', 'l']);
    assert("End"@ == seq!['E', 'n', 'd']);
    assert("Yes"@ == seq!['Y', 'e', 's']);
    assert("No"@ == seq!['N', 'o']);
    assert("End it?"@ == seq!['E', 'n', 'd', ' ', 'i', 't', '?']);
    assert("Cancel it?"@ == seq!['C', 'a', 'n', 'c', 'e', 'l', ' ', 'i', 't', '?']);
}

/// What is said of a session that was stopped names it, and tells a cancelled
/// statement from an ended session.
pub proof fn a_stopped_session_is_named(id: int, terminate: bool)
    ensures
        ended_text(id, true) == seq!['E', 'n', 'd', 'e', 'd', ' ', 's', 'e', 's', 's', 'i', 'o', 'n', ' '] + signed_decimal(id),
        ended_text(id, false) == seq!['C', 'a', 'n', 'c', 'e', 'l', 'l', 'e', 'd', ' ', 't', 'h', 'e', ' ', 's', 't', 'a', 't', 'e', 'm', 'e', 'n', 't', ' ', 'o', 'n', ' ', 's', 'e', 's', 's', 'i', 'o', 'n', ' '] + signed_decimal(id),
{
    reveal_strlit("Ended session ");
    reveal_strlit("Cancelled the statement on session ");
    assert(ended_text(id, true) == seq!['E', 'n', 'd', 'e', 'd', ' ', 's', 'e', 's', 's', 'i', 'o', 'n', ' '] + signed_decimal(id));
    assert(ended_text(id, false) == seq!['C', 'a', 'n', 'c', 'e', 'l', 'l', 'e', 'd', ' ', 't', 'h', 'e', ' ', 's', 't', 'a', 't', 'e', 'm', 'e', 'n', 't', ' ', 'o', 'n', ' ', 's', 'e', 's', 's', 'i', 'o', 'n', ' '] + signed_decimal(id));
}

/// A failure is all that the panel shows; before the first reading, and where no
/// session is to be listed, it shows words; otherwise a row for each session that
/// is listed.
pub proof fn the_panel_shows_a_row_for_each_session(body: ActivityBody, panel: ActivityPanel)
    requires
        body_is(body, panel),
    ensures
        ({
            let listed = visible_of(panel.sessions@, panel.show_idle);
            &&& body is Error <==> panel.error is Some
            &&& body is Error ==> body->Error_0@ == panel.error->0@
            &&& body is Rows <==> panel.error is None && panel.loaded && listed.len() > 0
            &&& body is Rows ==> body->Rows_0@.len() == listed.len()
            &&& body is Rows ==> forall|i: int|
                0 <= i < listed.len() ==> (#[trigger] body->Rows_0@[i]).id@ == signed_decimal(
                    listed[i].id as int,
                )
        }),
{
    if body is Rows {
        let listed = visible_of(panel.sessions@, panel.show_idle);
        assert forall|i: int| 0 <= i < listed.len() implies (#[trigger] body->Rows_0@[i]).id@
            == signed_decimal(listed[i].id as int) by {
            assert(row_is(body->Rows_0@[i], listed[i], panel.confirming));
        }
    }
}

/// What was asked for on behalf of a panel is for that panel only: not for one that
/// was closed, nor for one that was opened since.
pub proof fn a_reply_is_for_the_panel_that_asked(panel: Option<ActivityPanel>, generation: u64)
    ensures
        still_for(panel, generation) <==> panel is Some && panel->0.generation == generation,
{
}

} // verus!
