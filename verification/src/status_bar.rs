//! The status bar: what just happened, and where in the table you are.
//!
//! On the left, one line about the last thing the app did, led by a light in
//! the colour of how it went. On the right, where in the result the view is,
//! and whether the arrows can move it.
use crate::controls::{arrow_is, PageArrow};
use crate::domain::{at_end, ends_at, Page, ResultSource, Status, Tone};
use crate::text::{decimal, opt, push_decimal};
use vstd::prelude::*;
use vstd::string::*;

verus! {

/// What pressing the update chip does.
#[derive(Debug, Clone, Copy, PartialEq, Eq, Structural)]
pub enum UpdateAction {
    Download,
    Install,
    Retry,
    Nothing,
}

#[derive(Debug, Clone)]
pub struct UpdateChip {
    pub label: String,
    pub action: UpdateAction,
}

/// What the bar has to say something about.
#[derive(Debug)]
pub struct StatusInput {
    pub status: Status,
    /// What the open connection is, where one is open.
    pub connection: Option<String>,
    pub result: Option<ResultLine>,
    /// Which page of how many.
    pub position: Option<(u64, u64)>,
    pub update: Option<UpdateChip>,
}

/// What the bar reads of the result on screen.
#[derive(Debug)]
pub struct ResultLine {
    pub source: ResultSource,
    pub summary: String,
    /// The server had more rows than were read.
    pub truncated: bool,
    pub columns: Vec<String>,
    /// Each row's values, in full.
    pub rows: Vec<Vec<String>>,
    /// The cell the selection is on: its row, its column, and whether it opens
    /// the row that it refers to.
    pub selected: Option<(usize, usize, bool)>,
}

#[derive(Debug)]
pub struct StatusBar {
    pub message: String,
    pub message_tone: Tone,
    pub light: Tone,
    /// What it says where the server had more rows than were read.
    pub more_rows: Option<String>,
    pub detail: Option<String>,
    pub summary: Option<String>,
    pub position: Option<String>,
    /// Back and forward.
    pub paging: Option<(PageArrow, PageArrow)>,
    pub update: Option<UpdateView>,
}

#[derive(Debug)]
pub struct UpdateView {
    pub label: String,
    pub tone: Tone,
    pub clickable: bool,
    pub action: UpdateAction,
}

pub open spec fn paging_of(source: Option<ResultSource>) -> Option<(bool, bool)> {
    match source {
        Some(ResultSource::Table { page, total_rows }) => Some(
            (page.offset == 0, ends_at(page, total_rows)),
        ),
        _ => None,
    }
}

/// The page arithmetic fits the machine.
pub open spec fn pageable(source: ResultSource) -> bool {
    source matches ResultSource::Table { page, .. } ==> page.offset + page.limit <= u64::MAX
}

/// `(at first page, at last page)` for the table on screen.
///
/// `None` when there is nothing to page: a SQL result is one page by
/// definition, and arrows over it would be two dead buttons.
pub fn paging_state(source: Option<ResultSource>) -> (paging: Option<(bool, bool)>)
    requires
        source matches Some(source) ==> pageable(source),
    ensures
        paging == paging_of(source),
{
    match source {
        Some(ResultSource::Table { page, total_rows }) => Some(
            (page.offset == 0, at_end(page, total_rows)),
        ),
        _ => None,
    }
}

/// What the bar says when nothing was done: what is connected, until there is a
/// result whose own line says more.
pub open spec fn idle_text(has_result: bool, connection: Option<Seq<char>>) -> Seq<char> {
    match connection {
        Some(summary) if !has_result => summary,
        _ => "Ready"@,
    }
}

pub fn idle_message(has_result: bool, connection: &Option<String>) -> (message: String)
    ensures
        message@ == idle_text(has_result, opt(*connection)),
{
    if !has_result {
        if let Some(summary) = connection {
            return summary.as_str().to_string();
        }
    }
    "Ready".to_string()
}

/// `name = value` for the selected cell, and how to open what it refers to.
pub open spec fn detail_text(result: ResultLine) -> Option<Seq<char>> {
    match result.selected {
        Some((row, column, opens)) => if row < result.rows@.len() && column
            < result.rows@[row as int]@.len() && column < result.columns@.len() {
            Some(
                result.columns@[column as int]@ + " = "@ + result.rows@[row as int]@[column as int]@
                    + (if opens {
                    "  ·  ⌘↵ or ⌥-click to open"@
                } else {
                    ""@
                }),
            )
        } else {
            None
        },
        None => None,
    }
}

pub fn cell_detail(result: &ResultLine) -> (detail: Option<String>)
    ensures
        opt(detail) == detail_text(*result),
{
    match result.selected {
        Some((row, column, opens)) => {
            if row < result.rows.len() && column < result.rows[row].len() && column
                < result.columns.len() {
                let mut text: String = result.columns[column].as_str().to_string();
                text.append(" = ");
                text.append(result.rows[row][column].as_str());
                text.append(
                    if opens {
                        "  ·  ⌘↵ or ⌥-click to open"
                    } else {
                        ""
                    },
                );
                Some(text)
            } else {
                None
            }
        },
        None => None,
    }
}

pub open spec fn status_tone(status: Status) -> Tone {
    match status {
        Status::Idle => Tone::Muted,
        Status::Busy(_) => Tone::Warning,
        Status::Info(_) => Tone::Muted,
        Status::Error(_) => Tone::Danger,
    }
}

/// The light says how it went. Idle is the green one: "nothing is wrong" is the
/// useful reading of an app with nothing to report.
pub open spec fn status_light(status: Status) -> Tone {
    match status {
        Status::Idle => Tone::Success,
        Status::Busy(_) => Tone::Warning,
        Status::Info(_) => Tone::Accent,
        Status::Error(_) => Tone::Danger,
    }
}

pub open spec fn status_text(input: StatusInput) -> Seq<char> {
    match input.status {
        Status::Idle => idle_text(input.result is Some, opt(input.connection)),
        Status::Busy(text) => text@,
        Status::Info(text) => text@,
        Status::Error(text) => text@,
    }
}

pub open spec fn position_text(position: Option<(u64, u64)>) -> Option<Seq<char>> {
    match position {
        Some((page, pages)) => Some(
            "Page "@ + decimal(page as nat) + " of "@ + decimal(pages as nat),
        ),
        None => None,
    }
}

/// The arrows of the bar, by `(at the first page, at the last page)`.
pub open spec fn arrows_are(
    arrows: Option<(PageArrow, PageArrow)>,
    paging: Option<(bool, bool)>,
) -> bool {
    match (arrows, paging) {
        (Some((back, forward)), Some((at_start, at_end))) => arrow_is(back, "‹"@, at_start)
            && arrow_is(forward, "›"@, at_end),
        (None, None) => true,
        _ => false,
    }
}

/// The prev/next pair, where there is something to page.
pub fn render_status_paging(paging: Option<(bool, bool)>) -> (arrows: Option<
    (PageArrow, PageArrow),
>)
    ensures
        arrows_are(arrows, paging),
{
    match paging {
        Some((at_start, at_end)) => Some(
            (
                PageArrow { glyph: "‹".to_string(), disabled: at_start },
                PageArrow { glyph: "›".to_string(), disabled: at_end },
            ),
        ),
        None => None,
    }
}

/// The whole bar.
pub fn render_status_bar(input: &StatusInput) -> (bar: StatusBar)
    requires
        input.result matches Some(result) ==> pageable(result.source),
    ensures
        bar.message@ == status_text(*input),
        bar.message_tone == status_tone(input.status),
        bar.light == status_light(input.status),
        opt(bar.more_rows) == (if input.result matches Some(result) && result.truncated {
            Some("more rows available"@)
        } else {
            None
        }),
        opt(bar.detail) == (match input.result {
            Some(result) => detail_text(result),
            None => None,
        }),
        opt(bar.summary) == (match input.result {
            Some(result) => Some(result.summary@),
            None => None,
        }),
        opt(bar.position) == position_text(input.position),
        arrows_are(
            bar.paging,
            match input.result {
                Some(result) => paging_of(Some(result.source)),
                None => None,
            },
        ),
        match (bar.update, input.update) {
            (Some(shown), Some(chip)) => {
                &&& shown.label@ == chip.label@
                &&& shown.action == chip.action
                &&& shown.clickable == (chip.action != UpdateAction::Nothing)
                &&& shown.tone == (if chip.action == UpdateAction::Nothing {
                    Tone::Muted
                } else {
                    Tone::Accent
                })
            },
            (None, None) => true,
            _ => false,
        },
{
    let message = match &input.status {
        Status::Idle => idle_message(input.result.is_some(), &input.connection),
        Status::Busy(text) => text.as_str().to_string(),
        Status::Info(text) => text.as_str().to_string(),
        Status::Error(text) => text.as_str().to_string(),
    };
    let (message_tone, light) = match &input.status {
        Status::Idle => (Tone::Muted, Tone::Success),
        Status::Busy(_) => (Tone::Warning, Tone::Warning),
        Status::Info(_) => (Tone::Muted, Tone::Accent),
        Status::Error(_) => (Tone::Danger, Tone::Danger),
    };
    let position = match input.position {
        Some((page, pages)) => {
            let mut text: String = "Page ".to_string();
            push_decimal(&mut text, page);
            text.append(" of ");
            push_decimal(&mut text, pages);
            Some(text)
        },
        None => None,
    };
    let update = match &input.update {
        Some(chip) => {
            let idle = chip.action == UpdateAction::Nothing;
            Some(
                UpdateView {
                    label: chip.label.as_str().to_string(),
                    tone: if idle {
                        Tone::Muted
                    } else {
                        Tone::Accent
                    },
                    clickable: !idle,
                    action: chip.action,
                },
            )
        },
        None => None,
    };
    match &input.result {
        Some(result) => StatusBar {
            message,
            message_tone,
            light,
            more_rows: if result.truncated {
                Some("more rows available".to_string())
            } else {
                None
            },
            detail: cell_detail(result),
            summary: Some(result.summary.as_str().to_string()),
            position,
            paging: render_status_paging(paging_state(Some(result.source))),
            update,
        },
        None => StatusBar {
            message,
            message_tone,
            light,
            more_rows: None,
            detail: None,
            summary: None,
            position,
            paging: None,
            update,
        },
    }
}

/// The arrows are stopped at the two ends of a table: at the first row, and where
/// no row lies past the page. What a query brought has no pages.
pub proof fn paging_stops_at_the_ends(page: Page, total: i64)
    ensures
        paging_of(Some(ResultSource::Table { page, total_rows: Some(total) })) == Some(
            (page.offset == 0, total <= page.offset + page.limit),
        ),
        paging_of(Some(ResultSource::Table { page, total_rows: None })) == Some(
            (page.offset == 0, false),
        ),
        paging_of(Some(ResultSource::Query)) is None,
        paging_of(None) is None,
{
}

/// The bar's two arrows point back and forward, each stopped at its own end.
pub proof fn the_arrows_point_both_ways(
    arrows: Option<(PageArrow, PageArrow)>,
    at_start: bool,
    at_end: bool,
)
    requires
        arrows_are(arrows, Some((at_start, at_end))),
    ensures
        arrows is Some,
        (arrows->0).0.glyph@ == seq!['‹'] && (arrows->0).0.disabled == at_start,
        (arrows->0).1.glyph@ == seq!['›'] && (arrows->0).1.disabled == at_end,
{
    reveal_strlit("‹");
    reveal_strlit("›");
    assert("‹"@ == seq!['‹']);
    assert("›"@ == seq!['›']);
}

/// What is selected is told as its column and its value, where it is in the result,
/// with a word on how to open it where it leads somewhere.
pub proof fn the_selected_cell_is_told(result: ResultLine, row: usize, column: usize, opens: bool)
    requires
        result.selected == Some((row, column, opens)),
    ensures
        detail_text(result) is Some <==> row < result.rows@.len() && column
            < result.rows@[row as int]@.len() && column < result.columns@.len(),
        detail_text(result) is Some && !opens ==> detail_text(result)->0
            == result.columns@[column as int]@ + seq![' ', '=', ' '] + result.rows@[row as int]@[column as int]@,
        detail_text(result) is Some && opens ==> detail_text(result)->0
            == result.columns@[column as int]@ + seq![' ', '=', ' '] + result.rows@[row as int]@[column as int]@
            + seq![' ', ' ', '·', ' ', ' ', '⌘', '↵', ' ', 'o', 'r', ' ', '⌥', '-', 'c', 'l', 'i', 'c', 'k', ' ', 't', 'o', ' ', 'o', 'p', 'e', 'n'],
{
    reveal_strlit(" = ");
    reveal_strlit("  ·  ⌘↵ or ⌥-click to open");
    assert(" = "@ == seq![' ', '=', ' ']);
    assert("  ·  ⌘↵ or ⌥-click to open"@ == seq![' ', ' ', '·', ' ', ' ', '⌘', '↵', ' ', 'o', 'r', ' ', '⌥', '-', 'c', 'l', 'i', 'c', 'k', ' ', 't', 'o', ' ', 'o', 'p', 'e', 'n']);
    reveal_strlit("");
    if detail_text(result) is Some && !opens {
        assert(detail_text(result)->0 == result.columns@[column as int]@ + seq![' ', '=', ' ']
            + result.rows@[row as int]@[column as int]@);
    }
}

/// Where nothing is selected there is nothing to tell.
pub proof fn nothing_selected_is_nothing_told(result: ResultLine)
    requires
        result.selected is None,
    ensures
        detail_text(result) is None,
{
}

/// What goes wrong is red and what is under way is amber, in the words and in the
/// light; each of the four voices has its own light.
pub proof fn the_light_tells_the_voice(a: Status, b: Status)
    ensures
        a is Error ==> status_tone(a) == Tone::Danger && status_light(a) == Tone::Danger,
        a is Busy ==> status_tone(a) == Tone::Warning && status_light(a) == Tone::Warning,
        a is Idle ==> status_tone(a) == Tone::Muted && status_light(a) == Tone::Success,
        a is Info ==> status_tone(a) == Tone::Muted && status_light(a) == Tone::Accent,
        status_light(a) == status_light(b) ==> (a is Idle <==> b is Idle) && (a is Busy
            <==> b is Busy) && (a is Info <==> b is Info) && (a is Error <==> b is Error),
{
}

/// The bar says what there is to say; with nothing to say it names the connection
/// until there is a result, and is ready from then on.
pub proof fn an_idle_bar_names_the_connection(input: StatusInput)
    ensures
        input.status matches Status::Busy(text) ==> status_text(input) == text@,
        input.status matches Status::Info(text) ==> status_text(input) == text@,
        input.status matches Status::Error(text) ==> status_text(input) == text@,
        input.status is Idle && input.result is None && input.connection is Some ==> status_text(
            input,
        ) == input.connection->0@,
        input.status is Idle && (input.result is Some || input.connection is None) ==> status_text(
            input,
        ) == seq!['R', 'e', 'a', 'd', 'y'],
{
    reveal_strlit("Ready");
    assert("Ready"@ == seq!['R', 'e', 'a', 'd', 'y']);
}

/// The page is told out of how many there are.
pub proof fn the_page_is_told(page: u64, pages: u64)
    ensures
        position_text(Some((page, pages))) == Some(
            seq!['P', 'a', 'g', 'e', ' '] + decimal(page as nat) + seq![' ', 'o', 'f', ' '] + decimal(pages as nat),
        ),
        position_text(None) is None,
{
    reveal_strlit("Page ");
    reveal_strlit(" of ");
    assert("Page "@ == seq!['P', 'a', 'g', 'e', ' ']);
    assert(" of "@ == seq![' ', 'o', 'f', ' ']);
}

} // verus!
