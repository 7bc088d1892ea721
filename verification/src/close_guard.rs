//! The guard in front of closing something that is holding uncommitted work.
//!
//! Staged edits live on the tab, so closing one is the one gesture that can
//! silently throw away work the server never saw. The change bubble says the
//! work exists; this says it is about to go.
use crate::domain::{ConnectionId, TabId};
use crate::text::{decimal, push_decimal};
use vstd::prelude::*;
use vstd::string::*;

verus! {

/// What a confirmed discard goes on to close.
#[derive(Clone, Copy, PartialEq, Eq, Structural, Debug)]
pub enum CloseTarget {
    /// A table or SQL tab, by index in the active connection's tab list.
    Tab(usize),
    /// Several tabs at once, from the tab bar's own menu.
    TabGroup(TabScope),
    Connection(ConnectionId),
}

/// Which tabs one of the bulk closes is aimed at.
///
/// Named by [`TabId`] rather than by index: the guard can sit open while
/// another tab closes, and an index that shifted under it would close whatever
/// slid into the slot.
#[derive(Clone, Copy, PartialEq, Eq, Structural, Debug)]
pub enum TabScope {
    /// Everything but the tab the menu was opened on.
    Others(TabId),
    /// Everything sitting to the right of it.
    ToRight(TabId),
    All,
}

#[derive(Debug)]
pub struct CloseGuard {
    pub target: CloseTarget,
    /// What is being closed, named the way the user sees it named.
    pub label: String,
    pub changes: usize,
}

/// The guard as it asks.
#[derive(Debug)]
pub struct CloseQuestion {
    pub title: String,
    pub body: String,
    pub hint: String,
    pub keep: String,
    pub discard: String,
}

pub open spec fn close_title(changes: nat) -> Seq<char> {
    "Discard "@ + decimal(changes) + " staged "@ + (if changes == 1 {
        "change"@
    } else {
        "changes"@
    }) + "?"@
}

/// A group close is several tabs, and the singular sentence would name them as
/// one thing the user never opened.
pub open spec fn close_body(target: CloseTarget, label: Seq<char>) -> Seq<char> {
    if target is TabGroup {
        label + " have work that has not been committed. Closing them throws the whole batch away."@
    } else {
        "“"@ + label
            + "” has work that has not been committed. Closing it throws the whole batch away."@
    }
}

/// What the guard asks, while it is up.
pub fn render_close_guard(guard: &Option<CloseGuard>) -> (question: Option<CloseQuestion>)
    ensures
        match (guard, question) {
            (Some(guard), Some(question)) => {
                &&& question.title@ == close_title(guard.changes as nat)
                &&& question.body@ == close_body(guard.target, guard.label@)
                &&& question.hint@ == "⌘S commits them and keeps this open. Esc cancels."@
                &&& question.keep@ == "Keep Open"@
                &&& question.discard@ == "Discard & Close"@
            },
            (None, None) => true,
            _ => false,
        },
{
    match guard {
        None => None,
        Some(guard) => {
            let mut title: String = "Discard ".to_string();
            push_decimal(&mut title, guard.changes as u64);
            title.append(" staged ");
            title.append(
                if guard.changes == 1 {
                    "change"
                } else {
                    "changes"
                },
            );
            title.append("?");
            let group = match guard.target {
                CloseTarget::TabGroup(_) => true,
                _ => false,
            };
            let mut body: String = String::new();
            if group {
                body.append(guard.label.as_str());
                body.append(
                    " have work that has not been committed. Closing them throws the whole batch away.",
                );
            } else {
                body.append("“");
                body.append(guard.label.as_str());
                body.append(
                    "” has work that has not been committed. Closing it throws the whole batch away.",
                );
            }
            assert(body@ == close_body(guard.target, guard.label@));
            Some(
                CloseQuestion {
                    title,
                    body,
                    hint: "⌘S commits them and keeps this open. Esc cancels.".to_string(),
                    keep: "Keep Open".to_string(),
                    discard: "Discard & Close".to_string(),
                },
            )
        },
    }
}

/// The question counts the changes that would be lost, and names what they are in.
pub proof fn the_question_says_what_would_be_lost(
    changes: nat,
    target: CloseTarget,
    label: Seq<char>,
)
    ensures
        changes == 1 ==> close_title(changes) == seq!['D', 'i', 's', 'c', 'a', 'r', 'd', ' '] + decimal(changes)
            + seq![' ', 's', 't', 'a', 'g', 'e', 'd', ' ', 'c', 'h', 'a', 'n', 'g', 'e', '?'],
        changes != 1 ==> close_title(changes) == seq!['D', 'i', 's', 'c', 'a', 'r', 'd', ' '] + decimal(changes)
            + seq![' ', 's', 't', 'a', 'g', 'e', 'd', ' ', 'c', 'h', 'a', 'n', 'g', 'e', 's', '?'],
        target is TabGroup ==> close_body(target, label).take(label.len() as int) == label,
        !(target is TabGroup) ==> close_body(target, label).take(label.len() as int + 1)
            == seq!['“'] + label,
{
    reveal_strlit("Discard ");
    reveal_strlit(" staged ");
    reveal_strlit("change");
    reveal_strlit("changes");
    reveal_strlit("?");
    reveal_strlit("“");
    assert("Discard "@ == seq!['D', 'i', 's', 'c', 'a', 'r', 'd', ' ']);
    assert(" staged "@ == seq![' ', 's', 't', 'a', 'g', 'e', 'd', ' ']);
    assert("change"@ == seq!['c', 'h', 'a', 'n', 'g', 'e']);
    assert("changes"@ == seq!['c', 'h', 'a', 'n', 'g', 'e', 's']);
    assert("?"@ == seq!['?']);
    assert("“"@ == seq!['“']);
    if changes == 1 {
        assert(close_title(changes) == seq!['D', 'i', 's', 'c', 'a', 'r', 'd', ' '] + decimal(changes) + seq![' ', 's', 't', 'a', 'g', 'e', 'd', ' ', 'c', 'h', 'a', 'n', 'g', 'e', '?']);
    } else {
        assert(close_title(changes) == seq!['D', 'i', 's', 'c', 'a', 'r', 'd', ' '] + decimal(changes) + seq![' ', 's', 't', 'a', 'g', 'e', 'd', ' ', 'c', 'h', 'a', 'n', 'g', 'e', 's', '?']);
    }
    if target is TabGroup {
        assert(close_body(target, label).take(label.len() as int) == label);
    } else {
        assert(close_body(target, label).take(label.len() as int + 1) == seq!['“'] + label);
    }
}

} // verus!
