//! The question in front of a write on a connection that is tagged production.
//!
//! Read-only refuses writes outright; this is for the server that has to take
//! writes, but where one sent by reflex is the expensive kind of mistake. It
//! names the connection and what is about to be sent, and nothing goes until it
//! is answered.
use crate::domain::Status;
use crate::text::{
    chars_of, clip, clipped, decimal, lemma_places_step, lemma_trimmed_is_part,
    only_one_is_singular, places_where, plural, plural_s, push_decimal, string_of_range, trim,
    trimmed,
};
use vstd::prelude::*;
use vstd::string::*;

verus! {

/// A statement, and whether it writes.
#[derive(Debug)]
pub struct GuardedStatement {
    pub sql: String,
    pub writes: bool,
}

/// What is waiting on the answer.
#[derive(Debug)]
pub enum GuardedWrite {
    /// The staged batch on the tab ⌘S was pressed on.
    Commit { changes: usize },
    /// Statements from the SQL editor, at least one of which writes.
    Statements(Vec<GuardedStatement>),
}

#[derive(Debug)]
pub struct ProductionGuard {
    pub write: GuardedWrite,
    /// The connection's name, as the tab strip shows it.
    pub connection: String,
}

/// The text up to its first line break.
pub open spec fn up_to_break(text: Seq<char>) -> Seq<char>
    decreases text.len(),
{
    if text.len() == 0 || text[0] == '\n' {
        Seq::empty()
    } else {
        seq![text[0]] + up_to_break(text.drop_first())
    }
}

/// One line of a statement: its first, no longer than eighty characters, with
/// an ellipsis where there was more.
pub open spec fn glance(sql: Seq<char>) -> Seq<char> {
    let text = trimmed(sql);
    let line = trimmed(up_to_break(text));
    if line.len() > 80 || text.contains('\n') {
        clipped(line, 80).push('…')
    } else {
        line
    }
}

/// One line of a statement, short enough to read at a glance.
pub fn first_line(sql: &str) -> (line: String)
    ensures
        line@ == glance(sql@),
{
    let text = trim(sql);
    let chars = chars_of(text.as_str());
    let mut end: usize = 0;
    assert(text@.subrange(0, text@.len() as int) == text@);
    assert(Seq::<char>::empty() + up_to_break(text@) == up_to_break(text@));
    assert(text@.subrange(0, 0) == Seq::<char>::empty());
    while end < chars.len() && chars[end] != '\n'
        invariant
            chars@ == text@,
            end <= chars@.len(),
            up_to_break(text@) == text@.subrange(0, end as int) + up_to_break(
                text@.subrange(end as int, text@.len() as int),
            ),
            forall|i: int| 0 <= i < end ==> text@[i] != '\n',
        decreases chars@.len() - end,
    {
        let ghost rest = text@.subrange(end as int, text@.len() as int);
        assert(rest.drop_first() == text@.subrange(end + 1, text@.len() as int));
        assert(text@.subrange(0, end + 1) == text@.subrange(0, end as int) + seq![rest[0]]);
        assert(text@.subrange(0, end as int) + (seq![rest[0]] + up_to_break(rest.drop_first()))
            == text@.subrange(0, end + 1) + up_to_break(rest.drop_first()));
        end += 1;
    }
    let more = end < chars.len();
    proof {
        let rest = text@.subrange(end as int, text@.len() as int);
        if more {
            assert(rest[0] == '\n');
            assert(text@[end as int] == '\n');
        }
        assert(up_to_break(rest) == Seq::<char>::empty());
        assert(up_to_break(text@) == text@.subrange(0, end as int));
        assert(more == text@.contains('\n'));
    }
    let first = string_of_range(&chars, 0, end);
    let line = trim(first.as_str());
    let long = chars_of(line.as_str()).len() > 80;
    let mut out = clip(line.as_str(), 80);
    if long || more {
        out.push('…');
    }
    out
}

/// A statement at a glance is one line.
pub proof fn a_glance_is_one_line(sql: Seq<char>)
    ensures
        glance(sql).len() <= 81,
        !glance(sql).contains('\n'),
{
    let text = trimmed(sql);
    let line = trimmed(up_to_break(text));
    lemma_no_break(text);
    lemma_trimmed_is_part(up_to_break(text));
    let from = choose|from: int|
        0 <= from && from + line.len() <= up_to_break(text).len() && line == #[trigger] up_to_break(
            text,
        ).subrange(from, from + line.len());
    assert forall|i: int| 0 <= i < line.len() implies line[i] != '\n' by {
        assert(line[i] == up_to_break(text)[from + i]);
    }
}

proof fn lemma_no_break(text: Seq<char>)
    ensures
        forall|i: int| 0 <= i < up_to_break(text).len() ==> up_to_break(text)[i] != '\n',
    decreases text.len(),
{
    if text.len() > 0 && text[0] != '\n' {
        let rest = up_to_break(text.drop_first());
        lemma_no_break(text.drop_first());
        assert forall|i: int| 0 <= i < up_to_break(text).len() implies up_to_break(text)[i]
            != '\n' by {
            if i > 0 {
                assert(up_to_break(text)[i] == rest[i - 1]);
            }
        }
    }
}

/// How many of the statements write.
pub open spec fn write_count(statements: Seq<GuardedStatement>) -> nat
    decreases statements.len(),
{
    if statements.len() == 0 {
        0
    } else {
        write_count(statements.drop_last()) + (if statements.last().writes {
            1nat
        } else {
            0nat
        })
    }
}

/// The first statement that writes, at a glance; nothing where none does.
pub open spec fn first_write(statements: Seq<GuardedStatement>, from: int) -> Seq<char>
    decreases statements.len() - from,
{
    if from >= statements.len() {
        Seq::empty()
    } else if statements[from].writes {
        glance(statements[from].sql@)
    } else {
        first_write(statements, from + 1)
    }
}

pub open spec fn guard_body(write: GuardedWrite) -> Seq<char> {
    match write {
        GuardedWrite::Commit { changes } => decimal(changes as nat) + " staged change"@ + plural_s(
            changes as nat,
        ) + " will be committed."@,
        GuardedWrite::Statements(statements) => if write_count(statements@) == 1 {
            "This statement writes: "@ + first_write(statements@, 0)
        } else {
            decimal(write_count(statements@)) + " of these statements write, starting with: "@
                + first_write(statements@, 0)
        },
    }
}

fn count_writes(statements: &Vec<GuardedStatement>) -> (count: usize)
    ensures
        count == write_count(statements@),
{
    let mut count: usize = 0;
    let mut i: usize = 0;
    assert(statements@.take(0) == Seq::<GuardedStatement>::empty());
    while i < statements.len()
        invariant
            count <= i <= statements@.len(),
            count == write_count(statements@.take(i as int)),
        decreases statements@.len() - i,
    {
        assert(statements@.take(i + 1).drop_last() == statements@.take(i as int));
        assert(statements@.take(i + 1).last() == statements@[i as int]);
        if statements[i].writes {
            count += 1;
        }
        i += 1;
    }
    assert(statements@.take(i as int) == statements@);
    count
}

fn find_first_write(statements: &Vec<GuardedStatement>) -> (line: String)
    ensures
        line@ == first_write(statements@, 0),
{
    let mut i: usize = 0;
    while i < statements.len()
        invariant
            i <= statements@.len(),
            first_write(statements@, 0) == first_write(statements@, i as int),
        decreases statements@.len() - i,
    {
        if statements[i].writes {
            return first_line(statements[i].sql.as_str());
        }
        i += 1;
    }
    String::new()
}

impl ProductionGuard {
    pub fn title(&self) -> (title: String)
        ensures
            title@ == "Write to production — “"@ + self.connection@ + "”?"@,
    {
        let mut title: String = "Write to production — “".to_string();
        title.append(self.connection.as_str());
        title.append("”?");
        title
    }

    pub fn body(&self) -> (body: String)
        ensures
            body@ == guard_body(self.write),
    {
        let mut body: String = String::new();
        match &self.write {
            GuardedWrite::Commit { changes } => {
                push_decimal(&mut body, *changes as u64);
                body.append(" staged change");
                body.append(plural(*changes as u64));
                body.append(" will be committed.");
            },
            GuardedWrite::Statements(statements) => {
                let first = find_first_write(statements);
                let count: usize = count_writes(statements);
                if count == 1 {
                    body.append("This statement writes: ");
                } else {
                    push_decimal(&mut body, count as u64);
                    body.append(" of these statements write, starting with: ");
                }
                body.append(first.as_str());
            },
        }
        assert(body@ == guard_body(self.write));
        body
    }

    pub fn confirm_label(&self) -> (label: &'static str)
        ensures
            label@ == (if self.write is Commit {
                "Commit to Production"@
            } else {
                "Run on Production"@
            }),
    {
        match &self.write {
            GuardedWrite::Commit { .. } => "Commit to Production",
            GuardedWrite::Statements(_) => "Run on Production",
        }
    }
}

/// The question and its answer: the guard while it is up, and the pass that a
/// "go ahead" gives to the one write it was asked about.
#[derive(Debug)]
pub struct ProductionState {
    pub guard: Option<ProductionGuard>,
    pub confirmed: bool,
}

/// The connection in front, as far as the guard reads it.
#[derive(Debug)]
pub struct FrontConnection {
    pub name: String,
    /// It is tagged so that writes are asked about.
    pub confirms_writes: bool,
}

/// What a write that comes by meets: whether it is stopped, and whether there is
/// a pass afterwards. It is stopped on a connection that asks, unless it has the
/// pass; and a pass is gone once a write has come by.
pub open spec fn held(confirmed: bool, front: Option<FrontConnection>) -> (bool, bool) {
    (!confirmed && (front matches Some(front) && front.confirms_writes), false)
}

impl ProductionState {
    /// Stop `write` for a question when the connection in front is tagged
    /// production. Returns true when the caller should stop; the answer runs
    /// the write again, and this lets that second pass through.
    pub fn hold_for_production(
        &mut self,
        write: GuardedWrite,
        front: &Option<FrontConnection>,
    ) -> (stopped: bool)
        ensures
            (stopped, final(self).confirmed) == held(old(self).confirmed, *front),
            stopped ==> (final(self).guard matches Some(guard) && guard.write == write
                && guard.connection@ == front.unwrap().name@),
            !stopped ==> final(self).guard == old(self).guard,
    {
        if self.confirmed {
            self.confirmed = false;
            return false;
        }
        match front {
            Some(front) => {
                if !front.confirms_writes {
                    return false;
                }
                self.guard = Some(
                    ProductionGuard { write, connection: front.name.as_str().to_string() },
                );
                true
            },
            None => false,
        }
    }

    /// "Go ahead": the write that was held, with the pass for it.
    pub fn confirm_production_write(&mut self) -> (write: Option<GuardedWrite>)
        ensures
            match (old(self).guard, write) {
                (Some(guard), Some(write)) => write == guard.write && final(self).confirmed,
                (None, None) => final(self).confirmed == old(self).confirmed,
                _ => false,
            },
            final(self).guard is None,
    {
        match self.guard.take() {
            Some(guard) => {
                self.confirmed = true;
                Some(guard.write)
            },
            None => None,
        }
    }

    /// Spent or not, the pass is for this one write only.
    pub fn end_confirmed_write(&mut self)
        ensures
            !final(self).confirmed,
            final(self).guard == old(self).guard,
    {
        self.confirmed = false;
    }

    pub fn cancel_production_write(&mut self) -> (status: Option<Status>)
        ensures
            final(self).guard is None,
            final(self).confirmed == old(self).confirmed,
            match (old(self).guard, status) {
                (Some(_), Some(status)) => status.info_is("Cancelled — nothing was sent"@),
                (None, None) => true,
                _ => false,
            },
    {
        match self.guard.take() {
            Some(_) => Some(Status::info("Cancelled — nothing was sent")),
            None => None,
        }
    }
}

/// One "go ahead" lets one write through: the write it was given for passes, and
/// the next one on a connection that asks is stopped again.
pub proof fn one_pass_is_one_write(front: Option<FrontConnection>)
    requires
        front is Some,
        front.unwrap().confirms_writes,
    ensures
        !held(true, front).0,
        held(held(true, front).1, front).0,
{
}

/// The guard as it asks.
#[derive(Debug)]
pub struct ProductionQuestion {
    pub badge: String,
    pub title: String,
    pub body: String,
    pub hint: String,
    pub cancel: String,
    pub confirm: String,
}

/// What the guard asks, while it is up.
pub fn render_production_guard(guard: &Option<ProductionGuard>) -> (question: Option<
    ProductionQuestion,
>)
    ensures
        match (guard, question) {
            (Some(guard), Some(question)) => {
                &&& question.badge@ == "PRODUCTION"@
                &&& question.title@ == "Write to production — “"@ + guard.connection@ + "”?"@
                &&& question.body@ == guard_body(guard.write)
                &&& question.hint@ == "↵ goes ahead. Esc cancels; nothing is sent."@
                &&& question.cancel@ == "Cancel"@
                &&& question.confirm@ == (if guard.write is Commit {
                    "Commit to Production"@
                } else {
                    "Run on Production"@
                })
            },
            (None, None) => true,
            _ => false,
        },
{
    match guard {
        Some(guard) => Some(
            ProductionQuestion {
                badge: "PRODUCTION".to_string(),
                title: guard.title(),
                body: guard.body(),
                hint: "↵ goes ahead. Esc cancels; nothing is sent.".to_string(),
                cancel: "Cancel".to_string(),
                confirm: guard.confirm_label().to_string(),
            },
        ),
        None => None,
    }
}

/// A text up to its first line break is what stands before it, or all of it where
/// there is none.
pub proof fn a_line_ends_at_its_break(line: Seq<char>, rest: Seq<char>)
    requires
        !line.contains('\n'),
    ensures
        up_to_break(line) == line,
        up_to_break(line + seq!['\n'] + rest) == line,
    decreases line.len(),
{
    let all = line + seq!['\n'] + rest;
    if line.len() == 0 {
        assert(all[0] == '\n');
        assert(up_to_break(all) == line);
        assert(up_to_break(line) == line);
    } else {
        let fewer = line.drop_first();
        assert(line[0] != '\n') by {
            assert(line.contains(line[0]));
        }
        assert(!fewer.contains('\n')) by {
            if fewer.contains('\n') {
                let i = choose|i: int| 0 <= i < fewer.len() && fewer[i] == '\n';
                assert(line[i + 1] == '\n');
            }
        }
        a_line_ends_at_its_break(fewer, rest);
        assert(all.drop_first() == fewer + seq!['\n'] + rest);
        assert(seq![line[0]] + fewer == line);
        assert(all[0] == line[0]);
    }
}

/// At a glance a short statement on one line is all of it, without white space
/// around it. Of any other the first line is shown, up to eighty characters, and a
/// sign says that there is more.
pub proof fn a_glance_is_the_first_line(line: Seq<char>, rest: Seq<char>)
    requires
        !line.contains('\n'),
        trimmed(line) == line,
    ensures
        line.len() <= 80 ==> glance(line) == line,
        line.len() > 80 ==> glance(line) == line.take(80) + seq!['…'],
        trimmed(line + seq!['\n'] + rest) == line + seq!['\n'] + rest && line.len() <= 80
            ==> glance(line + seq!['\n'] + rest) == line + seq!['…'],
{
    a_line_ends_at_its_break(line, rest);
    let all = line + seq!['\n'] + rest;
    assert(all[line.len() as int] == '\n');
    if line.len() > 80 {
        assert(glance(line) == line.take(80) + seq!['…']);
    }
    if trimmed(all) == all && line.len() <= 80 {
        assert(glance(all) == line + seq!['…']);
    }
}

/// Whether a statement writes.
pub open spec fn statement_writes(statements: Seq<GuardedStatement>) -> spec_fn(int) -> bool {
    |i: int| statements[i].writes
}

proof fn lemma_writes(statements: Seq<GuardedStatement>, upto: int) -> (places: Seq<int>)
    requires
        0 <= upto <= statements.len(),
    ensures
        places_where(places, upto, statement_writes(statements)),
        write_count(statements.take(upto)) == places.len(),
    decreases upto,
{
    let holds = statement_writes(statements);
    if upto == 0 {
        Seq::<int>::empty()
    } else {
        let n = upto - 1;
        let before = lemma_writes(statements, n);
        lemma_places_step(before, n, holds);
        assert(statements.take(upto).drop_last() == statements.take(n));
        if holds(n) {
            before.push(n)
        } else {
            before
        }
    }
}

proof fn lemma_first_write(statements: Seq<GuardedStatement>, from: int, at: int)
    requires
        0 <= from <= at < statements.len(),
        statements[at].writes,
        forall|i: int| from <= i < at ==> !(#[trigger] statements[i]).writes,
    ensures
        first_write(statements, from) == glance(statements[at].sql@),
    decreases at - from,
{
    if from < at {
        lemma_first_write(statements, from + 1, at);
    }
}

/// The question counts the statements that write, and shows the first of them.
pub proof fn the_question_is_about_what_writes(statements: Vec<GuardedStatement>, at: int)
    requires
        0 <= at < statements@.len(),
        statements@[at].writes,
        forall|i: int| 0 <= i < at ==> !(#[trigger] statements@[i]).writes,
    ensures
        exists|places: Seq<int>|
            {
                &&& #[trigger] places_where(
                    places,
                    statements@.len() as int,
                    statement_writes(statements@),
                )
                &&& write_count(statements@) == places.len()
                &&& guard_body(GuardedWrite::Statements(statements)) == (if places.len() == 1 {
                    seq!['T', 'h', 'i', 's', ' ', 's', 't', 'a', 't', 'e', 'm', 'e', 'n', 't', ' ', 'w', 'r', 'i', 't', 'e', 's', ':', ' ']
                } else {
                    decimal(places.len()) + seq![' ', 'o', 'f', ' ', 't', 'h', 'e', 's', 'e', ' ', 's', 't', 'a', 't', 'e', 'm', 'e', 'n', 't', 's', ' ', 'w', 'r', 'i', 't', 'e', ',', ' ', 's', 't', 'a', 'r', 't', 'i', 'n', 'g', ' ', 'w', 'i', 't', 'h', ':', ' ']
                }) + glance(statements@[at].sql@)
            },
{
    reveal_strlit("This statement writes: ");
    reveal_strlit(" of these statements write, starting with: ");
    assert("This statement writes: "@ == seq!['T', 'h', 'i', 's', ' ', 's', 't', 'a', 't', 'e', 'm', 'e', 'n', 't', ' ', 'w', 'r', 'i', 't', 'e', 's', ':', ' ']);
    assert(" of these statements write, starting with: "@ == seq![' ', 'o', 'f', ' ', 't', 'h', 'e', 's', 'e', ' ', 's', 't', 'a', 't', 'e', 'm', 'e', 'n', 't', 's', ' ', 'w', 'r', 'i', 't', 'e', ',', ' ', 's', 't', 'a', 'r', 't', 'i', 'n', 'g', ' ', 'w', 'i', 't', 'h', ':', ' ']);
    let n = statements@.len() as int;
    assert(statements@.take(n) == statements@);
    let places = lemma_writes(statements@, n);
    lemma_first_write(statements@, 0, at);
    assert(places_where(places, n, statement_writes(statements@)));
}

/// A commit is asked about by how many changes it makes.
pub proof fn the_question_counts_the_changes(changes: usize)
    ensures
        guard_body(GuardedWrite::Commit { changes }) == decimal(changes as nat) + (if changes == 1 {
            seq![' ', 's', 't', 'a', 'g', 'e', 'd', ' ', 'c', 'h', 'a', 'n', 'g', 'e']
        } else {
            seq![' ', 's', 't', 'a', 'g', 'e', 'd', ' ', 'c', 'h', 'a', 'n', 'g', 'e', 's']
        }) + seq![' ', 'w', 'i', 'l', 'l', ' ', 'b', 'e', ' ', 'c', 'o', 'm', 'm', 'i', 't', 't', 'e', 'd', '.'],
{
    reveal_strlit(" staged change");
    reveal_strlit(" will be committed.");
    assert(" staged change"@ == seq![' ', 's', 't', 'a', 'g', 'e', 'd', ' ', 'c', 'h', 'a', 'n', 'g', 'e']);
    assert(" will be committed."@ == seq![' ', 'w', 'i', 'l', 'l', ' ', 'b', 'e', ' ', 'c', 'o', 'm', 'm', 'i', 't', 't', 'e', 'd', '.']);
    only_one_is_singular(changes as nat);
    let word = " staged change"@ + plural_s(changes as nat);
    assert(word == (if changes == 1 {
        seq![' ', 's', 't', 'a', 'g', 'e', 'd', ' ', 'c', 'h', 'a', 'n', 'g', 'e']
    } else {
        seq![' ', 's', 't', 'a', 'g', 'e', 'd', ' ', 'c', 'h', 'a', 'n', 'g', 'e', 's']
    }));
    assert(guard_body(GuardedWrite::Commit { changes }) == decimal(changes as nat) + word
        + " will be committed."@);
}

/// A write is held back exactly when the connection asks first and nobody has said
/// yes; a yes is spent on one write.
pub proof fn a_write_is_held_until_it_is_confirmed(confirmed: bool, front: Option<FrontConnection>)
    ensures
        held(confirmed, front).0 <==> !confirmed && front is Some && front->0.confirms_writes,
        !held(confirmed, front).1,
{
}

} // verus!
