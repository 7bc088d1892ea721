//! A query plan, drawn as a tree with the expensive step picked out.
//!
//! The nesting is drawn as indentation, each step's own share of the work as a
//! bar, and the largest share in the warning colour. The figures arrive as
//! short text.
use crate::text::{
    decimal, only_one_is_singular, plural, plural_s, push_decimal, push_text, texts,
};
use vstd::prelude::*;
use vstd::string::*;

verus! {

/// A statement's result, as far as its plan goes.
#[derive(Debug, Clone, Copy, PartialEq, Eq, Structural)]
pub struct PlanState {
    /// The result reads as a plan.
    pub has_plan: bool,
    /// Its raw rows were asked for instead.
    pub show_rows: bool,
}

/// The results of a query tab, and which is in front.
#[derive(Debug)]
pub struct PlanResults {
    pub results: Vec<PlanState>,
    pub active: usize,
}

/// The result in front has a plan, and the rows were not asked for instead.
pub open spec fn shows_plan(front: Option<PlanResults>) -> bool {
    front matches Some(tab) && tab.active < tab.results@.len()
        && tab.results@[tab.active as int].has_plan && !tab.results@[tab.active as int].show_rows
}

/// Whether the result in front is drawn as its plan. Only a query tab's is.
pub fn active_plan(front: &Option<PlanResults>) -> (shows: bool)
    ensures
        shows == shows_plan(*front),
{
    match front {
        Some(tab) => tab.active < tab.results.len() && tab.results[tab.active].has_plan
            && !tab.results[tab.active].show_rows,
        None => false,
    }
}

/// Whether the result in front reads as a plan, drawn as one or not.
pub fn active_result_has_plan(front: &Option<PlanResults>) -> (has: bool)
    ensures
        has == (*front is Some && front.unwrap().active < front.unwrap().results@.len()
            && front.unwrap().results@[front.unwrap().active as int].has_plan),
{
    match front {
        Some(tab) => tab.active < tab.results.len() && tab.results[tab.active].has_plan,
        None => false,
    }
}

/// The results with the one in front switched, where it has a plan.
pub open spec fn switched(results: Seq<PlanState>, active: int) -> Seq<PlanState> {
    if active < results.len() && results[active].has_plan {
        results.update(
            active,
            PlanState { has_plan: true, show_rows: !results[active].show_rows },
        )
    } else {
        results
    }
}

impl PlanResults {
    /// Switch the result in front between its plan and its raw rows.
    pub fn toggle_plan_rows(&mut self)
        ensures
            final(self).active == old(self).active,
            final(self).results@ == switched(old(self).results@, old(self).active as int),
    {
        if self.active < self.results.len() {
            let state = self.results[self.active];
            if state.has_plan {
                self.results.set(
                    self.active,
                    PlanState { has_plan: true, show_rows: !state.show_rows },
                );
            }
        }
    }
}

/// Switching twice shows what was shown.
pub proof fn switching_twice_changes_nothing(results: Seq<PlanState>, active: int)
    requires
        0 <= active,
    ensures
        switched(switched(results, active), active) == results,
{
}

/// A step of the plan. Its figures are short text, where it has them.
#[derive(Debug)]
pub struct PlanStep {
    pub depth: usize,
    pub title: String,
    pub details: Vec<String>,
    pub rows: Option<String>,
    pub cost: Option<String>,
    pub time: Option<String>,
    /// Its share of the work, as a rank that orders as the shares do.
    pub share: i64,
    /// The share is more than nothing.
    pub has_share: bool,
    /// The share in percent.
    pub percent: String,
}

/// A step with the largest share among the first `upto`, the last of them where
/// several share it.
pub open spec fn largest(steps: Seq<PlanStep>, upto: int) -> int
    decreases upto,
{
    if upto <= 1 {
        0
    } else {
        let before = largest(steps, upto - 1);
        if steps[upto - 1].share >= steps[before].share {
            upto - 1
        } else {
            before
        }
    }
}

/// The step that takes the most, where any takes something.
pub open spec fn hottest_of(steps: Seq<PlanStep>) -> Option<int> {
    if steps.len() > 0 && steps[largest(steps, steps.len() as int)].has_share {
        Some(largest(steps, steps.len() as int))
    } else {
        None
    }
}

proof fn lemma_largest(steps: Seq<PlanStep>, upto: int)
    requires
        1 <= upto <= steps.len(),
    ensures
        0 <= largest(steps, upto) < upto,
        forall|i: int|
            0 <= i < upto ==> (#[trigger] steps[i]).share <= steps[largest(steps, upto)].share,
    decreases upto,
{
    if upto > 1 {
        lemma_largest(steps, upto - 1);
    }
}

/// The ranks are those of shares: what takes more than something takes something.
pub open spec fn ranked(steps: Seq<PlanStep>) -> bool {
    forall|i: int, j: int|
        0 <= i < steps.len() && 0 <= j < steps.len() && (#[trigger] steps[i]).has_share
            && steps[i].share <= (#[trigger] steps[j]).share ==> steps[j].has_share
}

/// No step takes more than the one that is picked out, and none is picked out
/// only where no step takes anything.
pub proof fn the_hottest_step_takes_the_most(steps: Seq<PlanStep>, i: int)
    requires
        0 <= i < steps.len(),
        ranked(steps),
    ensures
        match hottest_of(steps) {
            Some(hottest) => 0 <= hottest < steps.len() && steps[hottest].has_share
                && steps[i].share <= steps[hottest].share,
            None => !steps[i].has_share,
        },
{
    lemma_largest(steps, steps.len() as int);
}

/// The step that takes the most, where any takes something.
pub fn hottest(steps: &Vec<PlanStep>) -> (index: Option<usize>)
    ensures
        match (index, hottest_of(steps@)) {
            (Some(index), Some(expected)) => index == expected,
            (None, None) => true,
            _ => false,
        },
{
    if steps.len() == 0 {
        return None;
    }
    let mut at: usize = 0;
    let mut upto: usize = 1;
    while upto < steps.len()
        invariant
            1 <= upto <= steps@.len(),
            at < upto,
            at == largest(steps@, upto as int),
        decreases steps@.len() - upto,
    {
        if steps[upto].share >= steps[at].share {
            at = upto;
        }
        upto += 1;
    }
    if steps[at].has_share {
        Some(at)
    } else {
        None
    }
}

/// A step as it is drawn.
#[derive(Debug)]
pub struct PlanLine {
    pub depth: usize,
    pub marker: String,
    pub title: String,
    pub details: Vec<String>,
    pub rows: String,
    pub cost: String,
    pub time: String,
    pub percent: String,
    /// The step that takes the most.
    pub hot: bool,
}

#[derive(Debug)]
pub struct PlanView {
    pub title: String,
    pub headline: String,
    pub note: String,
    pub show_rows: String,
    /// What stands at the head of each column that is drawn.
    pub headers: Vec<String>,
    /// Which of the figures' columns are drawn.
    pub has_rows: bool,
    pub has_cost: bool,
    pub measured: bool,
    pub lines: Vec<PlanLine>,
}

pub open spec fn any_rows(steps: Seq<PlanStep>) -> bool {
    exists|i: int| 0 <= i < steps.len() && (#[trigger] steps[i]).rows is Some
}

pub open spec fn any_cost(steps: Seq<PlanStep>) -> bool {
    exists|i: int| 0 <= i < steps.len() && (#[trigger] steps[i]).cost is Some
}

pub open spec fn any_time(steps: Seq<PlanStep>) -> bool {
    exists|i: int| 0 <= i < steps.len() && (#[trigger] steps[i]).time is Some
}

pub open spec fn figure(text: Option<String>) -> Seq<char> {
    match text {
        Some(text) => text@,
        None => Seq::empty(),
    }
}

/// The heads of the columns: a figure that no step has gets no column.
pub open spec fn headers_of(steps: Seq<PlanStep>) -> Seq<Seq<char>> {
    seq!["STEP"@] + (if any_rows(steps) {
        seq!["ROWS"@]
    } else {
        Seq::empty()
    }) + (if any_cost(steps) {
        seq!["COST"@]
    } else {
        Seq::empty()
    }) + (if any_time(steps) {
        seq!["TIME"@, "SHARE OF TIME"@]
    } else {
        seq!["SHARE OF COST"@]
    })
}

fn headers(has_rows: bool, has_cost: bool, measured: bool, steps: &Vec<PlanStep>) -> (heads: Vec<
    String,
>)
    requires
        (has_rows, has_cost, measured) == (any_rows(steps@), any_cost(steps@), any_time(steps@)),
    ensures
        texts(heads@) == headers_of(steps@),
{
    let mut heads: Vec<String> = Vec::new();
    assert(texts(heads@) == Seq::<Seq<char>>::empty());
    push_text(&mut heads, "STEP");
    if has_rows {
        push_text(&mut heads, "ROWS");
    }
    if has_cost {
        push_text(&mut heads, "COST");
    }
    if measured {
        push_text(&mut heads, "TIME");
        push_text(&mut heads, "SHARE OF TIME");
    } else {
        push_text(&mut heads, "SHARE OF COST");
    }
    assert(texts(heads@) == headers_of(steps@));
    heads
}

/// How much the plan is, by its root: its steps, its cost and its time.
pub open spec fn headline_of(steps: Seq<PlanStep>) -> Seq<char> {
    decimal(steps.len()) + " step"@ + plural_s(steps.len()) + (match steps[0].cost {
        Some(cost) => " · cost "@ + cost@,
        None => Seq::empty(),
    }) + (match steps[0].time {
        Some(time) => " · "@ + time@,
        None => Seq::empty(),
    })
}

pub open spec fn plan_line_is(line: PlanLine, steps: Seq<PlanStep>, i: int) -> bool {
    let step = steps[i];
    &&& line.depth == step.depth
    &&& line.marker@ == (if step.depth == 0 {
        "●"@
    } else {
        "└"@
    })
    &&& line.title@ == step.title@
    &&& texts(line.details@) == texts(step.details@)
    &&& line.rows@ == figure(step.rows)
    &&& line.cost@ == figure(step.cost)
    &&& line.time@ == figure(step.time)
    &&& line.percent@ == step.percent@
    &&& line.hot == (hottest_of(steps) == Some(i))
}

fn figure_text(text: &Option<String>) -> (shown: String)
    ensures
        shown@ == figure(*text),
{
    match text {
        Some(text) => text.as_str().to_string(),
        None => String::new(),
    }
}

fn copy_texts(list: &Vec<String>) -> (copy: Vec<String>)
    ensures
        texts(copy@) == texts(list@),
{
    let mut copy: Vec<String> = Vec::new();
    let mut i: usize = 0;
    while i < list.len()
        invariant
            i <= list@.len(),
            copy@.len() == i,
            forall|k: int| 0 <= k < i ==> (#[trigger] copy@[k])@ == list@[k]@,
        decreases list@.len() - i,
    {
        copy.push(list[i].as_str().to_string());
        i += 1;
    }
    assert(texts(copy@) == texts(list@));
    copy
}

fn figures_present(steps: &Vec<PlanStep>) -> (present: (bool, bool, bool))
    ensures
        present == (any_rows(steps@), any_cost(steps@), any_time(steps@)),
{
    let mut rows = false;
    let mut cost = false;
    let mut time = false;
    let mut i: usize = 0;
    while i < steps.len()
        invariant
            i <= steps@.len(),
            rows == (exists|k: int| 0 <= k < i && (#[trigger] steps@[k]).rows is Some),
            cost == (exists|k: int| 0 <= k < i && (#[trigger] steps@[k]).cost is Some),
            time == (exists|k: int| 0 <= k < i && (#[trigger] steps@[k]).time is Some),
        decreases steps@.len() - i,
    {
        let step = &steps[i];
        if step.rows.is_some() {
            assert(steps@[i as int].rows is Some);
            rows = true;
        }
        if step.cost.is_some() {
            assert(steps@[i as int].cost is Some);
            cost = true;
        }
        if step.time.is_some() {
            assert(steps@[i as int].time is Some);
            time = true;
        }
        i += 1;
    }
    (rows, cost, time)
}

/// The plan as it is drawn.
pub fn render_plan(steps: &Vec<PlanStep>) -> (view: PlanView)
    requires
        steps@.len() > 0,
    ensures
        view.headline@ == headline_of(steps@),
        view.has_rows == any_rows(steps@),
        view.has_cost == any_cost(steps@),
        view.measured == any_time(steps@),
        view.note@ == (if view.measured {
            "Measured: the statement was run"@
        } else {
            "Estimated: the statement was not run"@
        }),
        view.title@ == "Query plan"@,
        view.show_rows@ == "Show rows"@,
        texts(view.headers@) == headers_of(steps@),
        view.lines@.len() == steps@.len(),
        forall|i: int|
            0 <= i < view.lines@.len() ==> plan_line_is(#[trigger] view.lines@[i], steps@, i),
{
    let hot = hottest(steps);
    let (has_rows, has_cost, measured) = figures_present(steps);
    let mut headline: String = String::new();
    push_decimal(&mut headline, steps.len() as u64);
    headline.append(" step");
    headline.append(plural(steps.len() as u64));
    let root = &steps[0];
    let ghost start = headline@;
    if let Some(cost) = &root.cost {
        headline.append(" · cost ");
        headline.append(cost.as_str());
    }
    let ghost costed = headline@;
    if let Some(time) = &root.time {
        headline.append(" · ");
        headline.append(time.as_str());
    }
    proof {
        assert(start == decimal(steps@.len()) + " step"@ + plural_s(steps@.len()));
        assert(costed == start + (match steps@[0].cost {
            Some(cost) => " · cost "@ + cost@,
            None => Seq::empty(),
        }));
        assert(headline@ == costed + (match steps@[0].time {
            Some(time) => " · "@ + time@,
            None => Seq::empty(),
        }));
    }
    let mut lines: Vec<PlanLine> = Vec::new();
    let mut i: usize = 0;
    while i < steps.len()
        invariant
            i <= steps@.len(),
            lines@.len() == i,
            match (hot, hottest_of(steps@)) {
                (Some(index), Some(expected)) => index == expected,
                (None, None) => true,
                _ => false,
            },
            forall|k: int| 0 <= k < i ==> plan_line_is(#[trigger] lines@[k], steps@, k),
        decreases steps@.len() - i,
    {
        let step = &steps[i];
        let is_hot = match hot {
            Some(index) => index == i,
            None => false,
        };
        lines.push(
            PlanLine {
                depth: step.depth,
                marker: if step.depth == 0 {
                    "●".to_string()
                } else {
                    "└".to_string()
                },
                title: step.title.as_str().to_string(),
                details: copy_texts(&step.details),
                rows: figure_text(&step.rows),
                cost: figure_text(&step.cost),
                time: figure_text(&step.time),
                percent: step.percent.as_str().to_string(),
                hot: is_hot,
            },
        );
        i += 1;
    }
    PlanView {
        title: "Query plan".to_string(),
        headline,
        note: if measured {
            "Measured: the statement was run".to_string()
        } else {
            "Estimated: the statement was not run".to_string()
        },
        show_rows: "Show rows".to_string(),
        headers: headers(has_rows, has_cost, measured, steps),
        has_rows,
        has_cost,
        measured,
        lines,
    }
}

proof fn lemma_largest_is_last(steps: Seq<PlanStep>, upto: int)
    requires
        1 <= upto <= steps.len(),
    ensures
        0 <= largest(steps, upto) < upto,
        forall|i: int|
            largest(steps, upto) < i < upto ==> (#[trigger] steps[i]).share < steps[largest(
                steps,
                upto,
            )].share,
    decreases upto,
{
    lemma_largest(steps, upto);
    if upto > 1 {
        lemma_largest_is_last(steps, upto - 1);
    }
}

/// The step that stands out is the one with the largest share, and the last of
/// those that are equal. Where that has no share to tell, none stands out.
pub proof fn one_step_stands_out(steps: Seq<PlanStep>, at: int)
    requires
        0 <= at < steps.len(),
        forall|i: int| 0 <= i < steps.len() ==> (#[trigger] steps[i]).share <= steps[at].share,
        forall|i: int| at < i < steps.len() ==> (#[trigger] steps[i]).share < steps[at].share,
    ensures
        steps[at].has_share ==> hottest_of(steps) == Some(at),
        !steps[at].has_share ==> hottest_of(steps) is None,
        hottest_of(Seq::empty()) is None,
{
    let n = steps.len() as int;
    lemma_largest(steps, n);
    lemma_largest_is_last(steps, n);
    let found = largest(steps, n);
    if found < at {
        assert(steps[at].share < steps[found].share);
    } else if at < found {
        assert(steps[found].share < steps[at].share);
    }
}

/// A line says of a step what the server said of it; only the step that takes the
/// most is lit, and only the outermost has a mark of its own.
pub proof fn a_line_is_read_off_its_step(line: PlanLine, steps: Seq<PlanStep>, i: int)
    requires
        0 <= i < steps.len(),
        plan_line_is(line, steps, i),
    ensures
        line.depth == steps[i].depth,
        line.title@ == steps[i].title@,
        texts(line.details@) == texts(steps[i].details@),
        line.percent@ == steps[i].percent@,
        line.rows@ == (if steps[i].rows is Some {
            steps[i].rows->0@
        } else {
            Seq::empty()
        }),
        line.cost@ == (if steps[i].cost is Some {
            steps[i].cost->0@
        } else {
            Seq::empty()
        }),
        line.time@ == (if steps[i].time is Some {
            steps[i].time->0@
        } else {
            Seq::empty()
        }),
        line.marker@ == (if steps[i].depth == 0 {
            seq!['●']
        } else {
            seq!['└']
        }),
        line.hot <==> hottest_of(steps) == Some(i),
{
    reveal_strlit("●");
    reveal_strlit("└");
    assert("●"@ == seq!['●']);
    assert("└"@ == seq!['└']);
}

/// A figure has a column where any step has it, and the share is one of the time
/// exactly where times were measured.
pub proof fn a_figure_has_its_column(steps: Seq<PlanStep>)
    ensures
        ({
            let heads = headers_of(steps);
            &&& heads[0] == seq!['S', 'T', 'E', 'P']
            &&& heads.contains(seq!['R', 'O', 'W', 'S']) <==> exists|i: int|
                0 <= i < steps.len() && (#[trigger] steps[i]).rows is Some
            &&& heads.contains(seq!['C', 'O', 'S', 'T']) <==> exists|i: int|
                0 <= i < steps.len() && (#[trigger] steps[i]).cost is Some
            &&& heads.contains(seq!['T', 'I', 'M', 'E']) <==> exists|i: int|
                0 <= i < steps.len() && (#[trigger] steps[i]).time is Some
            &&& heads.last() == (if exists|i: int|
                0 <= i < steps.len() && (#[trigger] steps[i]).time is Some {
                seq!['S', 'H', 'A', 'R', 'E', ' ', 'O', 'F', ' ', 'T', 'I', 'M', 'E']
            } else {
                seq!['S', 'H', 'A', 'R', 'E', ' ', 'O', 'F', ' ', 'C', 'O', 'S', 'T']
            })
        }),
{
    reveal_strlit("STEP");
    reveal_strlit("ROWS");
    reveal_strlit("COST");
    reveal_strlit("TIME");
    reveal_strlit("SHARE OF TIME");
    reveal_strlit("SHARE OF COST");
    assert("STEP"@ == seq!['S', 'T', 'E', 'P']);
    assert("ROWS"@ == seq!['R', 'O', 'W', 'S']);
    assert("COST"@ == seq!['C', 'O', 'S', 'T']);
    assert("TIME"@ == seq!['T', 'I', 'M', 'E']);
    assert("SHARE OF TIME"@ == seq!['S', 'H', 'A', 'R', 'E', ' ', 'O', 'F', ' ', 'T', 'I', 'M', 'E']);
    assert("SHARE OF COST"@ == seq!['S', 'H', 'A', 'R', 'E', ' ', 'O', 'F', ' ', 'C', 'O', 'S', 'T']);
    assert("STEP"@[0] == 'S' && "ROWS"@[0] == 'R' && "COST"@[0] == 'C' && "TIME"@[0] == 'T');
    assert("SHARE OF TIME"@[0] == 'S' && "SHARE OF COST"@[0] == 'S');
    let heads = headers_of(steps);
    let rows: int = if any_rows(steps) {
        1
    } else {
        0
    };
    let cost: int = if any_cost(steps) {
        1
    } else {
        0
    };
    assert(any_rows(steps) ==> heads[1] == "ROWS"@);
    assert(any_cost(steps) ==> heads[1 + rows] == "COST"@);
    assert(any_time(steps) ==> heads[1 + rows + cost] == "TIME"@);
}

/// The headline counts the steps and says what the outermost costs and takes.
pub proof fn the_headline_is_of_the_whole_plan(steps: Seq<PlanStep>)
    requires
        steps.len() > 0,
    ensures
        ({
            let head = decimal(steps.len()) + (if steps.len() == 1 {
                seq![' ', 's', 't', 'e', 'p']
            } else {
                seq![' ', 's', 't', 'e', 'p', 's']
            });
            let cost = if steps[0].cost is Some {
                seq![' ', '·', ' ', 'c', 'o', 's', 't', ' '] + steps[0].cost->0@
            } else {
                Seq::empty()
            };
            let time = if steps[0].time is Some {
                seq![' ', '·', ' '] + steps[0].time->0@
            } else {
                Seq::empty()
            };
            headline_of(steps) == head + cost + time
        }),
{
    reveal_strlit(" step");
    reveal_strlit(" · cost ");
    reveal_strlit(" · ");
    assert(" step"@ == seq![' ', 's', 't', 'e', 'p']);
    assert(" · cost "@ == seq![' ', '·', ' ', 'c', 'o', 's', 't', ' ']);
    assert(" · "@ == seq![' ', '·', ' ']);
    only_one_is_singular(steps.len());
    assert(" step"@ + plural_s(steps.len()) == (if steps.len() == 1 {
        seq![' ', 's', 't', 'e', 'p']
    } else {
        seq![' ', 's', 't', 'e', 'p', 's']
    }));
    let word = " step"@ + plural_s(steps.len());
    assert(decimal(steps.len()) + " step"@ + plural_s(steps.len()) == decimal(steps.len()) + word);
}

/// A plan shows for the result in front, where that has one and its rows were not
/// asked for; asking for them changes that result and no other.
pub proof fn rows_are_asked_for_one_result(results: Seq<PlanState>, active: usize, i: int)
    requires
        0 <= i < results.len(),
    ensures
        ({
            let after = switched(results, active as int);
            &&& after.len() == results.len()
            &&& i != active ==> after[i] == results[i]
            &&& after[i].has_plan == results[i].has_plan
            &&& i == active && results[i].has_plan ==> after[i].show_rows == !results[i].show_rows
            &&& i == active && !results[i].has_plan ==> after[i] == results[i]
        }),
{
}

/// The plan is on show where the result in front has one and its rows were not
/// asked for.
pub proof fn the_plan_in_front_is_shown(tab: PlanResults, i: usize)
    requires
        tab.active == i,
    ensures
        shows_plan(Some(tab)) <==> i < tab.results@.len() && tab.results@[i as int].has_plan
            && !tab.results@[i as int].show_rows,
        !shows_plan(None),
{
}

} // verus!
