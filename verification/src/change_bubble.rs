//! The staged-changes panel, above the status bar.
//!
//! Everything waiting for the next commit, as a table: one line per column
//! that will be written, with the row it belongs to, what it says now and what
//! it will say. Four aligned columns make checking that a bulk edit touched
//! only the column you meant one glance.
//!
//! A value that gained or lost lines still gets its line diff, drawn under the
//! row it belongs to: "3 lines became 4" is not something a before/after pair
//! on one line can say.
use crate::domain::Tone;
use crate::tabs::{pill_of, ActiveChanges, TabDrag, TabItem, TabPill};
use crate::text::{chars_of, contains_char, decimal, push_decimal, push_text, texts};
use vstd::prelude::*;
use vstd::string::*;

verus! {

/// A one-line before/after has to fit its cell, and a diff line has to fit the
/// panel. Past this the tail is dropped: the panel is a summary, and the detail
/// sidebar holds the full value.
pub const MAX_LINE_CHARS: usize = 120;

/// Enough to show a small edit in full without the panel swallowing the
/// window. A larger change says how much more there is.
pub const MAX_DIFF_LINES: usize = 12;

/// A line that a value lost, or one that it gained.
#[derive(Debug)]
pub enum DiffLine {
    Removed(String),
    Added(String),
}

/// What a field will be written as.
#[derive(Debug)]
pub struct FieldChange {
    pub column: String,
    pub old_text: String,
    pub new_text: String,
    /// The lines that tell the two texts apart, where they could be worked out.
    pub line_diff: Option<Vec<DiffLine>>,
}

#[derive(Debug)]
pub struct PendingRowEdit {
    pub label: String,
    pub changes: Vec<FieldChange>,
}

#[derive(Debug)]
pub struct PendingRowDelete {
    pub label: String,
}

/// What a character is drawn as on one line. A line break here would paint over
/// the row below.
pub open spec fn glyph(c: char) -> Seq<char> {
    if c == '\n' {
        seq!['⏎']
    } else if c == '\t' {
        seq![' ']
    } else if c == '\r' {
        Seq::empty()
    } else {
        seq![c]
    }
}

pub open spec fn glyphs(text: Seq<char>) -> Seq<char>
    decreases text.len(),
{
    if text.len() == 0 {
        text
    } else {
        glyphs(text.drop_last()) + glyph(text.last())
    }
}

/// A value on one line: all of it, or as much as fits and an ellipsis for
/// what comes after.
pub open spec fn one_line_of(text: Seq<char>) -> Seq<char> {
    if text.len() > 0 && glyphs(text.drop_last()).len() >= MAX_LINE_CHARS {
        glyphs(text).take(MAX_LINE_CHARS as int).push('…')
    } else {
        glyphs(text)
    }
}

proof fn lemma_glyphs_grow(text: Seq<char>, i: int, j: int)
    requires
        0 <= i <= j <= text.len(),
    ensures
        glyphs(text.take(i)).len() <= glyphs(text.take(j)).len(),
        glyphs(text.take(j)).take(glyphs(text.take(i)).len() as int) == glyphs(text.take(i)),
    decreases j - i,
{
    let a = glyphs(text.take(i));
    if i < j {
        lemma_glyphs_grow(text, i, j - 1);
        assert(text.take(j).drop_last() == text.take(j - 1));
        let b = glyphs(text.take(j - 1));
        assert(glyphs(text.take(j)).take(a.len() as int) == b.take(a.len() as int));
    } else {
        assert(a.take(a.len() as int) == a);
    }
}

/// Collapse a value onto one line and cap it, the way the grid renders a cell.
pub fn one_line(text: &str) -> (line: String)
    ensures
        line@ == one_line_of(text@),
{
    let chars = chars_of(text);
    let mut line: String = String::new();
    let mut drawn: usize = 0;
    let mut i: usize = 0;
    assert(text@.take(0) == Seq::<char>::empty());
    while i < chars.len()
        invariant
            chars@ == text@,
            i <= text@.len(),
            line@ == glyphs(text@.take(i as int)),
            drawn == line@.len() <= MAX_LINE_CHARS,
            i > 0 ==> glyphs(text@.take(i - 1)).len() < MAX_LINE_CHARS,
        decreases text@.len() - i,
    {
        if drawn >= MAX_LINE_CHARS {
            proof {
                lemma_glyphs_grow(text@, i as int, text@.len() - 1);
                lemma_glyphs_grow(text@, i as int, text@.len() as int);
                assert(text@.take(text@.len() as int) == text@);
                assert(text@.take(text@.len() - 1) == text@.drop_last());
            }
            line.push('…');
            return line;
        }
        let c = chars[i];
        assert(text@.take(i + 1).drop_last() == text@.take(i as int));
        if c == '\n' {
            line.push('⏎');
            drawn += 1;
        } else if c == '\t' {
            line.push(' ');
            drawn += 1;
        } else if c != '\r' {
            line.push(c);
            drawn += 1;
        }
        i += 1;
        assert(line@ == glyphs(text@.take(i as int)));
    }
    proof {
        assert(text@.take(text@.len() as int) == text@);
        if text@.len() > 0 {
            assert(text@.take(text@.len() - 1) == text@.drop_last());
        }
    }
    line
}

proof fn lemma_glyphs_are_plain(text: Seq<char>, i: int)
    requires
        0 <= i < glyphs(text).len(),
    ensures
        glyphs(text)[i] != '\n' && glyphs(text)[i] != '\t' && glyphs(text)[i] != '\r',
    decreases text.len(),
{
    let before = glyphs(text.drop_last());
    if i < before.len() {
        lemma_glyphs_are_plain(text.drop_last(), i);
        assert(glyphs(text)[i] == before[i]);
    } else {
        assert(glyphs(text)[i] == glyph(text.last())[i - before.len()]);
    }
}

/// However long a value is and however many lines it has, its summary is one
/// line that fits its cell.
pub proof fn a_summary_is_one_short_line(text: Seq<char>)
    ensures
        one_line_of(text).len() <= MAX_LINE_CHARS + 1,
        !one_line_of(text).contains('\n'),
        !one_line_of(text).contains('\r'),
        !one_line_of(text).contains('\t'),
{
    assert forall|i: int| 0 <= i < glyphs(text).len() implies (#[trigger] glyphs(text)[i]) != '\n'
        && glyphs(text)[i] != '\t' && glyphs(text)[i] != '\r' by {
        lemma_glyphs_are_plain(text, i);
    }
    if text.len() > 0 {
        lemma_glyphs_grow(text, text.len() - 1, text.len() as int);
        assert(text.take(text.len() as int) == text);
        assert(text.take(text.len() - 1) == text.drop_last());
    }
    assert forall|i: int| 0 <= i < one_line_of(text).len() implies (#[trigger] one_line_of(text)[i])
        != '\n' && one_line_of(text)[i] != '\t' && one_line_of(text)[i] != '\r' by {
        if i < glyphs(text).len() && i < MAX_LINE_CHARS {
            assert(one_line_of(text)[i] == glyphs(text)[i]);
        }
    }
}

/// One line of the table, tinted by what it is going to do.
#[derive(Debug)]
pub struct ChangeRow {
    pub tint: Tone,
    /// The dot at the head of the line.
    pub marker: Tone,
    pub row: String,
    pub column: String,
    pub from: String,
    pub to: String,
    /// What `to` is drawn in: the success colour for a value, the danger colour
    /// for a row on its way out.
    pub to_tone: Tone,
    pub strike_from: bool,
}

/// A line of a diff: the sign in front of it, what both are drawn in, and what
/// it says.
#[derive(Debug)]
pub struct DiffCell {
    pub sign: String,
    pub tone: Tone,
    pub text: String,
}

/// A line of the panel.
#[derive(Debug)]
pub enum BubbleLine {
    Change(ChangeRow),
    /// The lines that a value lost and gained, and how many more there are.
    Diff { cells: Vec<DiffCell>, more: Option<String> },
}

/// What a line of the panel shows.
pub enum BubbleLineView {
    Change {
        tint: Tone,
        marker: Tone,
        row: Seq<char>,
        column: Seq<char>,
        from: Seq<char>,
        to: Seq<char>,
        to_tone: Tone,
        strike_from: bool,
    },
    Diff { cells: Seq<(Seq<char>, Tone, Seq<char>)>, more: Option<Seq<char>> },
}

/// What each line of a diff shows.
pub open spec fn cell_views(cells: Seq<DiffCell>) -> Seq<(Seq<char>, Tone, Seq<char>)> {
    Seq::new(cells.len(), |i: int| (cells[i].sign@, cells[i].tone, cells[i].text@))
}

impl View for BubbleLine {
    type V = BubbleLineView;

    open spec fn view(&self) -> BubbleLineView {
        match *self {
            BubbleLine::Change(change) => BubbleLineView::Change {
                tint: change.tint,
                marker: change.marker,
                row: change.row@,
                column: change.column@,
                from: change.from@,
                to: change.to@,
                to_tone: change.to_tone,
                strike_from: change.strike_from,
            },
            BubbleLine::Diff { cells, more } => BubbleLineView::Diff {
                cells: cell_views(cells@),
                more: match more {
                    Some(more) => Some(more@),
                    None => None,
                },
            },
        }
    }
}

/// What each line of the panel shows.
pub open spec fn line_views(lines: Seq<BubbleLine>) -> Seq<BubbleLineView> {
    Seq::new(lines.len(), |i: int| lines[i]@)
}

fn push_line(lines: &mut Vec<BubbleLine>, line: BubbleLine)
    ensures
        line_views(final(lines)@) == line_views(old(lines)@).push(line@),
{
    lines.push(line);
    assert(line_views(lines@) == line_views(old(lines)@).push(line@));
}

/// A staged insert: what little is known about a row that does not exist yet.
pub open spec fn insert_line(label: Seq<char>) -> BubbleLineView {
    BubbleLineView::Change {
        tint: Tone::Success,
        marker: Tone::Success,
        row: one_line_of(label),
        column: one_line_of("—"@),
        from: "—"@,
        to: one_line_of("NEW ROW"@),
        to_tone: Tone::Success,
        strike_from: false,
    }
}

pub fn render_insert_row(label: &str) -> (line: BubbleLine)
    ensures
        line@ == insert_line(label@),
{
    BubbleLine::Change(
        ChangeRow {
            tint: Tone::Success,
            marker: Tone::Success,
            row: one_line(label),
            column: one_line("—"),
            from: "—".to_string(),
            to: one_line("NEW ROW"),
            to_tone: Tone::Success,
            strike_from: false,
        },
    )
}

/// A staged deletion: the row's key, struck through, in the removal colour.
pub open spec fn delete_line(label: Seq<char>) -> BubbleLineView {
    BubbleLineView::Change {
        tint: Tone::Danger,
        marker: Tone::Danger,
        row: one_line_of(label),
        column: one_line_of("—"@),
        from: one_line_of(label),
        to: one_line_of("DELETE ROW"@),
        to_tone: Tone::Danger,
        strike_from: true,
    }
}

pub fn render_delete_row(row: &PendingRowDelete) -> (line: BubbleLine)
    ensures
        line@ == delete_line(row.label@),
{
    BubbleLine::Change(
        ChangeRow {
            tint: Tone::Danger,
            marker: Tone::Danger,
            row: one_line(row.label.as_str()),
            column: one_line("—"),
            from: one_line(row.label.as_str()),
            to: one_line("DELETE ROW"),
            to_tone: Tone::Danger,
            strike_from: true,
        },
    )
}

/// A column that will be written: what it says now, and what it will say.
pub open spec fn change_line(label: Seq<char>, change: FieldChange) -> BubbleLineView {
    BubbleLineView::Change {
        tint: Tone::Success,
        marker: Tone::Warning,
        row: one_line_of(label),
        column: one_line_of(change.column@),
        from: one_line_of(change.old_text@),
        to: one_line_of(change.new_text@),
        to_tone: Tone::Success,
        strike_from: false,
    }
}

/// Whether a change gained or lost lines, and they are known.
pub open spec fn has_diff(change: FieldChange) -> bool {
    (change.old_text@.contains('\n') || change.new_text@.contains('\n')) && (
    change.line_diff matches Some(lines) && lines@.len() > 0)
}

/// The line diff for a change that gained or lost lines, if there is one.
pub fn multiline_diff(change: &FieldChange) -> (lines: Option<&Vec<DiffLine>>)
    ensures
        lines is Some <==> has_diff(*change),
        lines matches Some(lines) ==> change.line_diff == Some(*lines),
{
    if !contains_char(change.old_text.as_str(), '\n') && !contains_char(
        change.new_text.as_str(),
        '\n',
    ) {
        return None;
    }
    match &change.line_diff {
        Some(lines) => if lines.len() > 0 {
            Some(lines)
        } else {
            None
        },
        None => None,
    }
}

pub open spec fn diff_cell(line: DiffLine) -> (Seq<char>, Tone, Seq<char>) {
    match line {
        DiffLine::Removed(text) => ("-"@, Tone::Danger, one_line_of(text@)),
        DiffLine::Added(text) => ("+"@, Tone::Success, one_line_of(text@)),
    }
}

/// The first lines of a diff, and how many are left out.
pub open spec fn diff_block(lines: Seq<DiffLine>) -> BubbleLineView {
    let shown = if lines.len() > MAX_DIFF_LINES {
        MAX_DIFF_LINES as nat
    } else {
        lines.len()
    };
    BubbleLineView::Diff {
        cells: Seq::new(shown, |i: int| diff_cell(lines[i])),
        more: if lines.len() > MAX_DIFF_LINES {
            Some("… "@ + decimal((lines.len() - MAX_DIFF_LINES) as nat) + " more line(s)"@)
        } else {
            None
        },
    }
}

pub fn render_diff_lines(lines: &Vec<DiffLine>) -> (block: BubbleLine)
    ensures
        block@ == diff_block(lines@),
{
    let mut cells: Vec<DiffCell> = Vec::new();
    let mut i: usize = 0;
    while i < lines.len() && i < MAX_DIFF_LINES
        invariant
            i <= lines@.len(),
            i <= MAX_DIFF_LINES,
            cell_views(cells@) == Seq::new(i as nat, |k: int| diff_cell(lines@[k])),
        decreases lines@.len() - i,
    {
        let ghost before = cells@;
        let cell = match &lines[i] {
            DiffLine::Removed(text) => DiffCell {
                sign: "-".to_string(),
                tone: Tone::Danger,
                text: one_line(text.as_str()),
            },
            DiffLine::Added(text) => DiffCell {
                sign: "+".to_string(),
                tone: Tone::Success,
                text: one_line(text.as_str()),
            },
        };
        cells.push(cell);
        i += 1;
        assert(cell_views(cells@) == cell_views(before).push((cell.sign@, cell.tone, cell.text@)));
        assert(cell_views(cells@) == Seq::new(i as nat, |k: int| diff_cell(lines@[k])));
    }
    let more = if lines.len() > MAX_DIFF_LINES {
        let mut more: String = "… ".to_string();
        push_decimal(&mut more, (lines.len() - MAX_DIFF_LINES) as u64);
        more.append(" more line(s)");
        Some(more)
    } else {
        None
    };
    BubbleLine::Diff { cells, more }
}

/// A change's line, and its diff under it.
pub open spec fn change_lines(label: Seq<char>, change: FieldChange) -> Seq<BubbleLineView> {
    if has_diff(change) {
        seq![change_line(label, change), diff_block(change.line_diff.unwrap()@)]
    } else {
        seq![change_line(label, change)]
    }
}

pub open spec fn edit_lines(label: Seq<char>, changes: Seq<FieldChange>) -> Seq<BubbleLineView>
    decreases changes.len(),
{
    if changes.len() == 0 {
        Seq::empty()
    } else {
        edit_lines(label, changes.drop_last()) + change_lines(label, changes.last())
    }
}

pub open spec fn batch_lines(batch: Seq<PendingRowEdit>) -> Seq<BubbleLineView>
    decreases batch.len(),
{
    if batch.len() == 0 {
        Seq::empty()
    } else {
        batch_lines(batch.drop_last()) + edit_lines(batch.last().label@, batch.last().changes@)
    }
}

/// Every line of the panel: the new rows, the edits, and the rows on their way
/// out.
pub open spec fn panel_lines(
    inserts: Seq<String>,
    batch: Seq<PendingRowEdit>,
    deletes: Seq<PendingRowDelete>,
) -> Seq<BubbleLineView> {
    Seq::new(inserts.len(), |i: int| insert_line(inserts[i]@)) + batch_lines(batch) + Seq::new(
        deletes.len(),
        |i: int| delete_line(deletes[i].label@),
    )
}

fn push_edit_rows(lines: &mut Vec<BubbleLine>, edit: &PendingRowEdit)
    ensures
        line_views(final(lines)@) == line_views(old(lines)@) + edit_lines(
            edit.label@,
            edit.changes@,
        ),
{
    let mut i: usize = 0;
    assert(edit.changes@.take(0) == Seq::<FieldChange>::empty());
    assert(line_views(lines@) == line_views(lines@) + Seq::<BubbleLineView>::empty());
    while i < edit.changes.len()
        invariant
            i <= edit.changes@.len(),
            line_views(lines@) == line_views(old(lines)@) + edit_lines(
                edit.label@,
                edit.changes@.take(i as int),
            ),
        decreases edit.changes@.len() - i,
    {
        let change = &edit.changes[i];
        let ghost before = line_views(lines@);
        push_line(
            lines,
            BubbleLine::Change(
                ChangeRow {
                    tint: Tone::Success,
                    marker: Tone::Warning,
                    row: one_line(edit.label.as_str()),
                    column: one_line(change.column.as_str()),
                    from: one_line(change.old_text.as_str()),
                    to: one_line(change.new_text.as_str()),
                    to_tone: Tone::Success,
                    strike_from: false,
                },
            ),
        );
        if let Some(diff) = multiline_diff(change) {
            push_line(lines, render_diff_lines(diff));
        }
        assert(line_views(lines@) == before + change_lines(edit.label@, *change));
        assert(edit.changes@.take(i + 1).drop_last() == edit.changes@.take(i as int));
        i += 1;
    }
    assert(edit.changes@.take(i as int) == edit.changes@);
}

/// The lines of one edit: one per column that it writes, each with its diff
/// where it has one.
pub fn render_edit_rows(edit: &PendingRowEdit) -> (lines: Vec<BubbleLine>)
    ensures
        line_views(lines@) == edit_lines(edit.label@, edit.changes@),
{
    let mut lines: Vec<BubbleLine> = Vec::new();
    push_edit_rows(&mut lines, edit);
    assert(line_views(lines@) == edit_lines(edit.label@, edit.changes@));
    lines
}

fn panel_rows(
    inserts: &Vec<String>,
    batch: &Vec<PendingRowEdit>,
    deletes: &Vec<PendingRowDelete>,
) -> (lines: Vec<BubbleLine>)
    ensures
        line_views(lines@) == panel_lines(inserts@, batch@, deletes@),
{
    let mut lines: Vec<BubbleLine> = Vec::new();
    let mut i: usize = 0;
    while i < inserts.len()
        invariant
            i <= inserts@.len(),
            line_views(lines@) == Seq::new(i as nat, |k: int| insert_line(inserts@[k]@)),
        decreases inserts@.len() - i,
    {
        push_line(&mut lines, render_insert_row(inserts[i].as_str()));
        i += 1;
        assert(line_views(lines@) == Seq::new(i as nat, |k: int| insert_line(inserts@[k]@)));
    }
    let ghost news = line_views(lines@);
    let mut j: usize = 0;
    assert(batch@.take(0) == Seq::<PendingRowEdit>::empty());
    assert(news == news + Seq::<BubbleLineView>::empty());
    while j < batch.len()
        invariant
            j <= batch@.len(),
            line_views(lines@) == news + batch_lines(batch@.take(j as int)),
        decreases batch@.len() - j,
    {
        push_edit_rows(&mut lines, &batch[j]);
        assert(batch@.take(j + 1).drop_last() == batch@.take(j as int));
        j += 1;
        assert(line_views(lines@) == news + batch_lines(batch@.take(j as int)));
    }
    assert(batch@.take(j as int) == batch@);
    let ghost so_far = line_views(lines@);
    let mut k: usize = 0;
    while k < deletes.len()
        invariant
            k <= deletes@.len(),
            line_views(lines@) == so_far + Seq::new(
                k as nat,
                |n: int| delete_line(deletes@[n].label@),
            ),
        decreases deletes@.len() - k,
    {
        push_line(&mut lines, render_delete_row(&deletes[k]));
        k += 1;
        assert(line_views(lines@) == so_far + Seq::new(
            k as nat,
            |n: int| delete_line(deletes@[n].label@),
        ));
    }
    lines
}

/// The panel as it is drawn.
#[derive(Debug)]
pub struct ChangeBubble {
    pub title: String,
    pub label: String,
    pub glyph: String,
    pub discard_label: String,
    pub save_label: String,
    /// The buttons answer: nothing is being committed.
    pub enabled: bool,
    /// The table of changes, where the panel is unfolded: the heads of its
    /// columns, and its lines.
    pub table: Option<(Vec<String>, Vec<BubbleLine>)>,
}

/// "3 changes · 1 new · 1 to delete". Deletions are the half of the batch worth
/// naming in the folded state: an edit can be re-edited, a delete cannot be
/// un-deleted.
pub open spec fn bubble_label(edits: nat, inserts: nat, deletes: nat) -> Seq<char> {
    let count = edits + deletes + inserts;
    (if count == 1 {
        "1 change"@
    } else {
        decimal(count) + " changes"@
    }) + (if inserts > 0 {
        " · "@ + decimal(inserts) + " new"@
    } else {
        Seq::empty()
    }) + (if deletes > 0 {
        " · "@ + decimal(deletes) + " to delete"@
    } else {
        Seq::empty()
    })
}

fn label_text(edits: usize, inserts: usize, deletes: usize) -> (label: String)
    requires
        edits + inserts + deletes <= usize::MAX,
    ensures
        label@ == bubble_label(edits as nat, inserts as nat, deletes as nat),
{
    let count: usize = edits + deletes + inserts;
    let mut label: String = if count == 1 {
        "1 change".to_string()
    } else {
        let mut many: String = String::new();
        push_decimal(&mut many, count as u64);
        many.append(" changes");
        many
    };
    let ghost first = label@;
    if inserts > 0 {
        label.append(" · ");
        push_decimal(&mut label, inserts as u64);
        label.append(" new");
    }
    let ghost second = label@;
    if deletes > 0 {
        label.append(" · ");
        push_decimal(&mut label, deletes as u64);
        label.append(" to delete");
    }
    proof {
        assert(count != 1 ==> first == decimal(count as nat) + " changes"@);
        assert(second == first + (if inserts > 0 {
            " · "@ + decimal(inserts as nat) + " new"@
        } else {
            Seq::empty()
        }));
        assert(label@ == second + (if deletes > 0 {
            " · "@ + decimal(deletes as nat) + " to delete"@
        } else {
            Seq::empty()
        }));
    }
    label
}

/// What stands at the head of each column of the table.
pub open spec fn table_heads() -> Seq<Seq<char>> {
    seq!["Row"@, "Column"@, "From"@, "To"@]
}

fn table_header() -> (heads: Vec<String>)
    ensures
        texts(heads@) == table_heads(),
{
    let mut heads: Vec<String> = Vec::new();
    assert(texts(heads@) == Seq::<Seq<char>>::empty());
    push_text(&mut heads, "Row");
    push_text(&mut heads, "Column");
    push_text(&mut heads, "From");
    push_text(&mut heads, "To");
    assert(texts(heads@) == table_heads());
    heads
}

pub open spec fn bubble_is(
    bubble: ChangeBubble,
    batch: Seq<PendingRowEdit>,
    deletes: Seq<PendingRowDelete>,
    inserts: Seq<String>,
    expanded: bool,
    saving: bool,
) -> bool {
    &&& bubble.title@ == "Staged changes"@
    &&& bubble.discard_label@ == "Discard"@
    &&& bubble.label@ == bubble_label(batch.len(), inserts.len(), deletes.len())
    &&& bubble.glyph@ == (if expanded {
        "⌄"@
    } else {
        "›"@
    })
    &&& bubble.save_label@ == (if saving {
        "Committing…"@
    } else {
        "Commit  ⌘S"@
    })
    &&& bubble.enabled == !saving
    &&& match bubble.table {
        Some((heads, lines)) => {
            &&& expanded
            &&& texts(heads@) == table_heads()
            &&& line_views(lines@) == panel_lines(inserts, batch, deletes)
        },
        None => !expanded,
    }
}

/// Something waits for a commit.
pub open spec fn anything_staged(
    batch: Seq<PendingRowEdit>,
    deletes: Seq<PendingRowDelete>,
    inserts: Seq<String>,
) -> bool {
    batch.len() > 0 || deletes.len() > 0 || inserts.len() > 0
}

/// The dot on the front tab and the panel can never disagree: the tab is marked
/// exactly while the panel is up.
pub proof fn the_dot_and_the_panel_agree(
    batch: Seq<PendingRowEdit>,
    deletes: Seq<PendingRowDelete>,
    inserts: Seq<String>,
    changes: ActiveChanges,
    pill: TabPill,
    item: TabItem,
    active: usize,
    drag: Option<TabDrag>,
)
    requires
        changes.edits == batch.len(),
        changes.deletes == deletes.len(),
        changes.inserts == inserts.len(),
        pill_of(pill, item, active as int, active, changes, drag),
    ensures
        pill.changed == anything_staged(batch, deletes, inserts),
{
}

/// The panel, while anything waits for a commit. `table` is the front table
/// tab's state: whether its panel is unfolded, and whether it is being
/// committed.
pub fn render_change_bubble(
    batch: &Vec<PendingRowEdit>,
    deletes: &Vec<PendingRowDelete>,
    inserts: &Vec<String>,
    table: Option<(bool, bool)>,
) -> (bubble: Option<ChangeBubble>)
    requires
        batch@.len() + deletes@.len() + inserts@.len() <= usize::MAX,
    ensures
        bubble is Some <==> anything_staged(batch@, deletes@, inserts@),
        bubble matches Some(bubble) ==> bubble_is(
            bubble,
            batch@,
            deletes@,
            inserts@,
            table matches Some(table) && table.0,
            table matches Some(table) && table.1,
        ),
{
    if batch.len() == 0 && deletes.len() == 0 && inserts.len() == 0 {
        return None;
    }
    let (expanded, saving) = match table {
        Some(table) => table,
        None => (false, false),
    };
    Some(
        ChangeBubble {
            title: "Staged changes".to_string(),
            discard_label: "Discard".to_string(),
            label: label_text(batch.len(), inserts.len(), deletes.len()),
            glyph: if expanded {
                "⌄".to_string()
            } else {
                "›".to_string()
            },
            save_label: if saving {
                "Committing…".to_string()
            } else {
                "Commit  ⌘S".to_string()
            },
            enabled: !saving,
            table: if expanded {
                Some((table_header(), panel_rows(inserts, batch, deletes)))
            } else {
                None
            },
        },
    )
}

/// How many rows of the table are changes; a diff belongs to the row above it.
pub open spec fn rows_in(lines: Seq<BubbleLineView>) -> nat
    decreases lines.len(),
{
    if lines.len() == 0 {
        0
    } else {
        rows_in(lines.drop_last()) + if lines.last() is Change {
            1nat
        } else {
            0
        }
    }
}

/// How many columns a batch writes.
pub open spec fn columns_written(batch: Seq<PendingRowEdit>) -> nat
    decreases batch.len(),
{
    if batch.len() == 0 {
        0
    } else {
        columns_written(batch.drop_last()) + batch.last().changes@.len()
    }
}

proof fn lemma_rows_concat(a: Seq<BubbleLineView>, b: Seq<BubbleLineView>)
    ensures
        rows_in(a + b) == rows_in(a) + rows_in(b),
    decreases b.len(),
{
    if b.len() == 0 {
        assert(a + b == a);
    } else {
        lemma_rows_concat(a, b.drop_last());
        assert((a + b).drop_last() == a + b.drop_last());
        assert((a + b).last() == b.last());
    }
}

proof fn lemma_all_rows(lines: Seq<BubbleLineView>)
    requires
        forall|i: int| 0 <= i < lines.len() ==> (#[trigger] lines[i]) is Change,
    ensures
        rows_in(lines) == lines.len(),
    decreases lines.len(),
{
    if lines.len() > 0 {
        lemma_all_rows(lines.drop_last());
    }
}

proof fn lemma_edit_rows(label: Seq<char>, changes: Seq<FieldChange>)
    ensures
        rows_in(edit_lines(label, changes)) == changes.len(),
    decreases changes.len(),
{
    if changes.len() > 0 {
        let change = changes.last();
        let lines = change_lines(label, change);
        lemma_edit_rows(label, changes.drop_last());
        lemma_rows_concat(edit_lines(label, changes.drop_last()), lines);
        let first = seq![change_line(label, change)];
        lemma_all_rows(first);
        if has_diff(change) {
            assert(lines.drop_last() == first);
        } else {
            assert(lines == first);
        }
    }
}

proof fn lemma_batch_rows(batch: Seq<PendingRowEdit>)
    ensures
        rows_in(batch_lines(batch)) == columns_written(batch),
    decreases batch.len(),
{
    if batch.len() > 0 {
        lemma_batch_rows(batch.drop_last());
        lemma_edit_rows(batch.last().label@, batch.last().changes@);
        lemma_rows_concat(
            batch_lines(batch.drop_last()),
            edit_lines(batch.last().label@, batch.last().changes@),
        );
    }
}

/// One row per new row, per column that will be written and per row on its way
/// out: nothing that a commit would do is left out of the table.
pub proof fn every_change_has_its_row(
    inserts: Seq<String>,
    batch: Seq<PendingRowEdit>,
    deletes: Seq<PendingRowDelete>,
)
    ensures
        rows_in(panel_lines(inserts, batch, deletes)) == inserts.len() + columns_written(batch)
            + deletes.len(),
{
    let news = Seq::new(inserts.len(), |i: int| insert_line(inserts[i]@));
    let gone = Seq::new(deletes.len(), |i: int| delete_line(deletes[i].label@));
    lemma_all_rows(news);
    lemma_all_rows(gone);
    lemma_batch_rows(batch);
    lemma_rows_concat(news, batch_lines(batch));
    lemma_rows_concat(news + batch_lines(batch), gone);
}

proof fn lemma_glyphs_concat(a: Seq<char>, b: Seq<char>)
    ensures
        glyphs(a + b) == glyphs(a) + glyphs(b),
    decreases b.len(),
{
    if b.len() == 0 {
        assert(a + b == a);
        assert(glyphs(a) + glyphs(b) == glyphs(a));
    } else {
        assert((a + b).drop_last() == a + b.drop_last());
        lemma_glyphs_concat(a, b.drop_last());
        assert(glyphs(a + b) == glyphs(a) + glyphs(b));
    }
}

proof fn lemma_glyph(c: char)
    ensures
        glyphs(seq![c]) == glyph(c),
{
    let text = seq![c];
    assert(text.drop_last() == Seq::<char>::empty());
    assert(glyphs(text.drop_last()) == Seq::<char>::empty());
    assert(glyphs(text) == glyph(c));
}

/// On one line a line break is drawn as a sign and a tab as a space, a carriage
/// return is left out, and every other character is itself.
pub proof fn a_line_break_becomes_a_sign(before: Seq<char>, c: char, after: Seq<char>)
    ensures
        glyphs(before + seq![c] + after) == glyphs(before) + (if c as int == 10 {
            seq!['⏎']
        } else if c as int == 9 {
            seq![' ']
        } else if c as int == 13 {
            Seq::empty()
        } else {
            seq![c]
        }) + glyphs(after),
{
    lemma_glyphs_concat(before + seq![c], after);
    lemma_glyphs_concat(before, seq![c]);
    lemma_glyph(c);
}

proof fn lemma_plain_glyphs(text: Seq<char>)
    requires
        forall|i: int|
            0 <= i < text.len() ==> (#[trigger] text[i]) as int != 10 && text[i] as int != 9
                && text[i] as int != 13,
    ensures
        glyphs(text) == text,
    decreases text.len(),
{
    if text.len() > 0 {
        lemma_plain_glyphs(text.drop_last());
        assert(text.drop_last().push(text.last()) == text);
    }
}

/// A short text on one line is drawn as it is; of a long one the beginning is
/// drawn, and a sign says that there is more.
pub proof fn a_long_line_is_cut(text: Seq<char>)
    requires
        forall|i: int|
            0 <= i < text.len() ==> (#[trigger] text[i]) as int != 10 && text[i] as int != 9
                && text[i] as int != 13,
    ensures
        text.len() <= 120 ==> one_line_of(text) == text,
        text.len() > 120 ==> one_line_of(text) == text.take(120) + seq!['…'],
{
    lemma_plain_glyphs(text);
    if text.len() > 0 {
        lemma_plain_glyphs(text.drop_last());
    }
    if text.len() > 120 {
        assert(one_line_of(text) == text.take(120) + seq!['…']);
    }
}

/// A row of the panel says of a change which row and column it is in, what is there
/// now and what will be.
pub open spec fn is_change_row(line: BubbleLineView, label: Seq<char>, change: FieldChange) -> bool {
    &&& line matches BubbleLineView::Change {
        tint,
        marker,
        row,
        column,
        from,
        to,
        to_tone,
        strike_from,
    }
    &&& tint == Tone::Success && marker == Tone::Warning && to_tone == Tone::Success
    &&& row == one_line_of(label)
    &&& column == one_line_of(change.column@)
    &&& from == one_line_of(change.old_text@)
    &&& to == one_line_of(change.new_text@)
    &&& !strike_from
}

/// The lines of a change, from one place of the panel to another: its row, and
/// under it the line diff, where there is one and either text has more than one
/// line.
pub open spec fn is_change_at(
    lines: Seq<BubbleLineView>,
    from: int,
    to: int,
    label: Seq<char>,
    change: FieldChange,
) -> bool {
    let diffs = (change.old_text@.contains('\n') || change.new_text@.contains('\n'))
        && change.line_diff is Some && change.line_diff->0@.len() > 0;
    &&& 0 <= from < to <= lines.len()
    &&& to == from + (if diffs {
        2int
    } else {
        1
    })
    &&& is_change_row(lines[from], label, change)
    &&& diffs ==> lines[from + 1] == diff_block(change.line_diff->0@)
}

/// Every column that will be written has its row, in order, with its line diff
/// under it.
pub proof fn the_changes_of_a_row_are_drawn_in_order(
    label: Seq<char>,
    changes: Seq<FieldChange>,
) -> (starts: Seq<int>)
    ensures
        ({
            let lines = edit_lines(label, changes);
            &&& starts.len() == changes.len() + 1
            &&& starts[0] == 0
            &&& starts.last() == lines.len()
            &&& forall|i: int|
                #![trigger changes[i]]
                0 <= i < changes.len() ==> is_change_at(
                    lines,
                    starts[i],
                    starts[i + 1],
                    label,
                    changes[i],
                )
        }),
    decreases changes.len(),
{
    let lines = edit_lines(label, changes);
    if changes.len() == 0 {
        seq![0]
    } else {
        let fewer = changes.drop_last();
        let above = edit_lines(label, fewer);
        let before = the_changes_of_a_row_are_drawn_in_order(label, fewer);
        let starts = before.push(lines.len() as int);
        let n = fewer.len() as int;
        assert(starts[0] == before[0]);
        assert forall|i: int| #![trigger changes[i]] 0 <= i < changes.len() implies is_change_at(
            lines,
            starts[i],
            starts[i + 1],
            label,
            changes[i],
        ) by {
            if i < n {
                assert(fewer[i] == changes[i]);
                assert(starts[i] == before[i] && starts[i + 1] == before[i + 1]);
                assert(is_change_at(above, before[i], before[i + 1], label, fewer[i]));
                assert(lines[starts[i]] == above[starts[i]]);
            } else {
                assert(before[n] == before.last());
            }
        }
        starts
    }
}

/// The lines of an edited row stand between two places of the panel.
pub open spec fn is_edit_at(
    lines: Seq<BubbleLineView>,
    from: int,
    to: int,
    edit: PendingRowEdit,
) -> bool {
    &&& 0 <= from <= to <= lines.len()
    &&& lines.subrange(from, to) == edit_lines(edit.label@, edit.changes@)
}

/// The edited rows are drawn in order, each with the columns it will be written
/// in.
pub proof fn the_edited_rows_are_drawn_in_order(batch: Seq<PendingRowEdit>) -> (starts: Seq<int>)
    ensures
        ({
            let lines = batch_lines(batch);
            &&& starts.len() == batch.len() + 1
            &&& starts[0] == 0
            &&& starts.last() == lines.len()
            &&& forall|i: int|
                #![trigger batch[i]]
                0 <= i < batch.len() ==> is_edit_at(lines, starts[i], starts[i + 1], batch[i])
        }),
    decreases batch.len(),
{
    let lines = batch_lines(batch);
    if batch.len() == 0 {
        seq![0]
    } else {
        let fewer = batch.drop_last();
        let above = batch_lines(fewer);
        let before = the_edited_rows_are_drawn_in_order(fewer);
        let starts = before.push(lines.len() as int);
        let n = fewer.len() as int;
        assert(starts[0] == before[0]);
        assert forall|i: int| #![trigger batch[i]] 0 <= i < batch.len() implies is_edit_at(
            lines,
            starts[i],
            starts[i + 1],
            batch[i],
        ) by {
            if i < n {
                assert(fewer[i] == batch[i]);
                assert(starts[i] == before[i] && starts[i + 1] == before[i + 1]);
                assert(lines.subrange(starts[i], starts[i + 1]) == above.subrange(
                    before[i],
                    before[i + 1],
                ));
            } else {
                assert(before[n] == before.last());
                assert(lines.subrange(starts[n], starts[n + 1]) == edit_lines(
                    batch[n].label@,
                    batch[n].changes@,
                ));
            }
        }
        starts
    }
}

/// New rows come first in the panel, then what is edited, and last what is to be
/// deleted, struck through.
pub proof fn new_rows_come_first_and_deleted_ones_last(
    inserts: Seq<String>,
    batch: Seq<PendingRowEdit>,
    deletes: Seq<PendingRowDelete>,
)
    ensures
        ({
            let lines = panel_lines(inserts, batch, deletes);
            let edits = batch_lines(batch);
            let first = inserts.len() + edits.len();
            &&& lines.len() == first + deletes.len()
            &&& lines.subrange(inserts.len() as int, first as int) == edits
            &&& forall|i: int|
                #![trigger inserts[i]]
                0 <= i < inserts.len() ==> {
                    &&& lines[i] matches BubbleLineView::Change { row, to, to_tone, strike_from, .. }
                    &&& to_tone == Tone::Success
                    &&& row == one_line_of(inserts[i]@)
                    &&& to == seq!['N', 'E', 'W', ' ', 'R', 'O', 'W']
                    &&& !strike_from
                }
            &&& forall|i: int|
                #![trigger deletes[i]]
                0 <= i < deletes.len() ==> {
                    &&& lines[first + i] matches BubbleLineView::Change {
                        row,
                        to,
                        to_tone,
                        strike_from,
                        ..
                    }
                    &&& row == one_line_of(deletes[i].label@)
                    &&& to == seq!['D', 'E', 'L', 'E', 'T', 'E', ' ', 'R', 'O', 'W']
                    &&& to_tone == Tone::Danger
                    &&& strike_from
                }
        }),
{
    reveal_strlit("NEW ROW");
    reveal_strlit("DELETE ROW");
    assert("NEW ROW"@ == seq!['N', 'E', 'W', ' ', 'R', 'O', 'W']);
    assert("DELETE ROW"@ == seq!['D', 'E', 'L', 'E', 'T', 'E', ' ', 'R', 'O', 'W']);
    a_long_line_is_cut("NEW ROW"@);
    a_long_line_is_cut("DELETE ROW"@);
    let lines = panel_lines(inserts, batch, deletes);
    let edits = batch_lines(batch);
    assert(lines.subrange(inserts.len() as int, (inserts.len() + edits.len()) as int) == edits);
}

/// A line diff shows its first twelve lines, what is lost marked with a minus and
/// what is gained with a plus, and counts those that it leaves out.
pub proof fn a_line_diff_shows_its_beginning(lines: Seq<DiffLine>)
    ensures
        ({
            &&& diff_block(lines) matches BubbleLineView::Diff { cells, more }
            &&& cells.len() == (if lines.len() <= 12 {
                lines.len() as int
            } else {
                12
            })
            &&& forall|i: int|
                0 <= i < cells.len() ==> ((#[trigger] cells[i]) == (match lines[i] {
                    DiffLine::Removed(text) => (seq!['-'], Tone::Danger, one_line_of(text@)),
                    DiffLine::Added(text) => (seq!['+'], Tone::Success, one_line_of(text@)),
                }))
            &&& more is Some <==> lines.len() > 12
            &&& more is Some ==> more->0 == seq!['…', ' '] + decimal((lines.len() - 12) as nat)
                + seq![' ', 'm', 'o', 'r', 'e', ' ', 'l', 'i', 'n', 'e', '(', 's', ')']
        }),
{
    reveal_strlit("-");
    reveal_strlit("+");
    reveal_strlit("… ");
    reveal_strlit(" more line(s)");
    assert("-"@ == seq!['-']);
    assert("+"@ == seq!['+']);
    assert("… "@ == seq!['…', ' ']);
    assert(" more line(s)"@ == seq![' ', 'm', 'o', 'r', 'e', ' ', 'l', 'i', 'n', 'e', '(', 's', ')']);
}

/// The label counts every change that waits, and says how many of them are new
/// rows and how many are deletions.
pub proof fn the_label_counts_what_waits(edits: nat, inserts: nat, deletes: nat)
    ensures
        ({
            let label = bubble_label(edits, inserts, deletes);
            let all = edits + inserts + deletes;
            let head = if all == 1 {
                seq!['1', ' ', 'c', 'h', 'a', 'n', 'g', 'e']
            } else {
                decimal(all) + seq![' ', 'c', 'h', 'a', 'n', 'g', 'e', 's']
            };
            &&& inserts == 0 && deletes == 0 ==> label == head
            &&& inserts > 0 && deletes == 0 ==> label == head + seq![' ', '·', ' '] + decimal(inserts)
                + seq![' ', 'n', 'e', 'w']
            &&& inserts == 0 && deletes > 0 ==> label == head + seq![' ', '·', ' '] + decimal(deletes)
                + seq![' ', 't', 'o', ' ', 'd', 'e', 'l', 'e', 't', 'e']
            &&& inserts > 0 && deletes > 0 ==> label == head + seq![' ', '·', ' '] + decimal(inserts)
                + seq![' ', 'n', 'e', 'w'] + seq![' ', '·', ' '] + decimal(deletes) + seq![' ', 't', 'o', ' ', 'd', 'e', 'l', 'e', 't', 'e']
        }),
{
    reveal_strlit("1 change");
    reveal_strlit(" changes");
    reveal_strlit(" · ");
    reveal_strlit(" new");
    reveal_strlit(" to delete");
    assert("1 change"@ == seq!['1', ' ', 'c', 'h', 'a', 'n', 'g', 'e']);
    assert(" changes"@ == seq![' ', 'c', 'h', 'a', 'n', 'g', 'e', 's']);
    assert(" · "@ == seq![' ', '·', ' ']);
    assert(" new"@ == seq![' ', 'n', 'e', 'w']);
    assert(" to delete"@ == seq![' ', 't', 'o', ' ', 'd', 'e', 'l', 'e', 't', 'e']);
    let label = bubble_label(edits, inserts, deletes);
    let all = edits + inserts + deletes;
    let head = if all == 1 {
        seq!['1', ' ', 'c', 'h', 'a', 'n', 'g', 'e']
    } else {
        decimal(all) + seq![' ', 'c', 'h', 'a', 'n', 'g', 'e', 's']
    };
    if inserts == 0 && deletes == 0 {
        assert(label == head);
    } else if deletes == 0 {
        assert(label == head + seq![' ', '·', ' '] + decimal(inserts) + seq![' ', 'n', 'e', 'w']);
    } else if inserts == 0 {
        assert(label == head + seq![' ', '·', ' '] + decimal(deletes) + seq![' ', 't', 'o', ' ', 'd', 'e', 'l', 'e', 't', 'e']);
    } else {
        assert(label == head + seq![' ', '·', ' '] + decimal(inserts) + seq![' ', 'n', 'e', 'w'] + seq![' ', '·', ' '] + decimal(deletes)
            + seq![' ', 't', 'o', ' ', 'd', 'e', 'l', 'e', 't', 'e']);
    }
}

/// The panel opens over the table of what waits, and while that is committed
/// neither button works.
pub proof fn the_panel_lists_what_waits(
    bubble: ChangeBubble,
    batch: Seq<PendingRowEdit>,
    deletes: Seq<PendingRowDelete>,
    inserts: Seq<String>,
    expanded: bool,
    saving: bool,
)
    requires
        bubble_is(bubble, batch, deletes, inserts, expanded, saving),
    ensures
        bubble.label@ == bubble_label(batch.len(), inserts.len(), deletes.len()),
        bubble.enabled <==> !saving,
        bubble.table is Some <==> expanded,
        bubble.glyph@ == (if expanded {
            seq!['⌄']
        } else {
            seq!['›']
        }),
        bubble.save_label@ == (if saving {
            seq!['C', 'o', 'm', 'm', 'i', 't', 't', 'i', 'n', 'g', '…']
        } else {
            seq!['C', 'o', 'm', 'm', 'i', 't', ' ', ' ', '⌘', 'S']
        }),
        expanded ==> line_views((bubble.table->0).1@) == panel_lines(inserts, batch, deletes),
        expanded ==> texts((bubble.table->0).0@) == seq![seq!['R', 'o', 'w'], seq!['C', 'o', 'l', 'u', 'm', 'n'], seq!['F', 'r', 'o', 'm'], seq!['T', 'o']],
{
    reveal_strlit("⌄");
    reveal_strlit("›");
    reveal_strlit("Committing…");
    reveal_strlit("Commit  ⌘S");
    reveal_strlit("Row");
    reveal_strlit("Column");
    reveal_strlit("From");
    reveal_strlit("To");
    assert("⌄"@ == seq!['⌄']);
    assert("›"@ == seq!['›']);
    assert("Committing…"@ == seq!['C', 'o', 'm', 'm', 'i', 't', 't', 'i', 'n', 'g', '…']);
    assert("Commit  ⌘S"@ == seq!['C', 'o', 'm', 'm', 'i', 't', ' ', ' ', '⌘', 'S']);
    assert("Row"@ == seq!['R', 'o', 'w']);
    assert("Column"@ == seq!['C', 'o', 'l', 'u', 'm', 'n']);
    assert("From"@ == seq!['F', 'r', 'o', 'm']);
    assert("To"@ == seq!['T', 'o']);
}

/// There is something to commit while a row is edited, deleted or added.
pub proof fn anything_that_waits_is_staged(
    batch: Seq<PendingRowEdit>,
    deletes: Seq<PendingRowDelete>,
    inserts: Seq<String>,
)
    ensures
        anything_staged(batch, deletes, inserts) <==> batch.len() + deletes.len() + inserts.len()
            > 0,
{
}

} // verus!
