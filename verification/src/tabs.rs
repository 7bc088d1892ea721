//! Workspace tab strip.
//!
//! The front tab gets a filled surface and an underline that travels to it. A
//! tab that holds staged work carries a dot, where the user decides which tab
//! to close.
use crate::domain::{TabId, Tone};
use crate::text::opt;
use vstd::prelude::*;

verus! {

/// An open tab, as far as the strip reads it.
#[derive(Debug)]
pub struct TabItem {
    pub id: TabId,
    pub label: String,
    /// A table's tab; otherwise a query's.
    pub is_table: bool,
    /// Staged changes the tab holds, with no draft open on it.
    pub pending: usize,
}

/// Staged work on the front tab, the open draft folded in. The change bubble
/// counts the same way, so the two can never disagree.
#[derive(Debug, Clone, Copy)]
pub struct ActiveChanges {
    pub edits: usize,
    pub deletes: usize,
    pub inserts: usize,
}

impl ActiveChanges {
    pub open spec fn total(self) -> int {
        self.edits + self.deletes + self.inserts
    }
}

/// A tab on its way to another place in the strip, once the pointer has moved.
#[derive(Debug, Clone, Copy)]
pub struct TabDrag {
    pub id: TabId,
    pub moved: bool,
}

#[derive(Debug)]
pub struct TabPill {
    pub id: TabId,
    pub label: String,
    pub is_table: bool,
    pub icon_tone: Tone,
    pub is_active: bool,
    /// Staged work: the dot.
    pub changed: bool,
    /// Lifted off the strip; what stays behind is its slot.
    pub dragging: bool,
    /// What closes it.
    pub close_glyph: String,
}

pub open spec fn pill_of(
    pill: TabPill,
    item: TabItem,
    index: int,
    active: usize,
    changes: ActiveChanges,
    drag: Option<TabDrag>,
) -> bool {
    &&& pill.id == item.id
    &&& pill.label@ == item.label@
    &&& pill.is_table == item.is_table
    &&& pill.icon_tone == (if index == active {
        Tone::Muted
    } else {
        Tone::Faint
    })
    &&& pill.is_active == (index == active)
    &&& pill.changed == (if index == active {
        changes.total() > 0
    } else {
        item.pending > 0
    })
    &&& pill.dragging == (drag matches Some(drag) && drag.id == item.id && drag.moved)
    &&& pill.close_glyph@ == "×"@
}

/// What last frame's layout recorded of the strip.
#[derive(Debug, Clone, Copy)]
pub struct StripLayout {
    /// The place of the front tab.
    pub active: bool,
    /// The slot past the tabs.
    pub trailing: bool,
    /// The slot past that.
    pub beyond: bool,
}

impl StripLayout {
    /// The layout can be aimed by: it was a strip of as many tabs plus the one
    /// trailing element, so the slot past the tabs was recorded and the one past
    /// that was not. Just after a close or an open it is not.
    pub open spec fn fresh(self) -> bool {
        self.trailing && !self.beyond
    }
}

/// What the strip's one trailing element is.
#[derive(Debug, Clone, Copy, PartialEq, Eq, Structural)]
pub enum Trailing {
    Nothing,
    /// The underline, carrying the request for another frame where the layout
    /// it would be aimed by is stale.
    Underline { another_frame: bool },
    /// Only the request: there is no underline to aim yet.
    FrameRequest,
}

/// The strip as it is drawn.
#[derive(Debug)]
pub struct TabStrip {
    /// What it says without a tab.
    pub caption: Option<String>,
    pub pills: Vec<TabPill>,
    /// The underline is sent to where the front tab was laid out.
    pub aims: bool,
    pub trailing: Trailing,
}

/// The underline is aimed by a fresh layout only: by a stale one it would go to
/// whichever tab used to be there.
pub open spec fn strip_aims(count: nat, layout: StripLayout) -> bool {
    count > 0 && layout.fresh() && layout.active
}

/// The trailing element is the underline from the first aim on, so that the
/// underline is never swapped out, which would restart its slide.
pub open spec fn trailing_of(count: nat, layout: StripLayout, has_underline: bool) -> Trailing {
    if count == 0 {
        Trailing::Nothing
    } else if has_underline || strip_aims(count, layout) {
        Trailing::Underline { another_frame: !layout.fresh() }
    } else {
        Trailing::FrameRequest
    }
}

/// Once there is an underline, it stays the trailing element for as long as there
/// are tabs, whatever the layouts of the frames after.
pub proof fn the_underline_stays(count: nat, layout: StripLayout, later: nat, next: StripLayout)
    requires
        trailing_of(count, layout, false) is Underline,
        later > 0,
    ensures
        trailing_of(later, next, true) is Underline,
{
}

fn pills_of(
    items: &Vec<TabItem>,
    active: usize,
    changes: ActiveChanges,
    drag: Option<TabDrag>,
) -> (pills: Vec<TabPill>)
    ensures
        pills@.len() == items@.len(),
        forall|i: int|
            0 <= i < pills@.len() ==> pill_of(
                #[trigger] pills@[i],
                items@[i],
                i,
                active,
                changes,
                drag,
            ),
{
    let active_changed = changes.edits > 0 || changes.deletes > 0 || changes.inserts > 0;
    let mut pills: Vec<TabPill> = Vec::new();
    let mut i: usize = 0;
    while i < items.len()
        invariant
            i <= items@.len(),
            pills@.len() == i,
            active_changed == (changes.total() > 0),
            forall|k: int|
                0 <= k < i ==> pill_of(#[trigger] pills@[k], items@[k], k, active, changes, drag),
        decreases items@.len() - i,
    {
        let item = &items[i];
        let is_active = i == active;
        let dragging = match drag {
            Some(drag) => drag.id == item.id && drag.moved,
            None => false,
        };
        pills.push(
            TabPill {
                id: item.id,
                label: item.label.as_str().to_string(),
                is_table: item.is_table,
                icon_tone: if is_active {
                    Tone::Muted
                } else {
                    Tone::Faint
                },
                is_active,
                changed: if is_active {
                    active_changed
                } else {
                    item.pending > 0
                },
                dragging,
                close_glyph: "×".to_string(),
            },
        );
        i += 1;
    }
    pills
}

/// The strip: its pills, in the order of the tabs, or what it says without one,
/// and its trailing element. `has_underline` says that it was aimed before.
pub fn render_tab_bar(
    items: &Vec<TabItem>,
    active: usize,
    changes: ActiveChanges,
    drag: Option<TabDrag>,
    layout: StripLayout,
    has_underline: bool,
) -> (strip: TabStrip)
    ensures
        opt(strip.caption) == (if items@.len() == 0 {
            Some("No tabs open"@)
        } else {
            None
        }),
        strip.pills@.len() == items@.len(),
        forall|i: int|
            0 <= i < strip.pills@.len() ==> pill_of(
                #[trigger] strip.pills@[i],
                items@[i],
                i,
                active,
                changes,
                drag,
            ),
        strip.aims == strip_aims(items@.len(), layout),
        strip.trailing == trailing_of(items@.len(), layout, has_underline),
{
    let count: usize = items.len();
    let fresh = layout.trailing && !layout.beyond;
    let aims = count > 0 && fresh && layout.active;
    TabStrip {
        caption: if count == 0 {
            Some("No tabs open".to_string())
        } else {
            None
        },
        pills: pills_of(items, active, changes, drag),
        aims,
        trailing: if count == 0 {
            Trailing::Nothing
        } else if has_underline || aims {
            Trailing::Underline { another_frame: !fresh }
        } else {
            Trailing::FrameRequest
        },
    }
}

/// A tab says what it is. The front one is lit, and its dot counts what is staged
/// for it; another's counts what waits in it. Only the tab that was carried off is
/// drawn as carried.
pub proof fn a_tab_is_drawn_as_it_is(
    pill: TabPill,
    item: TabItem,
    index: int,
    active: usize,
    changes: ActiveChanges,
    drag: Option<TabDrag>,
)
    requires
        pill_of(pill, item, index, active, changes, drag),
    ensures
        pill.id == item.id,
        pill.label@ == item.label@,
        pill.is_table == item.is_table,
        pill.is_active <==> index == active,
        index == active ==> (pill.changed <==> changes.edits > 0 || changes.deletes > 0
            || changes.inserts > 0),
        index != active ==> (pill.changed <==> item.pending > 0),
        pill.dragging <==> drag is Some && drag->0.id == item.id && drag->0.moved,
        index == active ==> pill.icon_tone == Tone::Muted,
        index != active ==> pill.icon_tone == Tone::Faint,
{
}

/// The underline is aimed once the strip is laid out: the front tab is measured, and
/// so is what trails it, with nothing beyond. Until it has been aimed once a frame
/// is asked for, and from then on it is drawn.
pub proof fn the_underline_waits_for_the_layout(count: nat, layout: StripLayout)
    ensures
        strip_aims(count, layout) <==> count > 0 && layout.active && layout.trailing
            && !layout.beyond,
        trailing_of(0, layout, true) is Nothing,
        trailing_of(0, layout, false) is Nothing,
        count > 0 && !strip_aims(count, layout) ==> trailing_of(count, layout, false)
            is FrameRequest,
        strip_aims(count, layout) ==> trailing_of(count, layout, false) == (Trailing::Underline {
            another_frame: false,
        }),
        count > 0 ==> trailing_of(count, layout, true) == (Trailing::Underline {
            another_frame: !(layout.trailing && !layout.beyond),
        }),
{
}

} // verus!
