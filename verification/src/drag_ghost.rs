//! What the pointer is carrying.
//!
//! A lifted copy of the tab or the column being dragged follows the pointer,
//! once the press has travelled past the drag slop.
use crate::tabs::{TabDrag, TabItem};
use vstd::prelude::*;

verus! {

/// A column on its way to another place in the grid.
#[derive(Debug, Clone, Copy)]
pub struct ColumnDrag {
    pub column: usize,
    pub moved: bool,
}

/// A column, by its heading.
#[derive(Debug)]
pub struct ColumnHeading {
    pub name: String,
    pub column_type: String,
}

#[derive(Debug)]
pub enum Carried {
    Tab { label: String, is_table: bool },
    Column { name: String, column_type: String },
}

/// The first tab with the id is at `at`.
pub open spec fn tab_at(items: Seq<TabItem>, id: u64, at: int) -> bool {
    0 <= at < items.len() && items[at].id == id && forall|j: int|
        0 <= j < at ==> (#[trigger] items[j]).id != id
}

pub open spec fn carries_tab(drag: Option<TabDrag>) -> bool {
    drag matches Some(drag) && drag.moved
}

pub open spec fn carries_column(drag: Option<ColumnDrag>) -> bool {
    drag matches Some(drag) && drag.moved
}

fn find_tab(items: &Vec<TabItem>, id: u64) -> (at: Option<usize>)
    ensures
        match at {
            Some(at) => tab_at(items@, id, at as int),
            None => forall|j: int| 0 <= j < items@.len() ==> (#[trigger] items@[j]).id != id,
        },
{
    let mut i: usize = 0;
    while i < items.len()
        invariant
            i <= items@.len(),
            forall|j: int| 0 <= j < i ==> (#[trigger] items@[j]).id != id,
        decreases items@.len() - i,
    {
        if items[i].id == id {
            return Some(i);
        }
        i += 1;
    }
    None
}

/// The copy under the pointer: of the tab in hand, else of the column in hand.
/// A tab or a column that is gone leaves nothing to draw.
pub fn render_drag_ghost(
    pointer: bool,
    tab_drag: Option<TabDrag>,
    tabs: &Vec<TabItem>,
    column_drag: Option<ColumnDrag>,
    columns: &Option<Vec<ColumnHeading>>,
) -> (carried: Option<Carried>)
    ensures
        !pointer ==> carried is None,
        pointer && carries_tab(tab_drag) ==> match carried {
            Some(Carried::Tab { label, is_table }) => exists|at: int| #[trigger]
                tab_at(tabs@, tab_drag.unwrap().id, at) && label@ == tabs@[at].label@ && is_table
                    == tabs@[at].is_table,
            Some(_) => false,
            None => forall|j: int|
                0 <= j < tabs@.len() ==> (#[trigger] tabs@[j]).id != tab_drag.unwrap().id,
        },
        pointer && !carries_tab(tab_drag) && carries_column(column_drag) ==> match carried {
            Some(Carried::Column { name, column_type }) => {
                &&& *columns is Some
                &&& column_drag.unwrap().column < columns.unwrap()@.len()
                &&& name@ == columns.unwrap()@[column_drag.unwrap().column as int].name@
                &&& column_type@ == columns.unwrap()@[column_drag.unwrap().column as int].column_type@
            },
            Some(_) => false,
            None => *columns is None || column_drag.unwrap().column >= columns.unwrap()@.len(),
        },
        pointer && !carries_tab(tab_drag) && !carries_column(column_drag) ==> carried is None,
{
    if !pointer {
        return None;
    }
    if let Some(drag) = tab_drag {
        if drag.moved {
            return match find_tab(tabs, drag.id) {
                Some(at) => {
                    let tab = &tabs[at];
                    Some(
                        Carried::Tab { label: tab.label.as_str().to_string(), is_table: tab.is_table },
                    )
                },
                None => None,
            };
        }
    }
    if let Some(drag) = column_drag {
        if drag.moved {
            if let Some(columns) = columns {
                if drag.column < columns.len() {
                    let column = &columns[drag.column];
                    return Some(
                        Carried::Column {
                            name: column.name.as_str().to_string(),
                            column_type: column.column_type.as_str().to_string(),
                        },
                    );
                }
            }
        }
    }
    None
}

/// Something is carried once it has moved, and the tab carried is the first with its
/// number.
pub proof fn only_what_moved_is_carried(
    tab: Option<TabDrag>,
    column: Option<ColumnDrag>,
    items: Seq<TabItem>,
    id: u64,
    at: int,
    other: int,
)
    ensures
        carries_tab(tab) <==> tab is Some && tab->0.moved,
        carries_column(column) <==> column is Some && column->0.moved,
        tab_at(items, id, at) ==> 0 <= at < items.len() && items[at].id == id,
        tab_at(items, id, at) && tab_at(items, id, other) ==> at == other,
        tab_at(items, id, at) && 0 <= other < at ==> items[other].id != id,
{
}

} // verus!
