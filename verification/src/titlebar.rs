//! The custom titlebar.
//!
//! One bar, three groups. Connection switching lives on the left: one chip per
//! open connection, the front one carrying the chevron that drops down every
//! connection the user has saved. The workspace tab strip follows it. On the
//! right sit the two things that are about the app rather than the data: the
//! search box and the settings menu.
//!
//! A chip is an open connection; the dropdown is every connection the user has
//! saved. Closing a chip therefore does not delete anything, which is why the
//! `×` and the picker's `✎`/`⏻` are different gestures with different reach.
use crate::domain::{ConnectionId, Tone};
use crate::palette::PaletteKind;
use crate::text::{
    decimal, decimal_text, lemma_places_step, opt, places_where, push_decimal, to_uppercase, uppercase,
};
use vstd::prelude::*;
use vstd::string::*;

verus! {

/// How a connection is doing.
#[derive(Debug, Clone, Copy, PartialEq, Eq, Structural)]
pub enum ConnectionStatus {
    Connected,
    Connecting,
    Failed,
    Disconnected,
}

pub open spec fn status_tone(status: ConnectionStatus) -> Tone {
    match status {
        ConnectionStatus::Connected => Tone::Success,
        ConnectionStatus::Connecting => Tone::Warning,
        ConnectionStatus::Failed => Tone::Danger,
        ConnectionStatus::Disconnected => Tone::Faint,
    }
}

/// The light of a connection.
pub fn status_color(status: ConnectionStatus) -> (tone: Tone)
    ensures
        tone == status_tone(status),
{
    match status {
        ConnectionStatus::Connected => Tone::Success,
        ConnectionStatus::Connecting => Tone::Warning,
        ConnectionStatus::Failed => Tone::Danger,
        ConnectionStatus::Disconnected => Tone::Faint,
    }
}

/// A saved connection, as far as the bar reads it.
#[derive(Debug)]
pub struct ConnectionEntry {
    pub id: ConnectionId,
    pub name: String,
    pub summary: String,
    pub status: ConnectionStatus,
    /// It has a chip.
    pub open: bool,
    /// Its environment has a colour of its own.
    pub tagged: bool,
    /// How many changes are staged in each of its tabs, those not in front too.
    pub pending_changes: Vec<usize>,
}

/// Some of the tabs hold staged work.
pub open spec fn has_changes(pending: Seq<usize>) -> bool {
    exists|i: int| 0 <= i < pending.len() && #[trigger] pending[i] > 0
}

fn any_changes(pending: &Vec<usize>) -> (any: bool)
    ensures
        any == has_changes(pending@),
{
    let mut i: usize = 0;
    while i < pending.len()
        invariant
            i <= pending@.len(),
            forall|k: int| 0 <= k < i ==> #[trigger] pending@[k] == 0,
        decreases pending@.len() - i,
    {
        if pending[i] > 0 {
            return true;
        }
        i += 1;
    }
    false
}

/// What a press on a chip does.
#[derive(Debug, Clone, Copy, PartialEq, Eq, Structural)]
pub enum ChipPress {
    /// The front chip is the picker's button.
    TogglePicker,
    Open(ConnectionId),
}

/// A chip of an open connection.
#[derive(Debug)]
pub struct ConnectionChip {
    pub id: ConnectionId,
    pub name: String,
    pub is_active: bool,
    pub light: Tone,
    /// Every tagged chip carries its colour, not just the one in front:
    /// switching to production should be seen before it is clicked.
    pub tagged: bool,
    pub has_changes: bool,
    /// The front chip's chevron: it is the picker's button.
    pub chevron: Option<String>,
    /// What closes the connection.
    pub close: String,
    /// The picker hangs off the front chip.
    pub picker: bool,
    pub press: ChipPress,
}

/// What a chip shows.
pub struct ChipView {
    pub id: ConnectionId,
    pub name: Seq<char>,
    pub is_active: bool,
    pub light: Tone,
    pub tagged: bool,
    pub has_changes: bool,
    pub chevron: Option<Seq<char>>,
    pub close: Seq<char>,
    pub picker: bool,
    pub press: ChipPress,
}

impl View for ConnectionChip {
    type V = ChipView;

    open spec fn view(&self) -> ChipView {
        ChipView {
            id: self.id,
            name: self.name@,
            is_active: self.is_active,
            light: self.light,
            tagged: self.tagged,
            has_changes: self.has_changes,
            chevron: opt(self.chevron),
            close: self.close@,
            picker: self.picker,
            press: self.press,
        }
    }
}

/// What each chip shows.
pub open spec fn chip_views(chips: Seq<ConnectionChip>) -> Seq<ChipView> {
    Seq::new(chips.len(), |i: int| chips[i]@)
}

pub open spec fn chip_of(
    entry: ConnectionEntry,
    active: Option<ConnectionId>,
    picker_open: bool,
) -> ChipView {
    let is_active = active == Some(entry.id);
    ChipView {
        id: entry.id,
        name: entry.name@,
        is_active,
        light: status_tone(entry.status),
        tagged: entry.tagged,
        has_changes: has_changes(entry.pending_changes@),
        chevron: if is_active {
            Some("⌄"@)
        } else {
            None
        },
        close: "×"@,
        picker: is_active && picker_open,
        press: if is_active {
            ChipPress::TogglePicker
        } else {
            ChipPress::Open(entry.id)
        },
    }
}

/// One chip per open connection, in their order.
pub open spec fn chips_of(
    entries: Seq<ConnectionEntry>,
    active: Option<ConnectionId>,
    picker_open: bool,
) -> Seq<ChipView>
    decreases entries.len(),
{
    if entries.len() == 0 {
        Seq::empty()
    } else {
        let before = chips_of(entries.drop_last(), active, picker_open);
        if entries.last().open {
            before.push(chip_of(entries.last(), active, picker_open))
        } else {
            before
        }
    }
}

/// The left of the bar.
#[derive(Debug)]
pub enum Chips {
    /// What opens the picker where nothing is open, and whether that hangs open.
    Nothing { caption: String, chevron: String, picker: bool },
    Open(Vec<ConnectionChip>),
}

fn is_the(active: Option<ConnectionId>, id: ConnectionId) -> (is: bool)
    ensures
        is == (active == Some(id)),
{
    match active {
        Some(active) => active.0 == id.0,
        None => false,
    }
}

pub fn render_connection_chips(
    entries: &Vec<ConnectionEntry>,
    active: Option<ConnectionId>,
    picker_open: bool,
) -> (chips: Chips)
    ensures
        match chips {
            Chips::Nothing { caption, chevron, picker } => {
                &&& caption@ == "No connection open"@
                &&& chevron@ == "⌄"@
                &&& picker == picker_open
                &&& chips_of(entries@, active, picker_open).len() == 0
            },
            Chips::Open(chips) => chips@.len() > 0 && chip_views(chips@) == chips_of(
                entries@,
                active,
                picker_open,
            ),
        },
{
    let mut chips: Vec<ConnectionChip> = Vec::new();
    let mut i: usize = 0;
    assert(entries@.take(0) == Seq::<ConnectionEntry>::empty());
    assert(chip_views(chips@) == Seq::<ChipView>::empty());
    while i < entries.len()
        invariant
            i <= entries@.len(),
            chip_views(chips@) == chips_of(entries@.take(i as int), active, picker_open),
        decreases entries@.len() - i,
    {
        let entry = &entries[i];
        assert(entries@.take(i + 1).drop_last() == entries@.take(i as int));
        if entry.open {
            let ghost before = chips@;
            let is_active = is_the(active, entry.id);
            let chip = ConnectionChip {
                id: entry.id,
                name: entry.name.as_str().to_string(),
                is_active,
                light: status_color(entry.status),
                tagged: entry.tagged,
                has_changes: any_changes(&entry.pending_changes),
                chevron: if is_active {
                    Some("⌄".to_string())
                } else {
                    None
                },
                close: "×".to_string(),
                picker: is_active && picker_open,
                press: if is_active {
                    ChipPress::TogglePicker
                } else {
                    ChipPress::Open(entry.id)
                },
            };
            chips.push(chip);
            assert(chip_views(chips@) == chip_views(before).push(chip@));
        }
        i += 1;
    }
    assert(entries@.take(i as int) == entries@);
    assert(chip_views(chips@).len() == chips@.len());
    if chips.len() == 0 {
        Chips::Nothing {
            caption: "No connection open".to_string(),
            chevron: "⌄".to_string(),
            picker: picker_open,
        }
    } else {
        Chips::Open(chips)
    }
}

proof fn lemma_chip_is_open(
    entries: Seq<ConnectionEntry>,
    active: Option<ConnectionId>,
    picker_open: bool,
    at: int,
)
    requires
        0 <= at < chips_of(entries, active, picker_open).len(),
    ensures
        exists|i: int|
            0 <= i < entries.len() && (#[trigger] entries[i]).open && chips_of(
                entries,
                active,
                picker_open,
            )[at] == chip_of(entries[i], active, picker_open),
    decreases entries.len(),
{
    let before = chips_of(entries.drop_last(), active, picker_open);
    if at < before.len() {
        lemma_chip_is_open(entries.drop_last(), active, picker_open, at);
        let i = choose|i: int|
            0 <= i < entries.drop_last().len() && (#[trigger] entries.drop_last()[i]).open
                && before[at] == chip_of(entries.drop_last()[i], active, picker_open);
        assert(entries[i] == entries.drop_last()[i]);
    } else {
        assert(entries[entries.len() - 1] == entries.last());
    }
}

/// The front chip is the picker's button and the rest just switch, whichever
/// connections are open.
pub proof fn only_the_front_chip_drops_down(
    entries: Seq<ConnectionEntry>,
    active: Option<ConnectionId>,
    picker_open: bool,
    at: int,
)
    requires
        0 <= at < chips_of(entries, active, picker_open).len(),
    ensures
        ({
            let chip = chips_of(entries, active, picker_open)[at];
            &&& chip.is_active == (active == Some(chip.id))
            &&& chip.picker ==> chip.is_active
            &&& chip.press == (if chip.is_active {
                ChipPress::TogglePicker
            } else {
                ChipPress::Open(chip.id)
            })
        }),
{
    lemma_chip_is_open(entries, active, picker_open, at);
}

/// A row of the picker.
#[derive(Debug)]
pub struct PickerRow {
    pub id: ConnectionId,
    pub name: String,
    pub summary: String,
    pub light: Tone,
    pub is_active: bool,
    /// It already has a chip, so that clicking it reads as "go there" rather
    /// than "open a second".
    pub open_caption: Option<String>,
    /// What disconnects it, where it is connected.
    pub disconnect: Option<String>,
    /// What edits it.
    pub edit: String,
}

/// The picker as it is drawn.
#[derive(Debug)]
pub struct ConnectionPicker {
    pub rows: Vec<PickerRow>,
    /// What stands in for the rows where no connection is saved.
    pub caption: Option<String>,
    pub new_connection: String,
}

pub open spec fn picker_row_is(
    row: PickerRow,
    entry: ConnectionEntry,
    active: Option<ConnectionId>,
) -> bool {
    &&& row.id == entry.id
    &&& row.name@ == entry.name@
    &&& row.summary@ == entry.summary@
    &&& row.light == status_tone(entry.status)
    &&& row.is_active == (active == Some(entry.id))
    &&& opt(row.open_caption) == (if entry.open && active != Some(entry.id) {
        Some("open"@)
    } else {
        None
    })
    &&& opt(row.disconnect) == (if entry.status == ConnectionStatus::Connected {
        Some("⏻"@)
    } else {
        None
    })
    &&& row.edit@ == "✎"@
}

/// Every saved connection, and what adds another.
pub fn render_connection_picker(
    entries: &Vec<ConnectionEntry>,
    active: Option<ConnectionId>,
) -> (picker: ConnectionPicker)
    ensures
        opt(picker.caption) == (if entries@.len() == 0 {
            Some("No connections yet"@)
        } else {
            None
        }),
        picker.rows@.len() == entries@.len(),
        forall|i: int|
            0 <= i < picker.rows@.len() ==> picker_row_is(
                #[trigger] picker.rows@[i],
                entries@[i],
                active,
            ),
        picker.new_connection@ == "New Connection…"@,
{
    let mut rows: Vec<PickerRow> = Vec::new();
    let mut i: usize = 0;
    while i < entries.len()
        invariant
            i <= entries@.len(),
            rows@.len() == i,
            forall|k: int|
                0 <= k < i ==> picker_row_is(#[trigger] rows@[k], entries@[k], active),
        decreases entries@.len() - i,
    {
        let entry = &entries[i];
        let is_active = is_the(active, entry.id);
        rows.push(
            PickerRow {
                id: entry.id,
                name: entry.name.as_str().to_string(),
                summary: entry.summary.as_str().to_string(),
                light: status_color(entry.status),
                is_active,
                open_caption: if entry.open && !is_active {
                    Some("open".to_string())
                } else {
                    None
                },
                disconnect: match entry.status {
                    ConnectionStatus::Connected => Some("⏻".to_string()),
                    _ => None,
                },
                edit: "✎".to_string(),
            },
        );
        i += 1;
    }
    ConnectionPicker {
        rows,
        caption: if entries.len() == 0 {
            Some("No connections yet".to_string())
        } else {
            None
        },
        new_connection: "New Connection…".to_string(),
    }
}

/// What a row of the settings menu does.
#[derive(Debug, Clone, Copy, PartialEq, Eq, Structural)]
pub enum SettingsAction {
    Palette(PaletteKind),
    NewConnection,
    RefreshCatalog,
    ToggleTranslucent,
    /// A value with − and + beside it. The row itself does nothing, so that a
    /// press that misses the buttons does not close the menu.
    StepGlassOpacity,
    StepGlassBlur,
    ZoomIn,
    ZoomOut,
    ZoomReset,
    /// A rule between rows; it does nothing.
    Separator,
}

/// Whether a pick puts the menu away.
pub open spec fn closes_menu(action: SettingsAction) -> bool {
    match action {
        SettingsAction::Palette(_)
        | SettingsAction::NewConnection
        | SettingsAction::RefreshCatalog => true,
        _ => false,
    }
}

/// Whether a pick puts the menu away: the ones that lead elsewhere do, the ones
/// that tune the window are often pressed again.
pub fn settings_picked(action: SettingsAction) -> (closes: bool)
    ensures
        closes == closes_menu(action),
{
    match action {
        SettingsAction::Palette(_)
        | SettingsAction::NewConnection
        | SettingsAction::RefreshCatalog => true,
        _ => false,
    }
}

/// A row of the settings menu: what it is called, and its shortcut or its value.
#[derive(Debug)]
pub struct SettingsRow {
    pub label: String,
    pub aside: Option<String>,
    /// The buttons on either side of a value that is stepped.
    pub steps: Option<(String, String)>,
    pub action: SettingsAction,
}

/// What a row of the settings menu shows and does.
pub struct SettingsRowView {
    pub label: Seq<char>,
    pub aside: Option<Seq<char>>,
    pub steps: Option<(Seq<char>, Seq<char>)>,
    pub action: SettingsAction,
}

/// A row's value is stepped rather than picked.
pub open spec fn is_stepped(action: SettingsAction) -> bool {
    action == SettingsAction::StepGlassOpacity || action == SettingsAction::StepGlassBlur
}

/// What each row of the settings menu shows and does.
pub open spec fn settings_views(rows: Seq<SettingsRow>) -> Seq<SettingsRowView> {
    Seq::new(
        rows.len(),
        |i: int|
            SettingsRowView {
                label: rows[i].label@,
                aside: opt(rows[i].aside),
                steps: match rows[i].steps {
                    Some((less, more)) => Some((less@, more@)),
                    None => None,
                },
                action: rows[i].action,
            },
    )
}

pub open spec fn row_of(
    label: Seq<char>,
    aside: Option<Seq<char>>,
    action: SettingsAction,
) -> SettingsRowView {
    SettingsRowView {
        label,
        aside,
        steps: if is_stepped(action) {
            Some(("−"@, "+"@))
        } else {
            None
        },
        action,
    }
}

/// The window's own settings.
#[derive(Debug, Clone, Copy)]
pub struct WindowSettings {
    pub translucent: bool,
    pub glass_opacity_pct: u32,
    pub glass_blur: u32,
    pub zoom_pct: u32,
}

/// The rows of the settings menu. The glass is tuned only while it is on:
/// otherwise these would read as broken controls.
pub open spec fn settings_rows(settings: WindowSettings) -> Seq<SettingsRowView> {
    let separator = row_of(""@, None, SettingsAction::Separator);
    seq![
        row_of(
            "Change Theme…"@,
            Some("⌘⇧T"@),
            SettingsAction::Palette(PaletteKind::Themes),
        ),
        row_of(
            "Command Palette…"@,
            Some("⌘⇧P"@),
            SettingsAction::Palette(PaletteKind::Actions),
        ),
        separator,
        row_of("New Connection…"@, Some("⌘N"@), SettingsAction::NewConnection),
        row_of("Refresh Catalog"@, None, SettingsAction::RefreshCatalog),
        separator,
        row_of(
            "Translucent Window"@,
            Some(
                if settings.translucent {
                    "On"@
                } else {
                    "Off"@
                },
            ),
            SettingsAction::ToggleTranslucent,
        ),
    ] + (if settings.translucent {
        seq![
            row_of(
                "Tint"@,
                Some(decimal(settings.glass_opacity_pct as nat) + "%"@),
                SettingsAction::StepGlassOpacity,
            ),
            row_of(
                "Blur"@,
                Some(decimal(settings.glass_blur as nat)),
                SettingsAction::StepGlassBlur,
            ),
        ]
    } else {
        Seq::empty()
    }) + seq![
        row_of("Zoom In"@, Some("⌘+"@), SettingsAction::ZoomIn),
        row_of("Zoom Out"@, Some("⌘−"@), SettingsAction::ZoomOut),
        row_of(
            "Actual Size  ("@ + decimal(settings.zoom_pct as nat) + "%)"@,
            Some("⌘0"@),
            SettingsAction::ZoomReset,
        ),
    ]
}

fn push_setting(
    rows: &mut Vec<SettingsRow>,
    label: &str,
    aside: Option<String>,
    action: SettingsAction,
)
    ensures
        settings_views(final(rows)@) == settings_views(old(rows)@).push(
            row_of(label@, opt(aside), action),
        ),
{
    let ghost said = opt(aside);
    let steps = match action {
        SettingsAction::StepGlassOpacity | SettingsAction::StepGlassBlur => Some(
            ("−".to_string(), "+".to_string()),
        ),
        _ => None,
    };
    rows.push(SettingsRow { label: label.to_string(), aside, steps, action });
    assert(settings_views(rows@) == settings_views(old(rows)@).push(
        row_of(label@, said, action),
    ));
}

/// The gear menu: the app's own settings, as opposed to the data's.
///
/// Everything here is also an action with a shortcut. The menu exists so that
/// none of them is *only* a shortcut.
pub fn render_settings_menu(open: bool, settings: WindowSettings) -> (menu: Option<
    Vec<SettingsRow>,
>)
    ensures
        menu is Some <==> open,
        menu matches Some(rows) ==> settings_views(rows@) == settings_rows(settings),
{
    if !open {
        return None;
    }
    let mut rows: Vec<SettingsRow> = Vec::new();
    push_setting(
        &mut rows,
        "Change Theme…",
        Some("⌘⇧T".to_string()),
        SettingsAction::Palette(PaletteKind::Themes),
    );
    push_setting(
        &mut rows,
        "Command Palette…",
        Some("⌘⇧P".to_string()),
        SettingsAction::Palette(PaletteKind::Actions),
    );
    push_setting(&mut rows, "", None, SettingsAction::Separator);
    push_setting(
        &mut rows,
        "New Connection…",
        Some("⌘N".to_string()),
        SettingsAction::NewConnection,
    );
    push_setting(&mut rows, "Refresh Catalog", None, SettingsAction::RefreshCatalog);
    push_setting(&mut rows, "", None, SettingsAction::Separator);
    push_setting(
        &mut rows,
        "Translucent Window",
        Some(
            if settings.translucent {
                "On".to_string()
            } else {
                "Off".to_string()
            },
        ),
        SettingsAction::ToggleTranslucent,
    );
    if settings.translucent {
        let mut tint: String = decimal_text(settings.glass_opacity_pct as u64);
        tint.append("%");
        push_setting(&mut rows, "Tint", Some(tint), SettingsAction::StepGlassOpacity);
        push_setting(
            &mut rows,
            "Blur",
            Some(decimal_text(settings.glass_blur as u64)),
            SettingsAction::StepGlassBlur,
        );
    }
    push_setting(&mut rows, "Zoom In", Some("⌘+".to_string()), SettingsAction::ZoomIn);
    push_setting(&mut rows, "Zoom Out", Some("⌘−".to_string()), SettingsAction::ZoomOut);
    let mut reset: String = "Actual Size  (".to_string();
    push_decimal(&mut reset, settings.zoom_pct as u64);
    reset.append("%)");
    push_setting(
        &mut rows,
        reset.as_str(),
        Some("⌘0".to_string()),
        SettingsAction::ZoomReset,
    );
    assert(settings_views(rows@) == settings_rows(settings));
    Some(rows)
}

/// What the bar says of the connection in front.
#[derive(Debug)]
pub struct Titlebar {
    /// The environment's tag, where it has a colour of its own; a line in that
    /// colour runs right across the window under the bar, since production
    /// should be visible from across the room.
    pub environment: Option<String>,
    /// A read-only connection says so where the user is already looking to tell
    /// which server they are on.
    pub read_only: Option<String>,
    pub search: SearchBox,
    pub settings_tone: Tone,
}

/// The search box, which is a button wearing a text field's clothes: nothing is
/// typed here, and pressing it opens the palette, where the query lives.
#[derive(Debug)]
pub struct SearchBox {
    pub text: String,
    /// The binding that works.
    pub shortcut: String,
    pub opens: PaletteKind,
}

pub open spec fn search_box_is(search: SearchBox) -> bool {
    &&& search.text@ == "Search…"@
    &&& search.shortcut@ == "⌘P"@
    &&& search.opens == PaletteKind::GoToTable
}

pub fn render_titlebar_search() -> (search: SearchBox)
    ensures
        search_box_is(search),
{
    SearchBox {
        text: "Search…".to_string(),
        shortcut: "⌘P".to_string(),
        opens: PaletteKind::GoToTable,
    }
}

/// `environment` is the label of the one in front, where it has a colour.
pub fn render_titlebar(environment: Option<&str>, read_only: bool, settings_open: bool) -> (bar:
    Titlebar)
    ensures
        opt(bar.environment) == (match environment {
            Some(label) => Some(uppercase(label@)),
            None => None,
        }),
        opt(bar.read_only) == (if read_only {
            Some("READ ONLY"@)
        } else {
            None
        }),
        search_box_is(bar.search),
        bar.settings_tone == (if settings_open {
            Tone::Text
        } else {
            Tone::Muted
        }),
{
    Titlebar {
        environment: match environment {
            Some(label) => Some(to_uppercase(label)),
            None => None,
        },
        read_only: if read_only {
            Some("READ ONLY".to_string())
        } else {
            None
        },
        search: render_titlebar_search(),
        settings_tone: if settings_open {
            Tone::Text
        } else {
            Tone::Muted
        },
    }
}

/// Whether a connection has a chip.
pub open spec fn connection_is_open(entries: Seq<ConnectionEntry>) -> spec_fn(int) -> bool {
    |i: int| entries[i].open
}

proof fn lemma_chips_open(
    entries: Seq<ConnectionEntry>,
    active: Option<ConnectionId>,
    picker_open: bool,
    upto: int,
) -> (places: Seq<int>)
    requires
        0 <= upto <= entries.len(),
    ensures
        places_where(places, upto, connection_is_open(entries)),
        chips_of(entries.take(upto), active, picker_open) == Seq::new(
            places.len(),
            |k: int| chip_of(entries[places[k]], active, picker_open),
        ),
    decreases upto,
{
    let holds = connection_is_open(entries);
    let places = if upto == 0 {
        Seq::<int>::empty()
    } else {
        let n = upto - 1;
        let before = lemma_chips_open(entries, active, picker_open, n);
        lemma_places_step(before, n, holds);
        assert(entries.take(upto).drop_last() == entries.take(n));
        if holds(n) {
            before.push(n)
        } else {
            before
        }
    };
    assert(chips_of(entries.take(upto), active, picker_open) == Seq::new(
        places.len(),
        |k: int| chip_of(entries[places[k]], active, picker_open),
    ));
    places
}

/// A chip says of a connection what there is to say: its name, its light, whether
/// it is tagged and whether any of its tables has changes.
pub open spec fn is_chip_for(
    chip: ChipView,
    entry: ConnectionEntry,
    active: Option<ConnectionId>,
) -> bool {
    &&& chip.id == entry.id
    &&& chip.name == entry.name@
    &&& chip.light == status_tone(entry.status)
    &&& chip.tagged == entry.tagged
    &&& chip.has_changes <==> (exists|i: int|
        0 <= i < entry.pending_changes@.len() && #[trigger] entry.pending_changes@[i] > 0)
    &&& chip.is_active <==> active == Some(entry.id)
}

/// Every open connection has its chip, in the order of the connections, and no
/// other has one. The front one alone has the chevron.
pub proof fn every_open_connection_has_its_chip(
    entries: Seq<ConnectionEntry>,
    active: Option<ConnectionId>,
    picker_open: bool,
)
    ensures
        ({
            let chips = chips_of(entries, active, picker_open);
            exists|places: Seq<int>|
                {
                    &&& #[trigger] places_where(
                        places,
                        entries.len() as int,
                        connection_is_open(entries),
                    )
                    &&& chips.len() == places.len()
                    &&& forall|k: int|
                        #![trigger places[k]]
                        0 <= k < places.len() ==> is_chip_for(
                            chips[k],
                            entries[places[k]],
                            active,
                        )
                }
        }),
        forall|k: int|
            0 <= k < chips_of(entries, active, picker_open).len() ==> {
                let chip = #[trigger] chips_of(entries, active, picker_open)[k];
                &&& chip.chevron is Some <==> active == Some(chip.id)
                &&& chip.picker <==> active == Some(chip.id) && picker_open
            },
{
    assert(entries.take(entries.len() as int) == entries);
    let places = lemma_chips_open(entries, active, picker_open, entries.len() as int);
    assert(places_where(places, entries.len() as int, connection_is_open(entries)));
}

/// No two states of a connection have the same light: green is connected, amber
/// on its way, red failed.
pub proof fn a_light_tells_the_state(status: ConnectionStatus, other: ConnectionStatus)
    ensures
        status_tone(status) == status_tone(other) ==> status == other,
        status_tone(ConnectionStatus::Connected) == Tone::Success,
        status_tone(ConnectionStatus::Connecting) == Tone::Warning,
        status_tone(ConnectionStatus::Failed) == Tone::Danger,
        status_tone(ConnectionStatus::Disconnected) == Tone::Faint,
{
}

/// A row of the picker says what there is to say of its connection. Only one that
/// is open elsewhere is called open, and only a live one can be disconnected.
pub proof fn a_picker_row_is_read_off_its_connection(
    row: PickerRow,
    entry: ConnectionEntry,
    active: Option<ConnectionId>,
)
    requires
        picker_row_is(row, entry, active),
    ensures
        row.id == entry.id,
        row.name@ == entry.name@,
        row.summary@ == entry.summary@,
        row.is_active <==> active == Some(entry.id),
        row.light == status_tone(entry.status),
        row.open_caption is Some <==> entry.open && !row.is_active,
        row.open_caption is Some ==> row.open_caption->0@ == seq!['o', 'p', 'e', 'n'],
        row.disconnect is Some <==> entry.status is Connected,
{
    reveal_strlit("open");
}

/// Only what opens something else closes the settings menu; what steps or switches
/// leaves it open for the next step.
pub proof fn the_settings_menu_stays_for_more_steps(action: SettingsAction)
    ensures
        closes_menu(action) <==> action is Palette || action is NewConnection
            || action is RefreshCatalog,
{
}

/// The tint and the blur are set on a translucent window only, and they alone
/// have a step down and a step up. Every other setting is there either way.
pub proof fn glass_is_set_where_it_shows(settings: WindowSettings)
    ensures
        ({
            let rows = settings_rows(settings);
            &&& rows.len() == (if settings.translucent {
                12int
            } else {
                10
            })
            &&& (exists|i: int|
                0 <= i < rows.len() && #[trigger] rows[i].action is StepGlassOpacity)
                <==> settings.translucent
            &&& (exists|i: int| 0 <= i < rows.len() && #[trigger] rows[i].action is StepGlassBlur)
                <==> settings.translucent
            &&& forall|i: int|
                0 <= i < rows.len() ==> ((#[trigger] rows[i]).steps is Some
                    <==> rows[i].action is StepGlassOpacity || rows[i].action is StepGlassBlur)
            &&& rows[0].action == SettingsAction::Palette(PaletteKind::Themes)
            &&& rows[1].action == SettingsAction::Palette(PaletteKind::Actions)
            &&& rows[3].action is NewConnection
            &&& rows[4].action is RefreshCatalog
            &&& rows[6].action is ToggleTranslucent
            &&& rows[6].aside == Some(
                if settings.translucent {
                    seq!['O', 'n']
                } else {
                    seq!['O', 'f', 'f']
                },
            )
            &&& rows[rows.len() - 3].action is ZoomIn
            &&& rows[rows.len() - 2].action is ZoomOut
            &&& rows[rows.len() - 1].action is ZoomReset
            &&& settings.translucent ==> rows[7].aside == Some(
                decimal(settings.glass_opacity_pct as nat) + seq!['%'],
            ) && rows[8].aside == Some(decimal(settings.glass_blur as nat))
        }),
{
    reveal_strlit("On");
    reveal_strlit("Off");
    reveal_strlit("%");
    let rows = settings_rows(settings);
    assert("On"@ == seq!['O', 'n']);
    assert("Off"@ == seq!['O', 'f', 'f']);
    assert("%"@ == seq!['%']);
    if settings.translucent {
        assert(rows[7].action is StepGlassOpacity);
        assert(rows[8].action is StepGlassBlur);
    }
}

} // verus!
