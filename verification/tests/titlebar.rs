use dbui_ui::domain::{ConnectionId, Tone};
use dbui_ui::motion::{cascade, spin};
use dbui_ui::palette::PaletteKind;
use dbui_ui::titlebar::{
    render_connection_chips, render_connection_picker, render_settings_menu, render_titlebar,
    settings_picked, status_color, ChipPress, Chips, ConnectionEntry, ConnectionStatus,
    SettingsAction, WindowSettings,
};

fn entry(id: u64, open: bool) -> ConnectionEntry {
    ConnectionEntry {
        id: ConnectionId(id),
        name: format!("db{id}"),
        summary: "localhost".to_string(),
        status: ConnectionStatus::Connected,
        open,
        tagged: false,
        pending_changes: vec![0, 0],
    }
}

#[test]
fn each_open_connection_has_a_chip() {
    let mut entries = vec![entry(1, true), entry(2, false), entry(3, true)];
    entries[2].pending_changes = vec![0, 2];
    entries[2].status = ConnectionStatus::Failed;
    match render_connection_chips(&entries, Some(ConnectionId(1)), true) {
        Chips::Open(chips) => {
            assert_eq!(chips.len(), 2);
            assert!(chips[0].is_active && chips[0].picker && !chips[0].has_changes);
            assert_eq!(chips[0].press, ChipPress::TogglePicker);
            assert_eq!((chips[0].chevron.as_deref(), chips[0].close.as_str()), (Some("⌄"), "×"));
            assert!(chips[1].chevron.is_none());
            assert!(!chips[1].picker && chips[1].has_changes);
            assert_eq!(chips[1].press, ChipPress::Open(ConnectionId(3)));
            assert_eq!(chips[1].light, Tone::Danger);
        }
        Chips::Nothing { .. } => panic!("two are open"),
    }
    assert!(matches!(
        render_connection_chips(&vec![entry(1, false)], None, true),
        Chips::Nothing { caption, chevron, picker: true } if caption == "No connection open" && chevron == "⌄"
    ));
    assert_eq!(status_color(ConnectionStatus::Connecting), Tone::Warning);
    assert_eq!(status_color(ConnectionStatus::Disconnected), Tone::Faint);
}

#[test]
fn the_picker_lists_every_saved_connection() {
    let none = render_connection_picker(&Vec::new(), None);
    assert_eq!(none.caption.as_deref(), Some("No connections yet"));
    assert!(none.rows.is_empty() && none.new_connection == "New Connection…");
    let mut entries = vec![entry(1, true), entry(2, true), entry(3, false)];
    entries[2].status = ConnectionStatus::Disconnected;
    let picker = render_connection_picker(&entries, Some(ConnectionId(1)));
    let rows = picker.rows;
    assert!(picker.caption.is_none());
    assert!(rows[0].is_active && rows[0].open_caption.is_none());
    assert_eq!((rows[1].open_caption.as_deref(), rows[1].disconnect.as_deref()), (Some("open"), Some("⏻")));
    assert!(rows[2].open_caption.is_none() && rows[2].disconnect.is_none());
    assert_eq!(rows[2].edit, "✎");
}

#[test]
fn the_glass_is_tuned_only_while_it_is_on() {
    let mut settings = WindowSettings {
        translucent: true,
        glass_opacity_pct: 40,
        glass_blur: 12,
        zoom_pct: 110,
    };
    assert!(render_settings_menu(false, settings).is_none());
    let rows = render_settings_menu(true, settings).unwrap();
    assert_eq!(rows.len(), 12);
    assert_eq!(rows[6].aside.as_deref(), Some("On"));
    assert_eq!(rows[7].aside.as_deref(), Some("40%"));
    assert_eq!(rows[8].aside.as_deref(), Some("12"));
    assert_eq!(rows[8].steps, Some(("−".to_string(), "+".to_string())));
    assert!(rows[6].steps.is_none());
    assert_eq!(rows[11].label, "Actual Size  (110%)");
    settings.translucent = false;
    let rows = render_settings_menu(true, settings).unwrap();
    assert_eq!(rows.len(), 10);
    assert_eq!(rows[6].aside.as_deref(), Some("Off"));
    assert!(settings_picked(SettingsAction::Palette(PaletteKind::Themes)));
    assert!(!settings_picked(SettingsAction::ZoomIn));
}

#[test]
fn the_bar_says_what_is_at_stake() {
    let bar = render_titlebar(Some("Produktion ß"), true, true);
    assert_eq!(bar.environment.as_deref(), Some("PRODUKTION SS"));
    assert_eq!(bar.read_only.as_deref(), Some("READ ONLY"));
    assert_eq!(bar.settings_tone, Tone::Text);
    assert_eq!((bar.search.text.as_str(), bar.search.shortcut.as_str()), ("Search…", "⌘P"));
    assert_eq!(bar.search.opens, PaletteKind::GoToTable);
    let bar = render_titlebar(None, false, false);
    assert!(bar.environment.is_none() && bar.read_only.is_none());
}

#[test]
fn rows_pour_down_and_do_not_take_seconds() {
    assert_eq!((cascade(0), cascade(1), cascade(10), cascade(400)), (1, 15, 141, 141));
    assert!(spin(1, false) && !spin(0, false) && !spin(1, true));
}
