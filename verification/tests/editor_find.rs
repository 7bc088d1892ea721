use dbui_ui::editor_find::{
    close_editor_find, find_all, find_matches, find_refresh, find_step, handle_find_key, open_editor_find, refreshes,
    render_editor_find, replace_all, replace_one, EditorFind, FindAction, FindField,
};
use dbui_ui::keys::Keystroke;
use dbui_ui::text_field::{Focus, FocusState};
use dbui_ui::text_input::TextInput;

fn find(query: &str) -> EditorFind {
    EditorFind {
        query: TextInput::with_text(query.to_string(), false),
        replacement: TextInput::with_text("x".to_string(), false),
        replacing: false,
        field: FindField::Query,
    }
}

fn grid_focus() -> FocusState {
    FocusState {
        focus: Focus::Grid,
        filter_focus: None,
        detail_input: None,
        page_size_focus: false,
    }
}

fn key(name: &str, platform: bool, shift: bool) -> Keystroke {
    Keystroke {
        key: name.to_string(),
        platform,
        shift,
        control: false,
        alt: false,
    }
}

#[test]
fn finds_every_occurrence_ignoring_case() {
    assert_eq!(
        find_all("SELECT a FROM t WHERE a = 'select'", "select"),
        vec![0..6, 27..33]
    );
}

#[test]
fn matches_do_not_overlap() {
    assert_eq!(find_all("aaaa", "aa"), vec![0..2, 2..4]);
}

#[test]
fn nothing_to_find_finds_nothing() {
    assert!(find_all("SELECT", "").is_empty());
    assert!(find_all("", "x").is_empty());
}

#[test]
fn multibyte_text_is_searched_on_character_boundaries() {
    assert_eq!(find_all("café café", "é"), vec![3..5, 9..11]);
    assert_eq!(find_all("naïve NAÏVE", "na"), vec![0..2, 7..9]);
}

#[test]
fn matches_need_a_bar_and_a_query_tab() {
    assert_eq!(find_matches(&Some(find("a")), Some("a b a")), vec![0..1, 4..5]);
    assert!(find_matches(&None, Some("a")).is_empty());
    assert!(find_matches(&Some(find("a")), None).is_empty());
}

#[test]
fn opening_starts_from_a_one_line_selection() {
    let mut focus = grid_focus();
    let open = open_editor_find(None, Some("users".to_string()), false, &mut focus);
    assert_eq!(focus.focus, Focus::Find);
    assert_eq!(open.query.text(), "users");
    assert_eq!(open.query.selection, Some(0..5), "typing replaces it");
    assert!(!open.replacing);
    let open = open_editor_find(Some(find("old")), Some("two\nlines".to_string()), true, &mut focus);
    assert_eq!(open.query.text(), "old");
    assert_eq!(open.query.selection, Some(0..3));
    assert_eq!(open.replacement.text(), "x");
    assert!(open.replacing);
    let again = open_editor_find(Some(open), None, false, &mut focus);
    assert!(again.replacing);
    assert_eq!(again.field, FindField::Query);
    let mut bar = Some(again);
    close_editor_find(&mut bar, &mut focus);
    assert!(bar.is_none() && focus.focus == Focus::Editor);
}

#[test]
fn steps_wrap_at_both_ends() {
    let bar = Some(find("a"));
    let step = |from: std::ops::Range<usize>, forward: bool| {
        find_step(&bar, Some(("a b a b a", from)), forward)
    };
    assert_eq!(step(0..1, true), Some(4..5));
    assert_eq!(step(8..9, true), Some(0..1));
    assert_eq!(step(0..1, false), Some(8..9));
    assert_eq!(step(4..5, false), Some(0..1));
    assert_eq!(find_step(&bar, Some(("zzz", 0..0)), true), None);
    assert_eq!(find_step(&None, Some(("a", 0..0)), true), None);
    assert_eq!(find_step(&bar, None, true), None);
}

#[test]
fn typing_refines_the_match_in_place() {
    let bar = Some(find("a"));
    assert_eq!(find_refresh(&bar, Some(("a b a b a", 4..6))), Some(4..5));
    assert_eq!(find_refresh(&bar, Some(("a b a b a", 9..9))), Some(0..1));
    assert_eq!(find_refresh(&bar, Some(("zzz", 0..0))), None);
    assert_eq!(find_refresh(&None, Some(("a", 0..0))), None);
    assert!(refreshes(FindField::Query, "a", "ab"));
    assert!(!refreshes(FindField::Query, "a", "a"));
    assert!(!refreshes(FindField::Replacement, "a", "ab"));
}

#[test]
fn only_a_selected_match_is_replaced() {
    let press = replace_one("SELECT é", "select", &(0..6), "é");
    assert_eq!((press.text.as_deref(), press.target), (Some("é é"), None));
    // With none selected the first press only finds one.
    let press = replace_one("SELECT é", "select", &(0..5), "é");
    assert_eq!((press.text, press.target), (None, Some(0..6)));
}

#[test]
fn replacing_moves_on_to_the_next_match() {
    // What was just written holds the query too, and is left alone.
    let press = replace_one("a b a", "a", &(0..1), "aa");
    assert_eq!((press.text.as_deref(), press.target), (Some("aa b a"), Some(5..6)));
    let press = replace_one("a b a", "a", &(4..5), "x");
    assert_eq!((press.text.as_deref(), press.target), (Some("a b x"), Some(0..1)));
}

#[test]
fn replacing_all_changes_every_match_and_says_how_many() {
    let edit = replace_all("a b A", "a", "xyz", 5).unwrap();
    assert_eq!(edit.text, "xyz b xyz");
    assert_eq!(edit.caret, 5);
    assert_eq!(edit.status, "Replaced 2 matches");
    let edit = replace_all("naïve", "ïve", "", 6).unwrap();
    assert_eq!(edit.text, "na");
    assert_eq!(edit.caret, 2);
    assert_eq!(edit.status, "Replaced 1 match");
    assert!(replace_all("abc", "z", "y", 0).is_none());
}

#[test]
fn keys_in_the_bar_mean_what_they_say() {
    let bar = Some(find("a"));
    let action = |bar: &Option<EditorFind>, press: Keystroke| handle_find_key(bar, &press);
    assert_eq!(action(&bar, key("escape", false, false)), Some(FindAction::Close));
    assert_eq!(
        action(&bar, key("enter", false, false)),
        Some(FindAction::Step { forward: true })
    );
    assert_eq!(
        action(&bar, key("enter", false, true)),
        Some(FindAction::Step { forward: false })
    );
    assert_eq!(action(&bar, key("enter", true, false)), Some(FindAction::Edit));
    assert_eq!(
        action(&bar, key("g", true, false)),
        Some(FindAction::Step { forward: true })
    );
    assert_eq!(action(&bar, key("g", false, false)), Some(FindAction::Edit));
    assert_eq!(action(&bar, key("tab", false, false)), Some(FindAction::SwitchField));
    assert_eq!(action(&None, key("escape", false, false)), None);
    let mut replacing = find("a");
    replacing.toggle_replacing();
    replacing.switch_field();
    assert_eq!(replacing.field, FindField::Replacement);
    assert_eq!(
        action(&Some(replacing), key("enter", false, false)),
        Some(FindAction::ReplaceOne)
    );
    let mut alone = find("a");
    alone.switch_field();
    assert_eq!(alone.field, FindField::Query);
}

#[test]
fn the_bar_counts_where_the_selection_is() {
    let count = |query: &str, text: &str, selection: std::ops::Range<usize>| {
        render_editor_find(&Some(find(query)), Some((text, selection)), true)
            .unwrap()
            .count
    };
    assert_eq!(count("a", "a b a", 4..5), "2 of 2");
    assert_eq!(count("a", "a b a", 1..2), "2 found");
    assert_eq!(count("z", "a b a", 0..0), "No matches");
    assert_eq!(count("", "a b a", 0..0), "");
    let bar = render_editor_find(&Some(find("z")), Some(("a", 0..0)), true).unwrap();
    assert!(bar.nothing_found && bar.query_focused && bar.replacement.is_none());
    assert_eq!((bar.query_hint.as_str(), bar.close.as_str()), ("Find", "×"));
    assert_eq!((bar.previous.as_str(), bar.next.as_str(), bar.toggle.as_str()), ("↑", "↓", "⇄"));
    let mut replacing = find("a");
    replacing.replacing = true;
    replacing.field = FindField::Replacement;
    let bar = render_editor_find(&Some(replacing), Some(("a", 0..0)), true).unwrap();
    let row = bar.replacement.unwrap();
    assert!(row.focused && bar.replacing && !bar.query_focused);
    assert_eq!((bar.query.as_str(), row.text.as_str()), ("a", "x"));
    assert_eq!((row.hint.as_str(), row.one.as_str(), row.all.as_str()), ("Replace", "Replace", "All"));
    assert!(render_editor_find(&None, Some(("a", 0..0)), true).is_none());
    assert!(render_editor_find(&Some(find("a")), None, true).is_none());
}
