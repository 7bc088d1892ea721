use dbui_ui::filters::FilterFocus;
use dbui_ui::text_field::{
    field_dragged, field_pressed, has_input, line_spans, render_highlighted_line,
    render_multiline, render_single_line, text_field, visible_lines, DetailInput, FieldHeight,
    FieldInput, Focus, FocusState, InputTarget, Inputs, LinePaint, Multiline, Press, Run,
    SingleLine, StyledSpan, TextField,
};

fn inputs() -> Inputs {
    Inputs {
        is_table: true,
        draft_fields: Some(2),
        palette_open: false,
    }
}

fn span(start: usize, end: usize, style: u8) -> StyledSpan {
    StyledSpan { start, end, style }
}

/// The runs as text: `|` for the caret, `[..]` for what is selected, and the
/// style's number before a piece that has one.
fn drawn(runs: &[Run]) -> String {
    let mut out = String::new();
    for run in runs {
        match run {
            Run::Caret => out.push('|'),
            Run::Piece { text, style, selected } => {
                if let Some(style) = style {
                    out.push_str(&style.to_string());
                    out.push(':');
                }
                let piece = if *selected { format!("[{text}]") } else { text.clone() };
                out.push_str(&piece);
                out.push(';');
            }
        }
    }
    out
}

#[test]
fn a_field_talks_to_what_is_there() {
    assert!(has_input(inputs(), InputTarget::WhereDraft));
    assert!(has_input(inputs(), InputTarget::DetailField(1)));
    assert!(!has_input(inputs(), InputTarget::DetailField(2)));
    assert!(!has_input(inputs(), InputTarget::PaletteQuery));
    let sql = Inputs { is_table: false, draft_fields: None, palette_open: true };
    assert!(!has_input(sql, InputTarget::PageSize));
    assert!(!has_input(sql, InputTarget::DetailSearch));
    assert_eq!(field_pressed(inputs(), InputTarget::PageSize, 1), Press::Select);
    assert_eq!(field_pressed(inputs(), InputTarget::PageSize, 2), Press::SelectWhole);
    assert_eq!(field_pressed(sql, InputTarget::PageSize, 1), Press::Nothing);
}

#[test]
fn a_clicked_field_takes_the_keyboard_from_the_others() {
    let mut state = FocusState {
        focus: Focus::Editor,
        filter_focus: None,
        detail_input: None,
        page_size_focus: false,
    };
    state.focus_input(InputTarget::WhereDraft);
    assert_eq!((state.focus, state.filter_focus), (Focus::Filter, Some(FilterFocus::Where)));
    state.focus_input(InputTarget::DetailField(3));
    assert_eq!(state.filter_focus, None);
    assert_eq!(state.detail_input, Some(DetailInput::Field(3)));
    state.focus_input(InputTarget::PageSize);
    assert!(state.page_size_focus && state.detail_input.is_none());
    state.focus_input(InputTarget::PaletteQuery);
    assert_eq!(state.focus, Focus::PageSize, "the palette floats over what had it");
    assert!(!state.page_size_focus);
}

fn input(text: &str, multiline: bool) -> FieldInput {
    let lines: Vec<String> = text.split('\n').map(str::to_string).collect();
    let paint = lines.iter().map(|_| LinePaint { styles: Vec::new(), selection: None }).collect();
    FieldInput {
        text: text.to_string(),
        multiline,
        selection: 0..0,
        cursor: 0,
        has_selection: false,
        lines,
        paint,
    }
}

#[test]
fn a_field_is_drawn_in_its_frame() {
    match text_field(&input("a = 1", false), InputTarget::WhereDraft, true, Some("WHERE …")) {
        TextField::One(field) => {
            assert_eq!((field.borderless, field.height), (false, 28));
            assert_eq!((field.frame.scroll_id.as_str(), field.frame.lit), ("where-scroll", true));
            assert!(matches!(
                field.body,
                SingleLine::Caret { before, after } if before.is_empty() && after == "a = 1"
            ));
        }
        TextField::Many(_) => panic!("one line"),
    }
    match text_field(&input("", false), InputTarget::PaletteQuery, false, Some("Search…")) {
        TextField::One(field) => {
            assert_eq!((field.borderless, field.height), (true, 36));
            assert!(matches!(field.body, SingleLine::Placeholder(hint) if hint == "Search…"));
        }
        TextField::Many(_) => panic!("one line"),
    }
    let eight = ["x"; 8].join("\n");
    match text_field(&input(&eight, true), InputTarget::DetailField(3), false, None) {
        TextField::Many(field) => {
            assert_eq!(field.frame.scroll_id, "detail-field-scroll");
            assert_eq!(field.frame.scroll_index, Some(3));
            assert_eq!((field.visible, field.scrolls), (8, false));
            assert!(matches!(field.body, Multiline::Lines { widest: 1, rows } if rows.len() == 8));
        }
        TextField::One(_) => panic!("several lines"),
    }
    let nine = ["x"; 9].join("\n");
    match text_field(&input(&nine, true), InputTarget::DetailField(0), true, None) {
        TextField::Many(field) => assert_eq!((field.visible, field.scrolls), (8, true)),
        TextField::One(_) => panic!("several lines"),
    }
}

#[test]
fn a_drag_grows_a_selection_that_was_started() {
    assert!(field_dragged(inputs(), InputTarget::WhereDraft, true));
    assert!(!field_dragged(inputs(), InputTarget::WhereDraft, false));
    assert!(!field_dragged(inputs(), InputTarget::PaletteQuery, true));
}

#[test]
fn one_line_shows_a_hint_a_selection_or_the_caret() {
    assert!(matches!(
        render_single_line("", &(0..0), 0, false, Some("WHERE …")),
        SingleLine::Placeholder(hint) if hint == "WHERE …"
    ));
    assert!(matches!(
        render_single_line("", &(0..0), 0, true, Some("WHERE …")),
        SingleLine::Caret { before, after } if before.is_empty() && after.is_empty()
    ));
    assert!(matches!(
        render_single_line("a\nü", &(1..4), 0, true, None),
        SingleLine::Selected { before, selected, after } if before == "a" && selected == " ü" && after.is_empty()
    ));
    assert!(matches!(
        render_single_line("a\r\nb", &(2..2), 2, false, None),
        SingleLine::Plain(text) if text == "a  b"
    ));
    assert!(matches!(
        render_single_line("aü", &(9..9), 99, true, None),
        SingleLine::Caret { before, after } if before == "aü" && after.is_empty()
    ));
}

#[test]
fn the_caret_is_drawn_on_its_own_line() {
    let lines = vec!["ab".to_string(), String::new(), "ü".to_string()];
    let spans = line_spans(&lines, 3, true, false);
    assert_eq!((spans[0].start, spans[0].end, spans[0].caret), (0, 2, None));
    assert_eq!((spans[1].start, spans[1].end, spans[1].caret), (3, 3, Some(0)));
    assert_eq!((spans[2].start, spans[2].end, spans[2].caret), (4, 6, None));
    assert!(line_spans(&lines, 3, false, false).iter().all(|span| span.caret.is_none()));
    assert!(line_spans(&lines, 3, true, true).iter().all(|span| span.caret.is_none()));
    assert_eq!(visible_lines(0, FieldHeight::Capped), 1);
    assert_eq!(visible_lines(9, FieldHeight::Capped), 8);
    assert_eq!(visible_lines(9, FieldHeight::Full), 9);
}

#[test]
fn runs_are_cut_where_something_changes() {
    let styles = vec![span(0, 3, 1), span(2, 5, 2)];
    assert_eq!(drawn(&render_highlighted_line("abcdef", &styles, &None, None)), "1:ab;1:c;2:de;f;");
    assert_eq!(drawn(&render_highlighted_line("abc", &Vec::new(), &Some(1..2), Some(0))), "|a;[b];c;");
    assert_eq!(drawn(&render_highlighted_line("abc", &Vec::new(), &None, Some(3))), "abc;|");
    assert_eq!(drawn(&render_highlighted_line("", &Vec::new(), &None, Some(0))), "|");
    assert_eq!(drawn(&render_highlighted_line("abc", &Vec::new(), &None, Some(4))), "abc;");
    // Inside a character nothing is cut, and no caret is drawn.
    assert_eq!(drawn(&render_highlighted_line("üb", &vec![span(1, 9, 7)], &None, Some(1))), "üb;");
}

#[test]
fn several_lines_share_one_width() {
    let lines = vec!["ab".to_string(), "üüü".to_string()];
    let paint = vec![
        LinePaint { styles: vec![span(0, 1, 4)], selection: None },
        LinePaint { styles: Vec::new(), selection: None },
    ];
    match render_multiline(&lines, &paint, 1, true, false, false, None) {
        Multiline::Lines { widest, rows } => {
            assert_eq!(widest, 3);
            assert_eq!(drawn(&rows[0]), "4:a;|b;");
            assert_eq!(drawn(&rows[1]), "üüü;");
        }
        Multiline::Placeholder(_) => panic!("there are lines"),
    }
    let empty = vec![String::new()];
    let paint = vec![LinePaint { styles: Vec::new(), selection: None }];
    assert!(matches!(
        render_multiline(&empty, &paint, 0, false, false, true, Some("empty")),
        Multiline::Placeholder(hint) if hint == "empty"
    ));
}
