use dbui_ui::change_bubble::{
    multiline_diff, one_line, render_change_bubble, render_delete_row, render_diff_lines,
    render_edit_rows, render_insert_row, BubbleLine, DiffLine, FieldChange, PendingRowDelete,
    PendingRowEdit,
};
use dbui_ui::domain::Tone;
use dbui_ui::tabs::{render_tab_bar, ActiveChanges, StripLayout, TabItem};

fn change(column: &str, old_text: &str, new_text: &str, diff: Option<Vec<DiffLine>>) -> FieldChange {
    FieldChange {
        column: column.to_string(),
        old_text: old_text.to_string(),
        new_text: new_text.to_string(),
        line_diff: diff,
    }
}

fn added(count: usize) -> Vec<DiffLine> {
    (0..count).map(|i| DiffLine::Added(format!("line {i}"))).collect()
}

#[test]
fn a_value_is_summed_up_on_one_line() {
    assert_eq!(one_line("a\r\nb\tc"), "a⏎b c");
    assert_eq!(one_line(&"x".repeat(120)), "x".repeat(120));
    assert_eq!(one_line(&"x".repeat(121)), format!("{}…", "x".repeat(120)));
    // Dropped characters still have to be looked at.
    assert_eq!(one_line(&format!("{}\r", "x".repeat(120))), format!("{}…", "x".repeat(120)));
    assert_eq!(one_line(&format!("\r{}", "x".repeat(120))), "x".repeat(120));
}

#[test]
fn the_bubble_counts_what_a_commit_would_do() {
    assert!(render_change_bubble(&Vec::new(), &Vec::new(), &Vec::new(), Some((true, false))).is_none());
    let edit = || vec![PendingRowEdit {
        label: "id=4".to_string(),
        changes: vec![
            change("name", "Ada", "Bea", None),
            change("note", "a\nb", "a\nc", Some(vec![DiffLine::Removed("b".to_string()), DiffLine::Added("c".to_string())])),
        ],
    }];
    let folded = render_change_bubble(&edit(), &Vec::new(), &Vec::new(), None).unwrap();
    assert_eq!(folded.label, "1 change");
    assert_eq!(folded.glyph, "›");
    assert!(folded.table.is_none() && folded.enabled);

    let deletes = vec![PendingRowDelete { label: "id=9".to_string() }];
    let inserts = vec!["new".to_string()];
    let open = render_change_bubble(&edit(), &deletes, &inserts, Some((true, true))).unwrap();
    assert_eq!(open.label, "3 changes · 1 new · 1 to delete");
    assert_eq!(open.save_label, "Committing…");
    assert!(!open.enabled);
    assert_eq!((open.title.as_str(), open.discard_label.as_str()), ("Staged changes", "Discard"));
    let (heads, lines) = open.table.unwrap();
    assert_eq!(heads, ["Row", "Column", "From", "To"]);
    assert_eq!(lines.len(), 5);
    assert!(matches!(&lines[0], BubbleLine::Change(row) if row.to == "NEW ROW" && row.from == "—"));
    assert!(matches!(&lines[1], BubbleLine::Change(row) if row.column == "name" && row.marker == Tone::Warning));
    assert!(matches!(&lines[2], BubbleLine::Change(row) if row.from == "a⏎b"));
    assert!(matches!(&lines[3], BubbleLine::Diff { cells, more: None } if cells.len() == 2 && cells[0].sign == "-" && cells[0].tone == Tone::Danger));
    assert!(matches!(&lines[4], BubbleLine::Change(row) if row.to == "DELETE ROW" && row.strike_from));
    assert_eq!(render_edit_rows(&edit()[0]).len(), 3);
}

#[test]
fn only_a_change_of_lines_gets_a_diff() {
    assert!(multiline_diff(&change("a", "x", "y", Some(added(1)))).is_none());
    assert!(multiline_diff(&change("a", "x\n", "y", Some(Vec::new()))).is_none());
    assert!(multiline_diff(&change("a", "x\n", "y", None)).is_none());
    assert!(multiline_diff(&change("a", "x", "y\n", Some(added(1)))).is_some());
    match render_diff_lines(&added(14)) {
        BubbleLine::Diff { cells, more } => {
            assert_eq!(cells.len(), 12);
            assert_eq!((cells[11].sign.as_str(), cells[11].text.as_str()), ("+", "line 11"));
            assert_eq!(more.as_deref(), Some("… 2 more line(s)"));
        }
        BubbleLine::Change(_) => panic!("it is a diff"),
    }
    assert!(matches!(render_diff_lines(&added(12)), BubbleLine::Diff { more: None, .. }));
    assert!(matches!(render_insert_row("x"), BubbleLine::Change(row) if row.tint == Tone::Success));
    let gone = PendingRowDelete { label: "x".to_string() };
    assert!(matches!(render_delete_row(&gone), BubbleLine::Change(row) if row.tint == Tone::Danger));
}

#[test]
fn the_dot_on_a_tab_and_the_bubble_agree() {
    let item = || vec![TabItem { id: 7, label: "users".to_string(), is_table: true, pending: 0 }];
    for (edits, deletes, inserts) in [(0, 0, 0), (1, 0, 0), (0, 1, 0), (0, 0, 1)] {
        let batch: Vec<PendingRowEdit> = (0..edits)
            .map(|_| PendingRowEdit { label: "id=4".to_string(), changes: Vec::new() })
            .collect();
        let gone: Vec<PendingRowDelete> =
            (0..deletes).map(|_| PendingRowDelete { label: "id=9".to_string() }).collect();
        let new: Vec<String> = (0..inserts).map(|_| "new".to_string()).collect();
        let changes = ActiveChanges { edits, deletes, inserts };
        let layout = StripLayout { active: true, trailing: true, beyond: false };
        let dot = render_tab_bar(&item(), 0, changes, None, layout, false).pills[0].changed;
        assert_eq!(dot, render_change_bubble(&batch, &gone, &new, None).is_some());
    }
}
