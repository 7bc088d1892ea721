use dbui_ui::plan_view::{
    active_plan, active_result_has_plan, hottest, render_plan, PlanResults, PlanState, PlanStep,
};

fn step(depth: usize, share: i64) -> PlanStep {
    PlanStep {
        depth,
        title: format!("step {depth}"),
        details: vec!["on orders".to_string()],
        rows: Some("1.4k".to_string()),
        cost: Some("45.50".to_string()),
        time: None,
        share,
        has_share: share > 0,
        percent: format!("{share}%"),
    }
}

#[test]
fn the_hottest_step_is_picked_out() {
    let steps = vec![step(0, 10), step(1, 60), step(1, 30)];
    assert_eq!(hottest(&steps), Some(1));
    assert_eq!(hottest(&vec![step(0, 0)]), None);
    assert_eq!(hottest(&Vec::new()), None);
    assert_eq!(hottest(&vec![step(0, 5), step(1, 5)]), Some(1), "the last of equals");
    let view = render_plan(&steps);
    assert_eq!(view.headline, "3 steps · cost 45.50");
    assert_eq!(view.headers, ["STEP", "ROWS", "COST", "SHARE OF COST"]);
    assert_eq!((view.title.as_str(), view.show_rows.as_str()), ("Query plan", "Show rows"));
    let mut timed = vec![step(0, 10)];
    timed[0].rows = None;
    timed[0].time = Some("0.25 ms".to_string());
    assert_eq!(render_plan(&timed).headers, ["STEP", "COST", "TIME", "SHARE OF TIME"]);
    assert!(view.has_rows && view.has_cost && !view.measured);
    assert_eq!(view.lines[0].marker, "●");
    assert_eq!(view.lines[1].marker, "└");
    assert!(view.lines[1].hot && !view.lines[0].hot);
}

#[test]
fn a_plan_and_its_rows_take_turns() {
    let mut results = PlanResults {
        results: vec![PlanState { has_plan: true, show_rows: false }],
        active: 0,
    };
    assert!(active_plan(&Some(PlanResults {
        results: vec![PlanState { has_plan: true, show_rows: false }],
        active: 0,
    })));
    results.toggle_plan_rows();
    assert!(results.results[0].show_rows);
    let front = Some(results);
    assert!(!active_plan(&front));
    assert!(active_result_has_plan(&front));
    assert!(!active_plan(&None) && !active_result_has_plan(&None));
}
