use crucible::stability::{
    after_press, button_press, ButtonPress,
    duration_at, duration_label_at, format_elapsed, manual_stop_notice, overheat_stop_due,
    pick_icon_name, row_icon,
    schema_dir_value, stop_button_label, stop_notice, temp_limit_at, temp_limit_label_at,
};

#[test]
fn elapsed_clock() {
    assert_eq!(format_elapsed(0), "00:00");
    assert_eq!(format_elapsed(65), "01:05");
    assert_eq!(format_elapsed(-3), "00:00");
    assert_eq!(format_elapsed(6000), "100:00");
    assert_eq!(stop_button_label(125), "Stop Test  02:05");
}

#[test]
fn offered_choices() {
    assert_eq!(duration_at(0), 300);
    assert_eq!(duration_at(3), 0);
    assert_eq!(duration_label_at(2), "30 minutes");
    assert_eq!(temp_limit_at(1), 95);
    assert_eq!(temp_limit_label_at(2), "90C");
}

#[test]
fn notices() {
    assert_eq!(
        stop_notice(true, false, Some("overheat"), "01:00"),
        Some("Test stopped to prevent overheating (Elapsed: 01:00)".to_string())
    );
    assert_eq!(
        stop_notice(true, false, Some("completed"), "05:00"),
        Some("Test completed successfully (Elapsed: 05:00)".to_string())
    );
    assert_eq!(
        stop_notice(true, false, Some("exited"), "00:10"),
        Some("Test stopped (Elapsed: 00:10)".to_string())
    );
    assert_eq!(stop_notice(true, true, Some("overheat"), "00:10"), None);
    assert_eq!(stop_notice(false, false, None, "00:10"), None);
    assert_eq!(manual_stop_notice("00:03"), "Test stopped manually (Elapsed: 00:03)");
}

#[test]
fn icons() {
    let c: Vec<String> = vec!["a".to_string(), "b".to_string(), "c".to_string()];
    assert_eq!(pick_icon_name(&c, Some(vec![false, true, true])), "b");
    assert_eq!(pick_icon_name(&c, Some(vec![false, false, false])), "c");
    assert_eq!(pick_icon_name(&c, None), "c");
    assert_eq!(pick_icon_name(&vec![], None), "dialog-information-symbolic");
    assert_eq!(row_icon("x-symbolic", Some(true)), "x-symbolic");
    assert_eq!(row_icon("x-symbolic", Some(false)), "computer-symbolic");
    assert_eq!(row_icon("x-symbolic", None), "x-symbolic");
}

#[test]
fn schema_dir() {
    assert_eq!(schema_dir_value("/a", ""), "/a");
    assert_eq!(schema_dir_value("/a", "/b"), "/a:/b");
}

#[test]
fn overheat_cutoff() {
    // Limits offered: 100, 95, 90 degrees.
    assert!(overheat_stop_due(true, true, Some(950), 1));
    assert!(overheat_stop_due(true, true, Some(1003), 0));
    assert!(!overheat_stop_due(true, true, Some(949), 1));
    assert!(!overheat_stop_due(true, false, Some(990), 2));
    assert!(!overheat_stop_due(false, true, Some(990), 2));
    assert!(!overheat_stop_due(true, true, None, 2));
    assert!(overheat_stop_due(true, true, Some(900), 2));
}

#[test]
fn button_presses() {
    assert_eq!(button_press(true, 99), ButtonPress::StopManually);
    assert_eq!(button_press(false, 1), ButtonPress::Start { duration_seconds: 600 });
    assert_eq!(button_press(false, 3), ButtonPress::Start { duration_seconds: 0 });

    let stopped = after_press(ButtonPress::StopManually, false, true, "01:30");
    assert!(!stopped.was_running);
    assert!(stopped.refresh);
    assert_eq!(stopped.notice, Some("Test stopped manually (Elapsed: 01:30)".to_string()));

    let start = ButtonPress::Start { duration_seconds: 300 };
    let started = after_press(start, true, false, "");
    assert!(started.was_running && started.refresh && started.notice.is_none());
    let failed = after_press(start, false, false, "");
    assert!(!failed.was_running && !failed.refresh);
    assert_eq!(failed.notice, Some("Could not start stress-ng".to_string()));
}
