use frankenphp_check::output::{count_statuses, group_by_section, make_bar, recommended_changes};
use frankenphp_check::types::{has_failure, CheckResult, Status};

#[test]
fn count_statuses_all_ok() {
    let results = vec![CheckResult::ok("a", ""), CheckResult::ok("b", "")];
    assert_eq!(count_statuses(&results), (2, 0, 0));
}

#[test]
fn count_statuses_mixed() {
    let results = vec![
        CheckResult::ok("a", ""),
        CheckResult::warn("b", ""),
        CheckResult::fail("c", ""),
        CheckResult::info("d", ""),
    ];
    // Info is not counted in ok/warn/fail
    assert_eq!(count_statuses(&results), (1, 1, 1));
}

#[test]
fn count_statuses_empty() {
    assert_eq!(count_statuses(&[]), (0, 0, 0));
}

#[test]
fn group_by_section_system() {
    let results = vec![
        CheckResult::info("CPU Cores", "4"),
        CheckResult::info("Memory", "8192MB"),
        CheckResult::ok("Swap Usage", "No swap"),
    ];
    let sections = group_by_section(&results);
    assert_eq!(sections.len(), 1);
    assert_eq!(sections[0].0, "System");
    assert_eq!(sections[0].1.len(), 3);
}

#[test]
fn group_by_section_multiple() {
    let results = vec![
        CheckResult::info("CPU Cores", "4"),
        CheckResult::ok("opcache.enable", "On"),
        CheckResult::ok("innodb_buffer_pool_size", "768M"),
    ];
    let sections = group_by_section(&results);
    assert!(sections.len() >= 3);
    let section_names: Vec<&str> = sections.iter().map(|(n, _)| *n).collect();
    assert!(section_names.contains(&"System"));
    assert!(section_names.contains(&"PHP Configuration"));
    assert!(section_names.contains(&"MySQL / MariaDB"));
}

#[test]
fn group_by_section_unassigned_goes_to_other() {
    let results = vec![CheckResult::ok("SomethingUnknown", "value")];
    let sections = group_by_section(&results);
    assert_eq!(sections[0].0, "Other");
}

#[test]
fn group_by_section_laravel_env() {
    let results = vec![
        CheckResult::ok("APP_ENV", "production"),
        CheckResult::fail("APP_DEBUG", "true"),
        CheckResult::ok("QUEUE_CONNECTION", "redis"),
    ];
    let sections = group_by_section(&results);
    assert_eq!(sections.len(), 1);
    assert_eq!(sections[0].0, "Laravel Environment");
    assert_eq!(sections[0].1.len(), 3);
}

#[test]
fn make_bar_full() {
    // When all results are one status, that bar is full
    let bar = make_bar(10, 10, "green");
    assert_eq!(bar.matches('█').count(), 8); // width=8
}

#[test]
fn make_bar_empty() {
    let bar = make_bar(0, 10, "red");
    assert_eq!(bar.matches('░').count(), 8);
}

#[test]
fn make_bar_zero_total() {
    let bar = make_bar(0, 0, "yellow");
    assert_eq!(bar.matches('░').count(), 8);
}

#[test]
fn make_bar_small_share_gets_one_cell() {
    let bar = make_bar(1, 100, "plain");
    assert_eq!(bar, "█░░░░░░░");
    let half = make_bar(5, 10, "other");
    assert_eq!(half, "████░░░░");
}

#[test]
fn make_bar_colored_is_plain_or_wrapped() {
    let bar = make_bar(3, 8, "green");
    assert!(bar == "███░░░░░" || bar == "\x1b[32m███░░░░░\x1b[0m");
    let red = make_bar(8, 8, "red");
    assert!(red == "████████" || red == "\x1b[31m████████\x1b[0m");
}

#[test]
fn sections_follow_table_order_and_keep_result_order() {
    let results = vec![
        CheckResult::warn("Redis maxmemory", "Not set"),
        CheckResult::ok("libc", "glibc"),
        CheckResult::ok("GODEBUG", "x"),
        CheckResult::ok("Unknown", "y"),
        CheckResult::ok("CPU Cores", "4"),
    ];
    let sections = group_by_section(&results);
    let names: Vec<&str> = sections.iter().map(|(n, _)| *n).collect();
    // "Redis" labels are claimed by the System section, which comes first.
    assert_eq!(names, vec!["System", "Runtime", "Go Runtime", "Other"]);
    assert_eq!(sections[0].1[0].label, "Redis maxmemory");
    assert_eq!(sections[0].1[1].label, "CPU Cores");
    let total: usize = sections.iter().map(|(_, v)| v.len()).sum();
    assert_eq!(total, results.len());
}

#[test]
fn recommended_changes_by_file() {
    let results = vec![
        CheckResult::warn("a", "").with_fix("d", "/etc/z.ini", "z=1"),
        CheckResult::ok("b", "").with_fix("d", "/etc/a.ini", "a=1"),
        CheckResult::info("c", ""),
        CheckResult::fail("d", "").with_fix("d", "/etc/z.ini", "z=2"),
    ];
    let changes = recommended_changes(&results);
    assert_eq!(changes.len(), 2);
    assert_eq!(changes[0].0, "/etc/a.ini");
    assert_eq!(changes[0].1, vec!["a=1"]);
    assert_eq!(changes[1].0, "/etc/z.ini");
    assert_eq!(changes[1].1, vec!["z=1", "z=2"]);
}

#[test]
fn status_texts_and_failure_flag() {
    assert_eq!(Status::Pass.as_str(), "OK  ");
    assert_eq!(Status::Warn.as_str(), "WARN");
    assert_eq!(Status::Fail.as_str(), "FAIL");
    assert_eq!(Status::Info.as_str(), "INFO");
    let mut results = vec![CheckResult::ok("a", ""), CheckResult::warn("b", "")];
    assert!(!has_failure(&results));
    results.push(CheckResult::fail("c", ""));
    assert!(has_failure(&results));
}

#[test]
fn make_bar_colored_when_colors_forced() {
    colored::control::set_override(true);
    assert_eq!(make_bar(4, 8, "green"), "\x1b[32m████░░░░\x1b[0m");
    assert_eq!(make_bar(0, 8, "yellow"), "\x1b[33m░░░░░░░░\x1b[0m");
    assert_eq!(make_bar(8, 8, "red"), "\x1b[31m████████\x1b[0m");
    assert_eq!(make_bar(8, 8, "blue"), "████████");
    colored::control::set_override(false);
    assert_eq!(make_bar(4, 8, "green"), "████░░░░");
}

#[test]
fn make_bar_count_slightly_above_total_still_fits() {
    // 10 of 9 gives 80 / 9 = 8 cells, which still fits the bar.
    assert_eq!(make_bar(10, 9, "none"), "████████");
}
