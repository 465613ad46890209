use gg::args::parse_args;
use gg::complete::{common_prefix_of, get_tab_preview, tab_complete_branch};
use gg::license::{join_path, status_line_at, LicenseData, LicenseStatus, SECONDS_PER_DAY};
use gg::text::{decimal_chars, has_mixed_case, join, parse_usize, split_lines, trim};

fn chars(s: &str) -> Vec<char> {
    s.chars().collect()
}

fn strings(v: &[&str]) -> Vec<String> {
    v.iter().map(|s| s.to_string()).collect()
}

const NOW: u64 = 1_000 * 86400;

fn trial(first_run: Option<u64>) -> LicenseData {
    let mut l = LicenseData::new();
    l.first_run = first_run;
    l
}

fn licensed(valid: bool, last: Option<u64>, name: Option<&str>) -> LicenseData {
    let mut l = LicenseData::new();
    l.license_key = Some("KEY-1".to_string());
    l.is_valid = valid;
    l.last_validated = last;
    l.customer_name = name.map(|s| s.to_string());
    l
}

#[test]
fn args_default_to_current_dir_and_limit() {
    assert_eq!(parse_args(&strings(&["gg"])), (".".to_string(), Some(2000), false));
}

#[test]
fn args_path_limit_and_flags() {
    assert_eq!(
        parse_args(&strings(&["gg", "/repo", "-n", "50", "--debug-graph"])),
        ("/repo".to_string(), Some(50), true)
    );
    assert_eq!(parse_args(&strings(&["gg", "-n300"])), (".".to_string(), Some(300), false));
    assert_eq!(parse_args(&strings(&["gg", "--all"])), (".".to_string(), None, false));
    assert_eq!(parse_args(&strings(&["gg", "-a", "-n", "7"])), (".".to_string(), Some(7), false));
}

#[test]
fn args_bad_limits_are_ignored() {
    assert_eq!(parse_args(&strings(&["gg", "-n", "lots"])), (".".to_string(), Some(2000), false));
    assert_eq!(parse_args(&strings(&["gg", "-nx"])), (".".to_string(), Some(2000), false));
    assert_eq!(parse_args(&strings(&["gg", "-n"])), (".".to_string(), Some(2000), false));
    assert_eq!(parse_args(&strings(&["gg", "--unknown", "here"])), ("here".to_string(), Some(2000), false));
}

#[test]
fn common_prefix_of_names() {
    let names = vec![chars("feature/a"), chars("feature/b"), chars("feat")];
    assert_eq!(common_prefix_of(&names), chars("feat"));
    assert_eq!(common_prefix_of(&Vec::new()), Vec::<char>::new());
}

#[test]
fn tab_completes_to_common_prefix_first() {
    let branches = strings(&["main", "feature/login", "feature/logout"]);
    let (text, base, idx) = tab_complete_branch("fe", &branches, &None, 0);
    assert_eq!(text, "feature/log");
    assert_eq!(base, None);
    assert_eq!(idx, 0);
}

#[test]
fn tab_cycles_through_matches_in_order() {
    let branches = strings(&["main", "feature/logout", "feature/login"]);
    let (text, base, idx) = tab_complete_branch("feature/log", &branches, &None, 0);
    assert_eq!(text, "feature/login");
    assert_eq!(base, Some("feature/log".to_string()));
    assert_eq!(idx, 1);
    let (text, base, idx) = tab_complete_branch(&text, &branches, &base, idx);
    assert_eq!(text, "feature/logout");
    assert_eq!(idx, 2);
    let (text, _, _) = tab_complete_branch(&text, &branches, &base, idx);
    assert_eq!(text, "feature/login");
}

#[test]
fn tab_with_no_match_keeps_text() {
    let branches = strings(&["main"]);
    assert_eq!(tab_complete_branch("dev", &branches, &None, 3), ("dev".to_string(), None, 0));
    assert_eq!(tab_complete_branch("ma", &branches, &None, 0), ("main".to_string(), None, 0));
    assert_eq!(tab_complete_branch("main", &branches, &None, 0), ("main".to_string(), None, 0));
}

#[test]
fn tab_preview_shows_what_tab_adds() {
    let branches = strings(&["main", "feature/login", "feature/logout"]);
    assert_eq!(get_tab_preview("fe", &branches), Some("ature/log".to_string()));
    assert_eq!(get_tab_preview("feature/log", &branches), Some("in".to_string()));
    assert_eq!(get_tab_preview("main", &branches), None);
    assert_eq!(get_tab_preview("x", &branches), None);
    for typed in ["", "f", "fe", "feature/log", "feature/logi", "m", "main", "x"] {
        let shown = format!("{}{}", typed, get_tab_preview(typed, &branches).unwrap_or_default());
        assert_eq!(shown, tab_complete_branch(typed, &branches, &None, 0).0);
        assert_ne!(get_tab_preview(typed, &branches), Some(String::new()));
    }
}

#[test]
fn fresh_install_has_full_trial() {
    let l = LicenseData::new();
    assert!(matches!(l.status_at(NOW), LicenseStatus::Trial { days_left: 14 }));
    assert!(l.can_use_at(NOW));
    assert_eq!(status_line_at(&l, NOW), ("14 days left - L to purchase".to_string(), false));
}

#[test]
fn trial_counts_down_and_expires() {
    let l = trial(Some(NOW - 3 * SECONDS_PER_DAY - 5));
    assert!(matches!(l.status_at(NOW), LicenseStatus::Trial { days_left: 11 }));
    let l = trial(Some(NOW - 13 * SECONDS_PER_DAY));
    assert!(matches!(l.status_at(NOW), LicenseStatus::Trial { days_left: 1 }));
    let l = trial(Some(NOW - 14 * SECONDS_PER_DAY));
    assert!(matches!(l.status_at(NOW), LicenseStatus::TrialExpired));
    assert!(!l.can_use_at(NOW));
    assert_eq!(status_line_at(&l, NOW), ("Trial expired - L to purchase".to_string(), false));
}

#[test]
fn trial_start_in_future_is_reset() {
    let mut l = trial(Some(NOW + 500));
    assert!(l.init_trial_at(NOW));
    assert_eq!(l.first_run, Some(NOW));
    assert!(!l.init_trial_at(NOW + 10));
    assert_eq!(l.first_run, Some(NOW));
    let mut fresh = LicenseData::new();
    assert!(fresh.init_trial_at(NOW));
    assert_eq!(fresh.first_run, Some(NOW));
}

#[test]
fn valid_license_is_trusted_for_thirty_two_days() {
    let l = licensed(true, Some(NOW - 32 * SECONDS_PER_DAY), Some("Grace"));
    assert!(matches!(l.status_at(NOW), LicenseStatus::Valid { .. }));
    assert_eq!(status_line_at(&l, NOW), ("Grace".to_string(), true));
    let l = licensed(true, Some(NOW - 33 * SECONDS_PER_DAY), Some("Grace"));
    assert!(matches!(l.status_at(NOW), LicenseStatus::Invalid));
    assert_eq!(status_line_at(&l, NOW), ("License invalid - L to renew".to_string(), false));
    let l = licensed(true, Some(NOW), None);
    assert_eq!(status_line_at(&l, NOW), ("Licensed".to_string(), true));
}

#[test]
fn invalid_license_blocks_even_during_trial() {
    let mut l = licensed(false, Some(NOW), None);
    l.first_run = Some(NOW);
    assert!(matches!(l.status_at(NOW), LicenseStatus::Invalid));
    assert!(!l.can_use_at(NOW));
}

#[test]
fn validation_results() {
    let mut l = LicenseData::new();
    assert_eq!(l.validate_license("K", Ok((true, Some("Ann".to_string()))), NOW), Ok(()));
    assert_eq!(l.license_key, Some("K".to_string()));
    assert!(l.is_valid);
    assert_eq!(l.last_validated, Some(NOW));
    assert_eq!(l.customer_name, Some("Ann".to_string()));

    let mut l = LicenseData::new();
    assert_eq!(
        l.validate_license("K", Ok((false, None)), NOW),
        Err("License key is invalid or subscription expired".to_string())
    );
    assert!(!l.is_valid);

    let mut l = LicenseData::new();
    assert_eq!(
        l.validate_license("K", Err("offline".to_string()), NOW),
        Err("Could not validate license: offline".to_string())
    );

    let mut l = licensed(true, Some(NOW - 5), None);
    assert_eq!(l.validate_license("K2", Err("offline".to_string()), NOW), Ok(()));
    assert_eq!(l.last_validated, Some(NOW - 5));
    assert_eq!(l.license_key, Some("K2".to_string()));
}

#[test]
fn revalidation_after_two_days() {
    let l = licensed(true, Some(NOW - 2 * SECONDS_PER_DAY), None);
    assert_eq!(l.maybe_revalidate(NOW), None);
    let l = licensed(true, Some(NOW - 3 * SECONDS_PER_DAY), None);
    assert_eq!(l.maybe_revalidate(NOW), Some("KEY-1".to_string()));
    assert_eq!(LicenseData::new().maybe_revalidate(NOW), None);
}

#[test]
fn config_dir_under_home() {
    assert_eq!(LicenseData::config_dir_in(Some("/home/u".to_string())), "/home/u/.config/gg");
    assert_eq!(LicenseData::config_dir_in(Some("/home/u/".to_string())), "/home/u/.config/gg");
    assert_eq!(LicenseData::config_dir_in(None), "./.config/gg");
    assert_eq!(join_path("/a", "b.json"), "/a/b.json");
    assert_eq!(join_path("", "b"), "b");
    assert!(LicenseData::config_path().ends_with("/.config/gg/license.json"));
}

#[test]
fn text_helpers() {
    assert!(has_mixed_case("Fix"));
    assert!(!has_mixed_case("fix"));
    assert!(!has_mixed_case("FIX"));
    assert!(!has_mixed_case("123"));
    assert_eq!(split_lines(&chars("a\nb\n")), vec![chars("a"), chars("b")]);
    assert_eq!(split_lines(&chars("a\r\nb")), vec![chars("a"), chars("b")]);
    assert_eq!(join(&vec![chars("a"), chars("b")], &chars(", ")), chars("a, b"));
    assert_eq!(trim(&chars("  hi \n")), chars("hi"));
    assert_eq!(parse_usize(&chars("42")), Some(42));
    assert_eq!(parse_usize(&chars("+7")), Some(7));
    assert_eq!(parse_usize(&chars("-7")), None);
    assert_eq!(parse_usize(&chars("")), None);
    assert_eq!(parse_usize(&chars("99999999999999999999999")), None);
    assert_eq!(decimal_chars(0), chars("0"));
    assert_eq!(decimal_chars(1207), chars("1207"));
}
