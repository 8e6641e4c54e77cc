use spectre_automation::config::{
    default_db_path, default_match_patterns, is_short_run, parse_match_processes, platform_name,
    Config, ConfigError, ConfigVars, RunOrder, DEFAULT_RUN_ORDER,
};
use spectre_automation::paths::PathStyle;
use spectre_automation::text::parse_u64;

fn vars(app: Option<&str>) -> ConfigVars {
    ConfigVars {
        os: "linux".to_string(),
        app_path_new: app.map(|s| s.to_string()),
        app_path_old: None,
        test_duration_secs: None,
        db_path: None,
        match_processes: None,
        run_order: None,
        settle_secs: None,
        local_app_data: None,
        home: Some("/home/u".to_string()),
        xdg_data_home: None,
    }
}

#[test]
fn pattern_is_lowercased_file_stem() {
    assert_eq!(default_match_patterns("/opt/spectre/spectre-terminal", PathStyle::Unix), ["spectre-terminal"]);
    assert_eq!(default_match_patterns("/opt/builds/Spectre-Terminal.exe", PathStyle::Unix), ["spectre-terminal"]);
}

#[test]
fn pattern_from_windows_path() {
    assert_eq!(
        default_match_patterns(r"C:\Builds\TD-1055\Spectre-Terminal.exe", PathStyle::Windows),
        ["spectre-terminal"],
    );
}

#[test]
fn dots_in_name_stay_in_pattern() {
    assert_eq!(default_match_patterns("/opt/dev-latest.2026.01.exe", PathStyle::Unix), ["dev-latest.2026.01"]);
    assert_eq!(default_match_patterns("/opt/build.v2/spectre-terminal", PathStyle::Unix), ["spectre-terminal"]);
}

#[test]
fn unusable_path_gives_no_patterns() {
    for path in ["", "/", "..", "."] {
        let got = default_match_patterns(path, PathStyle::Unix);
        assert!(got.is_empty(), "путь {path:?} дал паттерны {got:?}");
    }
}

#[test]
fn hidden_file_name_is_its_own_stem() {
    assert_eq!(default_match_patterns("/opt/.Spectre", PathStyle::Unix), [".spectre"]);
    assert_eq!(default_match_patterns("/opt/spectre-terminal/", PathStyle::Unix), ["spectre-terminal"]);
    assert_eq!(default_match_patterns("/opt/spectre-terminal/.", PathStyle::Unix), ["spectre-terminal"]);
}

#[test]
fn listed_patterns_are_trimmed_lowercased_and_never_empty() {
    assert_eq!(
        parse_match_processes(" Spectre-Terminal , ,Spectre Settings,"),
        ["spectre-terminal", "spectre settings"],
    );
    assert!(parse_match_processes(",, ,").is_empty());
    assert_eq!(parse_match_processes("\tDEV\u{a0}"), ["dev"]);
}

#[test]
fn platform_names_follow_the_operating_system() {
    assert_eq!(platform_name("windows"), "Windows");
    assert_eq!(platform_name("macos"), "macOS");
    assert_eq!(platform_name("linux"), "Linux");
    assert_eq!(platform_name("freebsd"), "Unknown");
}

#[test]
fn default_database_lies_in_the_application_data_directory() {
    let some = |s: &str| Some(s.to_string());
    assert_eq!(
        default_db_path("windows", &some(r"C:\Users\u\AppData\Local"), &None, &None),
        r"C:\Users\u\AppData\Local\spectre-terminal\exchanges.db"
    );
    assert_eq!(
        default_db_path("macos", &None, &some("/Users/u"), &None),
        "/Users/u/Library/Application Support/spectre-terminal/exchanges.db"
    );
    assert_eq!(
        default_db_path("linux", &None, &some("/home/u"), &some("/data")),
        "/data/spectre-terminal/exchanges.db"
    );
    assert_eq!(
        default_db_path("linux", &None, &some("/home/u"), &None),
        "/home/u/.local/share/spectre-terminal/exchanges.db"
    );
    assert_eq!(default_db_path("windows", &None, &some("/home/u"), &None), r".\exchanges.db");
    assert_eq!(default_db_path("linux", &None, &None, &None), "./exchanges.db");
}

#[test]
fn numbers_read_like_u64_from_str() {
    assert_eq!(parse_u64("180"), Some(180));
    assert_eq!(parse_u64("+7"), Some(7));
    assert_eq!(parse_u64("18446744073709551615"), Some(u64::MAX));
    assert_eq!(parse_u64("18446744073709551616"), None);
    assert_eq!(parse_u64(""), None);
    assert_eq!(parse_u64("+"), None);
    assert_eq!(parse_u64("-1"), None);
    assert_eq!(parse_u64(" 10"), None);
    assert_eq!(parse_u64("1e3"), None);
}

#[test]
fn missing_current_build_is_refused() {
    assert!(matches!(Config::from_vars(&vars(None)), Err(ConfigError::MissingAppPathNew)));
}

#[test]
fn settings_fall_back_to_their_defaults() {
    let cfg = Config::from_vars(&vars(Some("/opt/Spectre-Terminal.exe"))).expect("config");
    assert_eq!(cfg.app_path_new, "/opt/Spectre-Terminal.exe");
    assert_eq!(cfg.app_path_old, None);
    assert_eq!(cfg.test_duration_secs, 10);
    assert_eq!(cfg.db_path, "/home/u/.local/share/spectre-terminal/exchanges.db");
    assert_eq!(cfg.match_processes, ["spectre-terminal"]);
    assert_eq!(cfg.run_order, DEFAULT_RUN_ORDER);
    assert_eq!(cfg.settle_secs, 60);
}

#[test]
fn given_settings_are_taken() {
    let mut v = vars(Some("/opt/new.exe"));
    v.app_path_old = Some("".to_string());
    v.test_duration_secs = Some("abc".to_string());
    v.db_path = Some("/srv/exchanges.db".to_string());
    v.match_processes = Some("A, b".to_string());
    v.run_order = Some("old-first".to_string());
    v.settle_secs = Some("0".to_string());
    let cfg = Config::from_vars(&v).expect("config");
    assert_eq!(cfg.app_path_old, None, "empty APP_PATH_OLD counts as absent");
    assert_eq!(cfg.test_duration_secs, 10);
    assert_eq!(cfg.db_path, "/srv/exchanges.db");
    assert_eq!(cfg.match_processes, ["a", "b"]);
    assert_eq!(cfg.run_order, RunOrder::OldFirst);
    assert_eq!(cfg.settle_secs, 0);

    v.app_path_old = Some("/opt/old.exe".to_string());
    v.test_duration_secs = Some("180".to_string());
    v.match_processes = Some(",".to_string());
    let cfg = Config::from_vars(&v).expect("config");
    assert_eq!(cfg.app_path_old.as_deref(), Some("/opt/old.exe"));
    assert_eq!(cfg.test_duration_secs, 180);
    assert!(cfg.match_processes.is_empty(), "a list of empty pieces gives no pattern");
}

#[test]
fn run_order_spelling_round_trips() {
    assert_eq!(RunOrder::NewFirst.as_str(), "new-first");
    assert_eq!(RunOrder::OldFirst.as_str(), "old-first");
    assert_eq!(RunOrder::from_setting(&Some("old-first".to_string())), RunOrder::OldFirst);
    assert_eq!(RunOrder::from_setting(&Some("sideways".to_string())), RunOrder::NewFirst);
    assert_eq!(RunOrder::from_setting(&None), RunOrder::NewFirst);
}

#[test]
fn short_run_warning_has_an_off_switch() {
    assert!(is_short_run(10, 60));
    assert!(!is_short_run(60, 60));
    assert!(!is_short_run(10, 0));
}

#[test]
fn backslash_is_part_of_a_name_on_unix() {
    assert_eq!(default_match_patterns(r"/opt/my\App.bin", PathStyle::Unix), [r"my\app"]);
    assert_eq!(default_match_patterns(r"/opt/my\App.bin", PathStyle::Windows), ["app"]);
    let some = |s: &str| Some(s.to_string());
    assert_eq!(
        default_db_path("linux", &None, &None, &some(r"a\")),
        r"a\/spectre-terminal/exchanges.db"
    );
}

#[test]
fn windows_paths_keep_their_drive() {
    assert_eq!(default_match_patterns(r"C:App.exe", PathStyle::Windows), ["app"]);
    assert_eq!(default_match_patterns(r"C:\", PathStyle::Windows), Vec::<String>::new());
    assert_eq!(default_match_patterns("C:/Builds/Spectre.exe", PathStyle::Windows), ["spectre"]);
}

#[test]
fn ascii_patterns_hold_no_capitals() {
    let v = parse_match_processes("ABC,Def-GH");
    for p in &v {
        assert_eq!(p, &p.to_lowercase());
    }
    assert_eq!(v, ["abc", "def-gh"]);
}
