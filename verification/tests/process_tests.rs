use spectre_automation::processes::{
    after_check, collect_subtree, monitored_patterns, name_matches, ram_mb, record_kill_outcome,
    select_targets, survivor_reason, AfterCheck, ProcessLink, Target, TERMINATE_CHECKS,
};

fn patterns(items: &[&str]) -> Vec<String> {
    items.iter().map(|s| s.to_string()).collect()
}

#[test]
fn name_matches_by_substring() {
    let p = patterns(&["spectre-terminal"]);
    assert!(name_matches("spectre-terminal.exe", &p));
    assert!(name_matches("spectre-terminal.exe (2)", &p));
    assert!(!name_matches("notepad.exe", &p));
}

#[test]
fn name_matches_relies_on_caller_lowercasing() {
    let p = patterns(&["spectre-terminal"]);
    assert!(!name_matches("Spectre-Terminal.exe", &p));
    assert!(name_matches(&"Spectre-Terminal.exe".to_lowercase(), &p));
}

#[test]
fn empty_pattern_matches_everything() {
    assert!(!name_matches("spectre-terminal.exe", &[]));
    assert!(name_matches("совершенно-посторонний-процесс", &patterns(&[""])));
}

#[test]
fn short_prefix_catches_strangers() {
    assert!(name_matches("devenv.exe", &patterns(&["dev"])));
}

fn snapshot(items: &[(usize, &str)]) -> Vec<(usize, String)> {
    items.iter().map(|(pid, name)| (*pid, name.to_string())).collect()
}

fn tree(pids: &[usize]) -> Vec<usize> {
    pids.to_vec()
}

fn pids_of(targets: &[Target]) -> Vec<usize> {
    targets.iter().map(|t| t.pid).collect()
}

#[test]
fn own_process_is_never_targeted() {
    let self_pid = 100;
    let known = vec![Target { pid: self_pid, name: "spectre-automation.exe".to_string() }];
    let snap = snapshot(&[(100, "spectre-automation.exe"), (200, "spectre-terminal.exe")]);

    let targets =
        select_targets(&snap, &tree(&[100, 200]), &patterns(&["spectre"]), self_pid, &known);

    assert_eq!(pids_of(&targets), vec![200], "харнесс попал в список на убийство");
}

#[test]
fn recheck_keeps_orphan_outside_the_name_patterns() {
    let self_pid = 1;
    let p = patterns(&["spectre-terminal"]);

    let first = snapshot(&[(200, "spectre-terminal.exe"), (300, "crashpad_handler.exe")]);
    let targets = select_targets(&first, &tree(&[200, 300]), &p, self_pid, &[]);
    assert_eq!(pids_of(&targets), vec![200, 300], "первый проход потерял потомка");

    let second = snapshot(&[(300, "crashpad_handler.exe")]);
    let survivors = select_targets(&second, &[], &p, self_pid, &targets);
    assert_eq!(
        pids_of(&survivors),
        vec![300],
        "выживший вне паттернов имён потерялся при перепроверке"
    );
}

#[test]
fn recycled_pid_is_not_mistaken_for_a_survivor() {
    let self_pid = 1;
    let known = vec![Target { pid: 300, name: "crashpad_handler.exe".to_string() }];
    let snap = snapshot(&[(300, "notepad.exe")]);

    let survivors =
        select_targets(&snap, &[], &patterns(&["spectre-terminal"]), self_pid, &known);

    assert!(
        survivors.is_empty(),
        "чужой процесс с переиспользованным PID объявлен выжившим: {survivors:?}"
    );
}

#[test]
fn window_opened_after_the_first_pass_is_still_targeted() {
    let self_pid = 1;
    let known = vec![Target { pid: 200, name: "spectre-terminal.exe".to_string() }];
    let snap = snapshot(&[(400, "spectre-terminal.exe (2)")]);

    let late = select_targets(&snap, &[], &patterns(&["spectre-terminal"]), self_pid, &known);

    assert_eq!(pids_of(&late), vec![400], "позднее окно не попало в добивание");
}

fn link(pid: usize, parent: Option<usize>) -> ProcessLink {
    ProcessLink { pid, parent }
}

fn sorted(mut v: Vec<usize>) -> Vec<usize> {
    v.sort();
    v
}

#[test]
fn subtree_holds_descendants_at_any_depth() {
    // Children listed before their parents still join.
    let links = [
        link(40, Some(30)),
        link(30, Some(20)),
        link(20, Some(10)),
        link(10, Some(1)),
        link(99, Some(1)),
        link(50, None),
        link(60, Some(50)),
    ];
    assert_eq!(sorted(collect_subtree(&links, 10)), vec![10, 20, 30, 40]);
    assert_eq!(sorted(collect_subtree(&links, 1)), vec![1, 10, 20, 30, 40, 99]);
    assert_eq!(collect_subtree(&links, 777), vec![777]);
}

#[test]
fn cycles_away_from_the_main_process_stay_out() {
    let links = [link(5, Some(6)), link(6, Some(5)), link(7, Some(3))];
    assert_eq!(sorted(collect_subtree(&links, 3)), vec![3, 7]);
}

#[test]
fn executable_name_joins_the_patterns_once() {
    assert_eq!(
        monitored_patterns(patterns(&["spectre settings"]), "Spectre-Terminal.exe"),
        ["spectre settings", "spectre-terminal.exe"]
    );
    assert_eq!(
        monitored_patterns(patterns(&["spectre-terminal.exe"]), "Spectre-Terminal.exe"),
        ["spectre-terminal.exe"]
    );
    assert_eq!(monitored_patterns(patterns(&["x"]), ""), ["x"]);
}

#[test]
fn memory_is_reported_in_whole_mebibytes() {
    assert_eq!(ram_mb(0), 0);
    assert_eq!(ram_mb(1_048_575), 0);
    assert_eq!(ram_mb(3 * 1_048_576 + 5), 3);
}

#[test]
fn refused_signals_remember_the_last_attempt() {
    let mut refused = Vec::new();
    record_kill_outcome(&mut refused, 300, false);
    record_kill_outcome(&mut refused, 300, false);
    record_kill_outcome(&mut refused, 400, false);
    assert_eq!(sorted(refused.clone()), vec![300, 400]);
    record_kill_outcome(&mut refused, 300, true);
    assert_eq!(refused, vec![400]);
    assert_eq!(survivor_reason(&refused, 400), "сигнал завершения отклонён — нет прав или процесс системный");
    assert_eq!(survivor_reason(&refused, 300), "сигнал принят, но процесс не исчез");
}

#[test]
fn last_check_reports_instead_of_signalling() {
    assert_eq!(after_check(1, 0), AfterCheck::AllGone);
    assert_eq!(after_check(1, 2), AfterCheck::KillAgain);
    assert_eq!(after_check(TERMINATE_CHECKS - 1, 2), AfterCheck::KillAgain);
    assert_eq!(after_check(TERMINATE_CHECKS, 2), AfterCheck::Report);
    assert_eq!(after_check(TERMINATE_CHECKS, 0), AfterCheck::AllGone);
}
