use spectre_automation::config::RunOrder;
use spectre_automation::paths::PathStyle;
use spectre_automation::plan::{
    extract_filename, report_plan, run_sequence, run_step, step_label, ReportKind, RunAction,
    RunEvent, RunState, Which,
};

#[test]
fn run_order_swaps_the_whole_sequence() {
    assert_eq!(run_sequence(RunOrder::NewFirst, true), [Which::New, Which::Old]);
    assert_eq!(run_sequence(RunOrder::OldFirst, true), [Which::Old, Which::New]);
}

#[test]
fn actual_build_is_measured_in_every_sequence() {
    for order in [RunOrder::NewFirst, RunOrder::OldFirst] {
        assert_eq!(run_sequence(order, false), [Which::New], "порядок {order:?} без старой сборки");

        let with_old = run_sequence(order, true);
        assert_eq!(
            with_old.iter().filter(|w| **w == Which::New).count(),
            1,
            "актуальная сборка мерится не один раз при порядке {order:?}: {with_old:?}"
        );
        assert_eq!(
            with_old.iter().filter(|w| **w == Which::Old).count(),
            1,
            "старая сборка мерится не один раз при порядке {order:?}: {with_old:?}"
        );
    }
}

#[test]
fn executable_names_come_from_the_path() {
    assert_eq!(
        extract_filename("/opt/builds/spectre-terminal.exe", PathStyle::Unix),
        "spectre-terminal.exe"
    );
    assert_eq!(
        extract_filename(r"C:\Builds\Spectre-Terminal.exe", PathStyle::Windows),
        "Spectre-Terminal.exe"
    );
    assert_eq!(
        extract_filename(r"C:\Builds\Spectre-Terminal.exe", PathStyle::Unix),
        r"C:\Builds\Spectre-Terminal.exe"
    );
    assert_eq!(extract_filename("/opt/builds/..", PathStyle::Unix), "unknown.exe");
    assert_eq!(extract_filename("", PathStyle::Unix), "unknown.exe");
}

#[test]
fn step_labels_count_from_one() {
    assert_eq!(step_label(1, 2), "[Шаг 1/2]");
    assert_eq!(step_label(10, 12), "[Шаг 10/12]");
}

fn drive(order: RunOrder, has_old: bool, outcomes: &[bool]) -> (Vec<RunAction>, RunAction) {
    let mut state = RunState::new(run_sequence(order, has_old));
    let (s, mut action) = run_step(state, RunEvent::Started);
    state = s;
    let mut measured = Vec::new();
    let mut k = 0;
    while let RunAction::Measure { .. } = action {
        measured.push(action);
        let (s, a) = run_step(state, RunEvent::Measured { ok: outcomes[k] });
        state = s;
        action = a;
        k += 1;
    }
    (measured, action)
}

#[test]
fn both_builds_measured_are_compared() {
    let (steps, end) = drive(RunOrder::NewFirst, true, &[true, true]);
    assert_eq!(
        steps,
        [
            RunAction::Measure { which: Which::New, position: 1 },
            RunAction::Measure { which: Which::Old, position: 2 },
        ]
    );
    assert_eq!(end, RunAction::Report(ReportKind::Comparison));
}

#[test]
fn a_failed_current_build_ends_the_run_in_any_order() {
    let (steps, end) = drive(RunOrder::NewFirst, true, &[false]);
    assert_eq!(steps.len(), 1);
    assert_eq!(end, RunAction::Abort { archive: false });

    let (steps, end) = drive(RunOrder::OldFirst, true, &[true, false]);
    assert_eq!(steps.len(), 2);
    assert_eq!(end, RunAction::Abort { archive: true });

    let (_, end) = drive(RunOrder::OldFirst, true, &[false, false]);
    assert_eq!(end, RunAction::Abort { archive: false });
}

#[test]
fn a_failed_old_build_only_changes_the_report() {
    let (steps, end) = drive(RunOrder::OldFirst, true, &[false, true]);
    assert_eq!(steps.len(), 2);
    assert_eq!(end, RunAction::Report(ReportKind::SingleOldFailed));
    let (_, end) = drive(RunOrder::NewFirst, true, &[true, false]);
    assert_eq!(end, RunAction::Report(ReportKind::SingleOldFailed));
}

#[test]
fn without_an_old_build_the_report_is_single() {
    let (steps, end) = drive(RunOrder::OldFirst, false, &[true]);
    assert_eq!(steps, [RunAction::Measure { which: Which::New, position: 1 }]);
    assert_eq!(end, RunAction::Report(ReportKind::SingleWithoutOld));
}

#[test]
fn report_choice_covers_every_outcome() {
    assert_eq!(report_plan(true, true, true), ReportKind::Comparison);
    assert_eq!(report_plan(true, true, false), ReportKind::SingleOldFailed);
    assert_eq!(report_plan(false, true, false), ReportKind::SingleWithoutOld);
    assert_eq!(report_plan(true, false, true), ReportKind::NoReport);
    assert_eq!(report_plan(false, false, false), ReportKind::NoReport);
}
