use auto_wifi_manager::engine::{Action, ApplyOutcome, Notice, Phase, RotationCycle, DISABLE_SECRET};
use auto_wifi_manager::identity::{Identity, Thresholds};
use auto_wifi_manager::policy::Decision;

fn identity(name: &str, secret: &str) -> Identity {
    Identity::new(name.to_string(), secret.to_string())
}

fn pool_abc() -> Vec<Identity> {
    vec![identity("a", "pa"), identity("b", "pb"), identity("c", "pc")]
}

fn thresholds() -> Thresholds {
    Thresholds::new(9000, 9000, 11000)
}

struct Run {
    cycle: RotationCycle,
    probed: Vec<String>,
    applied: Vec<(String, String)>,
    notice: Option<Notice>,
}

fn drive(
    active: &str,
    pool: Vec<Identity>,
    th: Thresholds,
    usages: &[(&str, Option<i32>)],
    outcome: ApplyOutcome,
) -> Run {
    let (mut cycle, mut action) = RotationCycle::start(active, pool, th);
    let mut probed = Vec::new();
    let mut applied = Vec::new();
    let mut outcome = Some(outcome);
    let mut notice = None;
    loop {
        match action {
            Action::Probe(id) => {
                let r = usages.iter().find(|(n, _)| *n == id.name).and_then(|(_, u)| *u);
                probed.push(id.name.clone());
                action = cycle.on_usage(r);
            }
            Action::Apply(id) => {
                applied.push((id.name.clone(), id.secret.clone()));
                action = cycle.on_apply(outcome.take().expect("one apply per cycle"));
            }
            Action::Notify(n) => {
                notice = Some(n);
                break;
            }
            Action::Stop => break,
        }
    }
    assert_eq!(cycle.phase, Phase::Finished);
    Run { cycle, probed, applied, notice }
}

#[test]
fn scenario_a_switches_to_next_in_cyclic_order() {
    let run = drive(
        "b",
        pool_abc(),
        thresholds(),
        &[("a", Some(100)), ("b", Some(9500)), ("c", Some(7000))],
        ApplyOutcome::Success,
    );
    assert_eq!(run.cycle.decision, Some(Decision::SwitchTo(2)));
    assert_eq!(run.probed, vec!["b".to_string(), "c".to_string()]);
    assert_eq!(run.applied, vec![("c".to_string(), "pc".to_string())]);
    match run.notice {
        Some(Notice::Switched { from, to, old_usage }) => {
            assert_eq!(from, "b");
            assert_eq!(to, "c");
            assert_eq!(old_usage, 9500);
        }
        _ => panic!("expected a switch notice"),
    }
}

#[test]
fn scenario_b_no_identity_available() {
    let run = drive(
        "a",
        pool_abc(),
        thresholds(),
        &[("a", Some(9500)), ("b", Some(9800)), ("c", Some(9700))],
        ApplyOutcome::Success,
    );
    assert_eq!(run.cycle.decision, Some(Decision::NoIdentityAvailable));
    assert_eq!(run.probed, vec!["a".to_string(), "b".to_string(), "c".to_string()]);
    assert!(run.applied.is_empty());
    match run.notice {
        Some(Notice::NoIdentityAvailable { name, usage }) => {
            assert_eq!(name, "a");
            assert_eq!(usage, 9500);
        }
        _ => panic!("expected a no-identity notice"),
    }
}

#[test]
fn scenario_c_disables_active() {
    let run = drive(
        "a",
        pool_abc(),
        thresholds(),
        &[("a", Some(11500)), ("b", Some(9800)), ("c", Some(9700))],
        ApplyOutcome::Success,
    );
    assert_eq!(run.cycle.decision, Some(Decision::Disable(0)));
    assert_eq!(run.applied, vec![("a".to_string(), DISABLE_SECRET.to_string())]);
    assert_eq!(DISABLE_SECRET, "DISABLED_EXCEEDED_LIMIT");
    match run.notice {
        Some(Notice::Disabled { name, usage }) => {
            assert_eq!(name, "a");
            assert_eq!(usage, 11500);
        }
        _ => panic!("expected a disabled notice"),
    }
}

#[test]
fn scenario_d_unknown_active_identity() {
    let run = drive("z", pool_abc(), thresholds(), &[("a", Some(1))], ApplyOutcome::Success);
    assert_eq!(run.cycle.decision, Some(Decision::NoAction));
    assert!(run.probed.is_empty());
    assert!(run.applied.is_empty());
    assert!(run.notice.is_none());
}

#[test]
fn within_limit_probes_only_active() {
    let run = drive(
        "b",
        pool_abc(),
        thresholds(),
        &[("a", Some(0)), ("b", Some(9000)), ("c", Some(0))],
        ApplyOutcome::Success,
    );
    assert_eq!(run.cycle.decision, Some(Decision::NoAction));
    assert_eq!(run.probed, vec!["b".to_string()]);
    match run.notice {
        Some(Notice::StatusOk { name, usage }) => {
            assert_eq!(name, "b");
            assert_eq!(usage, 9000);
        }
        _ => panic!("expected a status notice"),
    }
}

#[test]
fn first_fit_not_best_fit() {
    let run = drive(
        "a",
        pool_abc(),
        thresholds(),
        &[("a", Some(9001)), ("b", Some(8000)), ("c", Some(100))],
        ApplyOutcome::Success,
    );
    assert_eq!(run.cycle.decision, Some(Decision::SwitchTo(1)));
    assert_eq!(run.probed, vec!["a".to_string(), "b".to_string()]);
}

#[test]
fn search_wraps_around_pool() {
    let run = drive(
        "c",
        pool_abc(),
        thresholds(),
        &[("a", Some(100)), ("b", Some(100)), ("c", Some(9999))],
        ApplyOutcome::Success,
    );
    assert_eq!(run.cycle.decision, Some(Decision::SwitchTo(0)));
    assert_eq!(run.probed, vec!["c".to_string(), "a".to_string()]);
}

#[test]
fn secondary_probe_error_is_skipped() {
    let run = drive(
        "a",
        pool_abc(),
        thresholds(),
        &[("a", Some(9500)), ("b", None), ("c", Some(5000))],
        ApplyOutcome::Success,
    );
    assert_eq!(run.cycle.decision, Some(Decision::SwitchTo(2)));
    assert_eq!(run.probed, vec!["a".to_string(), "b".to_string(), "c".to_string()]);
}

#[test]
fn secondary_probe_errors_count_as_unavailable() {
    let run = drive(
        "a",
        pool_abc(),
        thresholds(),
        &[("a", Some(9500)), ("b", None), ("c", None)],
        ApplyOutcome::Success,
    );
    assert_eq!(run.cycle.decision, Some(Decision::NoIdentityAvailable));
}

#[test]
fn active_probe_error_aborts_cycle() {
    let run = drive(
        "b",
        pool_abc(),
        thresholds(),
        &[("a", Some(0)), ("b", None), ("c", Some(0))],
        ApplyOutcome::Success,
    );
    assert_eq!(run.cycle.decision, None);
    assert_eq!(run.probed, vec!["b".to_string()]);
    assert!(run.applied.is_empty());
    assert!(run.notice.is_none());
}

#[test]
fn available_threshold_is_inclusive() {
    let run = drive(
        "a",
        pool_abc(),
        Thresholds::new(9000, 8000, 11000),
        &[("a", Some(9500)), ("b", Some(8001)), ("c", Some(8000))],
        ApplyOutcome::Success,
    );
    assert_eq!(run.cycle.decision, Some(Decision::SwitchTo(2)));
}

#[test]
fn disable_threshold_is_exclusive() {
    let run = drive(
        "a",
        pool_abc(),
        thresholds(),
        &[("a", Some(11000)), ("b", Some(9800)), ("c", Some(9700))],
        ApplyOutcome::Success,
    );
    assert_eq!(run.cycle.decision, Some(Decision::NoIdentityAvailable));
}

#[test]
fn single_identity_pool_has_no_candidates() {
    let run = drive("a", vec![identity("a", "pa")], thresholds(), &[("a", Some(9500))], ApplyOutcome::Success);
    assert_eq!(run.cycle.decision, Some(Decision::NoIdentityAvailable));
    assert_eq!(run.probed, vec!["a".to_string()]);
    let run = drive("a", vec![identity("a", "pa")], thresholds(), &[("a", Some(12000))], ApplyOutcome::Success);
    assert_eq!(run.cycle.decision, Some(Decision::Disable(0)));
}

#[test]
fn empty_pool_takes_no_action() {
    let run = drive("a", Vec::new(), thresholds(), &[], ApplyOutcome::Success);
    assert_eq!(run.cycle.decision, Some(Decision::NoAction));
    assert!(run.probed.is_empty());
}

#[test]
fn duplicate_name_uses_first_match() {
    let pool = vec![identity("a", "first"), identity("b", "pb"), identity("a", "second")];
    let run = drive("a", pool, thresholds(), &[("a", Some(1))], ApplyOutcome::Success);
    assert_eq!(run.cycle.active, 0);
    assert_eq!(run.cycle.decision, Some(Decision::NoAction));
}

#[test]
fn switch_rejected_notice() {
    let run = drive(
        "b",
        pool_abc(),
        thresholds(),
        &[("b", Some(9500)), ("c", Some(7000))],
        ApplyOutcome::Rejected,
    );
    match run.notice {
        Some(Notice::SwitchFailed { from, to }) => {
            assert_eq!(from, "b");
            assert_eq!(to, "c");
        }
        _ => panic!("expected a switch-failed notice"),
    }
}

#[test]
fn switch_error_notice() {
    let run = drive(
        "b",
        pool_abc(),
        thresholds(),
        &[("b", Some(9500)), ("c", Some(7000))],
        ApplyOutcome::Failed("timeout".to_string()),
    );
    match run.notice {
        Some(Notice::SwitchError { reason }) => assert_eq!(reason, "timeout"),
        _ => panic!("expected a switch-error notice"),
    }
}

#[test]
fn disable_failure_notices() {
    for outcome in [ApplyOutcome::Rejected, ApplyOutcome::Failed("down".to_string())] {
        let run = drive(
            "a",
            pool_abc(),
            thresholds(),
            &[("a", Some(11500)), ("b", Some(9800)), ("c", Some(9700))],
            outcome,
        );
        match run.notice {
            Some(Notice::DisableFailed { usage }) => assert_eq!(usage, 11500),
            _ => panic!("expected a disable-failed notice"),
        }
    }
}

#[test]
fn run_cycle_scenario_a() {
    let probes = vec![Some(100), Some(9500), Some(7000)];
    let run = RotationCycle::run_cycle("b", pool_abc(), thresholds(), &probes);
    assert_eq!(run.decision, Some(Decision::SwitchTo(2)));
    assert_eq!(run.probed, vec![1, 2]);
    let applied = run.applied.expect("an identity is applied");
    assert_eq!((applied.name.as_str(), applied.secret.as_str()), ("c", "pc"));
}

#[test]
fn run_cycle_exhausted_pool() {
    let probes = vec![Some(9500), Some(9800), Some(9700)];
    let run = RotationCycle::run_cycle("a", pool_abc(), thresholds(), &probes);
    assert_eq!(run.decision, Some(Decision::NoIdentityAvailable));
    assert_eq!(run.probed, vec![0, 1, 2]);
    assert!(run.applied.is_none());

    let probes = vec![Some(11500), Some(9800), Some(9700)];
    let run = RotationCycle::run_cycle("a", pool_abc(), thresholds(), &probes);
    assert_eq!(run.decision, Some(Decision::Disable(0)));
    let applied = run.applied.expect("the disabling identity is applied");
    assert_eq!((applied.name.as_str(), applied.secret.as_str()), ("a", DISABLE_SECRET));
}

#[test]
fn run_cycle_probe_error_matches_unavailable_usage() {
    let failed = RotationCycle::run_cycle("c", pool_abc(), thresholds(), &vec![None, Some(10), Some(9500)]);
    let high = RotationCycle::run_cycle("c", pool_abc(), thresholds(), &vec![Some(9999), Some(10), Some(9500)]);
    assert_eq!(failed.decision, Some(Decision::SwitchTo(1)));
    assert_eq!(failed.decision, high.decision);
    assert_eq!(failed.probed, vec![2, 0, 1]);
    assert_eq!(failed.probed, high.probed);
}

#[test]
fn run_cycle_active_probe_error_and_unknown_name() {
    let run = RotationCycle::run_cycle("b", pool_abc(), thresholds(), &vec![Some(1), None, Some(1)]);
    assert_eq!(run.decision, None);
    assert_eq!(run.probed, vec![1]);
    assert!(run.applied.is_none());
    let run = RotationCycle::run_cycle("z", pool_abc(), thresholds(), &vec![Some(1), Some(1), Some(1)]);
    assert_eq!(run.decision, Some(Decision::NoAction));
    assert!(run.probed.is_empty());
}

#[test]
fn run_cycle_within_limit_probes_only_active() {
    let run = RotationCycle::run_cycle("a", pool_abc(), thresholds(), &vec![Some(9000), Some(0), Some(0)]);
    assert_eq!(run.decision, Some(Decision::NoAction));
    assert_eq!(run.probed, vec![0]);
}
