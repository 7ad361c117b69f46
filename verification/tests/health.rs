use dylib_kit::health::{self, HookCheck, HookLog, LogNote, LogReading};
use dylib_kit::project::{HookProject, Patcher, TargetApp};
use dylib_kit::registry::{HealthCheck, HookEntry, HookRegistry};

fn hook() -> HookEntry {
    HookEntry::new("h", "/h.dylib").with_health_check(
        HealthCheck::new("~/logs/h.*.log")
            .with_success("started")
            .with_success("ready")
            .with_failure("Cannot find")
            .with_failure("attach failed"),
    )
}

fn reading(content: &str, baseline: Option<u64>) -> LogReading {
    LogReading { log: HookLog::Content(content.to_string()), baseline }
}

fn outcome(hook: &HookEntry, reading: &LogReading) -> (bool, Option<String>, Option<String>, String) {
    let check = health::verify_hook(hook, reading);
    let passed = match &check {
        Ok(c) => c.passed(),
        Err(_) => false,
    };
    let error = match &check {
        Ok(_) => None,
        Err(e) => Some(e.message()),
    };
    (
        passed,
        error,
        health::check_note("h", &check),
        health::check_report("h", &check),
    )
}

#[test]
fn a_hook_passes_with_all_its_markers() {
    assert_eq!(
        outcome(&hook(), &reading("started\nready\n", None)),
        (true, None, None, "[verify] PASS h — all markers found".to_string())
    );
}

#[test]
fn a_missing_marker_fails_the_hook() {
    assert_eq!(
        outcome(&hook(), &reading("ready\n", None)),
        (
            false,
            None,
            Some("  h — missing marker: \"started\"".to_string()),
            "[verify] FAIL h — markers not found in log".to_string(),
        )
    );
}

#[test]
fn success_markers_appear_in_their_order() {
    let ordered = HookEntry::new("h", "/h.dylib").with_health_check(
        HealthCheck::new("/l/h.log").with_success("first").with_success("second"),
    );
    assert!(outcome(&ordered, &reading("first second\n", None)).0);
    assert!(outcome(&ordered, &reading("second first second\n", None)).0);
    match health::verify_hook(&ordered, &reading("second first\n", None)) {
        Ok(HookCheck::MissingMarker(m)) => assert_eq!(m, "second"),
        other => panic!("{:?}", other),
    }
    match health::verify_hook(&ordered, &reading("second\n", None)) {
        Ok(HookCheck::MissingMarker(m)) => assert_eq!(m, "first"),
        other => panic!("{:?}", other),
    }
}

#[test]
fn success_markers_may_overlap() {
    let check = |a: &str, b: &str| {
        HookEntry::new("h", "/h.dylib")
            .with_health_check(HealthCheck::new("/l/h.log").with_success(a).with_success(b))
    };
    assert!(outcome(&check("ab", "bc"), &reading("abc", None)).0);
    assert!(outcome(&check("ab", "ab"), &reading("ab", None)).0);
    assert!(!outcome(&check("bc", "ab"), &reading("abc", None)).0);
}

#[test]
fn logs_are_noted_for_registered_hooks_and_the_own_one() {
    let mut reg = HookRegistry::new();
    reg.register(HookEntry::new("a", "/a"));
    let mut p = patcher();
    let names = |hooks: Vec<HookEntry>| -> Vec<String> {
        hooks.into_iter().map(|h| h.name).collect()
    };
    assert_eq!(names(p.hooks_to_watch(Some(&reg))), vec!["a"]);
    assert!(p.hooks_to_watch(None).is_empty());
    p.project.registry_entry = Some(hook());
    assert_eq!(names(p.hooks_to_watch(Some(&reg))), vec!["a", "h"]);
    assert_eq!(names(p.hooks_to_watch(None)), vec!["h"]);
    let notes = vec![
        LogNote { name: "a".to_string(), size: Some(3) },
        LogNote { name: "h".to_string(), size: None },
        LogNote { name: "a".to_string(), size: Some(4) },
    ];
    assert_eq!(health::baseline_of(&notes, "a"), Some(3));
    assert_eq!(health::baseline_of(&notes, "h"), None);
    assert_eq!(health::baseline_of(&notes, "x"), None);
}

#[test]
fn a_failure_marker_comes_first() {
    assert_eq!(
        outcome(&hook(), &reading("started ready attach failed", None)),
        (
            false,
            None,
            Some("  h — FAILURE marker found: \"attach failed\"".to_string()),
            "[verify] FAIL h — markers not found in log".to_string(),
        )
    );
    match health::verify_hook(&hook(), &reading("attach failed Cannot find", None)) {
        Ok(HookCheck::FailureMarker(m)) => assert_eq!(m, "Cannot find"),
        other => panic!("{:?}", other),
    }
}

#[test]
fn only_new_content_counts() {
    let old = "attach failed ü\n";
    let all = format!("{}started\nready\n", old);
    assert!(outcome(&hook(), &reading(&all, Some(old.len() as u64))).0);
    assert!(!outcome(&hook(), &reading(&all, None)).0);
    assert!(!outcome(&hook(), &reading(&all, Some(0))).0);
    let good = "started\nready\n";
    assert!(!outcome(&hook(), &reading(good, Some(good.len() as u64))).0);
    assert!(outcome(&hook(), &reading(good, Some(1000))).0);
    assert!(outcome(&hook(), &reading(good, Some(u64::MAX))).0);
}

#[test]
fn a_hook_without_a_check_passes() {
    let plain = HookEntry::new("h", "/h.dylib");
    assert_eq!(
        outcome(&plain, &LogReading { log: HookLog::NotFound, baseline: None }),
        (
            true,
            None,
            Some("  h — no health check defined, skipping".to_string()),
            "[verify] PASS h — all markers found".to_string(),
        )
    );
}

#[test]
fn a_log_that_cannot_be_read_is_an_error() {
    let missing = outcome(&hook(), &LogReading { log: HookLog::NotFound, baseline: None });
    assert!(!missing.0);
    assert_eq!(missing.1.as_deref(), Some("log file not found matching: ~/logs/h.*.log"));
    assert_eq!(missing.2, None);
    assert_eq!(
        missing.3,
        "[verify] ERROR h — log file not found matching: ~/logs/h.*.log"
    );
    let broken = outcome(&hook(), &LogReading { log: HookLog::Unreadable, baseline: Some(3) });
    assert_eq!(broken.1.as_deref(), Some("failed to read log file"));
}

fn patcher() -> Patcher {
    Patcher::new(
        HookProject::new("h", "libh.dylib"),
        TargetApp::zed_stable(),
        "/src".to_string(),
    )
}

#[test]
fn a_verification_needs_registered_hooks() {
    assert_eq!(
        patcher().launch_and_verify(None).unwrap_err().message(),
        "no registry found for 'zed-stable' — run `cargo patch` first"
    );
    assert_eq!(
        patcher().launch_and_verify(Some(&HookRegistry::new())).unwrap_err().message(),
        "registry is empty — no hooks to verify"
    );
}

#[test]
fn a_verification_waits_for_the_most_patient_hook() {
    let mut reg = HookRegistry::new();
    reg.register(HookEntry::new("a", "/a").with_load_order(2));
    assert_eq!(patcher().launch_and_verify(Some(&reg)).unwrap().timeout_secs, 15);
    reg.register(
        HookEntry::new("b", "/b")
            .with_load_order(1)
            .with_health_check(HealthCheck::new("x").with_timeout(3)),
    );
    assert_eq!(patcher().launch_and_verify(Some(&reg)).unwrap().timeout_secs, 3);
    reg.register(
        HookEntry::new("c", "/c").with_health_check(HealthCheck::new("x").with_timeout(40)),
    );
    reg.register(
        HookEntry::new("d", "/d").with_health_check(HealthCheck::new("x").with_timeout(20)),
    );
    let plan = patcher().launch_and_verify(Some(&reg)).unwrap();
    assert_eq!(plan.timeout_secs, 40);
    assert_eq!(plan.command.program, "open");
    assert_eq!(plan.command.args, vec!["/Applications/Zed.app"]);
    let names: Vec<&str> = plan.hooks.iter().map(|h| h.name.as_str()).collect();
    assert_eq!(names, vec!["b", "a", "c", "d"]);
}

#[test]
fn a_verification_passes_when_every_hook_does() {
    let mut reg = HookRegistry::new();
    reg.register(hook());
    reg.register(HookEntry::new("plain", "/p"));
    let plan = patcher().launch_and_verify(Some(&reg)).unwrap();
    let good = plan.results(&vec![
        reading("started ready", None),
        LogReading { log: HookLog::NotFound, baseline: None },
    ]);
    assert!(good.all_passed);
    assert_eq!(good.summary(), "\n[verify] ALL HOOKS VERIFIED");
    assert_eq!(good.hooks.len(), 2);
    assert_eq!(good.hooks[0].name, "h");
    let bad = plan.results(&vec![
        LogReading { log: HookLog::Unreadable, baseline: None },
        LogReading { log: HookLog::NotFound, baseline: None },
    ]);
    assert!(!bad.all_passed);
    assert!(!bad.hooks[0].passed);
    assert_eq!(bad.hooks[0].error.as_deref(), Some("failed to read log file"));
    assert!(bad.hooks[1].passed);
    assert!(bad.hooks[1].error.is_none());
    assert_eq!(bad.summary(), "\n[verify] SOME HOOKS FAILED");
}
