use dylib_kit::process::{self, ExitStep, QuitStep, Restart, RestartStep, Walk};
use dylib_kit::project::{HookProject, Patcher, TargetApp};

fn patcher() -> Patcher {
    Patcher::new(
        HookProject::new("mine", "libmine.dylib"),
        TargetApp::zed_preview(),
        "/src".to_string(),
    )
}

fn walk(table: &[(&str, &str)], start: &str) -> (bool, usize) {
    let p = patcher();
    let mut at = p.ancestry(start);
    let mut asked = 0;
    loop {
        asked += 1;
        let line = table.iter().find(|(pid, _)| *pid == at.pid).map(|(_, line)| line.as_bytes());
        match p.is_running_inside_target(&at, line) {
            Walk::Inside => return (true, asked),
            Walk::Outside => return (false, asked),
            Walk::Up(next) => at = next,
        }
    }
}

#[test]
fn the_target_is_found_among_the_ancestors() {
    let table = [
        ("9", "  8 xtask\n"),
        ("8", "  7 /bin/zsh\n"),
        ("7", "  5 /Applications/Zed Preview.app/Contents/MacOS/zed\n"),
    ];
    assert_eq!(walk(&table, "9"), (true, 3));
}

#[test]
fn a_walk_ends_at_the_root() {
    assert_eq!(walk(&[("9", " 8 a-shell"), ("8", "1 /sbin/login")], "9"), (false, 2));
    assert_eq!(walk(&[("9", "0 a-shell")], "9"), (false, 1));
    assert_eq!(walk(&[("9", "9 a-shell")], "9"), (false, 1));
    assert_eq!(walk(&[], "9"), (false, 1));
    assert_eq!(walk(&[("9", "   \n")], "9"), (false, 1));
    assert_eq!(walk(&[("9", "8\n")], "9"), (false, 1));
}

#[test]
fn only_the_target_binary_counts_as_the_target() {
    assert_eq!(walk(&[("9", "1 cat")], "9"), (false, 1));
    assert_eq!(walk(&[("9", "1 zed")], "9"), (false, 1));
    assert_eq!(walk(&[("9", "1 /Applications/Zed Preview.app/Contents/MacOS/zed-2")], "9"), (false, 1));
    assert_eq!(walk(&[("9", "1 /Applications/Zed Preview.app/Contents/MacOS/zed")], "9"), (true, 1));
}

#[test]
fn a_walk_goes_up_to_the_root() {
    let mut table: Vec<(String, String)> = Vec::new();
    for n in 2..500 {
        table.push((n.to_string(), format!("{} a-shell", n - 1)));
    }
    table[0].1 = "1 /Applications/Zed Preview.app/Contents/MacOS/zed".to_string();
    let rows: Vec<(&str, &str)> = table.iter().map(|(p, l)| (p.as_str(), l.as_str())).collect();
    assert_eq!(walk(&rows, "499"), (true, 498));
}

#[test]
fn a_walk_in_a_circle_ends() {
    assert_eq!(walk(&[("8", "9 x-shell"), ("9", "8 x-shell")], "8"), (false, 100000));
}

#[test]
fn a_process_line_has_two_fields() {
    assert_eq!(
        process::parse_process("  17191 /Applications/Zed Preview.app/zed \n"),
        Some(("17191".to_string(), "/Applications/Zed Preview.app/zed".to_string()))
    );
    assert_eq!(
        process::parse_process("1 \t x y"),
        Some(("1".to_string(), "x y".to_string()))
    );
    assert_eq!(process::parse_process("17191"), None);
    assert_eq!(process::parse_process(" \n "), None);
}

#[test]
fn a_failing_search_means_not_running() {
    assert!(patcher().is_target_running(Some(true)));
    assert!(!patcher().is_target_running(Some(false)));
    assert!(!patcher().is_target_running(None));
}

fn quit(runs: fn(u32) -> bool) -> (bool, bool, u64) {
    let p = patcher();
    let mut checks = 0;
    let mut millis = 0;
    let mut killed = false;
    loop {
        let step = p.quit_target_app(checks, runs(checks));
        checks += 1;
        match &step {
            QuitStep::Ask { command, pause_millis } => {
                assert_eq!(command.program, "osascript");
                millis += pause_millis;
            }
            QuitStep::Wait { pause_millis } => millis += pause_millis,
            QuitStep::Kill { command, pause_millis } => {
                assert_eq!(command.program, "pkill");
                assert_eq!(command.args[1], p.target.binary_path());
                millis += pause_millis;
                killed = true;
            }
            QuitStep::NotRunning => {}
            QuitStep::Stopped => {}
        }
        if let Some(outcome) = step.outcome() {
            return (outcome, killed, millis);
        }
    }
}

#[test]
fn an_application_is_quit_within_seven_seconds() {
    assert_eq!(quit(|_| false), (false, false, 0));
    assert_eq!(quit(|n| n < 1), (true, false, 500));
    assert_eq!(quit(|n| n < 10), (true, false, 5000));
    assert_eq!(quit(|_| true), (true, true, 7000));
}

#[test]
fn a_restart_depends_on_where_the_patcher_runs() {
    let p = patcher();
    assert_eq!(p.patch_and_restart(true, true), Restart::Detached);
    assert_eq!(p.patch_and_restart(false, true), Restart::Inline);
    assert_eq!(p.patch_and_restart(false, false), Restart::PatchOnly);
    assert_eq!(
        Restart::Inline.steps(false),
        vec![RestartStep::Quit, RestartStep::Patch, RestartStep::Launch]
    );
    assert_eq!(Restart::PatchOnly.steps(false), vec![RestartStep::Patch]);
    assert_eq!(
        Restart::Inline.steps(true),
        vec![RestartStep::Quit, RestartStep::Patch, RestartStep::NoteLogs, RestartStep::Launch]
    );
    assert_eq!(
        Restart::PatchOnly.steps(true),
        vec![RestartStep::Patch, RestartStep::NoteLogs, RestartStep::Launch]
    );
    assert_eq!(
        Restart::Detached.steps(true),
        vec![
            RestartStep::NoteLogs,
            RestartStep::SpawnDetached,
            RestartStep::AskToQuit,
            RestartStep::Pause { millis: 1000 },
        ]
    );
    assert_eq!(
        Restart::Detached.steps(false),
        vec![
            RestartStep::SpawnDetached,
            RestartStep::AskToQuit,
            RestartStep::Pause { millis: 1000 },
        ]
    );
    assert_eq!(
        process::detached_steps(),
        vec![
            RestartStep::WaitForExit,
            RestartStep::Pause { millis: 2000 },
            RestartStep::KillOrphans,
            RestartStep::Patch,
            RestartStep::Launch,
        ]
    );
}

fn args(list: &[&str]) -> Vec<String> {
    list.iter().map(|s| s.to_string()).collect()
}

#[test]
fn a_detached_patcher_is_started_with_everything_it_needs() {
    let p = patcher();
    let spawn = p.detached_spawn(
        &args(&["xtask", "--no-build", "__detached_patch", "--stable"]),
        "/d.dylib",
        Some(b" 42\n43\n"),
        "20260228-060000",
    );
    assert_eq!(spawn.args, vec!["__detached_patch", "--no-build", "--stable"]);
    assert_eq!(spawn.app_pid, "42");
    assert_eq!(
        spawn.variables,
        vec![
            ("__DYLIB_PATCHER_APP_PID".to_string(), "42".to_string()),
            ("__DYLIB_PATCHER_DYLIB_PATH".to_string(), "/d.dylib".to_string()),
        ]
    );
    assert_eq!(spawn.log_dir, "/Applications/Zed Preview.app/Contents/MacOS");
    assert_eq!(
        spawn.log_path,
        "/Applications/Zed Preview.app/Contents/MacOS/dylib-patch-20260228-060000.log"
    );
    let empty = p.detached_spawn(&Vec::new(), "/d", None, "t");
    assert_eq!(empty.args, vec!["__detached_patch"]);
    assert_eq!(empty.app_pid, "");
}

#[test]
fn a_detached_patcher_that_starts_now_logs_under_the_time() {
    let spawn = patcher().detached_spawn_now(&args(&["x"]), "/d", None);
    let start = "/Applications/Zed Preview.app/Contents/MacOS/dylib-patch-";
    assert!(spawn.log_path.starts_with(start));
    assert!(spawn.log_path.ends_with(".log"));
    let stamp = &spawn.log_path[start.len()..spawn.log_path.len() - 4];
    assert_eq!(stamp.len(), 15);
    assert_eq!(&stamp[8..9], "-");
    assert!(stamp.chars().all(|c| c == '-' || c.is_ascii_digit()));
    let result = patcher().detached_result("/d");
    assert_eq!(result.dylib_path, "/d");
    assert_eq!(result.hooks_injected, vec!["mine"]);
    assert!(!result.codesigned);
    assert!(!result.verified);
}

#[test]
fn a_detached_patcher_reads_its_variables() {
    let p = patcher();
    let told = p.run_detached_patch(Some("42"), Some("/d"));
    assert_eq!(told.app_pid, "42");
    assert_eq!(told.dylib, "/d");
    match told.exit_step(0, false) {
        ExitStep::Check { command, pause_millis } => {
            assert_eq!(command.program, "kill");
            assert_eq!(command.args, vec!["-0", "42"]);
            assert_eq!(pause_millis, 0);
        }
        other => panic!("{:?}", other),
    }
    assert!(matches!(told.exit_step(29, true), ExitStep::Check { pause_millis: 1000, .. }));
    assert!(matches!(told.exit_step(30, true), ExitStep::GiveUp { pause_millis: 1000 }));
    assert!(matches!(told.exit_step(30, false), ExitStep::Done));
    assert!(matches!(told.exit_step(1, false), ExitStep::Done));
    let alone = p.run_detached_patch(None, None);
    assert_eq!(alone.dylib, "/src/target/release/libmine.dylib");
    assert!(matches!(alone.exit_step(0, true), ExitStep::Done));
}

#[test]
fn orphans_are_counted_and_killed() {
    let p = patcher();
    assert_eq!(
        p.target.orphan_patterns(),
        vec!["Zed Preview/extensions/", "Zed Preview/languages/"]
    );
    let found = process::kill_orphaned_children("pat", Some(b"12\n \n13\n")).unwrap();
    assert_eq!(found.count, 2);
    assert_eq!(found.command.program, "pkill");
    assert_eq!(found.command.args, vec!["-f", "pat"]);
    assert!(process::kill_orphaned_children("pat", Some(b"\n")).is_none());
    assert!(process::kill_orphaned_children("pat", None).is_none());
    assert_eq!(process::app_pid(Some(b"")), "");
    assert_eq!(p.launch_target_app().args, vec!["/Applications/Zed Preview.app"]);
}
