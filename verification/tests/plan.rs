use dylib_kit::artifact;
use dylib_kit::commands;
use dylib_kit::error::PatchError;
use dylib_kit::inject::{self, ToolStep};
use dylib_kit::plan::{self, Action};
use dylib_kit::project::{HookProject, Patcher, TargetApp};
use dylib_kit::registry::{HookEntry, HookRegistry};

fn patcher(name: &str) -> Patcher {
    Patcher::new(
        HookProject::new(name, "libmy_hook.dylib"),
        TargetApp::zed_preview(),
        "/src/proj".to_string(),
    )
}

fn hooks() -> HookRegistry {
    let mut reg = HookRegistry::new();
    reg.register(HookEntry::new("late", "/late.dylib").with_load_order(9));
    reg.register(HookEntry::new("mine", "/old.dylib").with_load_order(1));
    reg.register(HookEntry::new("early", "/early.dylib").with_load_order(2));
    reg.register(HookEntry::new("gone", "/gone.dylib").with_load_order(3));
    reg
}

fn existing() -> Vec<String> {
    vec!["/late.dylib".to_string(), "/old.dylib".to_string(), "/early.dylib".to_string()]
}

fn show(actions: &Vec<Action>) -> Vec<String> {
    actions
        .iter()
        .map(|a| match a {
            Action::CreateBackup => "backup".to_string(),
            Action::RestoreBackup => "clean".to_string(),
            Action::Inject(t) => format!("inject {} {}", t.name, t.path),
            Action::Sign => "sign".to_string(),
            Action::VerifyInjected => "check".to_string(),
            Action::UpdateRegistry => "register".to_string(),
            Action::Unregister => "unregister".to_string(),
            Action::ClearRegistry => "clear".to_string(),
        })
        .collect()
}

#[test]
fn a_patch_injects_every_hook_with_its_own_last() {
    let plan = patcher("mine")
        .patch("/new.dylib", true, true, Some(&hooks()), &existing())
        .unwrap();
    assert_eq!(
        show(&plan.actions),
        vec![
            "clean",
            "inject early /early.dylib",
            "inject late /late.dylib",
            "inject mine /new.dylib",
            "sign",
            "check",
            "register",
        ]
    );
    assert_eq!(plan.missing.len(), 1);
    assert_eq!(plan.missing[0].name, "gone");
    let result = plan.result();
    assert_eq!(result.dylib_path, "/new.dylib");
    assert_eq!(result.hooks_injected, vec!["early", "late", "mine"]);
    assert!(result.codesigned);
    assert!(result.verified);
}

#[test]
fn the_first_patch_makes_the_backup() {
    let plan = patcher("mine").patch("/new.dylib", true, false, None, &Vec::new()).unwrap();
    assert_eq!(
        show(&plan.actions),
        vec!["backup", "inject mine /new.dylib", "sign", "check", "register"]
    );
    assert!(plan.missing.is_empty());
}

#[test]
fn a_patch_needs_the_application() {
    let err = patcher("mine")
        .patch("/new.dylib", false, true, Some(&hooks()), &existing())
        .unwrap_err();
    assert_eq!(err.message(), "target app not found: /Applications/Zed Preview.app");
}

#[test]
fn a_removal_keeps_the_other_hooks() {
    let actions = patcher("mine").remove_self(true, Some(&hooks()), &existing());
    assert_eq!(
        show(&actions),
        vec![
            "clean",
            "inject early /early.dylib",
            "inject late /late.dylib",
            "sign",
            "unregister",
        ]
    );
    let none = patcher("mine").remove_self(false, None, &Vec::new());
    assert_eq!(show(&none), vec!["backup", "sign", "unregister"]);
}

#[test]
fn cleaning_never_overwrites_a_backup() {
    let p = patcher("mine");
    assert!(matches!(p.ensure_clean_binary(true), Action::RestoreBackup));
    assert!(matches!(p.ensure_clean_binary(false), Action::CreateBackup));
}

#[test]
fn a_restoration_needs_the_backup() {
    let actions = patcher("mine").restore(true).unwrap();
    assert_eq!(show(&actions), vec!["clean", "sign", "clear"]);
    assert_eq!(
        patcher("mine").restore(false).unwrap_err().message(),
        "no backup found at /Applications/Zed Preview.app/Contents/MacOS/zed.original"
    );
}

#[test]
fn a_patch_registers_the_template() {
    let project = HookProject::new("mine", "libmy_hook.dylib")
        .with_registry_entry(HookEntry::new("mine", "").with_version("1.0").with_load_order(5));
    let p = Patcher::new(project, TargetApp::zed_preview(), "/src/proj".to_string());
    let reg = p.update_registry(Some(hooks()), "/new.dylib", b"abc", Some(b"c0ffee\n"));
    assert_eq!(reg.app_id.as_deref(), Some("zed-preview"));
    assert_eq!(reg.host_app.as_deref(), Some("/Applications/Zed Preview.app"));
    assert!(reg.last_patched.as_deref().unwrap().ends_with("+00:00"));
    assert_eq!(reg.hooks.len(), 4);
    assert_eq!(reg.hooks[1].name, "mine");
    let entry = reg.find("mine").unwrap();
    assert_eq!(entry.dylib_path, "/new.dylib");
    assert_eq!(entry.version.as_deref(), Some("1.0"));
    assert_eq!(entry.load_order, Some(5));
    assert!(entry.installed_at.as_deref().unwrap().ends_with("+00:00"));
    let artifact = entry.artifact.as_ref().unwrap();
    assert_eq!(artifact.size, 3);
    assert_eq!(artifact.git_commit.as_deref(), Some("c0ffee"));
    assert_eq!(artifact::check_artifact_stale(entry, Some(b"abc")), Some(true));
}

#[test]
fn a_patch_without_a_template_or_a_registry_registers_the_name() {
    let info = artifact::artifact_of(&vec![1, 2], 2, "p".to_string(), None);
    let reg = patcher("mine").updated_registry(
        None,
        "/new.dylib",
        "now".to_string(),
        "then".to_string(),
        info,
    );
    assert_eq!(reg.schema_version, 1);
    assert_eq!(reg.last_patched.as_deref(), Some("now"));
    assert_eq!(reg.hooks.len(), 1);
    assert_eq!(reg.hooks[0].name, "mine");
    assert_eq!(reg.hooks[0].installed_at.as_deref(), Some("then"));
    assert_eq!(reg.hooks[0].artifact.as_ref().unwrap().sha256, "0102");
}

#[test]
fn a_patched_hook_is_kept_by_later_patches() {
    let reg = patcher("mine").update_registry(None, "/mine.dylib", b"abc", None);
    let plan = patcher("other")
        .patch("/other.dylib", true, true, Some(&reg), &vec!["/mine.dylib".to_string()])
        .unwrap();
    assert_eq!(plan.result().hooks_injected, vec!["mine", "other"]);
}

#[test]
fn a_second_patch_repeats_the_first() {
    let p = patcher("mine");
    let first = p.patch("/new.dylib", true, true, Some(&hooks()), &existing()).unwrap();
    let reg = p.update_registry(Some(hooks()), "/new.dylib", b"abc", None);
    let second = p.patch("/new.dylib", true, true, Some(&reg), &existing()).unwrap();
    assert_eq!(show(&first.actions), show(&second.actions));
}

#[test]
fn registries_lose_one_hook_or_all() {
    let reg = patcher("mine").unregistered(Some(hooks())).unwrap();
    assert_eq!(reg.hooks.len(), 3);
    assert!(reg.find("mine").is_none());
    assert!(patcher("mine").unregistered(None).is_none());
    let mut full = hooks();
    full.host_app = Some("/host".to_string());
    let cleared = plan::cleared(Some(full)).unwrap();
    assert!(cleared.hooks.is_empty());
    assert_eq!(cleared.host_app.as_deref(), Some("/host"));
    assert!(plan::cleared(None).is_none());
}

const OTOOL: &[u8] = b"/Applications/Zed.app/Contents/MacOS/zed:\n\
\t/usr/lib/libSystem.B.dylib (compatibility version 1.0.0, weak)\n\
\t/System/Library/Frameworks/A.framework/A (weak)\n\
\t/src/proj/libmy_hook.dylib (compatibility version 0.0.0, current version 0.0.0) (weak)\n\
\t/src/other lib.dylib (weak)\n\
\t@rpath/libplain.dylib (compatibility version 1.0.0)\n\
LC_LOAD_WEAK_DYLIB /x.dylib\n";

#[test]
fn added_dylibs_are_listed() {
    let p = patcher("mine");
    assert_eq!(
        p.list_injected(OTOOL),
        vec!["/src/proj/libmy_hook.dylib", "/src/other lib.dylib", "LC_LOAD_WEAK_DYLIB /x.dylib"]
    );
    assert!(p.is_injected(OTOOL));
    assert!(p.verify(OTOOL));
    assert!(p.verify_injected(OTOOL).is_ok());
    assert!(!p.is_injected(b"nothing"));
    assert!(!p.verify(b""));
    assert_eq!(
        p.verify_injected(b"nothing").unwrap_err().message(),
        "verification failed: libmy_hook.dylib not found in binary after injection"
    );
    assert!(p.list_injected(b"").is_empty());
    assert!(inject::custom_dylibs("a (weak)\r\nb\r\n") == vec!["a"]);
}

#[test]
fn output_that_is_not_text_is_read_all_the_same() {
    let p = patcher("mine");
    assert!(p.is_injected(b"\xff libmy_hook.dylib \xfe"));
    assert_eq!(p.list_injected(b"\t/\xff.dylib (weak)\n"), vec!["/\u{fffd}.dylib"]);
}

#[test]
fn programs_report_success_or_failure() {
    let p = patcher("mine");
    assert_eq!(
        p.build(true, "exit status: 0", true).unwrap(),
        "/src/proj/target/release/libmy_hook.dylib"
    );
    assert_eq!(
        p.build(false, "exit status: 101", true).unwrap_err().message(),
        "cargo build failed with exit status: 101"
    );
    assert_eq!(
        p.build(true, "", false).unwrap_err().message(),
        "build succeeded but dylib not found at /src/proj/target/release/libmy_hook.dylib"
    );
    assert!(p.inject(true, b"").is_ok());
    assert_eq!(
        p.inject(false, b"no \xff room").unwrap_err().message(),
        "insert-dylib failed: no \u{fffd} room"
    );
    assert!(p.codesign(true, b"").is_ok());
    assert_eq!(p.codesign(false, b"bad").unwrap_err().message(), "codesign failed: bad");
}

#[test]
fn the_tool_is_installed_when_it_is_missing() {
    let p = patcher("mine");
    match p.ensure_insert_dylib(true) {
        ToolStep::Ready(path) => assert_eq!(path, "/src/proj/target/tools/bin/insert-dylib"),
        ToolStep::Install(_) => panic!("the tool is there"),
    }
    match p.ensure_insert_dylib(false) {
        ToolStep::Ready(_) => panic!("the tool is not there"),
        ToolStep::Install(c) => {
            assert_eq!(c.program, "cargo");
            assert_eq!(c.args, vec!["install", "insert-dylib", "--root", "/src/proj/target/tools"]);
        }
    }
    assert_eq!(
        p.insert_dylib_installed(true, true).unwrap(),
        "/src/proj/target/tools/bin/insert-dylib"
    );
    assert_eq!(
        p.insert_dylib_installed(false, true).unwrap_err().message(),
        "cargo install insert-dylib failed"
    );
    assert_eq!(
        p.insert_dylib_installed(true, false).unwrap_err().message(),
        "install succeeded but binary not found at /src/proj/target/tools/bin/insert-dylib"
    );
}

#[test]
fn command_lines_are_complete() {
    let p = patcher("mine");
    let build = p.build_command();
    assert_eq!(build.program, "cargo");
    assert_eq!(build.args, vec!["build", "--release", "-p", "mine"]);
    let inject = p.inject_command("/tool", "/d.dylib");
    assert_eq!(inject.program, "/tool");
    assert_eq!(
        inject.args,
        vec![
            "--weak",
            "--strip-codesig",
            "--all-yes",
            "--inplace",
            "/d.dylib",
            "/Applications/Zed Preview.app/Contents/MacOS/zed",
        ]
    );
    let t = &p.target;
    assert_eq!(
        t.libraries_command().args,
        vec!["-L", "/Applications/Zed Preview.app/Contents/MacOS/zed"]
    );
    assert_eq!(
        t.codesign_command().args,
        vec!["-fs", "-", "--deep", "/Applications/Zed Preview.app"]
    );
    assert_eq!(t.app_pid_command().args, vec!["-x", "zed"]);
    assert_eq!(
        t.quit_command().args,
        vec!["-e", "tell application \"Zed Preview\" to quit"]
    );
    assert_eq!(t.kill_crash_handler_command().args, vec!["-f", "--crash-handler.*zed"]);
    assert_eq!(t.launch_command().program, "open");
    assert_eq!(commands::process_command("42").args, vec!["-o", "ppid=,comm=", "-p", "42"]);
    assert_eq!(commands::alive_command("42").args, vec!["-0", "42"]);
    assert_eq!(commands::find_command("x").program, "pgrep");
    assert_eq!(commands::git_commit_command().args, vec!["rev-parse", "--short", "HEAD"]);
}

#[test]
fn every_error_has_a_message() {
    let s = "S".to_string();
    let texts = vec![
        (PatchError::NoRegistry(s.clone()), "no registry found for 'S' — run `cargo patch` first"),
        (PatchError::EmptyRegistry, "registry is empty — no hooks to verify"),
        (PatchError::DylibNotFound(s.clone()), "specified dylib not found: S"),
        (
            PatchError::NoExistingDylib(s.clone()),
            "--no-build specified but dylib not found at S\nRun `cargo build --release` first.",
        ),
        (PatchError::UnknownCommand(s.clone()), "Unknown command: S\nRun with --help for usage."),
        (
            PatchError::UnknownConfig(s.clone()),
            "Unknown config subcommand: S\n\nUsage: cargo patch config [show|set|reset|path]",
        ),
        (PatchError::ConfigUsage(s.clone()), "S"),
    ];
    for (error, text) in texts {
        assert_eq!(error.message(), text);
    }
}

#[test]
fn a_removed_hook_stays_out_of_later_patches() {
    let reg = patcher("late").unregistered(Some(hooks())).unwrap();
    let plan = patcher("mine")
        .patch("/new.dylib", true, true, Some(&reg), &existing())
        .unwrap();
    assert_eq!(plan.result().hooks_injected, vec!["early", "mine"]);
    let none = plan::cleared(Some(hooks())).unwrap();
    let alone = patcher("mine")
        .patch("/new.dylib", true, true, Some(&none), &existing())
        .unwrap();
    assert_eq!(alone.result().hooks_injected, vec!["mine"]);
}
