use dylib_kit::cli::{self, CliCommand, CliStep, ConfigCommand, ConfigField, DylibSource};
use dylib_kit::process;
use dylib_kit::project::{HookProject, Patcher, TargetApp};

fn patcher() -> Patcher {
    Patcher::new(
        HookProject::new("my-hook", "libmy.dylib"),
        TargetApp::zed_preview(),
        "/src".to_string(),
    )
}

fn args(list: &[&str]) -> Vec<String> {
    list.iter().map(|s| s.to_string()).collect()
}

fn show(list: &[&str]) -> String {
    match cli::run(&patcher(), &args(list), None) {
        Ok(CliCommand::Help) => "help".to_string(),
        Ok(CliCommand::DetachedPatch) => "detached".to_string(),
        Ok(CliCommand::Restore) => "restore".to_string(),
        Ok(CliCommand::Remove) => "remove".to_string(),
        Ok(CliCommand::Status) => "status".to_string(),
        Ok(CliCommand::Verify) => "verify".to_string(),
        Ok(CliCommand::Patch { source, and_verify }) => {
            let from = match source {
                DylibSource::Explicit(p) => format!("explicit {}", p),
                DylibSource::Existing(p) => format!("existing {}", p),
                DylibSource::Build => "build".to_string(),
            };
            format!("patch {} {}", from, and_verify)
        }
        Ok(CliCommand::Config(ConfigCommand::Show)) => "config show".to_string(),
        Ok(CliCommand::Config(ConfigCommand::Assign { key, value })) => {
            format!("config set {}={}", key, value)
        }
        Ok(CliCommand::Config(ConfigCommand::Reset)) => "config reset".to_string(),
        Ok(CliCommand::Config(ConfigCommand::Path)) => "config path".to_string(),
        Err(e) => e.message(),
    }
}

#[test]
fn commands_are_recognised() {
    assert_eq!(show(&["x"]), "patch build false");
    assert_eq!(show(&[]), "patch build false");
    assert_eq!(show(&["x", "patch"]), "patch build false");
    assert_eq!(show(&["x", "--verify"]), "patch build true");
    assert_eq!(
        show(&["x", "patch", "--no-build"]),
        "patch existing /src/target/release/libmy.dylib false"
    );
    assert_eq!(show(&["x", "patch", "--no-build", "--dylib", "/d"]), "patch explicit /d false");
    assert_eq!(show(&["xtask", "--dylib", "/q/libh.dylib"]), "patch explicit /q/libh.dylib false");
    assert_eq!(show(&["x", "--dylib", "restore", "--verify"]), "patch explicit restore true");
    assert_eq!(show(&["xtask", "--app", "restore"]), "restore");
    assert_eq!(show(&["xtask", "--app", "remove"]), "remove");
    assert_eq!(show(&["x", "patch", "--app", "/Apps/My.app"]), "patch build false");
    assert_eq!(show(&["x", "--app"]), "patch build false");
    assert_eq!(show(&["x", "restore"]), "restore");
    assert_eq!(show(&["x", "--stable", "remove"]), "remove");
    assert_eq!(show(&["x", "status"]), "status");
    assert_eq!(show(&["x", "list"]), "status");
    assert_eq!(show(&["x", "verify"]), "verify");
    assert_eq!(show(&["x", "__detached_patch", "--no-build"]), "detached");
    assert_eq!(show(&["x", "restore", "--help"]), "help");
    assert_eq!(show(&["x", "-h"]), "help");
}

#[test]
fn other_commands_are_refused() {
    assert_eq!(
        show(&["x", "--app", "/Apps/My.app"]),
        "Unknown command: /Apps/My.app\nRun with --help for usage."
    );
    assert_eq!(
        show(&["x", "--app", "/p", "config", "set", "k", "v"]),
        "Unknown command: /p\nRun with --help for usage."
    );
    assert_eq!(show(&["x", "frob"]), "Unknown command: frob\nRun with --help for usage.");
    assert_eq!(
        show(&["x", "config", "frob"]),
        "Unknown config subcommand: frob\n\nUsage: cargo patch config [show|set|reset|path]"
    );
    assert_eq!(show(&["x", ""]), "Unknown command: \nRun with --help for usage.");
}

#[test]
fn config_commands_are_recognised() {
    assert_eq!(show(&["x", "config"]), "config show");
    assert_eq!(show(&["x", "config", "show"]), "config show");
    assert_eq!(show(&["x", "config", "set", "k", "v"]), "config set k=v");
    assert_eq!(show(&["x", "config", "set", "--loud", "k", "config", "v"]), "config set k=v");
    assert_eq!(show(&["x", "--dylib", "/p", "config", "set", "k", "v"]), "config set k=v");
    assert_eq!(show(&["x", "config", "reset"]), "config reset");
    assert_eq!(show(&["x", "config", "path"]), "config path");
    assert_eq!(
        show(&["x", "config", "set", "k"]),
        "Usage: cargo patch config set <key> <value>"
    );
}

#[test]
fn the_usage_of_config_set_lists_the_fields() {
    let fields = vec![
        ConfigField { key: "mode".to_string(), values: args(&["on", "off"]) },
        ConfigField { key: "a-key-of-more-than-twenty".to_string(), values: Vec::new() },
    ];
    let err = cli::run(&patcher(), &args(&["x", "config", "set"]), Some(&fields)).unwrap_err();
    assert_eq!(
        err.message(),
        format!(
            "Usage: cargo patch config set <key> <value>\n\nKeys:\n  {:<20}{}\n  {:<20}{}\n",
            "mode", "on | off", "a-key-of-more-than-twenty", ""
        )
    );
}

#[test]
fn a_dylib_has_to_be_there() {
    let explicit = DylibSource::Explicit("/d".to_string());
    assert_eq!(explicit.resolve(true).unwrap().as_deref(), Some("/d"));
    assert_eq!(explicit.resolve(false).unwrap_err().message(), "specified dylib not found: /d");
    let existing = DylibSource::Existing("/e".to_string());
    assert_eq!(existing.resolve(true).unwrap().as_deref(), Some("/e"));
    assert_eq!(
        existing.resolve(false).unwrap_err().message(),
        "--no-build specified but dylib not found at /e\nRun `cargo build --release` first."
    );
    assert!(DylibSource::Build.resolve(false).unwrap().is_none());
}

fn steps(list: &[&str]) -> Vec<CliStep> {
    cli::run(&patcher(), &args(list), None).unwrap().steps()
}

#[test]
fn commands_have_their_steps() {
    assert_eq!(steps(&["x"]), vec![CliStep::PatchAndRestart { and_verify: false }]);
    assert_eq!(
        steps(&["x", "--verify"]),
        vec![CliStep::PatchAndRestart { and_verify: true }, CliStep::Pause, CliStep::CheckHooks]
    );
    assert_eq!(
        steps(&["x", "restore"]),
        vec![CliStep::Quit, CliStep::Restore, CliStep::Launch]
    );
    assert_eq!(
        steps(&["x", "remove"]),
        vec![CliStep::Quit, CliStep::Remove, CliStep::Launch]
    );
    assert_eq!(
        steps(&["x", "verify"]),
        vec![CliStep::RequireHooks, CliStep::NoteLogs, CliStep::Launch, CliStep::CheckHooks]
    );
    assert_eq!(steps(&["x", "status"]), vec![CliStep::Status]);
    assert_eq!(steps(&["x", "-h"]), vec![CliStep::Usage]);
    assert_eq!(steps(&["x", "config"]), vec![CliStep::Config]);
    assert_eq!(steps(&["x", "__detached_patch"]), vec![CliStep::DetachedPatch]);
}

#[test]
fn detached_arguments_name_the_detached_command() {
    let mut all = args(&["x"]);
    all.extend(process::detached_args(&args(&["x", "patch", "--verify"])));
    assert!(matches!(
        cli::run(&patcher(), &all, None),
        Ok(CliCommand::DetachedPatch)
    ));
}

#[test]
fn the_usage_names_the_hook_and_the_target() {
    let lines = cli::print_usage(&patcher(), false);
    assert_eq!(lines.len(), 20);
    assert_eq!(lines[0], "dylib-patcher — my-hook hook management");
    assert_eq!(lines[1], "");
    assert_eq!(lines[2], "Usage:");
    assert_eq!(lines[15], "Target: /Applications/Zed Preview.app");
    assert_eq!(lines[16], "Dylib:  /src/target/release/libmy.dylib");
    let with = cli::print_usage(&patcher(), true);
    assert_eq!(with.len(), 24);
    assert_eq!(with[13], "  cargo patch config         Show config + available options");
    assert_eq!(with[12], lines[12]);
    assert_eq!(with[17], lines[13]);
}
