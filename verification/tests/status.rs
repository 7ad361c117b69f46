use dylib_kit::artifact;
use dylib_kit::project::{HookProject, Patcher, TargetApp};
use dylib_kit::registry::{HealthCheck, HookEntry, HookRegistry};
use dylib_kit::status;

fn patcher() -> Patcher {
    Patcher::new(
        HookProject::new("h", "libh.dylib"),
        TargetApp::zed_stable(),
        "/src".to_string(),
    )
}

#[test]
fn the_status_without_a_registry_is_short() {
    let lines = patcher().status(false, b"x:\n\t/h.dylib (weak)\n", None, &Vec::new());
    assert_eq!(
        lines,
        vec![
            "App:     /Applications/Zed.app",
            "Binary:  /Applications/Zed.app/Contents/MacOS/zed",
            "Backup:  /Applications/Zed.app/Contents/MacOS/zed.original (missing)",
            "\nInjected hooks (otool):",
            "  /h.dylib",
            "\nRegistry (zed-stable):",
            "  (no registry file)",
        ]
    );
}

#[test]
fn the_status_begins_without_any_program() {
    let head = patcher().head_lines(true);
    assert_eq!(head.len(), 4);
    assert_eq!(head[3], "\nInjected hooks (otool):");
    assert_eq!(patcher().status(true, b"", None, &Vec::new())[..4], head[..]);
}

#[test]
fn the_status_lists_every_hook_in_load_order() {
    let mut reg = HookRegistry::new();
    reg.last_patched = Some("2026-02-28T06:00:00Z".to_string());
    reg.register(HookEntry::new("b", "/b.dylib"));
    let mut a = HookEntry::new("a", "/a.dylib")
        .with_version("0.1.0")
        .with_features(&["x", "y\"z"])
        .with_symbol("f", "attach", "why")
        .with_load_order(7)
        .with_health_check(
            HealthCheck::new("/l/*").with_success("1").with_success("2").with_timeout(20),
        );
    a.artifact = Some(artifact::artifact_of(
        &vec![0xab; 32],
        2949120,
        "then".to_string(),
        Some("34400cc".to_string()),
    ));
    reg.register(a);
    let lines = patcher().status(true, b"", Some(&reg), &vec![None, None]);
    assert_eq!(
        lines,
        vec![
            "App:     /Applications/Zed.app",
            "Binary:  /Applications/Zed.app/Contents/MacOS/zed",
            "Backup:  /Applications/Zed.app/Contents/MacOS/zed.original (exists)",
            "\nInjected hooks (otool):",
            "\nRegistry (zed-stable):",
            "  Last patched: 2026-02-28T06:00:00Z",
            "\n  a v0.1.0 (order=7)",
            "    features: [\"x\", \"y\\\"z\"]",
            "    dylib: /a.dylib",
            "    hook: f [attach] why",
            "    artifact: sha256=abababababababab... size=2949120 patched=then",
            "    git: 34400cc",
            "    artifact: cannot verify (dylib missing?)",
            "    health: log=/l/*, markers=2, timeout=20s",
            "\n  b v? (order=0)",
            "    features: []",
            "    dylib: /b.dylib",
        ]
    );
}

#[test]
fn the_status_warns_of_a_changed_dylib() {
    let mut reg = HookRegistry::new();
    let mut a = HookEntry::new("a", "/a.dylib");
    a.artifact = Some(artifact::compute_artifact_info(b"abc", None));
    reg.register(a);
    let fresh = status::registry_lines(Some(&reg), &vec![Some(b"abc".to_vec())]);
    assert_eq!(fresh.last().unwrap(), "    artifact: up to date");
    let stale = status::registry_lines(Some(&reg), &vec![Some(b"abd".to_vec())]);
    assert_eq!(
        stale.last().unwrap(),
        "    WARNING: dylib on disk has CHANGED since patching — re-patch needed"
    );
    let unknown = status::registry_lines(Some(&reg), &Vec::new());
    assert_eq!(unknown.last().unwrap(), "    artifact: cannot verify (dylib missing?)");
}

#[test]
fn a_symbol_without_a_description_ends_in_a_space() {
    let mut entry = HookEntry::new("a", "/a").with_symbol("s", "replace", "");
    entry.hooked_symbols[0].description = None;
    assert_eq!(
        status::hook_lines(&entry, "[]", None),
        vec!["\n  a v? (order=0)", "    features: []", "    dylib: /a", "    hook: s [replace] "]
    );
}
