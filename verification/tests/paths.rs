use dylib_kit::path;
use dylib_kit::project::{self, HookProject, Patcher, TargetApp};
use std::path::Path;

fn owned(p: Option<&Path>) -> Option<String> {
    p.map(|p| p.to_string_lossy().into_owned())
}

#[test]
fn paths_are_taken_apart_as_in_the_standard_library() {
    let samples = [
        "", "/", "//", "///", ".", "./", "./.", "..", "../", "a", "a/", "a//", "a/.", "a/./", "a/..",
        "a/b", "a//b", "a/./b", "a/b/", "a/b/.", "/a", "/a/", "//a", "/a/b", "/a//b/", "./a", ".//a",
        "././a", "../a", "/.", "/./", "/..", "/../a", "/./a", "a.b", "a.b.c", ".a", ".a.b", "a.",
        "..a", "...", "a/.b", "a/b.c/d", "/x y/ü.app", "a/ .", "./..", "./../.", "a/.//.",
    ];
    for s in samples.iter() {
        let p = Path::new(s);
        assert_eq!(path::parent(s), owned(p.parent()), "parent of {:?}", s);
        assert_eq!(
            path::file_name(s),
            p.file_name().map(|n| n.to_string_lossy().into_owned()),
            "file name of {:?}",
            s
        );
        assert_eq!(
            path::file_stem(s),
            p.file_stem().map(|n| n.to_string_lossy().into_owned()),
            "file stem of {:?}",
            s
        );
        for t in samples.iter() {
            assert_eq!(
                path::join(s, t),
                p.join(t).to_string_lossy().into_owned(),
                "{:?} below {:?}",
                t,
                s
            );
        }
    }
}

#[test]
fn known_targets_have_known_paths() {
    let t = TargetApp::zed_preview();
    assert_eq!(t.app_id, "zed-preview");
    assert_eq!(t.binary_path(), "/Applications/Zed Preview.app/Contents/MacOS/zed");
    assert_eq!(t.backup_path(), "/Applications/Zed Preview.app/Contents/MacOS/zed.original");
    assert_eq!(t.logs_dir(), "/Applications/Zed Preview.app/Contents/MacOS");
    assert_eq!(t.app_name(), "Zed Preview");
    assert_eq!(t.binary_name(), "zed");
    let s = TargetApp::zed_stable();
    assert_eq!(s.app_id, "zed-stable");
    assert_eq!(s.binary_path(), "/Applications/Zed.app/Contents/MacOS/zed");
    assert_eq!(s.app_name(), "Zed");
}

#[test]
fn a_target_without_a_directory_logs_to_tmp() {
    let t = TargetApp::new("/", "", "x");
    assert_eq!(t.binary_path(), "/");
    assert_eq!(t.logs_dir(), "/tmp");
    assert_eq!(t.binary_name(), "");
    assert_eq!(t.app_name(), "");
}

fn args(list: &[&str]) -> Vec<String> {
    list.iter().map(|s| s.to_string()).collect()
}

#[test]
fn arguments_choose_the_target() {
    assert_eq!(TargetApp::from_args(&args(&["p"])).app_id, "zed-preview");
    assert_eq!(TargetApp::from_args(&args(&["p", "--stable"])).app_id, "zed-stable");
    let custom = TargetApp::from_args(&args(&["p", "--app", "/Apps/My.app"]));
    assert_eq!(custom.app_id, "custom");
    assert_eq!(custom.binary_path(), "/Apps/My.app/Contents/MacOS/zed");
    assert_eq!(
        TargetApp::from_args(&args(&["p", "--app", "/x", "--stable"])).app_id,
        "zed-stable"
    );
    assert_eq!(TargetApp::from_args(&args(&["p", "--app"])).app_id, "zed-preview");
}

#[test]
fn the_value_behind_the_first_flag_counts() {
    assert_eq!(
        project::get_arg_value(&args(&["p", "--x", "1", "--x", "2"]), "--x"),
        Some("1".to_string())
    );
    assert_eq!(project::get_arg_value(&args(&["p", "--x"]), "--x"), None);
    assert_eq!(project::get_arg_value(&args(&[]), "--x"), None);
    assert_eq!(
        project::get_arg_value(&args(&["--x", "--x"]), "--x"),
        Some("--x".to_string())
    );
}

#[test]
fn projects_know_their_crate_and_dylib() {
    let plain = HookProject::new("my-hook", "libmy_hook.dylib");
    assert_eq!(plain.effective_crate_name(), "my-hook");
    let named = plain.clone().with_crate_name("my-crate");
    assert_eq!(named.effective_crate_name(), "my-crate");
    assert_eq!(named.name, "my-hook");
    let patcher = Patcher::new(named, TargetApp::zed_preview(), "/src/proj".to_string());
    assert_eq!(patcher.default_dylib_path(), "/src/proj/target/release/libmy_hook.dylib");
}
