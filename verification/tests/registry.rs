use dylib_kit::registry::{
    self, ArtifactInfo, HealthCheck, HookEntry, HookRegistry,
};

#[test]
fn new_registry_is_empty() {
    let reg = HookRegistry::new();
    assert_eq!(reg.schema_version, 1);
    assert!(reg.hooks.is_empty());
}

#[test]
fn register_and_find() {
    let mut reg = HookRegistry::new();
    reg.register(
        HookEntry::new("test-hook", "/path/to/hook.dylib")
            .with_version("0.1.0")
            .with_features(&["feature-a"])
            .with_symbol("sqlite3_prepare_v2", "replace", "test")
            .with_load_order(1),
    );
    assert_eq!(reg.hooks.len(), 1);
    assert!(reg.find("test-hook").is_some());
    assert!(reg.find("nonexistent").is_none());
}

#[test]
fn register_updates_existing() {
    let mut reg = HookRegistry::new();
    reg.register(HookEntry::new("hook-a", "/v1.dylib").with_version("1.0"));
    reg.register(HookEntry::new("hook-a", "/v2.dylib").with_version("2.0"));
    assert_eq!(reg.hooks.len(), 1);
    assert_eq!(reg.find("hook-a").unwrap().dylib_path, "/v2.dylib");
}

#[test]
fn remove_hook() {
    let mut reg = HookRegistry::new();
    reg.register(HookEntry::new("a", "/a.dylib"));
    reg.register(HookEntry::new("b", "/b.dylib"));
    assert!(reg.remove("a"));
    assert_eq!(reg.hooks.len(), 1);
    assert!(!reg.remove("a"));
}

#[test]
fn find_replace_conflict() {
    let mut reg = HookRegistry::new();
    reg.register(HookEntry::new("hook-a", "/a.dylib").with_symbol(
        "sqlite3_prepare_v2",
        "replace",
        "a",
    ));
    reg.register(HookEntry::new("hook-b", "/b.dylib").with_symbol("some_fn", "attach", "b"));

    assert_eq!(
        reg.find_replace_conflict("sqlite3_prepare_v2", "hook-c"),
        Some("hook-a")
    );
    assert!(reg.find_replace_conflict("some_fn", "hook-c").is_none());
    assert!(
        reg.find_replace_conflict("sqlite3_prepare_v2", "hook-a")
            .is_none()
    );
}

#[test]
fn load_order_sorting() {
    let mut reg = HookRegistry::new();
    reg.register(HookEntry::new("b", "/b.dylib").with_load_order(2));
    reg.register(HookEntry::new("a", "/a.dylib").with_load_order(1));
    reg.register(HookEntry::new("c", "/c.dylib").with_load_order(3));
    let sorted = reg.hooks_by_load_order();
    assert_eq!(sorted[0].name, "a");
    assert_eq!(sorted[1].name, "b");
    assert_eq!(sorted[2].name, "c");
}

#[test]
fn all_hooked_symbols() {
    let mut reg = HookRegistry::new();
    reg.register(
        HookEntry::new("a", "/a.dylib")
            .with_symbol("fn1", "replace", "")
            .with_symbol("fn2", "attach", ""),
    );
    reg.register(HookEntry::new("b", "/b.dylib").with_symbol("fn3", "replace", ""));
    let syms = reg.all_hooked_symbols();
    assert_eq!(syms.len(), 3);
}

#[test]
fn symbols_come_hook_by_hook() {
    let mut reg = HookRegistry::new();
    reg.register(
        HookEntry::new("a", "/a.dylib")
            .with_symbol("fn1", "replace", "")
            .with_symbol("fn2", "attach", ""),
    );
    reg.register(HookEntry::new("b", "/b.dylib").with_symbol("fn3", "replace", ""));
    assert_eq!(
        reg.all_hooked_symbols(),
        vec![("a", "fn1", "replace"), ("a", "fn2", "attach"), ("b", "fn3", "replace")]
    );
    assert!(HookRegistry::default().all_hooked_symbols().is_empty());
}

#[test]
fn registering_keeps_the_position_and_the_other_hooks() {
    let mut reg = HookRegistry::new();
    reg.register(HookEntry::new("a", "/a.dylib"));
    reg.register(HookEntry::new("b", "/b.dylib"));
    reg.register(HookEntry::new("c", "/c.dylib"));
    reg.register(HookEntry::new("b", "/new.dylib"));
    let names: Vec<&str> = reg.hooks.iter().map(|h| h.name.as_str()).collect();
    assert_eq!(names, vec!["a", "b", "c"]);
    assert_eq!(reg.find("b").unwrap().dylib_path, "/new.dylib");
    assert_eq!(reg.find("a").unwrap().dylib_path, "/a.dylib");
    assert_eq!(reg.find("c").unwrap().dylib_path, "/c.dylib");
}

#[test]
fn removing_undoes_registering() {
    let mut reg = HookRegistry::new();
    reg.register(HookEntry::new("a", "/a.dylib"));
    reg.register(HookEntry::new("b", "/b.dylib"));
    assert!(reg.remove("b"));
    assert!(reg.find("b").is_none());
    assert_eq!(reg.hooks.len(), 1);
    assert_eq!(reg.find("a").unwrap().dylib_path, "/a.dylib");
}

#[test]
fn removing_takes_out_every_hook_of_the_name() {
    let mut reg = HookRegistry::new();
    reg.hooks.push(HookEntry::new("a", "/1.dylib"));
    reg.hooks.push(HookEntry::new("b", "/2.dylib"));
    reg.hooks.push(HookEntry::new("a", "/3.dylib"));
    assert_eq!(reg.find("a").unwrap().dylib_path, "/1.dylib");
    assert!(reg.remove("a"));
    let names: Vec<&str> = reg.hooks.iter().map(|h| h.name.as_str()).collect();
    assert_eq!(names, vec!["b"]);
}

#[test]
fn two_writers_are_both_kept() {
    let first = HookRegistry::locked_register(None, "zed-preview", HookEntry::new("a", "/a.dylib"));
    let both =
        HookRegistry::locked_register(Some(first), "zed-preview", HookEntry::new("b", "/b.dylib"));
    assert_eq!(both.app_id.as_deref(), Some("zed-preview"));
    assert_eq!(both.find("a").unwrap().dylib_path, "/a.dylib");
    assert_eq!(both.find("b").unwrap().dylib_path, "/b.dylib");
    assert_eq!(both.schema_version, 1);
}

#[test]
fn all_writers_are_kept() {
    let mut reg = HookRegistry::new();
    reg.register(HookEntry::new("old", "/old.dylib"));
    let mut now = Some(reg);
    for n in 0..9 {
        let entry = HookEntry::new(&format!("hook-{n}"), &format!("/{n}.dylib"));
        now = Some(HookRegistry::locked_register(now, "app", entry));
    }
    let reg = now.unwrap();
    for n in 0..9 {
        assert_eq!(reg.find(&format!("hook-{n}")).unwrap().dylib_path, format!("/{n}.dylib"));
    }
    assert_eq!(reg.find("old").unwrap().dylib_path, "/old.dylib");
    assert_eq!(reg.hooks.len(), 10);
}

#[test]
fn a_locked_registration_names_the_application() {
    let mut old = HookRegistry::new();
    old.app_id = Some("other".to_string());
    old.host_app = Some("/host".to_string());
    let reg = HookRegistry::locked_register(Some(old), "mine", HookEntry::new("a", "/a"));
    assert_eq!(reg.app_id.as_deref(), Some("mine"));
    assert_eq!(reg.host_app.as_deref(), Some("/host"));
}

#[test]
fn hooks_without_an_order_come_last_and_keep_theirs() {
    let mut reg = HookRegistry::new();
    reg.register(HookEntry::new("none-1", "/1"));
    reg.register(HookEntry::new("two", "/2").with_load_order(2));
    reg.register(HookEntry::new("none-2", "/3"));
    reg.register(HookEntry::new("one-1", "/4").with_load_order(1));
    reg.register(HookEntry::new("one-2", "/5").with_load_order(1));
    let names: Vec<String> = reg.hooks_by_load_order().iter().map(|h| h.name.clone()).collect();
    assert_eq!(names, vec!["one-1", "one-2", "two", "none-1", "none-2"]);
}

#[test]
fn only_replacing_hooks_of_others_conflict() {
    let mut reg = HookRegistry::new();
    reg.register(
        HookEntry::new("a", "/a")
            .with_symbol("f", "attach", "")
            .with_symbol("g", "replace", ""),
    );
    reg.register(HookEntry::new("b", "/b").with_symbol("f", "replace", ""));
    reg.register(HookEntry::new("c", "/c").with_symbol("f", "replace", ""));
    assert_eq!(reg.find_replace_conflict("f", "a"), Some("b"));
    assert_eq!(reg.find_replace_conflict("f", "b"), Some("c"));
    assert_eq!(reg.find_replace_conflict("g", "b"), Some("a"));
    assert_eq!(reg.find_replace_conflict("h", "b"), None);
}

#[test]
fn builders_fill_their_fields() {
    let check = HealthCheck::new("~/logs/*.log")
        .with_success("one")
        .with_success("two")
        .with_failure("bad")
        .with_timeout(7);
    let entry = HookEntry::new("n", "/d.dylib")
        .with_version("1.2")
        .with_features(&["x", "y"])
        .with_symbol("s", "attach", "why")
        .with_load_order(4)
        .with_log_path("/log")
        .with_health_check(check);
    assert_eq!(entry.name, "n");
    assert_eq!(entry.dylib_path, "/d.dylib");
    assert_eq!(entry.version.as_deref(), Some("1.2"));
    assert_eq!(entry.features, vec!["x", "y"]);
    assert_eq!(entry.hooked_symbols.len(), 1);
    assert_eq!(entry.hooked_symbols[0].symbol, "s");
    assert_eq!(entry.hooked_symbols[0].method, "attach");
    assert_eq!(entry.hooked_symbols[0].description.as_deref(), Some("why"));
    assert_eq!(entry.load_order, Some(4));
    assert_eq!(entry.log_path.as_deref(), Some("/log"));
    assert!(entry.installed_at.is_none());
    assert!(entry.artifact.is_none());
    let check = entry.health_check.unwrap();
    assert_eq!(check.log_glob, "~/logs/*.log");
    assert_eq!(check.success_markers, vec!["one", "two"]);
    assert_eq!(check.failure_markers, vec!["bad"]);
    assert_eq!(check.timeout_secs, 7);
}

#[test]
fn a_health_check_waits_fifteen_seconds_by_default() {
    assert_eq!(HealthCheck::new("x").timeout_secs, 15);
    assert_eq!(registry::default_verify_timeout(), 15);
}

#[test]
fn a_new_entry_has_no_extra_members_and_a_copy_keeps_them() {
    let mut entry = HookEntry::new("n", "/d");
    assert_eq!(entry.extra.len(), 0);
    entry
        .extra
        .insert("colour".to_string(), serde_json::Value::String("blue".to_string()));
    entry.artifact = Some(ArtifactInfo {
        sha256: "ab".to_string(),
        size: 3,
        patched_at: "then".to_string(),
        git_commit: None,
    });
    let copy = entry.clone();
    assert_eq!(copy.extra.len(), 1);
    assert_eq!(
        copy.extra.get("colour"),
        Some(&serde_json::Value::String("blue".to_string()))
    );
    assert_eq!(copy.artifact.unwrap().size, 3);
}

#[test]
fn registries_stand_below_the_home_directory() {
    let dir = registry::registry_dir_below("/Users/me", "zed-preview");
    assert_eq!(dir, "/Users/me/.config/dylib-hooks/zed-preview");
    assert_eq!(
        registry::registry_file(&dir),
        "/Users/me/.config/dylib-hooks/zed-preview/registry.json"
    );
    assert_eq!(
        registry::lock_file(&dir),
        "/Users/me/.config/dylib-hooks/zed-preview/registry.lock"
    );
    assert_ne!(dir, registry::registry_dir_below("/Users/me", "zed-stable"));
}

#[test]
fn there_is_a_registry_exactly_when_there_is_a_home_directory() {
    let dir = registry::registry_dir_for(Some("/Users/me".to_string()), "my-app");
    assert_eq!(dir.as_deref(), Some("/Users/me/.config/dylib-hooks/my-app"));
    assert_eq!(
        registry::registry_path_for(dir).as_deref(),
        Some("/Users/me/.config/dylib-hooks/my-app/registry.json")
    );
    assert!(registry::registry_dir_for(None, "my-app").is_none());
    assert!(registry::registry_path_for(None).is_none());
}

#[test]
fn the_registry_of_this_user_stands_below_some_home_directory() {
    match dirs::home_dir() {
        Some(home) => {
            let home = home.to_string_lossy().into_owned();
            assert_eq!(
                registry::registry_path("my-app").unwrap(),
                registry::registry_file(&registry::registry_dir_below(&home, "my-app"))
            );
            assert_eq!(
                registry::registry_dir("my-app").unwrap(),
                registry::registry_dir_below(&home, "my-app")
            );
        }
        None => {
            assert!(registry::registry_path("my-app").is_none());
            assert!(registry::registry_dir("my-app").is_none());
        }
    }
}
