//! The status report: what is injected, what is registered, and whether it is up to date.

use crate::artifact;
use crate::inject;
use crate::outside;
use crate::project::{Patcher, PatcherView};
use crate::registry::{self, HookEntry, HookRegistry, HookedSymbol};
use crate::text;
use vstd::prelude::*;

verus! {

/// The text of `s`, or `other` when there is none.
pub open spec fn text_or(s: Option<Seq<char>>, other: Seq<char>) -> Seq<char> {
    match s {
        Some(s) => s,
        None => other,
    }
}

/// The line that names a hook. A hook without a load order is shown with order 0.
pub open spec fn title_line(h: registry::EntryView) -> Seq<char> {
    "\n  "@ + h.name + " v"@ + text_or(h.version, "?"@) + " (order="@ + text::decimal(
        match h.load_order {
            Some(n) => n as nat,
            None => 0,
        },
    ) + ")"@
}

/// The line that names a symbol.
pub open spec fn symbol_line(s: registry::SymbolView) -> Seq<char> {
    "    hook: "@ + s.symbol + " ["@ + s.method + "] "@ + text_or(s.description, ""@)
}

/// The line that tells whether the dylib on disk is the one that was patched in.
pub open spec fn fresh_line(fresh: Option<bool>) -> Seq<char> {
    match fresh {
        Some(true) => "    artifact: up to date"@,
        Some(false) =>
            "    WARNING: dylib on disk has CHANGED since patching — re-patch needed"@,
        None => "    artifact: cannot verify (dylib missing?)"@,
    }
}

/// The line that identifies the dylib that was patched in.
pub open spec fn artifact_line(a: registry::ArtifactView) -> Seq<char> {
    "    artifact: sha256="@ + text::shortened(a.sha256, 16) + "... size="@ + text::decimal(
        a.size as nat,
    ) + " patched="@ + a.patched_at
}

/// The lines on the dylib that was patched in; there are none for a hook without an artifact.
pub open spec fn artifact_lines(h: registry::EntryView, fresh: Option<bool>) -> Seq<Seq<char>> {
    match h.artifact {
        Some(a) => seq![artifact_line(a)] + (match a.git_commit {
            Some(c) => seq!["    git: "@ + c],
            None => seq![],
        }) + seq![fresh_line(fresh)],
        None => seq![],
    }
}

/// The line on a health check.
pub open spec fn health_line(c: registry::CheckView) -> Seq<char> {
    "    health: log="@ + c.log_glob + ", markers="@ + text::decimal(c.success_markers.len())
        + ", timeout="@ + text::decimal(c.timeout_secs as nat) + "s"@
}

/// The lines on the health check; there are none for a hook without one.
pub open spec fn health_lines(h: registry::EntryView) -> Seq<Seq<char>> {
    match h.health_check {
        Some(c) => seq![health_line(c)],
        None => seq![],
    }
}

/// The lines on a hook: `features` is the list of its features as text, `fresh` tells whether the
/// dylib on disk is the one that was patched in.
pub open spec fn hook_report(
    h: registry::EntryView,
    features: Seq<char>,
    fresh: Option<bool>,
) -> Seq<Seq<char>> {
    seq![title_line(h), "    features: "@ + features, "    dylib: "@ + h.dylib_path]
        + h.hooked_symbols.map_values(|s: registry::SymbolView| symbol_line(s)) + artifact_lines(
        h,
        fresh,
    ) + health_lines(h)
}

/// Whether the dylib on disk is the one that was patched in: `data` is what the file holds, when it
/// can be read.
pub open spec fn is_fresh(h: registry::EntryView, data: Option<Seq<u8>>) -> Option<bool> {
    match (h.artifact, data) {
        (Some(a), Some(d)) => Some(a.sha256 == artifact::fingerprint(d)),
        _ => None,
    }
}

/// What the `i`-th file holds, when it can be read.
pub open spec fn data_at(dylibs: Seq<Option<Seq<u8>>>, i: int) -> Option<Seq<u8>> {
    if 0 <= i < dylibs.len() {
        dylibs[i]
    } else {
        None
    }
}

/// The lines on the first `n` of `hooks`; `dylibs` are their files.
pub open spec fn hooks_report(
    hooks: Seq<registry::EntryView>,
    dylibs: Seq<Option<Seq<u8>>>,
    n: int,
) -> Seq<Seq<char>>
    decreases n,
{
    if n <= 0 {
        seq![]
    } else {
        hooks_report(hooks, dylibs, n - 1) + hook_report(
            hooks[n - 1],
            outside::debug_list_of(hooks[n - 1].features),
            is_fresh(hooks[n - 1], data_at(dylibs, n - 1)),
        )
    }
}

/// The lines on the registry; `dylibs` are the files of its hooks in load order.
pub open spec fn registry_report(
    reg: Option<registry::RegistryView>,
    dylibs: Seq<Option<Seq<u8>>>,
) -> Seq<Seq<char>> {
    match reg {
        None => seq!["  (no registry file)"@],
        Some(r) => (match r.last_patched {
            Some(t) => seq!["  Last patched: "@ + t],
            None => seq![],
        }) + hooks_report(registry::by_load_order(r.hooks), dylibs, r.hooks.len() as int),
    }
}

impl PatcherView {
    /// The lines before the list of the added dylibs.
    pub open spec fn head_report(self, backup_exists: bool) -> Seq<Seq<char>> {
        seq![
            "App:     "@ + self.target.app_path,
            "Binary:  "@ + self.target.binary_path(),
            "Backup:  "@ + self.target.backup_path() + " ("@ + (if backup_exists {
                "exists"@
            } else {
                "missing"@
            }) + ")"@,
            "\nInjected hooks (otool):"@,
        ]
    }

    /// The lines on the application and its binary.
    pub open spec fn target_report(self, backup_exists: bool, injected: Seq<Seq<char>>) -> Seq<
        Seq<char>,
    > {
        self.head_report(backup_exists) + injected.map_values(|h: Seq<char>| "  "@ + h) + seq![
            "\nRegistry ("@ + self.target.app_id + "):"@,
        ]
    }
}

/// `s`, or `other` when there is none.
fn or_text(s: &Option<String>, other: &str) -> (r: String)
    ensures
        r@ == text_or(s.deep_view(), other@),
{
    match s {
        Some(s) => s.clone(),
        None => other.to_owned(),
    }
}

/// The line that names a hook.
fn title(hook: &HookEntry) -> (r: String)
    ensures
        r@ == title_line(hook@),
{
    let mut r = "\n  ".to_owned();
    r.append(hook.name.as_str());
    r.append(" v");
    r.append(or_text(&hook.version, "?").as_str());
    r.append(" (order=");
    let order: u64 = match hook.load_order {
        Some(n) => n as u64,
        None => 0,
    };
    r.append(text::decimal_text(order).as_str());
    r.append(")");
    r
}

/// The line that names a symbol.
fn symbol(s: &HookedSymbol) -> (r: String)
    ensures
        r@ == symbol_line(s@),
{
    let mut r = "    hook: ".to_owned();
    r.append(s.symbol.as_str());
    r.append(" [");
    r.append(s.method.as_str());
    r.append("] ");
    r.append(or_text(&s.description, "").as_str());
    r
}

/// Adds the lines on the dylib that was patched in.
fn add_artifact(lines: &mut Vec<String>, hook: &HookEntry, fresh: Option<bool>)
    ensures
        final(lines).deep_view() == old(lines).deep_view() + artifact_lines(hook@, fresh),
{
    let ghost before = lines.deep_view();
    match &hook.artifact {
        None => {
            assert(before + artifact_lines(hook@, fresh) =~= before);
        },
        Some(a) => {
            let mut r = "    artifact: sha256=".to_owned();
            r.append(text::shorten(a.sha256.as_str(), 16).as_str());
            r.append("... size=");
            r.append(text::decimal_text(a.size).as_str());
            r.append(" patched=");
            r.append(a.patched_at.as_str());
            lines.push(r);
            assert(lines.deep_view() =~= before.push(artifact_line(a@)));
            let ghost with_line = lines.deep_view();
            if let Some(c) = &a.git_commit {
                let mut g = "    git: ".to_owned();
                g.append(c.as_str());
                lines.push(g);
                assert(lines.deep_view() =~= with_line.push("    git: "@ + c@));
            }
            let ghost with_git = lines.deep_view();
            let f = match fresh {
                Some(true) => "    artifact: up to date",
                Some(false) =>
                    "    WARNING: dylib on disk has CHANGED since patching — re-patch needed",
                None => "    artifact: cannot verify (dylib missing?)",
            };
            lines.push(f.to_owned());
            assert(lines.deep_view() =~= with_git.push(fresh_line(fresh)));
            assert(lines.deep_view() =~= before + artifact_lines(hook@, fresh));
        },
    }
}

/// Adds the lines on the health check.
fn add_health(lines: &mut Vec<String>, hook: &HookEntry)
    ensures
        final(lines).deep_view() == old(lines).deep_view() + health_lines(hook@),
{
    let ghost before = lines.deep_view();
    if let Some(c) = &hook.health_check {
        let mut r = "    health: log=".to_owned();
        r.append(c.log_glob.as_str());
        r.append(", markers=");
        r.append(text::decimal_text(c.success_markers.len() as u64).as_str());
        r.append(", timeout=");
        r.append(text::decimal_text(c.timeout_secs as u64).as_str());
        r.append("s");
        lines.push(r);
        assert(lines.deep_view() =~= before.push(health_line(c@)));
    }
    assert(lines.deep_view() =~= before + health_lines(hook@));
}

/// The lines on a hook: `features` is the list of its features as text, `fresh` tells whether the
/// dylib on disk is the one that was patched in.
pub fn hook_lines(hook: &HookEntry, features: &str, fresh: Option<bool>) -> (r: Vec<String>)
    ensures
        r.deep_view() == hook_report(hook@, features@, fresh),
{
    let mut lines: Vec<String> = Vec::new();
    lines.push(title(hook));
    let mut f = "    features: ".to_owned();
    f.append(features);
    lines.push(f);
    let mut d = "    dylib: ".to_owned();
    d.append(hook.dylib_path.as_str());
    lines.push(d);
    let ghost start = seq![
        title_line(hook@),
        "    features: "@ + features@,
        "    dylib: "@ + hook@.dylib_path,
    ];
    let ghost all = hook@.hooked_symbols.map_values(|s: registry::SymbolView| symbol_line(s));
    assert(lines.deep_view() =~= start + all.take(0));
    let mut i: usize = 0;
    while i < hook.hooked_symbols.len()
        invariant
            all == hook@.hooked_symbols.map_values(|s: registry::SymbolView| symbol_line(s)),
            i <= hook.hooked_symbols@.len(),
            lines.deep_view() == start + all.take(i as int),
        decreases hook.hooked_symbols@.len() - i,
    {
        let ghost before = lines.deep_view();
        lines.push(symbol(&hook.hooked_symbols[i]));
        proof {
            assert(all[i as int] == symbol_line(hook.hooked_symbols@[i as int]@));
            assert(lines.deep_view() =~= before.push(all[i as int]));
            assert(start + all.take(i + 1) =~= before.push(all[i as int]));
        }
        i += 1;
    }
    assert(all.take(all.len() as int) =~= all);
    add_artifact(&mut lines, hook, fresh);
    add_health(&mut lines, hook);
    lines
}

/// Adds `more` to `lines`.
fn add_lines(lines: &mut Vec<String>, more: Vec<String>)
    ensures
        final(lines).deep_view() == old(lines).deep_view() + more.deep_view(),
{
    let ghost before = lines.deep_view();
    let ghost all = more.deep_view();
    let mut i: usize = 0;
    assert(before + all.take(0) =~= before);
    while i < more.len()
        invariant
            all == more.deep_view(),
            i <= more@.len(),
            lines.deep_view() == before + all.take(i as int),
        decreases more@.len() - i,
    {
        let ghost now = lines.deep_view();
        lines.push(more[i].clone());
        proof {
            assert(all[i as int] == more@[i as int]@);
            assert(lines.deep_view() =~= now.push(all[i as int]));
            assert(before + all.take(i + 1) =~= now.push(all[i as int]));
        }
        i += 1;
    }
    assert(all.take(all.len() as int) =~= all);
}

/// The lines on the registry; `dylibs` are the files of its hooks in load order, as far as they can
/// be read.
pub fn registry_lines(reg: Option<&HookRegistry>, dylibs: &Vec<Option<Vec<u8>>>) -> (r: Vec<String>)
    ensures
        r.deep_view() == registry_report(reg.deep_view(), dylibs.deep_view()),
{
    let mut lines: Vec<String> = Vec::new();
    match reg {
        None => {
            lines.push("  (no registry file)".to_owned());
            assert(lines.deep_view() =~= seq!["  (no registry file)"@]);
            lines
        },
        Some(reg) => {
            assert(lines.deep_view() =~= seq![]);
            if let Some(t) = &reg.last_patched {
                let mut l = "  Last patched: ".to_owned();
                l.append(t.as_str());
                lines.push(l);
                assert(lines.deep_view() =~= seq!["  Last patched: "@ + t@]);
            }
            let ghost start = lines.deep_view();
            let sorted = reg.hooks_by_load_order();
            let ghost hooks = registry::by_load_order(reg@.hooks);
            let ghost files = dylibs.deep_view();
            let mut i: usize = 0;
            assert(start + hooks_report(hooks, files, 0) =~= start);
            while i < sorted.len()
                invariant
                    hooks == sorted.deep_view(),
                    files == dylibs.deep_view(),
                    i <= sorted@.len(),
                    lines.deep_view() == start + hooks_report(hooks, files, i as int),
                decreases sorted@.len() - i,
            {
                let hook = sorted[i];
                let data: Option<&[u8]> = if i < dylibs.len() {
                    match &dylibs[i] {
                        Some(d) => Some(d.as_slice()),
                        None => None,
                    }
                } else {
                    None
                };
                let ghost before = hooks_report(hooks, files, i as int);
                proof {
                    assert(hooks[i as int] == hook@);
                    if i < dylibs@.len() {
                        assert(files[i as int] == dylibs@[i as int].deep_view());
                        if let Some(d) = dylibs@[i as int] {
                            assert(d.deep_view() =~= d@);
                        }
                    }
                }
                let fresh = artifact::check_artifact_stale(hook, data);
                assert(fresh == is_fresh(hook@, data_at(files, i as int)));
                let features = outside::debug_list(&hook.features);
                let more = hook_lines(hook, features.as_str(), fresh);
                let ghost added = more.deep_view();
                add_lines(&mut lines, more);
                assert(start + (before + added) =~= (start + before) + added);
                i += 1;
            }
            proof {
                lemma_sorted_len(reg@.hooks);
            }
            lines
        },
    }
}

/// Ordering keeps the number of hooks.
proof fn lemma_sorted_len(hooks: Seq<registry::EntryView>)
    ensures
        registry::by_load_order(hooks).len() == hooks.len(),
{
    crate::registry_laws::law_load_order(hooks);
    broadcast use vstd::seq_lib::group_to_multiset_ensures;

    assert(registry::by_load_order(hooks).to_multiset().len() == hooks.to_multiset().len());
}

impl Patcher {
    /// The lines before the list of the added dylibs, which need no outside program.
    pub fn head_lines(&self, backup_exists: bool) -> (r: Vec<String>)
        ensures
            r.deep_view() == self@.head_report(backup_exists),
    {
        let mut lines: Vec<String> = Vec::new();
        let mut app = "App:     ".to_owned();
        app.append(self.target.app_path.as_str());
        lines.push(app);
        let mut binary = "Binary:  ".to_owned();
        binary.append(self.target.binary_path().as_str());
        lines.push(binary);
        let mut backup = "Backup:  ".to_owned();
        backup.append(self.target.backup_path().as_str());
        backup.append(" (");
        backup.append(
            if backup_exists {
                "exists"
            } else {
                "missing"
            },
        );
        backup.append(")");
        lines.push(backup);
        lines.push("\nInjected hooks (otool):".to_owned());
        assert(lines.deep_view() =~= self@.head_report(backup_exists));
        lines
    }

    /// The lines on the application and its binary, in which `injected` are the added dylibs.
    pub fn target_lines(&self, backup_exists: bool, injected: &Vec<String>) -> (r: Vec<String>)
        ensures
            r.deep_view() == self@.target_report(backup_exists, injected.deep_view()),
    {
        let mut lines = self.head_lines(backup_exists);
        let ghost start = lines.deep_view();
        let ghost all = injected.deep_view().map_values(|h: Seq<char>| "  "@ + h);
        let mut i: usize = 0;
        assert(start + all.take(0) =~= start);
        while i < injected.len()
            invariant
                all == injected.deep_view().map_values(|h: Seq<char>| "  "@ + h),
                i <= injected@.len(),
                lines.deep_view() == start + all.take(i as int),
            decreases injected@.len() - i,
        {
            let ghost before = lines.deep_view();
            let mut l = "  ".to_owned();
            l.append(injected[i].as_str());
            lines.push(l);
            proof {
                assert(all[i as int] == "  "@ + injected@[i as int]@);
                assert(lines.deep_view() =~= before.push(all[i as int]));
                assert(start + all.take(i + 1) =~= before.push(all[i as int]));
            }
            i += 1;
        }
        assert(all.take(all.len() as int) =~= all);
        let ghost before = lines.deep_view();
        let mut title = "\nRegistry (".to_owned();
        title.append(self.target.app_id.as_str());
        title.append("):");
        lines.push(title);
        assert(lines.deep_view() =~= before.push("\nRegistry ("@ + self@.target.app_id + "):"@));
        assert(lines.deep_view() =~= self@.target_report(backup_exists, injected.deep_view()));
        lines
    }

    /// The status report, line by line: `otool_output` is what `otool -L` printed for the binary,
    /// `dylibs` are the files of the registered hooks in load order, as far as they can be read.
    pub fn status(
        &self,
        backup_exists: bool,
        otool_output: &[u8],
        reg: Option<&HookRegistry>,
        dylibs: &Vec<Option<Vec<u8>>>,
    ) -> (r: Vec<String>)
        ensures
            r.deep_view() == self@.target_report(
                backup_exists,
                inject::custom_dylibs_of(outside::lossy_text_of(otool_output@)),
            ) + registry_report(reg.deep_view(), dylibs.deep_view()),
    {
        let injected = self.list_injected(otool_output);
        let mut lines = self.target_lines(backup_exists, &injected);
        add_lines(&mut lines, registry_lines(reg, dylibs));
        lines
    }
}

/// The status of a hook tells whether its dylib on disk is the one that was patched in, and warns
/// when it is not.
pub proof fn law_status_tells_whether_the_dylib_changed(
    h: registry::EntryView,
    a: registry::ArtifactView,
    data: Seq<u8>,
    features: Seq<char>,
)
    requires
        h.artifact == Some(a),
    ensures
        hook_report(h, features, is_fresh(h, Some(data))).contains(
            if a.sha256 == artifact::fingerprint(data) {
                "    artifact: up to date"@
            } else {
                "    WARNING: dylib on disk has CHANGED since patching — re-patch needed"@
            },
        ),
{
    let fresh = is_fresh(h, Some(data));
    let start = seq![title_line(h), "    features: "@ + features, "    dylib: "@ + h.dylib_path]
        + h.hooked_symbols.map_values(|s: registry::SymbolView| symbol_line(s));
    let lines = artifact_lines(h, fresh);
    let all = hook_report(h, features, fresh);
    assert(lines[lines.len() - 1] == fresh_line(fresh));
    assert(all[start.len() + lines.len() - 1] == fresh_line(fresh));
}

} // verus!
