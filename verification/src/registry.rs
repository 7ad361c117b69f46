//! The hook registry: which hooks are injected into a host application, what they intercept, and
//! in which order they load.
//!
//! Several dylibs injected into one process have to coordinate, above all when two of them want to
//! replace the same function. The registry of a host application lists its hooks by name; it is
//! kept in `~/.config/dylib-hooks/{app_id}/registry.json`.

use crate::outside;
use crate::path;
use crate::text;
use vstd::prelude::*;

verus! {

/// The hooks of one host application.
#[derive(Debug)]
pub struct HookRegistry {
    pub schema_version: u32,
    /// Host application identifier (e.g., "zed-preview").
    pub app_id: Option<String>,
    /// Path to the host application.
    pub host_app: Option<String>,
    /// When the host application was last patched.
    pub last_patched: Option<String>,
    pub hooks: Vec<HookEntry>,
}

/// One hook of the registry.
#[derive(Debug)]
pub struct HookEntry {
    pub name: String,
    pub dylib_path: String,
    pub version: Option<String>,
    pub features: Vec<String>,
    pub hooked_symbols: Vec<HookedSymbol>,
    pub load_order: Option<u32>,
    pub installed_at: Option<String>,
    pub log_path: Option<String>,
    /// How to verify that the hook is loaded and working after the application restarts.
    pub health_check: Option<HealthCheck>,
    /// The dylib as it was when it was patched in.
    pub artifact: Option<ArtifactInfo>,
    /// Members of the registry file that have no field of their own.
    pub extra: serde_json::Map<String, serde_json::Value>,
}

/// Identity of a dylib at patch time, by which a later rebuild is noticed.
#[derive(Debug)]
pub struct ArtifactInfo {
    /// SHA-256 digest of the file, in lower-case hexadecimal.
    pub sha256: String,
    /// File size in bytes.
    pub size: u64,
    /// When the dylib was patched into the host binary (ISO 8601).
    pub patched_at: String,
    /// Git commit of the hook project, when known.
    pub git_commit: Option<String>,
}

/// How to verify that a hook is loaded and working after the host application restarts.
#[derive(Debug)]
pub struct HealthCheck {
    /// Pattern of the log file's path; `~/` at its start and `*` in its last component are expanded.
    pub log_glob: String,
    /// Texts that must all appear in the log after a fresh start. They are checked in order: earlier
    /// ones have to appear before later ones.
    pub success_markers: Vec<String>,
    /// Texts of which none may appear.
    pub failure_markers: Vec<String>,
    /// Seconds to wait for the markers after the application was launched.
    pub timeout_secs: u32,
}

/// A symbol that a hook intercepts.
#[derive(Debug)]
pub struct HookedSymbol {
    pub symbol: String,
    /// `"attach"` (a listener) or `"replace"` (a detour in place of the original).
    pub method: String,
    pub description: Option<String>,
}

/// What a [`HookRegistry`] holds.
#[verifier::ext_equal]
pub struct RegistryView {
    pub schema_version: u32,
    pub app_id: Option<Seq<char>>,
    pub host_app: Option<Seq<char>>,
    pub last_patched: Option<Seq<char>>,
    pub hooks: Seq<EntryView>,
}

/// What a [`HookEntry`] holds.
#[verifier::ext_equal]
pub struct EntryView {
    pub name: Seq<char>,
    pub dylib_path: Seq<char>,
    pub version: Option<Seq<char>>,
    pub features: Seq<Seq<char>>,
    pub hooked_symbols: Seq<SymbolView>,
    pub load_order: Option<u32>,
    pub installed_at: Option<Seq<char>>,
    pub log_path: Option<Seq<char>>,
    pub health_check: Option<CheckView>,
    pub artifact: Option<ArtifactView>,
    pub extra: Map<Seq<char>, Seq<char>>,
}

/// What an [`ArtifactInfo`] holds.
#[verifier::ext_equal]
pub struct ArtifactView {
    pub sha256: Seq<char>,
    pub size: u64,
    pub patched_at: Seq<char>,
    pub git_commit: Option<Seq<char>>,
}

/// What a [`HealthCheck`] holds.
#[verifier::ext_equal]
pub struct CheckView {
    pub log_glob: Seq<char>,
    pub success_markers: Seq<Seq<char>>,
    pub failure_markers: Seq<Seq<char>>,
    pub timeout_secs: u32,
}

/// What a [`HookedSymbol`] holds.
#[verifier::ext_equal]
pub struct SymbolView {
    pub symbol: Seq<char>,
    pub method: Seq<char>,
    pub description: Option<Seq<char>>,
}

impl DeepView for HookedSymbol {
    type V = SymbolView;

    open spec fn deep_view(&self) -> SymbolView {
        SymbolView {
            symbol: self.symbol@,
            method: self.method@,
            description: self.description.deep_view(),
        }
    }
}

impl View for HookedSymbol {
    type V = SymbolView;

    open spec fn view(&self) -> SymbolView {
        self.deep_view()
    }
}

impl DeepView for HealthCheck {
    type V = CheckView;

    open spec fn deep_view(&self) -> CheckView {
        CheckView {
            log_glob: self.log_glob@,
            success_markers: self.success_markers.deep_view(),
            failure_markers: self.failure_markers.deep_view(),
            timeout_secs: self.timeout_secs,
        }
    }
}

impl View for HealthCheck {
    type V = CheckView;

    open spec fn view(&self) -> CheckView {
        self.deep_view()
    }
}

impl DeepView for ArtifactInfo {
    type V = ArtifactView;

    open spec fn deep_view(&self) -> ArtifactView {
        ArtifactView {
            sha256: self.sha256@,
            size: self.size,
            patched_at: self.patched_at@,
            git_commit: self.git_commit.deep_view(),
        }
    }
}

impl View for ArtifactInfo {
    type V = ArtifactView;

    open spec fn view(&self) -> ArtifactView {
        self.deep_view()
    }
}

impl DeepView for HookEntry {
    type V = EntryView;

    open spec fn deep_view(&self) -> EntryView {
        EntryView {
            name: self.name@,
            dylib_path: self.dylib_path@,
            version: self.version.deep_view(),
            features: self.features.deep_view(),
            hooked_symbols: self.hooked_symbols.deep_view(),
            load_order: self.load_order,
            installed_at: self.installed_at.deep_view(),
            log_path: self.log_path.deep_view(),
            health_check: self.health_check.deep_view(),
            artifact: self.artifact.deep_view(),
            extra: outside::members(self.extra),
        }
    }
}

impl View for HookEntry {
    type V = EntryView;

    open spec fn view(&self) -> EntryView {
        self.deep_view()
    }
}

impl DeepView for HookRegistry {
    type V = RegistryView;

    open spec fn deep_view(&self) -> RegistryView {
        RegistryView {
            schema_version: self.schema_version,
            app_id: self.app_id.deep_view(),
            host_app: self.host_app.deep_view(),
            last_patched: self.last_patched.deep_view(),
            hooks: self.hooks.deep_view(),
        }
    }
}

impl View for HookRegistry {
    type V = RegistryView;

    open spec fn view(&self) -> RegistryView {
        self.deep_view()
    }
}

/// Copies `o`.
pub(crate) fn copy_option(o: &Option<String>) -> (r: Option<String>)
    ensures
        r.deep_view() == o.deep_view(),
{
    match o {
        Some(s) => Some(s.clone()),
        None => None,
    }
}

/// Copies `v` and the texts in it.
pub(crate) fn copy_texts(v: &Vec<String>) -> (r: Vec<String>)
    ensures
        r.deep_view() == v.deep_view(),
{
    let mut r: Vec<String> = Vec::new();
    let mut i: usize = 0;
    while i < v.len()
        invariant
            i <= v@.len(),
            r@.len() == i,
            forall|k: int| 0 <= k < i ==> r@[k]@ == v@[k]@,
        decreases v@.len() - i,
    {
        r.push(v[i].clone());
        i += 1;
    }
    assert(r.deep_view() =~= v.deep_view());
    r
}

impl Clone for HookedSymbol {
    fn clone(&self) -> (r: Self)
        ensures
            r@ == self@,
    {
        HookedSymbol {
            symbol: self.symbol.clone(),
            method: self.method.clone(),
            description: copy_option(&self.description),
        }
    }
}

impl Clone for HealthCheck {
    fn clone(&self) -> (r: Self)
        ensures
            r@ == self@,
    {
        HealthCheck {
            log_glob: self.log_glob.clone(),
            success_markers: copy_texts(&self.success_markers),
            failure_markers: copy_texts(&self.failure_markers),
            timeout_secs: self.timeout_secs,
        }
    }
}

impl Clone for ArtifactInfo {
    fn clone(&self) -> (r: Self)
        ensures
            r@ == self@,
    {
        ArtifactInfo {
            sha256: self.sha256.clone(),
            size: self.size,
            patched_at: self.patched_at.clone(),
            git_commit: copy_option(&self.git_commit),
        }
    }
}

/// Copies `v` and the symbols in it.
fn copy_symbols(v: &Vec<HookedSymbol>) -> (r: Vec<HookedSymbol>)
    ensures
        r.deep_view() == v.deep_view(),
{
    let mut r: Vec<HookedSymbol> = Vec::new();
    let mut i: usize = 0;
    while i < v.len()
        invariant
            i <= v@.len(),
            r@.len() == i,
            forall|k: int| 0 <= k < i ==> r@[k]@ == v@[k]@,
        decreases v@.len() - i,
    {
        r.push(v[i].clone());
        i += 1;
    }
    assert(r.deep_view() =~= v.deep_view());
    r
}

impl Clone for HookEntry {
    fn clone(&self) -> (r: Self)
        ensures
            r@ == self@,
    {
        HookEntry {
            name: self.name.clone(),
            dylib_path: self.dylib_path.clone(),
            version: copy_option(&self.version),
            features: copy_texts(&self.features),
            hooked_symbols: copy_symbols(&self.hooked_symbols),
            load_order: self.load_order,
            installed_at: copy_option(&self.installed_at),
            log_path: copy_option(&self.log_path),
            health_check: match &self.health_check {
                Some(c) => Some(c.clone()),
                None => None,
            },
            artifact: match &self.artifact {
                Some(a) => Some(a.clone()),
                None => None,
            },
            extra: self.extra.clone(),
        }
    }
}

impl Clone for HookRegistry {
    fn clone(&self) -> (r: Self)
        ensures
            r@ == self@,
    {
        let mut hooks: Vec<HookEntry> = Vec::new();
        let mut i: usize = 0;
        while i < self.hooks.len()
            invariant
                i <= self.hooks@.len(),
                hooks@.len() == i,
                forall|k: int| 0 <= k < i ==> hooks@[k]@ == self.hooks@[k]@,
            decreases self.hooks@.len() - i,
        {
            hooks.push(self.hooks[i].clone());
            i += 1;
        }
        assert(hooks.deep_view() =~= self.hooks.deep_view());
        HookRegistry {
            schema_version: self.schema_version,
            app_id: copy_option(&self.app_id),
            host_app: copy_option(&self.host_app),
            last_patched: copy_option(&self.last_patched),
            hooks,
        }
    }
}

/// The directory of an application's registry below the home directory.
pub open spec fn registry_dir_in(home: Seq<char>, app_id: Seq<char>) -> Seq<char> {
    path::joined(path::joined(path::joined(home, ".config"@), "dylib-hooks"@), app_id)
}

/// The registry file in its directory.
pub open spec fn registry_file_in(dir: Seq<char>) -> Seq<char> {
    path::joined(dir, "registry.json"@)
}

/// The directory of an application's registry below the home directory `home`.
pub fn registry_dir_below(home: &str, app_id: &str) -> (r: String)
    ensures
        r@ == registry_dir_in(home@, app_id@),
{
    let config = path::join(home, ".config");
    let all = path::join(config.as_str(), "dylib-hooks");
    path::join(all.as_str(), app_id)
}

/// The directory of an application's registry for the home directory that was found, if any: there
/// is one exactly when the user has a home directory.
pub fn registry_dir_for(home: Option<String>, app_id: &str) -> (r: Option<String>)
    ensures
        match home {
            Some(home) => r.deep_view() == Some(registry_dir_in(home@, app_id@)),
            None => r is None,
        },
{
    match home {
        Some(home) => Some(registry_dir_below(home.as_str(), app_id)),
        None => None,
    }
}

/// The directory of an application's registry, `~/.config/dylib-hooks/{app_id}`, for the home
/// directory that the environment names. There is none when the user has no home directory.
pub fn registry_dir(app_id: &str) -> (r: Option<String>)
    ensures
        r matches Some(p) ==> exists|home: Seq<char>|
            home.len() > 0 && p@ == #[trigger] registry_dir_in(home, app_id@),
{
    registry_dir_for(outside::home_dir(), app_id)
}

/// The registry file in the directory `dir`.
pub fn registry_file(dir: &str) -> (r: String)
    ensures
        r@ == registry_file_in(dir@),
{
    path::join(dir, "registry.json")
}

/// The file beside the registry file on which writers lock each other out.
pub fn lock_file(dir: &str) -> (r: String)
    ensures
        r@ == path::joined(dir@, "registry.lock"@),
{
    path::join(dir, "registry.lock")
}

/// The registry file of an application for the directory of its registry, if any: there is one
/// exactly when there is a directory.
pub fn registry_path_for(dir: Option<String>) -> (r: Option<String>)
    ensures
        match dir {
            Some(dir) => r.deep_view() == Some(registry_file_in(dir@)),
            None => r is None,
        },
{
    match dir {
        Some(dir) => Some(registry_file(dir.as_str())),
        None => None,
    }
}

/// The registry file of an application, `~/.config/dylib-hooks/{app_id}/registry.json`, for the
/// home directory that the environment names. There is none when the user has no home directory.
pub fn registry_path(app_id: &str) -> (r: Option<String>)
    ensures
        r matches Some(p) ==> exists|home: Seq<char>|
            home.len() > 0 && p@ == registry_file_in(#[trigger] registry_dir_in(home, app_id@)),
{
    registry_path_for(registry_dir(app_id))
}

/// The position of the first hook called `name`, from `from` on; the number of hooks when there is
/// none.
pub open spec fn index_of(hooks: Seq<EntryView>, name: Seq<char>, from: int) -> int
    decreases hooks.len() - from,
{
    if from < 0 || from >= hooks.len() {
        hooks.len() as int
    } else if hooks[from].name == name {
        from
    } else {
        index_of(hooks, name, from + 1)
    }
}

/// The first hook called `name`.
pub open spec fn found(hooks: Seq<EntryView>, name: Seq<char>) -> Option<EntryView> {
    let i = index_of(hooks, name, 0);
    if 0 <= i < hooks.len() {
        Some(hooks[i])
    } else {
        None
    }
}

/// The hooks with `entry` in the place of the first one of its name, or at the end when there is
/// none.
pub open spec fn registered(hooks: Seq<EntryView>, entry: EntryView) -> Seq<EntryView> {
    let i = index_of(hooks, entry.name, 0);
    if 0 <= i < hooks.len() {
        hooks.update(i, entry)
    } else {
        hooks.push(entry)
    }
}

/// The hooks that are not called `name`.
pub open spec fn without(hooks: Seq<EntryView>, name: Seq<char>) -> Seq<EntryView> {
    hooks.filter(|h: EntryView| h.name != name)
}

/// The hook replaces `symbol`.
pub open spec fn replaces(h: EntryView, symbol: Seq<char>) -> bool {
    exists|i: int|
        0 <= i < h.hooked_symbols.len() && (#[trigger] h.hooked_symbols[i]).symbol == symbol
            && h.hooked_symbols[i].method == "replace"@
}

/// The hook is another one than `mine` and replaces `symbol`.
pub open spec fn is_rival(h: EntryView, symbol: Seq<char>, mine: Seq<char>) -> bool {
    h.name != mine && replaces(h, symbol)
}

/// The name of the first hook, from `from` on, that is another one than `mine` and replaces
/// `symbol`.
pub open spec fn rival_from(
    hooks: Seq<EntryView>,
    symbol: Seq<char>,
    mine: Seq<char>,
    from: int,
) -> Option<Seq<char>>
    decreases hooks.len() - from,
{
    if from < 0 || from >= hooks.len() {
        None
    } else if is_rival(hooks[from], symbol, mine) {
        Some(hooks[from].name)
    } else {
        rival_from(hooks, symbol, mine, from + 1)
    }
}

/// The number by which hooks are ordered: hooks without a load order come last.
pub open spec fn order_key(h: EntryView) -> u32 {
    match h.load_order {
        Some(n) => n,
        None => u32::MAX,
    }
}

/// `e` put into `s` behind every hook that does not load after it.
pub open spec fn inserted_by_order(s: Seq<EntryView>, e: EntryView) -> Seq<EntryView>
    decreases s.len(),
{
    if s.len() == 0 || order_key(s.last()) <= order_key(e) {
        s.push(e)
    } else {
        inserted_by_order(s.drop_last(), e).push(s.last())
    }
}

/// The hooks by ascending load order; those of one load order stay in the order they have.
pub open spec fn by_load_order(hooks: Seq<EntryView>) -> Seq<EntryView>
    decreases hooks.len(),
{
    if hooks.len() == 0 {
        seq![]
    } else {
        inserted_by_order(by_load_order(hooks.drop_last()), hooks.last())
    }
}

/// The symbols of a hook, each with the hook's name and the method.
pub open spec fn symbols_of(h: EntryView) -> Seq<(Seq<char>, Seq<char>, Seq<char>)> {
    Seq::new(
        h.hooked_symbols.len(),
        |i: int| (h.name, h.hooked_symbols[i].symbol, h.hooked_symbols[i].method),
    )
}

/// The symbols of all hooks, one hook after the other.
pub open spec fn all_symbols(hooks: Seq<EntryView>) -> Seq<(Seq<char>, Seq<char>, Seq<char>)>
    decreases hooks.len(),
{
    if hooks.len() == 0 {
        seq![]
    } else {
        all_symbols(hooks.drop_last()) + symbols_of(hooks.last())
    }
}

/// The registry that a writer leaves who registers `entry` for the application `app_id`: `loaded` is
/// the registry that it found, if any.
pub open spec fn locked_registered(
    loaded: Option<RegistryView>,
    app_id: Seq<char>,
    entry: EntryView,
) -> RegistryView {
    let base = match loaded {
        Some(reg) => reg,
        None => empty_registry(),
    };
    RegistryView { app_id: Some(app_id), hooks: registered(base.hooks, entry), ..base }
}

/// What an empty registry holds.
pub open spec fn empty_registry() -> RegistryView {
    RegistryView {
        schema_version: 1,
        app_id: None,
        host_app: None,
        last_patched: None,
        hooks: seq![],
    }
}

/// `index_of` finds the first hook of a name, or none.
pub proof fn lemma_index_of(hooks: Seq<EntryView>, name: Seq<char>, from: int)
    requires
        0 <= from <= hooks.len(),
    ensures
        from <= index_of(hooks, name, from) <= hooks.len(),
        index_of(hooks, name, from) < hooks.len() ==> hooks[index_of(hooks, name, from)].name
            == name,
        forall|k: int| from <= k < index_of(hooks, name, from) ==> hooks[k].name != name,
    decreases hooks.len() - from,
{
    if from < hooks.len() && hooks[from].name != name {
        lemma_index_of(hooks, name, from + 1);
    }
}

/// Inserting by load order puts the hook at the position behind which only later ones stand.
proof fn lemma_inserted_at(s: Seq<EntryView>, e: EntryView, p: int)
    requires
        0 <= p <= s.len(),
        forall|k: int| p <= k < s.len() ==> order_key(s[k]) > order_key(e),
        0 < p ==> order_key(s[p - 1]) <= order_key(e),
    ensures
        inserted_by_order(s, e) == s.insert(p, e),
    decreases s.len() - p,
{
    if p == s.len() {
        assert(s.insert(p, e) =~= s.push(e));
    } else {
        assert(order_key(s.last()) > order_key(e));
        lemma_inserted_at(s.drop_last(), e, p);
        assert(s.drop_last().insert(p, e).push(s.last()) =~= s.insert(p, e));
    }
}

impl HookRegistry {
    /// Creates an empty registry.
    pub fn new() -> (r: Self)
        ensures
            r@ == empty_registry(),
    {
        let r = HookRegistry {
            schema_version: 1,
            app_id: None,
            host_app: None,
            last_patched: None,
            hooks: Vec::new(),
        };
        assert(r.hooks.deep_view() =~= seq![]);
        r
    }

    /// The position of the first hook called `name`, or the number of hooks.
    fn position(&self, name: &str) -> (r: usize)
        ensures
            r == index_of(self@.hooks, name@, 0),
            r <= self.hooks@.len(),
    {
        let mut i: usize = 0;
        while i < self.hooks.len()
            invariant
                i <= self.hooks@.len(),
                index_of(self@.hooks, name@, 0) == index_of(self@.hooks, name@, i as int),
            decreases self.hooks@.len() - i,
        {
            if text::text_eq(self.hooks[i].name.as_str(), name) {
                return i;
            }
            i += 1;
        }
        i
    }

    /// Registers a hook, or updates the hook of its name.
    pub fn register(&mut self, entry: HookEntry)
        ensures
            final(self)@ == (RegistryView {
                hooks: registered(old(self)@.hooks, entry@),
                ..old(self)@
            }),
    {
        let i: usize = self.position(entry.name.as_str());
        let ghost before = self@.hooks;
        let ghost e = entry@;
        if i < self.hooks.len() {
            self.hooks.set(i, entry);
            assert(self.hooks.deep_view() =~= before.update(i as int, e));
        } else {
            self.hooks.push(entry);
            assert(self.hooks.deep_view() =~= before.push(e));
        }
    }

    /// The update that a writer makes while it holds the registry lock: `loaded` is the registry as
    /// the file has it, or nothing when there is no readable file.
    pub fn locked_register(loaded: Option<HookRegistry>, app_id: &str, entry: HookEntry) -> (r:
        HookRegistry)
        ensures
            r@ == locked_registered(loaded.deep_view(), app_id@, entry@),
    {
        let mut reg = match loaded {
            Some(reg) => reg,
            None => HookRegistry::new(),
        };
        reg.app_id = Some(app_id.to_owned());
        reg.register(entry);
        reg
    }

    /// Removes the hooks called `name`. Returns whether there was one.
    pub fn remove(&mut self, name: &str) -> (r: bool)
        ensures
            final(self)@ == (RegistryView {
                hooks: without(old(self)@.hooks, name@),
                ..old(self)@
            }),
            r == (found(old(self)@.hooks, name@) is Some),
    {
        remove_named(&mut self.hooks, name)
    }

    /// Finds a hook by name.
    pub fn find(&self, name: &str) -> (r: Option<&HookEntry>)
        ensures
            r.deep_view() == found(self@.hooks, name@),
    {
        let i: usize = self.position(name);
        if i < self.hooks.len() {
            Some(&self.hooks[i])
        } else {
            None
        }
    }

    /// The name of the first hook that is not `my_hook_name` and replaces `symbol`.
    pub fn find_replace_conflict(&self, symbol: &str, my_hook_name: &str) -> (r: Option<&str>)
        ensures
            r.deep_view() == rival_from(self@.hooks, symbol@, my_hook_name@, 0),
    {
        let ghost all = self@.hooks;
        let mut i: usize = 0;
        while i < self.hooks.len()
            invariant
                i <= self.hooks@.len(),
                all == self@.hooks,
                rival_from(all, symbol@, my_hook_name@, 0) == rival_from(
                    all,
                    symbol@,
                    my_hook_name@,
                    i as int,
                ),
            decreases self.hooks@.len() - i,
        {
            let hook = &self.hooks[i];
            assert(all[i as int] == hook@);
            if !text::text_eq(hook.name.as_str(), my_hook_name) && hook_replaces(hook, symbol) {
                return Some(hook.name.as_str());
            }
            i += 1;
        }
        None
    }

    /// The hooks by ascending load order; hooks without one come last.
    pub fn hooks_by_load_order(&self) -> (r: Vec<&HookEntry>)
        ensures
            r.deep_view() == by_load_order(self@.hooks),
    {
        let ghost all = self@.hooks;
        let mut sorted: Vec<&HookEntry> = Vec::new();
        let mut i: usize = 0;
        assert(all.take(0) =~= seq![]);
        assert(sorted.deep_view() =~= seq![]);
        while i < self.hooks.len()
            invariant
                all == self@.hooks,
                i <= self.hooks@.len(),
                sorted@.len() == i,
                sorted.deep_view() == by_load_order(all.take(i as int)),
                forall|a: int, b: int|
                    0 <= a <= b < i ==> order_key(sorted@[a]@) <= order_key(sorted@[b]@),
            decreases self.hooks@.len() - i,
        {
            let hook = &self.hooks[i];
            let key: u32 = key_of(hook);
            let mut p: usize = i;
            while p > 0 && key_of(sorted[p - 1]) > key
                invariant
                    p <= i == sorted@.len(),
                    key == order_key(hook@),
                    forall|k: int| p <= k < i ==> order_key(sorted@[k]@) > key,
                decreases p,
            {
                p -= 1;
            }
            let ghost before = sorted.deep_view();
            proof {
                assert forall|k: int| p <= k < before.len() implies order_key(before[k])
                    > order_key(hook@) by {
                    assert(before[k] == sorted@[k]@);
                }
                if p > 0 {
                    assert(before[p - 1] == sorted@[p - 1]@);
                }
                lemma_inserted_at(before, hook@, p as int);
                assert(all.take(i + 1).drop_last() =~= all.take(i as int));
                assert(all.take(i + 1).last() == hook@);
            }
            sorted.insert(p, hook);
            assert(sorted.deep_view() =~= before.insert(p as int, hook@));
            i += 1;
        }
        assert(all.take(all.len() as int) =~= all);
        sorted
    }

    /// The symbols of all hooks: the hook's name, the symbol and the method of each.
    pub fn all_hooked_symbols(&self) -> (r: Vec<(&str, &str, &str)>)
        ensures
            r.deep_view() == all_symbols(self@.hooks),
    {
        let ghost all = self@.hooks;
        let mut r: Vec<(&str, &str, &str)> = Vec::new();
        let mut i: usize = 0;
        assert(all.take(0) =~= seq![]);
        assert(r.deep_view() =~= seq![]);
        while i < self.hooks.len()
            invariant
                all == self@.hooks,
                i <= self.hooks@.len(),
                r.deep_view() == all_symbols(all.take(i as int)),
            decreases self.hooks@.len() - i,
        {
            let hook = &self.hooks[i];
            let ghost before = r.deep_view();
            let ghost own = symbols_of(hook@);
            let mut j: usize = 0;
            assert(before + own.take(0) =~= before);
            while j < hook.hooked_symbols.len()
                invariant
                    j <= hook.hooked_symbols@.len(),
                    own == symbols_of(hook@),
                    r.deep_view() == before + own.take(j as int),
                decreases hook.hooked_symbols@.len() - j,
            {
                let s = &hook.hooked_symbols[j];
                let ghost now = r.deep_view();
                r.push((hook.name.as_str(), s.symbol.as_str(), s.method.as_str()));
                proof {
                    assert(own[j as int] == (hook.name@, s.symbol@, s.method@)) by {
                        assert(hook@.hooked_symbols[j as int] == s@);
                    }
                    assert(r.deep_view() =~= now.push(own[j as int]));
                    assert(own.take(j + 1) =~= own.take(j as int).push(own[j as int]));
                    assert(before + own.take(j as int).push(own[j as int]) =~= (before + own.take(
                        j as int,
                    )).push(own[j as int]));
                }
                j += 1;
            }
            proof {
                assert(own.take(own.len() as int) =~= own);
                assert(all.take(i + 1).drop_last() =~= all.take(i as int));
                assert(all.take(i + 1).last() == hook@);
            }
            i += 1;
        }
        assert(all.take(all.len() as int) =~= all);
        r
    }
}

/// Removes the hooks called `name` from `hooks`. Returns whether there was one.
fn remove_named(hooks: &mut Vec<HookEntry>, name: &str) -> (r: bool)
    ensures
        final(hooks).deep_view() == without(old(hooks).deep_view(), name@),
        r == (found(old(hooks).deep_view(), name@) is Some),
{
    let ghost all = hooks.deep_view();
    let ghost keep = |h: EntryView| h.name != name@;
    let ghost first = index_of(all, name@, 0);
    let n: usize = hooks.len();
    let mut i: usize = 0;
    let mut seen: usize = 0;
    let mut removed = false;
    proof {
        lemma_index_of(all, name@, 0);
        reveal(Seq::filter);
        assert(all.take(0).filter(keep) =~= seq![]);
        assert(hooks.deep_view() =~= all.take(0).filter(keep) + all.skip(0));
    }
    while seen < n
        invariant
            n == all.len(),
            keep == (|h: EntryView| h.name != name@),
            i <= seen <= n,
            hooks@.len() == i + (n - seen),
            all.take(seen as int).filter(keep).len() == i,
            hooks.deep_view() == all.take(seen as int).filter(keep) + all.skip(seen as int),
            0 <= first <= n,
            first < n ==> all[first].name == name@,
            forall|k: int| 0 <= k < first ==> all[k].name != name@,
            removed == (first < seen),
        decreases n - seen,
    {
        let ghost kept = all.take(seen as int).filter(keep);
        let ghost here = hooks.deep_view();
        proof {
            text::lemma_filter_step(all, seen as int, keep);
            assert(here[i as int] == all[seen as int]);
            assert(here[i as int] == hooks@[i as int]@);
        }
        if text::text_eq(hooks[i].name.as_str(), name) {
            hooks.remove(i);
            removed = true;
            proof {
                assert(hooks.deep_view() =~= here.remove(i as int));
                assert(here.remove(i as int) =~= kept + all.skip(seen + 1));
            }
        } else {
            i += 1;
            assert(here =~= kept.push(all[seen as int]) + all.skip(seen + 1));
        }
        seen += 1;
    }
    proof {
        assert(all.take(n as int) =~= all);
        assert(hooks.deep_view() =~= all.filter(keep));
    }
    removed
}

/// Whether the hook replaces `symbol`.
fn hook_replaces(hook: &HookEntry, symbol: &str) -> (r: bool)
    ensures
        r == replaces(hook@, symbol@),
{
    let mut i: usize = 0;
    while i < hook.hooked_symbols.len()
        invariant
            i <= hook.hooked_symbols@.len(),
            forall|k: int|
                0 <= k < i ==> !((#[trigger] hook@.hooked_symbols[k]).symbol == symbol@
                    && hook@.hooked_symbols[k].method == "replace"@),
        decreases hook.hooked_symbols@.len() - i,
    {
        let s = &hook.hooked_symbols[i];
        assert(hook@.hooked_symbols[i as int] == s@);
        if text::text_eq(s.symbol.as_str(), symbol) && text::text_eq(s.method.as_str(), "replace") {
            return true;
        }
        i += 1;
    }
    false
}

/// The number by which the hook is ordered.
fn key_of(hook: &HookEntry) -> (r: u32)
    ensures
        r == order_key(hook@),
{
    match hook.load_order {
        Some(n) => n,
        None => u32::MAX,
    }
}

impl Default for HookRegistry {
    fn default() -> (r: Self)
        ensures
            r@ == empty_registry(),
    {
        HookRegistry::new()
    }
}

/// Seconds to wait for a hook's markers when its health check names no other time.
pub fn default_verify_timeout() -> (r: u32)
    ensures
        r == 15,
{
    15
}

/// What a new entry holds.
pub open spec fn new_entry(name: Seq<char>, dylib_path: Seq<char>) -> EntryView {
    EntryView {
        name,
        dylib_path,
        version: None,
        features: seq![],
        hooked_symbols: seq![],
        load_order: None,
        installed_at: None,
        log_path: None,
        health_check: None,
        artifact: None,
        extra: outside::no_members(),
    }
}

impl HookEntry {
    /// Creates an entry with a name and a dylib path and nothing else.
    pub fn new(name: &str, dylib_path: &str) -> (r: Self)
        ensures
            r@ == new_entry(name@, dylib_path@),
    {
        let r = HookEntry {
            name: name.to_owned(),
            dylib_path: dylib_path.to_owned(),
            version: None,
            features: Vec::new(),
            hooked_symbols: Vec::new(),
            load_order: None,
            installed_at: None,
            log_path: None,
            health_check: None,
            artifact: None,
            extra: serde_json::Map::new(),
        };
        assert(r.features.deep_view() =~= seq![]);
        assert(r.hooked_symbols.deep_view() =~= seq![]);
        r
    }

    /// Adds a symbol that the hook intercepts.
    pub fn with_symbol(self, symbol: &str, method: &str, description: &str) -> (r: Self)
        ensures
            r@ == (EntryView {
                hooked_symbols: self@.hooked_symbols.push(
                    SymbolView {
                        symbol: symbol@,
                        method: method@,
                        description: Some(description@),
                    },
                ),
                ..self@
            }),
    {
        let mut r = self;
        r.hooked_symbols.push(
            HookedSymbol {
                symbol: symbol.to_owned(),
                method: method.to_owned(),
                description: Some(description.to_owned()),
            },
        );
        assert(r.hooked_symbols.deep_view() =~= self@.hooked_symbols.push(
            SymbolView { symbol: symbol@, method: method@, description: Some(description@) },
        ));
        r
    }

    /// Sets the features.
    pub fn with_features(self, features: &[&str]) -> (r: Self)
        ensures
            r@ == (EntryView { features: features@.map_values(|s: &str| s@), ..self@ }),
    {
        let mut r = self;
        let mut texts: Vec<String> = Vec::new();
        let mut i: usize = 0;
        while i < features.len()
            invariant
                i <= features@.len(),
                texts@.len() == i,
                forall|k: int| 0 <= k < i ==> texts@[k]@ == features@[k]@,
            decreases features@.len() - i,
        {
            texts.push(features[i].to_owned());
            i += 1;
        }
        assert(texts.deep_view() =~= features@.map_values(|s: &str| s@));
        r.features = texts;
        r
    }

    /// Sets the version.
    pub fn with_version(self, version: &str) -> (r: Self)
        ensures
            r@ == (EntryView { version: Some(version@), ..self@ }),
    {
        let mut r = self;
        r.version = Some(version.to_owned());
        r
    }

    /// Sets the load order.
    pub fn with_load_order(self, order: u32) -> (r: Self)
        ensures
            r@ == (EntryView { load_order: Some(order), ..self@ }),
    {
        let mut r = self;
        r.load_order = Some(order);
        r
    }

    /// Sets the path of the hook's log.
    pub fn with_log_path(self, path: &str) -> (r: Self)
        ensures
            r@ == (EntryView { log_path: Some(path@), ..self@ }),
    {
        let mut r = self;
        r.log_path = Some(path.to_owned());
        r
    }

    /// Sets the health check.
    pub fn with_health_check(self, check: HealthCheck) -> (r: Self)
        ensures
            r@ == (EntryView { health_check: Some(check@), ..self@ }),
    {
        let mut r = self;
        r.health_check = Some(check);
        r
    }
}

impl HealthCheck {
    /// Creates a health check without markers and with the default timeout.
    pub fn new(log_glob: &str) -> (r: Self)
        ensures
            r@ == (CheckView {
                log_glob: log_glob@,
                success_markers: seq![],
                failure_markers: seq![],
                timeout_secs: 15,
            }),
    {
        let r = HealthCheck {
            log_glob: log_glob.to_owned(),
            success_markers: Vec::new(),
            failure_markers: Vec::new(),
            timeout_secs: default_verify_timeout(),
        };
        assert(r.success_markers.deep_view() =~= seq![]);
        assert(r.failure_markers.deep_view() =~= seq![]);
        r
    }

    /// Adds a text that must appear in the log.
    pub fn with_success(self, marker: &str) -> (r: Self)
        ensures
            r@ == (CheckView { success_markers: self@.success_markers.push(marker@), ..self@ }),
    {
        let mut r = self;
        r.success_markers.push(marker.to_owned());
        assert(r.success_markers.deep_view() =~= self@.success_markers.push(marker@));
        r
    }

    /// Adds a text that must not appear in the log.
    pub fn with_failure(self, marker: &str) -> (r: Self)
        ensures
            r@ == (CheckView { failure_markers: self@.failure_markers.push(marker@), ..self@ }),
    {
        let mut r = self;
        r.failure_markers.push(marker.to_owned());
        assert(r.failure_markers.deep_view() =~= self@.failure_markers.push(marker@));
        r
    }

    /// Sets the time to wait for the markers.
    pub fn with_timeout(self, secs: u32) -> (r: Self)
        ensures
            r@ == (CheckView { timeout_secs: secs, ..self@ }),
    {
        let mut r = self;
        r.timeout_secs = secs;
        r
    }
}

} // verus!
