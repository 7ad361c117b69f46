//! What patching, removing and restoring do to the target, as lists of actions.
//!
//! A plan is made from what was seen of the target beforehand. Its actions are carried out one
//! after the other, and the first that fails ends it.

use crate::artifact;
use crate::error::PatchError;
use crate::outside;
use crate::project::{Patcher, PatcherView};
use crate::registry::{self, ArtifactInfo, HookEntry, HookRegistry};
use crate::text;
use vstd::prelude::*;

verus! {

/// A hook and the dylib that is injected for it.
#[derive(Debug)]
pub struct HookTarget {
    pub name: String,
    pub path: String,
}

/// What a [`HookTarget`] holds.
#[verifier::ext_equal]
pub struct HookTargetView {
    pub name: Seq<char>,
    pub path: Seq<char>,
}

impl DeepView for HookTarget {
    type V = HookTargetView;

    open spec fn deep_view(&self) -> HookTargetView {
        HookTargetView { name: self.name@, path: self.path@ }
    }
}

impl View for HookTarget {
    type V = HookTargetView;

    open spec fn view(&self) -> HookTargetView {
        self.deep_view()
    }
}

impl Clone for HookTarget {
    fn clone(&self) -> (r: Self)
        ensures
            r@ == self@,
    {
        HookTarget { name: self.name.clone(), path: self.path.clone() }
    }
}

/// One action of a plan.
#[derive(Debug)]
pub enum Action {
    /// Copies the binary to the backup path.
    CreateBackup,
    /// Copies the backup over the binary.
    RestoreBackup,
    /// Adds a dylib to the binary.
    Inject(HookTarget),
    /// Signs the bundle.
    Sign,
    /// Makes sure that the hook is in the binary.
    VerifyInjected,
    /// Registers the hook.
    UpdateRegistry,
    /// Takes the hook out of the registry.
    Unregister,
    /// Takes every hook out of the registry.
    ClearRegistry,
}

/// What an [`Action`] holds.
pub enum ActionView {
    CreateBackup,
    RestoreBackup,
    Inject(HookTargetView),
    Sign,
    VerifyInjected,
    UpdateRegistry,
    Unregister,
    ClearRegistry,
}

impl DeepView for Action {
    type V = ActionView;

    open spec fn deep_view(&self) -> ActionView {
        match *self {
            Action::CreateBackup => ActionView::CreateBackup,
            Action::RestoreBackup => ActionView::RestoreBackup,
            Action::Inject(t) => ActionView::Inject(t@),
            Action::Sign => ActionView::Sign,
            Action::VerifyInjected => ActionView::VerifyInjected,
            Action::UpdateRegistry => ActionView::UpdateRegistry,
            Action::Unregister => ActionView::Unregister,
            Action::ClearRegistry => ActionView::ClearRegistry,
        }
    }
}

/// The outcome of a patch.
#[derive(Debug)]
pub struct PatchResult {
    pub dylib_path: String,
    pub hooks_injected: Vec<String>,
    pub codesigned: bool,
    pub verified: bool,
}

/// A patch that is about to be carried out.
#[derive(Debug)]
pub struct PatchPlan {
    /// The dylib of the hook that is patched in.
    pub dylib: String,
    /// The hooks that are injected, in the order of injection.
    pub hooks: Vec<HookTarget>,
    /// The registered hooks that are left out because there is no dylib at their path.
    pub missing: Vec<HookTarget>,
    pub actions: Vec<Action>,
}

/// A registered hook with its dylib.
pub open spec fn target_of(h: registry::EntryView) -> HookTargetView {
    HookTargetView { name: h.name, path: h.dylib_path }
}

/// The registered hooks that are not called `own`, in load order.
pub open spec fn others_of(reg: Option<registry::RegistryView>, own: Seq<char>) -> Seq<
    HookTargetView,
> {
    match reg {
        Some(r) => registry::by_load_order(r.hooks).filter(
            |h: registry::EntryView| h.name != own,
        ).map_values(|h: registry::EntryView| target_of(h)),
        None => seq![],
    }
}

/// Those of `targets` that have a dylib.
pub open spec fn present_of(targets: Seq<HookTargetView>, existing: Seq<Seq<char>>) -> Seq<
    HookTargetView,
> {
    targets.filter(|t: HookTargetView| existing.contains(t.path))
}

/// Those of `targets` that have no dylib.
pub open spec fn missing_of(targets: Seq<HookTargetView>, existing: Seq<Seq<char>>) -> Seq<
    HookTargetView,
> {
    targets.filter(|t: HookTargetView| !existing.contains(t.path))
}

/// An injection for each of `targets`.
pub open spec fn injections(targets: Seq<HookTargetView>) -> Seq<ActionView> {
    targets.map_values(|t: HookTargetView| ActionView::Inject(t))
}

/// What makes the binary clean: the backup is made when there is none, and put back when there is
/// one.
pub open spec fn cleaning(backup_exists: bool) -> ActionView {
    if backup_exists {
        ActionView::RestoreBackup
    } else {
        ActionView::CreateBackup
    }
}

impl PatcherView {
    /// The hooks that a patch injects: the registered ones that have a dylib, in load order, and
    /// this one with its new dylib at the end.
    pub open spec fn hooks_to_inject(
        self,
        dylib: Seq<char>,
        reg: Option<registry::RegistryView>,
        existing: Seq<Seq<char>>,
    ) -> Seq<HookTargetView> {
        present_of(others_of(reg, self.project.name), existing).push(
            HookTargetView { name: self.project.name, path: dylib },
        )
    }

    /// The actions of a patch.
    pub open spec fn patch_actions(
        self,
        dylib: Seq<char>,
        backup_exists: bool,
        reg: Option<registry::RegistryView>,
        existing: Seq<Seq<char>>,
    ) -> Seq<ActionView> {
        seq![cleaning(backup_exists)] + injections(self.hooks_to_inject(dylib, reg, existing))
            + seq![ActionView::Sign, ActionView::VerifyInjected, ActionView::UpdateRegistry]
    }

    /// The actions of a removal.
    pub open spec fn remove_actions(
        self,
        backup_exists: bool,
        reg: Option<registry::RegistryView>,
        existing: Seq<Seq<char>>,
    ) -> Seq<ActionView> {
        seq![cleaning(backup_exists)] + injections(
            present_of(others_of(reg, self.project.name), existing),
        ) + seq![ActionView::Sign, ActionView::Unregister]
    }
}

/// The actions of a restoration.
pub open spec fn restore_actions() -> Seq<ActionView> {
    seq![ActionView::RestoreBackup, ActionView::Sign, ActionView::ClearRegistry]
}

/// Those of `targets` that have a dylib when `wanted`, else those that have none.
fn select(targets: &Vec<HookTarget>, existing: &Vec<String>, wanted: bool) -> (r: Vec<HookTarget>)
    ensures
        wanted ==> r.deep_view() == present_of(targets.deep_view(), existing.deep_view()),
        !wanted ==> r.deep_view() == missing_of(targets.deep_view(), existing.deep_view()),
{
    let ghost all = targets.deep_view();
    let ghost there = existing.deep_view();
    let ghost keep = if wanted {
        |t: HookTargetView| there.contains(t.path)
    } else {
        |t: HookTargetView| !there.contains(t.path)
    };
    let mut r: Vec<HookTarget> = Vec::new();
    let mut i: usize = 0;
    proof {
        reveal(Seq::filter);
        assert(all.take(0).filter(keep) =~= seq![]);
        assert(r.deep_view() =~= seq![]);
    }
    while i < targets.len()
        invariant
            all == targets.deep_view(),
            there == existing.deep_view(),
            forall|t: HookTargetView| #[trigger] keep(t) == (there.contains(t.path) == wanted),
            i <= targets@.len(),
            r.deep_view() == all.take(i as int).filter(keep),
        decreases targets@.len() - i,
    {
        let ghost before = r.deep_view();
        proof {
            text::lemma_filter_step(all, i as int, keep);
            assert(all[i as int] == targets@[i as int]@);
        }
        let paths = existing.as_slice();
        assert(paths.deep_view() =~= there);
        if text::holds(paths, targets[i].path.as_str()) == wanted {
            r.push(targets[i].clone());
            assert(r.deep_view() =~= before.push(all[i as int]));
        }
        i += 1;
    }
    assert(all.take(all.len() as int) =~= all);
    r
}

/// Adds an injection for each of `targets` to `actions`.
fn add_injections(actions: &mut Vec<Action>, targets: &Vec<HookTarget>)
    ensures
        final(actions).deep_view() == old(actions).deep_view() + injections(targets.deep_view()),
{
    let ghost before = actions.deep_view();
    let ghost all = injections(targets.deep_view());
    let mut i: usize = 0;
    assert(before + all.take(0) =~= before);
    while i < targets.len()
        invariant
            all == injections(targets.deep_view()),
            i <= targets@.len(),
            actions.deep_view() == before + all.take(i as int),
        decreases targets@.len() - i,
    {
        let ghost now = actions.deep_view();
        let t = targets[i].clone();
        actions.push(Action::Inject(t));
        proof {
            assert(all[i as int] == ActionView::Inject(t@));
            assert(actions.deep_view() =~= now.push(all[i as int]));
            assert(before + all.take(i + 1) =~= now.push(all[i as int]));
        }
        i += 1;
    }
    assert(all.take(all.len() as int) =~= all);
}

impl Patcher {
    /// What makes the binary clean: a backup that exists is put back, and where there is none the
    /// binary is copied to one.
    pub fn ensure_clean_binary(&self, backup_exists: bool) -> (r: Action)
        ensures
            r.deep_view() == cleaning(backup_exists),
    {
        if backup_exists {
            Action::RestoreBackup
        } else {
            Action::CreateBackup
        }
    }

    /// The registered hooks that are not this one, in load order. A patch and a removal have to
    /// know which of their paths exist.
    pub fn other_hooks(&self, reg: Option<&HookRegistry>) -> (r: Vec<HookTarget>)
        ensures
            r.deep_view() == others_of(reg.deep_view(), self@.project.name),
    {
        let mut r: Vec<HookTarget> = Vec::new();
        match reg {
            None => {
                assert(r.deep_view() =~= seq![]);
                r
            },
            Some(reg) => {
                let sorted = reg.hooks_by_load_order();
                let ghost own = self@.project.name;
                let ghost all = sorted.deep_view();
                let ghost keep = |h: registry::EntryView| h.name != own;
                let ghost as_target = |h: registry::EntryView| target_of(h);
                let mut i: usize = 0;
                proof {
                    reveal(Seq::filter);
                    assert(all.take(0).filter(keep) =~= seq![]);
                    assert(r.deep_view() =~= all.take(0).filter(keep).map_values(as_target));
                }
                while i < sorted.len()
                    invariant
                        all == sorted.deep_view(),
                        own == self.project.name@,
                        keep == (|h: registry::EntryView| h.name != own),
                        as_target == (|h: registry::EntryView| target_of(h)),
                        i <= sorted@.len(),
                        r.deep_view() == all.take(i as int).filter(keep).map_values(as_target),
                    decreases sorted@.len() - i,
                {
                    let hook = sorted[i];
                    let ghost before = r.deep_view();
                    proof {
                        text::lemma_filter_step(all, i as int, keep);
                        assert(all[i as int] == hook@);
                    }
                    if !text::text_eq(hook.name.as_str(), self.project.name.as_str()) {
                        r.push(HookTarget { name: hook.name.clone(), path: hook.dylib_path.clone() });
                        proof {
                            assert(r.deep_view() =~= before.push(target_of(hook@)));
                            assert(all.take(i + 1).filter(keep).map_values(as_target)
                                =~= before.push(target_of(hook@)));
                        }
                    }
                    i += 1;
                }
                assert(all.take(all.len() as int) =~= all);
                r
            },
        }
    }

    /// Plans a patch with the dylib at `dylib_path`: the clean binary is put in place, every
    /// registered hook that has a dylib is injected, this one at the end, and the bundle is signed,
    /// checked and registered. `existing` names the paths at which there is a file.
    pub fn patch(
        &self,
        dylib_path: &str,
        app_exists: bool,
        backup_exists: bool,
        reg: Option<&HookRegistry>,
        existing: &Vec<String>,
    ) -> (r: Result<PatchPlan, PatchError>)
        ensures
            match r {
                Ok(plan) => {
                    &&& app_exists
                    &&& plan.dylib@ == dylib_path@
                    &&& plan.hooks.deep_view() == self@.hooks_to_inject(
                        dylib_path@,
                        reg.deep_view(),
                        existing.deep_view(),
                    )
                    &&& plan.missing.deep_view() == missing_of(
                        others_of(reg.deep_view(), self@.project.name),
                        existing.deep_view(),
                    )
                    &&& plan.actions.deep_view() == self@.patch_actions(
                        dylib_path@,
                        backup_exists,
                        reg.deep_view(),
                        existing.deep_view(),
                    )
                },
                Err(PatchError::AppNotFound(p)) => !app_exists && p@ == self@.target.app_path,
                Err(_) => false,
            },
    {
        if !app_exists {
            return Err(PatchError::AppNotFound(self.target.app_path.clone()));
        }
        let others = self.other_hooks(reg);
        let missing = select(&others, existing, false);
        let mut hooks = select(&others, existing, true);
        let ghost present = hooks.deep_view();
        hooks.push(HookTarget { name: self.project.name.clone(), path: dylib_path.to_owned() });
        assert(hooks.deep_view() =~= present.push(
            HookTargetView { name: self@.project.name, path: dylib_path@ },
        ));
        let mut actions: Vec<Action> = Vec::new();
        actions.push(self.ensure_clean_binary(backup_exists));
        assert(actions.deep_view() =~= seq![cleaning(backup_exists)]);
        add_injections(&mut actions, &hooks);
        let ghost before = actions.deep_view();
        actions.push(Action::Sign);
        actions.push(Action::VerifyInjected);
        actions.push(Action::UpdateRegistry);
        assert(actions.deep_view() =~= before
            + seq![ActionView::Sign, ActionView::VerifyInjected, ActionView::UpdateRegistry]);
        Ok(PatchPlan { dylib: dylib_path.to_owned(), hooks, missing, actions })
    }

    /// Plans the removal of this hook: the clean binary is put in place and every other registered
    /// hook that has a dylib is injected anew.
    pub fn remove_self(
        &self,
        backup_exists: bool,
        reg: Option<&HookRegistry>,
        existing: &Vec<String>,
    ) -> (r: Vec<Action>)
        ensures
            r.deep_view() == self@.remove_actions(
                backup_exists,
                reg.deep_view(),
                existing.deep_view(),
            ),
    {
        let others = self.other_hooks(reg);
        let hooks = select(&others, existing, true);
        let mut actions: Vec<Action> = Vec::new();
        actions.push(self.ensure_clean_binary(backup_exists));
        assert(actions.deep_view() =~= seq![cleaning(backup_exists)]);
        add_injections(&mut actions, &hooks);
        let ghost before = actions.deep_view();
        actions.push(Action::Sign);
        actions.push(Action::Unregister);
        assert(actions.deep_view() =~= before + seq![ActionView::Sign, ActionView::Unregister]);
        actions
    }

    /// Plans the restoration of the unpatched binary, for which there has to be a backup.
    pub fn restore(&self, backup_exists: bool) -> (r: Result<Vec<Action>, PatchError>)
        ensures
            match r {
                Ok(actions) => backup_exists && actions.deep_view() == restore_actions(),
                Err(PatchError::NoBackup(p)) => !backup_exists && p@ == self@.target.backup_path(),
                Err(_) => false,
            },
    {
        if !backup_exists {
            return Err(PatchError::NoBackup(self.target.backup_path()));
        }
        let mut actions: Vec<Action> = Vec::new();
        actions.push(Action::RestoreBackup);
        actions.push(Action::Sign);
        actions.push(Action::ClearRegistry);
        assert(actions.deep_view() =~= restore_actions());
        Ok(actions)
    }
}

/// The names of `targets`.
pub open spec fn names_of(targets: Seq<HookTargetView>) -> Seq<Seq<char>> {
    targets.map_values(|t: HookTargetView| t.name)
}

impl PatchPlan {
    /// The outcome of the plan once all its actions have succeeded.
    pub fn result(&self) -> (r: PatchResult)
        ensures
            r.dylib_path@ == self.dylib@,
            r.hooks_injected.deep_view() == names_of(self.hooks.deep_view()),
            r.codesigned,
            r.verified,
    {
        let mut names: Vec<String> = Vec::new();
        let mut i: usize = 0;
        while i < self.hooks.len()
            invariant
                i <= self.hooks@.len(),
                names@.len() == i,
                forall|k: int| 0 <= k < i ==> names@[k]@ == self.hooks@[k].name@,
            decreases self.hooks@.len() - i,
        {
            names.push(self.hooks[i].name.clone());
            i += 1;
        }
        assert(names.deep_view() =~= names_of(self.hooks.deep_view()));
        PatchResult {
            dylib_path: self.dylib.clone(),
            hooks_injected: names,
            codesigned: true,
            verified: true,
        }
    }
}

/// The registry that was loaded, or an empty one.
pub open spec fn loaded_or_empty(loaded: Option<registry::RegistryView>) -> registry::RegistryView {
    match loaded {
        Some(r) => r,
        None => registry::empty_registry(),
    }
}

impl PatcherView {
    /// The entry that a patch registers: the project's template, or an entry of the project's name,
    /// with the dylib, the time and the artifact filled in.
    pub open spec fn registered_entry(
        self,
        dylib: Seq<char>,
        installed_at: Seq<char>,
        artifact: registry::ArtifactView,
    ) -> registry::EntryView {
        let base = match self.project.registry_entry {
            Some(e) => e,
            None => registry::new_entry(self.project.name, ""@),
        };
        registry::EntryView {
            dylib_path: dylib,
            installed_at: Some(installed_at),
            artifact: Some(artifact),
            ..base
        }
    }

    /// The registry after a patch.
    pub open spec fn updated_registry(
        self,
        loaded: Option<registry::RegistryView>,
        dylib: Seq<char>,
        patched_at: Seq<char>,
        installed_at: Seq<char>,
        artifact: registry::ArtifactView,
    ) -> registry::RegistryView {
        let base = loaded_or_empty(loaded);
        registry::RegistryView {
            app_id: Some(self.target.app_id),
            host_app: Some(self.target.app_path),
            last_patched: Some(patched_at),
            hooks: registry::registered(
                base.hooks,
                self.registered_entry(dylib, installed_at, artifact),
            ),
            ..base
        }
    }
}

impl Patcher {
    /// The registry after a patch with the dylib at `dylib_path`: `loaded` is the registry as the
    /// file has it, when there is one.
    pub fn updated_registry(
        &self,
        loaded: Option<HookRegistry>,
        dylib_path: &str,
        patched_at: String,
        installed_at: String,
        artifact: ArtifactInfo,
    ) -> (r: HookRegistry)
        ensures
            r@ == self@.updated_registry(
                loaded.deep_view(),
                dylib_path@,
                patched_at@,
                installed_at@,
                artifact@,
            ),
    {
        let mut reg = match loaded {
            Some(reg) => reg,
            None => HookRegistry::new(),
        };
        reg.app_id = Some(self.target.app_id.clone());
        reg.host_app = Some(self.target.app_path.clone());
        reg.last_patched = Some(patched_at);
        let mut entry = match &self.project.registry_entry {
            Some(e) => e.clone(),
            None => HookEntry::new(self.project.name.as_str(), ""),
        };
        entry.dylib_path = dylib_path.to_owned();
        entry.installed_at = Some(installed_at);
        entry.artifact = Some(artifact);
        reg.register(entry);
        reg
    }

    /// The registry after a patch that is done now: `data` is what the dylib at `dylib_path` holds,
    /// and `git_output` what `git rev-parse` printed, when it succeeded.
    pub fn update_registry(
        &self,
        loaded: Option<HookRegistry>,
        dylib_path: &str,
        data: &[u8],
        git_output: Option<&[u8]>,
    ) -> (r: HookRegistry)
        ensures
            exists|patched_at: Seq<char>, installed_at: Seq<char>, a: registry::ArtifactView|
                {
                    &&& r@ == #[trigger] self@.updated_registry(
                        loaded.deep_view(),
                        dylib_path@,
                        patched_at,
                        installed_at,
                        a,
                    )
                    &&& outside::is_utc(patched_at)
                    &&& outside::is_utc(installed_at)
                    &&& outside::is_utc(a.patched_at)
                    &&& a.sha256 == artifact::fingerprint(data@)
                    &&& a.sha256.len() == 64
                    &&& a.size == data@.len()
                    &&& a.git_commit == (match git_output {
                        Some(o) => Some(text::trimmed(outside::lossy_text_of(o@))),
                        None => None,
                    })
                },
    {
        let patched_at = outside::utc_now();
        let installed_at = outside::utc_now();
        let info = artifact::compute_artifact_info(data, git_output);
        self.updated_registry(loaded, dylib_path, patched_at, installed_at, info)
    }

    /// The registry without this hook, when there is a registry.
    pub fn unregistered(&self, loaded: Option<HookRegistry>) -> (r: Option<HookRegistry>)
        ensures
            r.deep_view() == (match loaded {
                Some(reg) => Some(
                    registry::RegistryView {
                        hooks: registry::without(reg@.hooks, self@.project.name),
                        ..reg@
                    },
                ),
                None => None,
            }),
    {
        match loaded {
            Some(reg) => {
                let mut kept = reg;
                kept.remove(self.project.name.as_str());
                Some(kept)
            },
            None => None,
        }
    }
}

/// The registry without hooks, when there is a registry.
pub fn cleared(loaded: Option<HookRegistry>) -> (r: Option<HookRegistry>)
    ensures
        r.deep_view() == (match loaded {
            Some(reg) => Some(registry::RegistryView { hooks: seq![], ..reg@ }),
            None => None,
        }),
{
    match loaded {
        Some(reg) => {
            let mut kept = reg;
            kept.hooks.clear();
            assert(kept.hooks.deep_view() =~= seq![]);
            Some(kept)
        },
        None => None,
    }
}

} // verus!
