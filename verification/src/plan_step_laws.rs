//! Laws of plans, said action by action and field by field.

use crate::plan::{self, ActionView, HookTargetView};
use crate::project::PatcherView;
use crate::registry::{self, ArtifactView, EntryView, RegistryView};
use crate::registry_field_laws;
use vstd::prelude::*;

verus! {

/// The entry that a patch registers is the project's template in everything but the dylib's path,
/// the time of installation and the artifact; without a template it has the project's name and
/// nothing else.
pub proof fn law_registered_entry_is_the_template(
    patcher: PatcherView,
    dylib: Seq<char>,
    installed_at: Seq<char>,
    artifact: ArtifactView,
)
    ensures
        ({
            let e = patcher.registered_entry(dylib, installed_at, artifact);
            &&& e.dylib_path == dylib
            &&& e.installed_at == Some(installed_at)
            &&& e.artifact == Some(artifact)
            &&& match patcher.project.registry_entry {
                Some(t) => {
                    &&& e.name == t.name
                    &&& e.version == t.version
                    &&& e.features == t.features
                    &&& e.hooked_symbols == t.hooked_symbols
                    &&& e.load_order == t.load_order
                    &&& e.log_path == t.log_path
                    &&& e.health_check == t.health_check
                    &&& e.extra == t.extra
                },
                None => {
                    &&& e.name == patcher.project.name
                    &&& e.version is None
                    &&& e.features.len() == 0
                    &&& e.hooked_symbols.len() == 0
                    &&& e.load_order is None
                    &&& e.log_path is None
                    &&& e.health_check is None
                    &&& e.extra == Map::<Seq<char>, Seq<char>>::empty()
                },
            }
        }),
{
}

/// A patch writes down the application, its path and the time; it keeps the registry's version, and
/// all hooks but the first of the registered name stay as they are, in their places.
pub proof fn law_update_changes_one_hook(
    patcher: PatcherView,
    loaded: Option<RegistryView>,
    dylib: Seq<char>,
    patched_at: Seq<char>,
    installed_at: Seq<char>,
    artifact: ArtifactView,
)
    ensures
        ({
            let now = patcher.updated_registry(loaded, dylib, patched_at, installed_at, artifact);
            let own = match patcher.project.registry_entry {
                Some(t) => t.name,
                None => patcher.project.name,
            };
            &&& now.app_id == Some(patcher.target.app_id)
            &&& now.host_app == Some(patcher.target.app_path)
            &&& now.last_patched == Some(patched_at)
            &&& match loaded {
                None => now.schema_version == 1 && now.hooks.len() == 1 && now.hooks[0].name == own
                    && now.hooks[0].dylib_path == dylib,
                Some(r) => {
                    &&& now.schema_version == r.schema_version
                    &&& exists|at: int|
                        {
                            &&& 0 <= at < now.hooks.len()
                            &&& (#[trigger] now.hooks[at]).name == own
                            &&& now.hooks[at].dylib_path == dylib
                            &&& now.hooks[at].installed_at == Some(installed_at)
                            &&& now.hooks[at].artifact == Some(artifact)
                            &&& at <= r.hooks.len()
                            &&& at < r.hooks.len() ==> r.hooks[at].name == own && now.hooks.len()
                                == r.hooks.len()
                            &&& at == r.hooks.len() ==> now.hooks.len() == at + 1
                            &&& forall|k: int|
                                0 <= k < at ==> (#[trigger] r.hooks[k]).name != own
                            &&& forall|k: int|
                                0 <= k < r.hooks.len() && k != at ==> #[trigger] now.hooks[k]
                                    == r.hooks[k]
                        }
                },
            }
        }),
{
    let now = patcher.updated_registry(loaded, dylib, patched_at, installed_at, artifact);
    let e = patcher.registered_entry(dylib, installed_at, artifact);
    law_registered_entry_is_the_template(patcher, dylib, installed_at, artifact);
    match loaded {
        None => {
            let none: Seq<EntryView> = seq![];
            registry_field_laws::law_register_changes_one_place(none, e);
            assert(now.hooks == registry::registered(none, e));
        },
        Some(r) => {
            registry::lemma_index_of(r.hooks, e.name, 0);
            let at = registry::index_of(r.hooks, e.name, 0);
            assert(now.hooks[at] == e);
        },
    }
}

/// Filtering, mapping and filtering again is one filter and one map.
proof fn lemma_filter_map_filter(
    s: Seq<EntryView>,
    first: spec_fn(EntryView) -> bool,
    as_target: spec_fn(EntryView) -> HookTargetView,
    second: spec_fn(HookTargetView) -> bool,
    both: spec_fn(EntryView) -> bool,
)
    requires
        forall|h: EntryView| #[trigger] both(h) == (first(h) && second(as_target(h))),
    ensures
        s.filter(first).map_values(as_target).filter(second) == s.filter(both).map_values(
            as_target,
        ),
    decreases s.len(),
{
    reveal(Seq::filter);
    if s.len() == 0 {
        assert(s.filter(first).map_values(as_target).filter(second) =~= s.filter(both).map_values(
            as_target,
        ));
    } else {
        let front = s.drop_last();
        let h = s.last();
        lemma_filter_map_filter(front, first, as_target, second, both);
        assert(both(h) == (first(h) && second(as_target(h))));
        let kept = front.filter(first);
        let mapped = kept.map_values(as_target);
        if first(h) {
            assert(s.filter(first) =~= kept.push(h));
            assert(kept.push(h).map_values(as_target) =~= mapped.push(as_target(h)));
            assert(mapped.push(as_target(h)).drop_last() =~= mapped);
            assert(mapped.push(as_target(h)).last() == as_target(h));
            if second(as_target(h)) {
                assert(mapped.push(as_target(h)).filter(second) =~= mapped.filter(second).push(
                    as_target(h),
                ));
                assert(front.filter(both).push(h).map_values(as_target) =~= front.filter(
                    both,
                ).map_values(as_target).push(as_target(h)));
            }
        }
    }
}

/// A patch injects, in load order, the registered hooks of other names whose dylibs exist, each with
/// its own dylib, and then the project's hook with its new dylib; those whose dylibs do not exist are
/// missing.
pub proof fn law_patch_injects_what_exists_in_load_order(
    patcher: PatcherView,
    dylib: Seq<char>,
    reg: RegistryView,
    existing: Seq<Seq<char>>,
)
    ensures
        ({
            let own = patcher.project.name;
            let hooks = patcher.hooks_to_inject(dylib, Some(reg), existing);
            &&& hooks.len() > 0
            &&& hooks.last() == (HookTargetView { name: own, path: dylib })
            &&& hooks.drop_last() == registry::by_load_order(reg.hooks).filter(
                |h: EntryView| h.name != own && existing.contains(h.dylib_path),
            ).map_values(|h: EntryView| HookTargetView { name: h.name, path: h.dylib_path })
            &&& plan::missing_of(plan::others_of(Some(reg), own), existing)
                == registry::by_load_order(reg.hooks).filter(
                |h: EntryView| h.name != own && !existing.contains(h.dylib_path),
            ).map_values(|h: EntryView| HookTargetView { name: h.name, path: h.dylib_path })
            &&& patcher.hooks_to_inject(dylib, None, existing) == seq![
                HookTargetView { name: own, path: dylib },
            ]
            &&& plan::missing_of(plan::others_of(None, own), existing).len() == 0
        }),
{
    reveal(Seq::filter);
    let own = patcher.project.name;
    let sorted = registry::by_load_order(reg.hooks);
    let hooks = patcher.hooks_to_inject(dylib, Some(reg), existing);
    let first = |h: EntryView| h.name != own;
    let as_target = |h: EntryView| HookTargetView { name: h.name, path: h.dylib_path };
    let there = |t: HookTargetView| existing.contains(t.path);
    let not_there = |t: HookTargetView| !existing.contains(t.path);
    let both = |h: EntryView| h.name != own && existing.contains(h.dylib_path);
    let both_not = |h: EntryView| h.name != own && !existing.contains(h.dylib_path);
    lemma_filter_map_filter(sorted, first, as_target, there, both);
    lemma_filter_map_filter(sorted, first, as_target, not_there, both_not);
    assert((|h: EntryView| plan::target_of(h)) =~= as_target);
    assert(hooks.drop_last() =~= plan::present_of(plan::others_of(Some(reg), own), existing));
    let none: Seq<HookTargetView> = seq![];
    assert(none.filter(there) =~= none);
    assert(none.filter(not_there) =~= none);
    assert(patcher.hooks_to_inject(dylib, None, existing) =~= seq![
        HookTargetView { name: own, path: dylib },
    ]);
}

/// A patch starts with a clean binary, injects one dylib after the other, and then signs, checks and
/// registers.
pub proof fn law_patch_action_by_action(
    patcher: PatcherView,
    dylib: Seq<char>,
    backup_exists: bool,
    reg: Option<RegistryView>,
    existing: Seq<Seq<char>>,
)
    ensures
        ({
            let actions = patcher.patch_actions(dylib, backup_exists, reg, existing);
            let hooks = patcher.hooks_to_inject(dylib, reg, existing);
            let n = hooks.len() as int;
            &&& actions.len() == n + 4
            &&& actions[0] == (if backup_exists {
                ActionView::RestoreBackup
            } else {
                ActionView::CreateBackup
            })
            &&& forall|i: int| 0 <= i < n ==> #[trigger] actions[1 + i] == ActionView::Inject(hooks[i])
            &&& actions[n + 1] == ActionView::Sign
            &&& actions[n + 2] == ActionView::VerifyInjected
            &&& actions[n + 3] == ActionView::UpdateRegistry
        }),
{
}

/// A removal starts with a clean binary, injects in load order the registered hooks of other names
/// whose dylibs exist, and then signs and takes the hook out of the registry.
pub proof fn law_removal_action_by_action(
    patcher: PatcherView,
    dylib: Seq<char>,
    backup_exists: bool,
    reg: Option<RegistryView>,
    existing: Seq<Seq<char>>,
)
    ensures
        ({
            let actions = patcher.remove_actions(backup_exists, reg, existing);
            let hooks = patcher.hooks_to_inject(dylib, reg, existing).drop_last();
            let n = hooks.len() as int;
            &&& actions.len() == n + 3
            &&& actions[0] == (if backup_exists {
                ActionView::RestoreBackup
            } else {
                ActionView::CreateBackup
            })
            &&& forall|i: int| 0 <= i < n ==> #[trigger] actions[1 + i] == ActionView::Inject(hooks[i])
            &&& actions[n + 1] == ActionView::Sign
            &&& actions[n + 2] == ActionView::Unregister
        }),
{
    let hooks = patcher.hooks_to_inject(dylib, reg, existing).drop_last();
    assert(hooks =~= plan::present_of(plan::others_of(reg, patcher.project.name), existing));
}

/// A restoration puts the backup back, signs and takes every hook out of the registry.
pub proof fn law_restoration_action_by_action()
    ensures
        plan::restore_actions() == seq![
            ActionView::RestoreBackup,
            ActionView::Sign,
            ActionView::ClearRegistry,
        ],
{
}

/// The result of a patch names the injected hooks in the order of injection.
pub proof fn law_result_names_the_injected_hooks(targets: Seq<HookTargetView>)
    ensures
        plan::names_of(targets).len() == targets.len(),
        forall|i: int|
            0 <= i < targets.len() ==> #[trigger] plan::names_of(targets)[i] == targets[i].name,
{
}

} // verus!
