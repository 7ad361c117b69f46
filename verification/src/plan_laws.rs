//! Laws of patching, removing and restoring: what their plans do to the host application.

use crate::plan::{self, ActionView, HookTargetView};
use crate::project::PatcherView;
use crate::registry::{self, EntryView};
use crate::registry_laws;
use vstd::prelude::*;

verus! {

/// The host application as the actions of a plan see it.
#[verifier::ext_equal]
pub struct HostView {
    /// The dylibs in the binary, in the order in which they are loaded.
    pub binary: Seq<Seq<char>>,
    /// The dylibs in the backup of the binary, when there is one.
    pub backup: Option<Seq<Seq<char>>>,
    /// Whether the bundle was signed after the last change of the binary.
    pub signed: bool,
}

/// The host after an action has succeeded.
pub open spec fn after(host: HostView, action: ActionView) -> HostView {
    match action {
        ActionView::CreateBackup => HostView { backup: Some(host.binary), ..host },
        ActionView::RestoreBackup => match host.backup {
            Some(clean) => HostView { binary: clean, signed: false, ..host },
            None => host,
        },
        ActionView::Inject(t) => HostView {
            binary: host.binary.push(t.path),
            signed: false,
            ..host
        },
        ActionView::Sign => HostView { signed: true, ..host },
        _ => host,
    }
}

/// The host after a list of actions.
pub open spec fn after_all(host: HostView, actions: Seq<ActionView>) -> HostView
    decreases actions.len(),
{
    if actions.len() == 0 {
        host
    } else {
        after(after_all(host, actions.drop_last()), actions.last())
    }
}

/// The dylibs of the unpatched binary: those of the backup, or of the binary when none was made yet.
pub open spec fn clean_of(host: HostView) -> Seq<Seq<char>> {
    match host.backup {
        Some(clean) => clean,
        None => host.binary,
    }
}

/// The dylibs of `targets`.
pub open spec fn paths_of(targets: Seq<HookTargetView>) -> Seq<Seq<char>> {
    targets.map_values(|t: HookTargetView| t.path)
}

proof fn lemma_after_all_push(host: HostView, actions: Seq<ActionView>, action: ActionView)
    ensures
        after_all(host, actions.push(action)) == after(after_all(host, actions), action),
{
    assert(actions.push(action).drop_last() =~= actions);
}

proof fn lemma_after_injections(
    host: HostView,
    actions: Seq<ActionView>,
    targets: Seq<HookTargetView>,
)
    ensures
        ({
            let before = after_all(host, actions);
            let now = after_all(host, actions + plan::injections(targets));
            &&& now.binary == before.binary + paths_of(targets)
            &&& now.backup == before.backup
        }),
    decreases targets.len(),
{
    let before = after_all(host, actions);
    if targets.len() == 0 {
        assert(actions + plan::injections(targets) =~= actions);
        assert(before.binary + paths_of(targets) =~= before.binary);
    } else {
        let front = targets.drop_last();
        lemma_after_injections(host, actions, front);
        let all = actions + plan::injections(front);
        lemma_after_all_push(host, all, ActionView::Inject(targets.last()));
        assert(actions + plan::injections(targets) =~= all.push(
            ActionView::Inject(targets.last()),
        ));
        assert(before.binary + paths_of(targets) =~= (before.binary + paths_of(front)).push(
            targets.last().path,
        ));
    }
}

/// What a cleaning, injections and a signature do, with further actions that leave the host alone.
proof fn lemma_after_clean_injections(
    host: HostView,
    targets: Seq<HookTargetView>,
    rest: Seq<ActionView>,
)
    requires
        forall|i: int|
            0 <= i < rest.len() ==> (#[trigger] rest[i]) is VerifyInjected || rest[i] is UpdateRegistry
                || rest[i] is Unregister,
    ensures
        after_all(
            host,
            seq![plan::cleaning(host.backup is Some)] + plan::injections(targets)
                + seq![ActionView::Sign] + rest,
        ) == (HostView {
            binary: clean_of(host) + paths_of(targets),
            backup: Some(clean_of(host)),
            signed: true,
        }),
    decreases rest.len(),
{
    let start = seq![plan::cleaning(host.backup is Some)];
    let injected = start + plan::injections(targets);
    let signed = injected + seq![ActionView::Sign];
    if rest.len() == 0 {
        lemma_after_all_push(host, seq![], plan::cleaning(host.backup is Some));
        assert(Seq::<ActionView>::empty().push(plan::cleaning(host.backup is Some)) =~= start);
        assert(after_all(host, seq![]) == host);
        lemma_after_injections(host, start, targets);
        lemma_after_all_push(host, injected, ActionView::Sign);
        assert(signed =~= injected.push(ActionView::Sign));
        assert(signed + rest =~= signed);
    } else {
        lemma_after_clean_injections(host, targets, rest.drop_last());
        lemma_after_all_push(host, signed + rest.drop_last(), rest.last());
        assert(signed + rest =~= (signed + rest.drop_last()).push(rest.last()));
        assert(rest[rest.len() - 1] == rest.last());
    }
}

/// A patch leaves the unpatched binary with exactly the planned hooks in it, signed, and the
/// unpatched binary in the backup.
pub proof fn law_patch_builds_on_the_clean_binary(
    patcher: PatcherView,
    host: HostView,
    dylib: Seq<char>,
    reg: Option<registry::RegistryView>,
    existing: Seq<Seq<char>>,
)
    ensures
        after_all(host, patcher.patch_actions(dylib, host.backup is Some, reg, existing)) == (
        HostView {
            binary: clean_of(host) + paths_of(patcher.hooks_to_inject(dylib, reg, existing)),
            backup: Some(clean_of(host)),
            signed: true,
        }),
{
    let targets = patcher.hooks_to_inject(dylib, reg, existing);
    let rest = seq![ActionView::VerifyInjected, ActionView::UpdateRegistry];
    lemma_after_clean_injections(host, targets, rest);
    assert(patcher.patch_actions(dylib, host.backup is Some, reg, existing) =~= seq![
        plan::cleaning(host.backup is Some),
    ] + plan::injections(targets) + seq![ActionView::Sign] + rest);
}

/// Once there is a backup, the outcome of a patch does not depend on what was in the binary.
pub proof fn law_patch_is_deterministic(
    patcher: PatcherView,
    one: HostView,
    other: HostView,
    dylib: Seq<char>,
    reg: Option<registry::RegistryView>,
    existing: Seq<Seq<char>>,
)
    requires
        one.backup is Some,
        one.backup == other.backup,
    ensures
        after_all(one, patcher.patch_actions(dylib, one.backup is Some, reg, existing))
            == after_all(other, patcher.patch_actions(dylib, other.backup is Some, reg, existing)),
{
    law_patch_builds_on_the_clean_binary(patcher, one, dylib, reg, existing);
    law_patch_builds_on_the_clean_binary(patcher, other, dylib, reg, existing);
}

/// Patching again with the same dylib and the same registered hooks changes nothing.
pub proof fn law_patch_again_changes_nothing(
    patcher: PatcherView,
    host: HostView,
    dylib: Seq<char>,
    reg: Option<registry::RegistryView>,
    existing: Seq<Seq<char>>,
)
    ensures
        ({
            let once = after_all(
                host,
                patcher.patch_actions(dylib, host.backup is Some, reg, existing),
            );
            after_all(once, patcher.patch_actions(dylib, once.backup is Some, reg, existing))
                == once
        }),
{
    let once = after_all(host, patcher.patch_actions(dylib, host.backup is Some, reg, existing));
    law_patch_builds_on_the_clean_binary(patcher, host, dylib, reg, existing);
    law_patch_builds_on_the_clean_binary(patcher, once, dylib, reg, existing);
}

/// What a patch registers does not change which other hooks there are.
proof fn lemma_others_after_patch(
    patcher: PatcherView,
    loaded: Option<registry::RegistryView>,
    dylib: Seq<char>,
    patched_at: Seq<char>,
    installed_at: Seq<char>,
    artifact: registry::ArtifactView,
)
    requires
        patcher.registered_entry(dylib, installed_at, artifact).name == patcher.project.name,
    ensures
        plan::others_of(
            Some(patcher.updated_registry(loaded, dylib, patched_at, installed_at, artifact)),
            patcher.project.name,
        ) == plan::others_of(loaded, patcher.project.name),
{
    let own = patcher.project.name;
    let keep = |h: EntryView| h.name != own;
    let entry = patcher.registered_entry(dylib, installed_at, artifact);
    let before = plan::loaded_or_empty(loaded).hooks;
    let now = registry::registered(before, entry);
    registry_laws::law_register_keeps_the_list_of_others(before, entry);
    registry_laws::law_load_order_of_some_hooks(before, keep);
    registry_laws::law_load_order_of_some_hooks(now, keep);
    assert(registry::without(before, own) == before.filter(keep));
    assert(registry::without(now, own) == now.filter(keep));
    if loaded is None {
        reveal(Seq::filter);
        assert(before.filter(keep) =~= seq![]);
        assert(plan::others_of(
            Some(patcher.updated_registry(loaded, dylib, patched_at, installed_at, artifact)),
            own,
        ) =~= seq![]);
    }
}

/// A second patch that finds the registry as the first one left it changes nothing, when the hook is
/// registered under the project's name.
pub proof fn law_patch_after_patch_changes_nothing(
    patcher: PatcherView,
    host: HostView,
    loaded: Option<registry::RegistryView>,
    dylib: Seq<char>,
    patched_at: Seq<char>,
    installed_at: Seq<char>,
    artifact: registry::ArtifactView,
    existing: Seq<Seq<char>>,
)
    requires
        patcher.registered_entry(dylib, installed_at, artifact).name == patcher.project.name,
    ensures
        ({
            let once = after_all(
                host,
                patcher.patch_actions(dylib, host.backup is Some, loaded, existing),
            );
            let reg = patcher.updated_registry(loaded, dylib, patched_at, installed_at, artifact);
            after_all(once, patcher.patch_actions(dylib, once.backup is Some, Some(reg), existing))
                == once
        }),
{
    let once = after_all(host, patcher.patch_actions(dylib, host.backup is Some, loaded, existing));
    let reg = patcher.updated_registry(loaded, dylib, patched_at, installed_at, artifact);
    lemma_others_after_patch(patcher, loaded, dylib, patched_at, installed_at, artifact);
    law_patch_builds_on_the_clean_binary(patcher, host, dylib, loaded, existing);
    law_patch_builds_on_the_clean_binary(patcher, once, dylib, Some(reg), existing);
}

/// Cleaning leaves the unpatched binary in place and in the backup: a backup that exists is put back
/// and never overwritten, and where there is none the binary stays as it is. Cleaning again changes
/// neither.
pub proof fn law_cleaning_leaves_the_clean_binary(host: HostView)
    ensures
        ({
            let once = after(host, plan::cleaning(host.backup is Some));
            let twice = after(once, plan::cleaning(once.backup is Some));
            &&& once.binary == clean_of(host)
            &&& once.backup == Some(clean_of(host))
            &&& host.backup is Some ==> once.backup == host.backup
            &&& host.backup is None ==> once.binary == host.binary
            &&& twice.binary == once.binary
            &&& twice.backup == once.backup
        }),
{
}

/// A removal leaves the unpatched binary with the other hooks in it.
pub proof fn law_remove_keeps_the_other_hooks(
    patcher: PatcherView,
    host: HostView,
    reg: Option<registry::RegistryView>,
    existing: Seq<Seq<char>>,
)
    ensures
        after_all(host, patcher.remove_actions(host.backup is Some, reg, existing)) == (HostView {
            binary: clean_of(host) + paths_of(
                plan::present_of(plan::others_of(reg, patcher.project.name), existing),
            ),
            backup: Some(clean_of(host)),
            signed: true,
        }),
{
    let targets = plan::present_of(plan::others_of(reg, patcher.project.name), existing);
    let rest = seq![ActionView::Unregister];
    lemma_after_clean_injections(host, targets, rest);
    assert(patcher.remove_actions(host.backup is Some, reg, existing) =~= seq![
        plan::cleaning(host.backup is Some),
    ] + plan::injections(targets) + seq![ActionView::Sign] + rest);
}

/// A restoration brings back the unpatched binary, signed, and keeps the backup.
pub proof fn law_restore_brings_back_the_clean_binary(host: HostView)
    requires
        host.backup is Some,
    ensures
        after_all(host, plan::restore_actions()) == (HostView {
            binary: clean_of(host),
            backup: Some(clean_of(host)),
            signed: true,
        }),
{
    let one = seq![ActionView::RestoreBackup];
    let two = one.push(ActionView::Sign);
    assert(after_all(host, seq![]) == host);
    lemma_after_all_push(host, seq![], ActionView::RestoreBackup);
    assert(Seq::<ActionView>::empty().push(ActionView::RestoreBackup) =~= one);
    lemma_after_all_push(host, one, ActionView::Sign);
    lemma_after_all_push(host, two, ActionView::ClearRegistry);
    assert(plan::restore_actions() =~= two.push(ActionView::ClearRegistry));
}

/// A restoration undoes a patch, whether it was the first one or not.
pub proof fn law_restore_undoes_patch(
    patcher: PatcherView,
    host: HostView,
    dylib: Seq<char>,
    reg: Option<registry::RegistryView>,
    existing: Seq<Seq<char>>,
)
    ensures
        ({
            let patched = after_all(
                host,
                patcher.patch_actions(dylib, host.backup is Some, reg, existing),
            );
            &&& patched.backup is Some
            &&& after_all(patched, plan::restore_actions()).binary == clean_of(host)
        }),
{
    let patched = after_all(
        host,
        patcher.patch_actions(dylib, host.backup is Some, reg, existing),
    );
    law_patch_builds_on_the_clean_binary(patcher, host, dylib, reg, existing);
    law_restore_brings_back_the_clean_binary(patched);
}

/// What a filter keeps was there and meets the condition, and nothing else is left out.
pub proof fn lemma_filter_contains<A>(s: Seq<A>, keep: spec_fn(A) -> bool, x: A)
    ensures
        s.filter(keep).contains(x) == (s.contains(x) && keep(x)),
    decreases s.len(),
{
    reveal(Seq::filter);
    if s.len() > 0 {
        let front = s.drop_last();
        let kept = front.filter(keep);
        lemma_filter_contains(front, keep, x);
        if s.contains(x) && s.last() != x {
            let i = choose|i: int| 0 <= i < s.len() && s[i] == x;
            assert(front[i] == x);
        }
        if front.contains(x) {
            let i = choose|i: int| 0 <= i < front.len() && front[i] == x;
            assert(s[i] == x);
        }
        if keep(s.last()) {
            let all = kept.push(s.last());
            if kept.contains(x) {
                let i = choose|i: int| 0 <= i < kept.len() && kept[i] == x;
                assert(all[i] == x);
            }
            if all.contains(x) && s.last() != x {
                let i = choose|i: int| 0 <= i < all.len() && all[i] == x;
                assert(kept[i] == x);
            }
            assert(all[kept.len() as int] == s.last());
        }
        assert(s[s.len() - 1] == s.last());
    }
}

/// The registered hooks of other names are exactly the others.
proof fn lemma_others_contains(
    reg: registry::RegistryView,
    own: Seq<char>,
    t: HookTargetView,
)
    ensures
        plan::others_of(Some(reg), own).contains(t) == (exists|h: EntryView|
            #[trigger] reg.hooks.contains(h) && h.name != own && plan::target_of(h) == t),
{
    let sorted = registry::by_load_order(reg.hooks);
    let keep = |h: EntryView| h.name != own;
    let kept = sorted.filter(keep);
    let others = plan::others_of(Some(reg), own);
    assert forall|h: EntryView| sorted.contains(h) == #[trigger] reg.hooks.contains(h) by {
        registry_laws::law_load_order(reg.hooks);
        broadcast use vstd::seq_lib::group_to_multiset_ensures;

        assert(sorted.to_multiset().count(h) == reg.hooks.to_multiset().count(h));
    }
    if others.contains(t) {
        let i = choose|i: int| 0 <= i < others.len() && others[i] == t;
        assert(kept.contains(kept[i]));
        lemma_filter_contains(sorted, keep, kept[i]);
        assert(reg.hooks.contains(kept[i]));
        assert(plan::target_of(kept[i]) == t);
    }
    if exists|h: EntryView|
        #[trigger] reg.hooks.contains(h) && h.name != own && plan::target_of(h) == t {
        let h = choose|h: EntryView|
            #[trigger] reg.hooks.contains(h) && h.name != own && plan::target_of(h) == t;
        lemma_filter_contains(sorted, keep, h);
        let i = choose|i: int| 0 <= i < kept.len() && kept[i] == h;
        assert(others[i] == t);
    }
}

/// A patch injects this hook with its new dylib, last and only once, and besides it exactly the
/// other registered hooks that have a dylib.
pub proof fn law_patch_injects_every_hook(
    patcher: PatcherView,
    dylib: Seq<char>,
    reg: registry::RegistryView,
    existing: Seq<Seq<char>>,
)
    ensures
        ({
            let all = patcher.hooks_to_inject(dylib, Some(reg), existing);
            &&& all.len() > 0
            &&& all.last() == (HookTargetView { name: patcher.project.name, path: dylib })
            &&& forall|i: int|
                0 <= i < all.len() - 1 ==> (#[trigger] all[i]).name != patcher.project.name
            &&& forall|t: HookTargetView| #[trigger]
                all.drop_last().contains(t) == (existing.contains(t.path) && exists|h: EntryView|
                    #[trigger] reg.hooks.contains(h) && h.name != patcher.project.name
                        && plan::target_of(h) == t)
        }),
{
    let own = patcher.project.name;
    let others = plan::others_of(Some(reg), own);
    let present = plan::present_of(others, existing);
    let all = patcher.hooks_to_inject(dylib, Some(reg), existing);
    let keep = |t: HookTargetView| existing.contains(t.path);
    assert(all.drop_last() =~= present);
    assert forall|t: HookTargetView| #[trigger]
        all.drop_last().contains(t) == (existing.contains(t.path) && exists|h: EntryView|
            #[trigger] reg.hooks.contains(h) && h.name != own && plan::target_of(h) == t) by {
        lemma_filter_contains(others, keep, t);
        lemma_others_contains(reg, own, t);
    }
    assert forall|i: int| 0 <= i < all.len() - 1 implies (#[trigger] all[i]).name != own by {
        assert(present[i] == all[i]);
        assert(all.drop_last().contains(all[i]));
    }
}

/// A removal injects exactly the other registered hooks that have a dylib, and not this one.
pub proof fn law_remove_leaves_own_hook_out(
    patcher: PatcherView,
    reg: registry::RegistryView,
    existing: Seq<Seq<char>>,
    t: HookTargetView,
)
    ensures
        ({
            let kept = plan::present_of(
                plan::others_of(Some(reg), patcher.project.name),
                existing,
            );
            &&& kept.contains(t) ==> t.name != patcher.project.name
            &&& kept.contains(t) == (existing.contains(t.path) && exists|h: EntryView|
                #[trigger] reg.hooks.contains(h) && h.name != patcher.project.name
                    && plan::target_of(h) == t)
        }),
{
    let others = plan::others_of(Some(reg), patcher.project.name);
    lemma_filter_contains(others, |t: HookTargetView| existing.contains(t.path), t);
    lemma_others_contains(reg, patcher.project.name, t);
}

/// Filtering hooks by their dylib before or after taking their targets is the same.
proof fn lemma_present_of_targets(hooks: Seq<EntryView>, existing: Seq<Seq<char>>)
    ensures
        plan::present_of(hooks.map_values(|h: EntryView| plan::target_of(h)), existing)
            == hooks.filter(|h: EntryView| existing.contains(h.dylib_path)).map_values(
            |h: EntryView| plan::target_of(h),
        ),
    decreases hooks.len(),
{
    reveal(Seq::filter);
    let as_target = |h: EntryView| plan::target_of(h);
    let there = |h: EntryView| existing.contains(h.dylib_path);
    let targets = hooks.map_values(as_target);
    if hooks.len() > 0 {
        let front = hooks.drop_last();
        lemma_present_of_targets(front, existing);
        assert(targets.drop_last() =~= front.map_values(as_target));
        assert(targets.last() == plan::target_of(hooks.last()));
        if there(hooks.last()) {
            assert(hooks.filter(there).map_values(as_target) =~= front.filter(there).map_values(
                as_target,
            ).push(targets.last()));
        }
    } else {
        assert(plan::present_of(targets, existing) =~= hooks.filter(there).map_values(as_target));
    }
}

/// The other hooks are injected in ascending load order.
pub proof fn law_other_hooks_are_injected_in_load_order(
    reg: registry::RegistryView,
    own: Seq<char>,
    existing: Seq<Seq<char>>,
)
    ensures
        exists|hooks: Seq<EntryView>|
            {
                &&& #[trigger] registry_laws::ascending(hooks)
                &&& plan::present_of(plan::others_of(Some(reg), own), existing)
                    == hooks.map_values(|h: EntryView| plan::target_of(h))
                &&& forall|h: EntryView| #[trigger]
                    hooks.contains(h) ==> registry::by_load_order(reg.hooks).contains(h)
            },
{
    let sorted = registry::by_load_order(reg.hooks);
    let keep = |h: EntryView| h.name != own;
    let there = |h: EntryView| existing.contains(h.dylib_path);
    let kept = sorted.filter(keep);
    let hooks = kept.filter(there);
    registry_laws::law_load_order(reg.hooks);
    registry_laws::lemma_filter_ascending(sorted, keep);
    registry_laws::lemma_filter_ascending(kept, there);
    lemma_present_of_targets(kept, existing);
    assert forall|h: EntryView| #[trigger] hooks.contains(h) implies sorted.contains(h) by {
        lemma_filter_contains(kept, there, h);
        lemma_filter_contains(sorted, keep, h);
    }
    assert(registry_laws::ascending(hooks));
}

/// A hook is patched in, and a later patch of another project injects it again.
pub proof fn law_patched_hook_is_kept_by_later_patches(
    patcher: PatcherView,
    later: PatcherView,
    loaded: Option<registry::RegistryView>,
    dylib: Seq<char>,
    patched_at: Seq<char>,
    installed_at: Seq<char>,
    artifact: registry::ArtifactView,
    later_dylib: Seq<char>,
    existing: Seq<Seq<char>>,
)
    requires
        patcher.registered_entry(dylib, installed_at, artifact).name != later.project.name,
        existing.contains(dylib),
    ensures
        ({
            let entry = patcher.registered_entry(dylib, installed_at, artifact);
            let reg = patcher.updated_registry(loaded, dylib, patched_at, installed_at, artifact);
            &&& registry::found(reg.hooks, entry.name) == Some(entry)
            &&& later.hooks_to_inject(later_dylib, Some(reg), existing).contains(
                HookTargetView { name: entry.name, path: dylib },
            )
        }),
{
    let entry = patcher.registered_entry(dylib, installed_at, artifact);
    let reg = patcher.updated_registry(loaded, dylib, patched_at, installed_at, artifact);
    let hooks = plan::loaded_or_empty(loaded).hooks;
    registry_laws::law_register_then_find(hooks, entry);
    registry::lemma_index_of(reg.hooks, entry.name, 0);
    let i = registry::index_of(reg.hooks, entry.name, 0);
    assert(reg.hooks.contains(reg.hooks[i]));
    let t = plan::target_of(entry);
    assert(reg.hooks.contains(entry));
    law_patch_injects_every_hook(later, later_dylib, reg, existing);
    let all = later.hooks_to_inject(later_dylib, Some(reg), existing);
    assert(all.drop_last().contains(t));
    let k = choose|k: int| 0 <= k < all.drop_last().len() && all.drop_last()[k] == t;
    assert(all[k] == t);
}

/// A hook that was removed is not injected again by a later patch of another project.
pub proof fn law_removed_hook_stays_out(
    patcher: PatcherView,
    later: PatcherView,
    reg: registry::RegistryView,
    later_dylib: Seq<char>,
    existing: Seq<Seq<char>>,
)
    requires
        patcher.project.name != later.project.name,
    ensures
        ({
            let kept = registry::RegistryView {
                hooks: registry::without(reg.hooks, patcher.project.name),
                ..reg
            };
            let all = later.hooks_to_inject(later_dylib, Some(kept), existing);
            &&& registry::found(kept.hooks, patcher.project.name) is None
            &&& forall|i: int|
                0 <= i < all.len() ==> (#[trigger] all[i]).name != patcher.project.name
        }),
{
    let own = patcher.project.name;
    let kept = registry::RegistryView { hooks: registry::without(reg.hooks, own), ..reg };
    let all = later.hooks_to_inject(later_dylib, Some(kept), existing);
    registry_laws::law_remove_then_find(reg.hooks, own);
    law_patch_injects_every_hook(later, later_dylib, kept, existing);
    assert forall|i: int| 0 <= i < all.len() implies (#[trigger] all[i]).name != own by {
        if i < all.len() - 1 {
            assert(all.drop_last()[i] == all[i]);
            assert(all.drop_last().contains(all[i]));
            let h = choose|h: EntryView|
                #[trigger] kept.hooks.contains(h) && h.name != later.project.name
                    && plan::target_of(h) == all[i];
            let k = choose|k: int| 0 <= k < kept.hooks.len() && kept.hooks[k] == h;
            assert(kept.hooks[k].name != own);
        }
    }
}

/// After a restoration, or where there is no registry, a patch injects its own hook and no other.
pub proof fn law_empty_registry_leaves_the_own_hook(
    patcher: PatcherView,
    dylib: Seq<char>,
    reg: Option<registry::RegistryView>,
    existing: Seq<Seq<char>>,
)
    requires
        reg matches Some(r) ==> r.hooks.len() == 0,
    ensures
        patcher.hooks_to_inject(dylib, reg, existing) == seq![
            HookTargetView { name: patcher.project.name, path: dylib },
        ],
{
    reveal(Seq::filter);
    let others = plan::others_of(reg, patcher.project.name);
    assert(others.len() == 0);
    assert(plan::present_of(others, existing) =~= seq![]);
}

} // verus!
