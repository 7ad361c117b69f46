//! Laws of the registry, said of the fields of its hooks: what is found, replaced, left out, in
//! conflict, and in which order hooks load.

use crate::path;
use crate::path_laws;
use crate::registry::{self, EntryView, RegistryView};
use crate::registry_laws;
use vstd::prelude::*;

verus! {

/// A lookup gives the first hook of the name, and nothing exactly when no hook has it.
pub proof fn law_find_gives_the_first_of_the_name(hooks: Seq<EntryView>, name: Seq<char>)
    ensures
        match registry::found(hooks, name) {
            Some(e) => exists|i: int|
                {
                    &&& 0 <= i < hooks.len()
                    &&& #[trigger] hooks[i] == e
                    &&& e.name == name
                    &&& forall|k: int| 0 <= k < i ==> (#[trigger] hooks[k]).name != name
                },
            None => forall|k: int| 0 <= k < hooks.len() ==> (#[trigger] hooks[k]).name != name,
        },
{
    registry::lemma_index_of(hooks, name, 0);
    let i = registry::index_of(hooks, name, 0);
    if i < hooks.len() {
        assert(hooks[i].name == name);
    }
}

/// Registering puts the entry in the place of the first hook of its name and leaves every other hook
/// in its place; when no hook has the name, the entry comes at the end.
pub proof fn law_register_changes_one_place(hooks: Seq<EntryView>, entry: EntryView)
    ensures
        ({
            let now = registry::registered(hooks, entry);
            ||| exists|i: int|
                {
                    &&& 0 <= i < hooks.len()
                    &&& (#[trigger] hooks[i]).name == entry.name
                    &&& forall|k: int| 0 <= k < i ==> (#[trigger] hooks[k]).name != entry.name
                    &&& now.len() == hooks.len()
                    &&& now[i] == entry
                    &&& forall|k: int|
                        0 <= k < hooks.len() && k != i ==> #[trigger] now[k] == hooks[k]
                }
            ||| {
                &&& forall|k: int| 0 <= k < hooks.len() ==> (#[trigger] hooks[k]).name != entry.name
                &&& now.len() == hooks.len() + 1
                &&& now.last() == entry
                &&& forall|k: int| 0 <= k < hooks.len() ==> #[trigger] now[k] == hooks[k]
            }
        }),
{
    registry::lemma_index_of(hooks, entry.name, 0);
    let i = registry::index_of(hooks, entry.name, 0);
    if i < hooks.len() {
        assert(hooks[i].name == entry.name);
    }
}

/// Removing looks at each hook by itself: a hook of the name goes, any other stays, and the order is
/// kept.
pub proof fn law_remove_hook_by_hook(
    a: Seq<EntryView>,
    b: Seq<EntryView>,
    h: EntryView,
    name: Seq<char>,
)
    ensures
        registry::without(a + b, name) == registry::without(a, name) + registry::without(b, name),
        h.name == name ==> registry::without(seq![h], name) == Seq::<EntryView>::empty(),
        h.name != name ==> registry::without(seq![h], name) == seq![h],
    decreases b.len(),
{
    reveal(Seq::filter);
    assert(seq![h].drop_last() =~= seq![]);
    assert(registry::without(seq![], name) =~= seq![]);
    assert(seq![h].last() == h);
    if h.name != name {
        assert(registry::without(seq![h], name) =~= seq![h]);
    }
    if b.len() == 0 {
        assert(a + b =~= a);
        assert(registry::without(b, name) =~= seq![]);
        assert(registry::without(a, name) + registry::without(b, name) =~= registry::without(
            a,
            name,
        ));
    } else {
        law_remove_hook_by_hook(a, b.drop_last(), h, name);
        assert((a + b).drop_last() =~= a + b.drop_last());
        assert((a + b).last() == b.last());
        assert(registry::without(a + b, name) =~= registry::without(a, name) + registry::without(
            b,
            name,
        ));
    }
}

/// A conflict is reported whenever a hook of another name lists the symbol, at any place, with the
/// method `replace`. The hook that is reported lists it so, and no hook before it of another name
/// does. Without such a hook no conflict is reported.
pub proof fn law_any_replacing_symbol_conflicts(
    hooks: Seq<EntryView>,
    symbol: Seq<char>,
    mine: Seq<char>,
)
    ensures
        match registry::rival_from(hooks, symbol, mine, 0) {
            Some(name) => exists|i: int, j: int|
                {
                    &&& 0 <= i < hooks.len()
                    &&& 0 <= j < hooks[i].hooked_symbols.len()
                    &&& hooks[i].name == name
                    &&& name != mine
                    &&& (#[trigger] hooks[i].hooked_symbols[j]).symbol == symbol
                    &&& hooks[i].hooked_symbols[j].method == "replace"@
                    &&& forall|k: int, l: int|
                        0 <= k < i && 0 <= l < hooks[k].hooked_symbols.len() && hooks[k].name
                            != mine ==> !((#[trigger] hooks[k].hooked_symbols[l]).symbol == symbol
                            && hooks[k].hooked_symbols[l].method == "replace"@)
                },
            None => forall|k: int, l: int|
                0 <= k < hooks.len() && 0 <= l < hooks[k].hooked_symbols.len() && hooks[k].name
                    != mine ==> !((#[trigger] hooks[k].hooked_symbols[l]).symbol == symbol
                    && hooks[k].hooked_symbols[l].method == "replace"@),
        },
{
    lemma_rival(hooks, symbol, mine, 0);
}

proof fn lemma_rival(hooks: Seq<EntryView>, symbol: Seq<char>, mine: Seq<char>, from: int)
    requires
        0 <= from <= hooks.len(),
    ensures
        match registry::rival_from(hooks, symbol, mine, from) {
            Some(name) => exists|i: int, j: int|
                {
                    &&& from <= i < hooks.len()
                    &&& 0 <= j < hooks[i].hooked_symbols.len()
                    &&& hooks[i].name == name
                    &&& name != mine
                    &&& (#[trigger] hooks[i].hooked_symbols[j]).symbol == symbol
                    &&& hooks[i].hooked_symbols[j].method == "replace"@
                    &&& forall|k: int, l: int|
                        from <= k < i && 0 <= l < hooks[k].hooked_symbols.len() && hooks[k].name
                            != mine ==> !((#[trigger] hooks[k].hooked_symbols[l]).symbol == symbol
                            && hooks[k].hooked_symbols[l].method == "replace"@)
                },
            None => forall|k: int, l: int|
                from <= k < hooks.len() && 0 <= l < hooks[k].hooked_symbols.len() && hooks[k].name
                    != mine ==> !((#[trigger] hooks[k].hooked_symbols[l]).symbol == symbol
                    && hooks[k].hooked_symbols[l].method == "replace"@),
        },
    decreases hooks.len() - from,
{
    if from < hooks.len() {
        let h = hooks[from];
        if registry::is_rival(h, symbol, mine) {
            let j = choose|j: int|
                0 <= j < h.hooked_symbols.len() && (#[trigger] h.hooked_symbols[j]).symbol == symbol
                    && h.hooked_symbols[j].method == "replace"@;
            assert(hooks[from].hooked_symbols[j].symbol == symbol);
        } else {
            lemma_rival(hooks, symbol, mine, from + 1);
            assert forall|l: int|
                0 <= l < h.hooked_symbols.len() && h.name != mine implies !((
            #[trigger] hooks[from].hooked_symbols[l]).symbol == symbol
                && hooks[from].hooked_symbols[l].method == "replace"@) by {
                assert(h.hooked_symbols[l] == hooks[from].hooked_symbols[l]);
            }
        }
    }
}

/// In load order, a hook never stands before one of a lower load order, as numbers; a hook without a
/// load order never stands before one whose load order is below the greatest number.
pub proof fn law_lower_load_orders_come_first(hooks: Seq<EntryView>, i: int, j: int)
    requires
        0 <= i < j < registry::by_load_order(hooks).len(),
    ensures
        ({
            let sorted = registry::by_load_order(hooks);
            match (sorted[i].load_order, sorted[j].load_order) {
                (Some(a), Some(b)) => a <= b,
                (None, Some(b)) => b == u32::MAX,
                (_, None) => true,
            }
        }),
{
    registry_laws::law_load_order(hooks);
    let sorted = registry::by_load_order(hooks);
    assert(registry::order_key(sorted[i]) <= registry::order_key(sorted[j]));
}

/// Load order neither loses, doubles nor changes a hook.
pub proof fn law_load_order_keeps_every_hook(hooks: Seq<EntryView>)
    ensures
        registry::by_load_order(hooks).len() == hooks.len(),
        registry::by_load_order(hooks).to_multiset() == hooks.to_multiset(),
{
    registry_laws::law_load_order(hooks);
    broadcast use vstd::seq_lib::group_to_multiset_ensures;

    assert(registry::by_load_order(hooks).to_multiset().len() == hooks.to_multiset().len());
}

/// Hooks of one load order stay in the order in which they are registered, and so do those that have
/// none, among which those of the greatest load order count.
pub proof fn law_load_order_keeps_the_order_of_equals(hooks: Seq<EntryView>, order: u32)
    ensures
        registry::by_load_order(hooks).filter(|h: EntryView| h.load_order == Some(order))
            == hooks.filter(|h: EntryView| h.load_order == Some(order)),
        registry::by_load_order(hooks).filter(
            |h: EntryView| h.load_order is None || h.load_order == Some(u32::MAX),
        ) == hooks.filter(|h: EntryView| h.load_order is None || h.load_order == Some(u32::MAX)),
{
    let same = |h: EntryView| h.load_order == Some(order);
    let late = |h: EntryView| h.load_order is None || h.load_order == Some(u32::MAX);
    let kept = hooks.filter(same);
    registry_laws::law_load_order_of_some_hooks(hooks, same);
    assert forall|k: int| 0 <= k < kept.len() implies (#[trigger] kept[k]).load_order == Some(
        order,
    ) by {
        hooks.lemma_filter_pred(same, k);
    }
    assert(registry_laws::ascending(kept));
    registry_laws::law_load_order_is_stable(kept);
    let last = hooks.filter(late);
    registry_laws::law_load_order_of_some_hooks(hooks, late);
    assert forall|k: int| 0 <= k < last.len() implies registry::order_key(#[trigger] last[k])
        == u32::MAX by {
        hooks.lemma_filter_pred(late, k);
    }
    assert(registry_laws::ascending(last));
    registry_laws::law_load_order_is_stable(last);
}

/// The symbols of all hooks come hook by hook, each with the name of its hook and its method, in the
/// order in which the hook lists them.
pub proof fn law_symbols_hook_by_hook(a: Seq<EntryView>, b: Seq<EntryView>, h: EntryView, j: int)
    ensures
        registry::all_symbols(a + b) == registry::all_symbols(a) + registry::all_symbols(b),
        registry::all_symbols(seq![h]).len() == h.hooked_symbols.len(),
        0 <= j < h.hooked_symbols.len() ==> registry::all_symbols(seq![h])[j] == (
            h.name,
            h.hooked_symbols[j].symbol,
            h.hooked_symbols[j].method,
        ),
        registry::all_symbols(seq![]).len() == 0,
    decreases b.len(),
{
    reveal_with_fuel(registry::all_symbols, 2);
    assert(seq![h].drop_last() =~= seq![]);
    if b.len() == 0 {
        assert(a + b =~= a);
        assert(registry::all_symbols(a) + registry::all_symbols(b) =~= registry::all_symbols(a));
    } else {
        law_symbols_hook_by_hook(a, b.drop_last(), h, j);
        assert((a + b).drop_last() =~= a + b.drop_last());
        assert((a + b).last() == b.last());
        assert(registry::all_symbols(a + b) =~= registry::all_symbols(a) + registry::all_symbols(b));
    }
}

/// A writer leaves the registry that it found with the application's identifier set and its hook
/// registered, and nothing else changed; without a registry it starts from an empty one.
pub proof fn law_writer_changes_identifier_and_hooks_only(
    loaded: RegistryView,
    app_id: Seq<char>,
    entry: EntryView,
)
    ensures
        ({
            let now = registry::locked_registered(Some(loaded), app_id, entry);
            &&& now.schema_version == loaded.schema_version
            &&& now.app_id == Some(app_id)
            &&& now.host_app == loaded.host_app
            &&& now.last_patched == loaded.last_patched
            &&& now.hooks == registry::registered(loaded.hooks, entry)
        }),
        ({
            let first = registry::locked_registered(None, app_id, entry);
            &&& first.schema_version == 1
            &&& first.app_id == Some(app_id)
            &&& first.host_app is None
            &&& first.last_patched is None
            &&& first.hooks == seq![entry]
        }),
{
    let none: Seq<EntryView> = seq![];
    registry::lemma_index_of(none, entry.name, 0);
    assert(registry::registered(none, entry) =~= seq![entry]);
}

/// An empty registry and a new entry have nothing but what they are made of.
pub proof fn law_new_values_are_empty(name: Seq<char>, dylib_path: Seq<char>)
    ensures
        ({
            let r = registry::empty_registry();
            &&& r.schema_version == 1
            &&& r.app_id is None && r.host_app is None && r.last_patched is None
            &&& r.hooks.len() == 0
        }),
        ({
            let e = registry::new_entry(name, dylib_path);
            &&& e.name == name
            &&& e.dylib_path == dylib_path
            &&& e.version is None && e.load_order is None && e.installed_at is None
            &&& e.log_path is None && e.health_check is None && e.artifact is None
            &&& e.features.len() == 0 && e.hooked_symbols.len() == 0
            &&& e.extra.dom() == Set::<Seq<char>>::empty()
        }),
{
}

/// The registry of an application stands at `.config/dylib-hooks`, the identifier and
/// `registry.json` below the home directory.
pub proof fn law_registry_file_is_below_the_home_directory(home: Seq<char>, app_id: Seq<char>)
    requires
        home.len() > 0,
        home.last() != '/',
        path_laws::is_plain_name(app_id),
    ensures
        registry::registry_dir_in(home, app_id) == home + "/.config/dylib-hooks/"@ + app_id,
        registry::registry_file_in(registry::registry_dir_in(home, app_id)) == home
            + "/.config/dylib-hooks/"@ + app_id + "/registry.json"@,
{
    reveal_strlit(".config");
    reveal_strlit("dylib-hooks");
    reveal_strlit("registry.json");
    reveal_strlit("/.config/dylib-hooks/");
    reveal_strlit("/registry.json");
    assert(app_id.contains(app_id[0]));
    assert(app_id.contains(app_id.last()));
    let one = path::joined(home, ".config"@);
    assert(one =~= home + "/.config"@) by {
        reveal_strlit("/.config");
    }
    let two = path::joined(one, "dylib-hooks"@);
    assert(two.last() == 's');
    let three = path::joined(two, app_id);
    assert(three =~= home + "/.config/dylib-hooks/"@ + app_id);
    assert(three.last() == app_id.last());
    assert(path::joined(three, "registry.json"@) =~= three + "/registry.json"@);
}

} // verus!
