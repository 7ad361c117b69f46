//! Laws of the registry: what registering, removing, looking up and ordering hooks keep.

use crate::registry::{self, EntryView, RegistryView};
use vstd::prelude::*;

verus! {

/// No two hooks have the same name.
pub open spec fn unique_names(hooks: Seq<EntryView>) -> bool {
    forall|i: int, j: int| 0 <= i < j < hooks.len() ==> hooks[i].name != hooks[j].name
}

/// A hook of this name is found exactly when there is one; it is the first.
proof fn lemma_found_at(hooks: Seq<EntryView>, name: Seq<char>, i: int)
    requires
        0 <= i < hooks.len(),
        hooks[i].name == name,
        forall|k: int| 0 <= k < i ==> hooks[k].name != name,
    ensures
        registry::index_of(hooks, name, 0) == i,
        registry::found(hooks, name) == Some(hooks[i]),
{
    registry::lemma_index_of(hooks, name, 0);
}

proof fn lemma_not_found(hooks: Seq<EntryView>, name: Seq<char>)
    requires
        forall|k: int| 0 <= k < hooks.len() ==> hooks[k].name != name,
    ensures
        registry::found(hooks, name) is None,
{
    registry::lemma_index_of(hooks, name, 0);
}

/// A registered hook is found by its name, as it was registered.
pub proof fn law_register_then_find(hooks: Seq<EntryView>, entry: EntryView)
    ensures
        registry::found(registry::registered(hooks, entry), entry.name) == Some(entry),
{
    registry::lemma_index_of(hooks, entry.name, 0);
    let i = registry::index_of(hooks, entry.name, 0);
    lemma_found_at(registry::registered(hooks, entry), entry.name, i);
}

/// Registering a hook changes no lookup of another name.
pub proof fn law_register_keeps_others(hooks: Seq<EntryView>, entry: EntryView, name: Seq<char>)
    requires
        name != entry.name,
    ensures
        registry::found(registry::registered(hooks, entry), name) == registry::found(hooks, name),
{
    let after = registry::registered(hooks, entry);
    registry::lemma_index_of(hooks, entry.name, 0);
    registry::lemma_index_of(hooks, name, 0);
    let i = registry::index_of(hooks, name, 0);
    if i < hooks.len() {
        assert(after[i] == hooks[i]);
        lemma_found_at(after, name, i);
    } else {
        assert forall|k: int| 0 <= k < after.len() implies after[k].name != name by {
            if k < hooks.len() && after[k] != entry {
                assert(after[k] == hooks[k]);
            }
        }
        lemma_not_found(after, name);
    }
}

/// Registering adds one hook when its name is new, and none otherwise.
pub proof fn law_register_length(hooks: Seq<EntryView>, entry: EntryView)
    ensures
        registry::registered(hooks, entry).len() == hooks.len() + (if registry::found(
            hooks,
            entry.name,
        ) is None {
            1int
        } else {
            0
        }),
{
}

/// Registering a name again puts the new entry in the place of the old one.
pub proof fn law_register_again_replaces(
    hooks: Seq<EntryView>,
    first: EntryView,
    second: EntryView,
)
    requires
        first.name == second.name,
    ensures
        registry::registered(registry::registered(hooks, first), second) == registry::registered(
            hooks,
            second,
        ),
{
    registry::lemma_index_of(hooks, first.name, 0);
    let i = registry::index_of(hooks, first.name, 0);
    let once = registry::registered(hooks, first);
    lemma_found_at(once, first.name, i);
    assert(registry::registered(once, second) =~= registry::registered(hooks, second));
}

/// Registering keeps names unique.
pub proof fn law_register_keeps_unique_names(hooks: Seq<EntryView>, entry: EntryView)
    requires
        unique_names(hooks),
    ensures
        unique_names(registry::registered(hooks, entry)),
{
    registry::lemma_index_of(hooks, entry.name, 0);
    let after = registry::registered(hooks, entry);
    let at = registry::index_of(hooks, entry.name, 0);
    assert forall|i: int, j: int| 0 <= i < j < after.len() implies after[i].name
        != after[j].name by {
        if i != at && j != at {
            assert(after[i] == hooks[i] && after[j] == hooks[j]);
        } else if i == at {
            assert(after[j] == hooks[j]);
            assert(hooks[at].name == entry.name);
        } else {
            assert(after[i] == hooks[i]);
        }
    }
}

/// Two writers that register different names, one after the other, are both in the registry, in
/// whatever order they came.
pub proof fn law_two_writers_are_both_kept(hooks: Seq<EntryView>, a: EntryView, b: EntryView)
    requires
        a.name != b.name,
    ensures
        ({
            let ab = registry::registered(registry::registered(hooks, a), b);
            let ba = registry::registered(registry::registered(hooks, b), a);
            &&& registry::found(ab, a.name) == Some(a)
            &&& registry::found(ab, b.name) == Some(b)
            &&& forall|name: Seq<char>| #[trigger]
                registry::found(ab, name) == registry::found(ba, name)
        }),
{
    let ha = registry::registered(hooks, a);
    let hb = registry::registered(hooks, b);
    let ab = registry::registered(ha, b);
    let ba = registry::registered(hb, a);
    law_register_then_find(hooks, a);
    law_register_then_find(hooks, b);
    law_register_then_find(ha, b);
    law_register_then_find(hb, a);
    law_register_keeps_others(ha, b, a.name);
    law_register_keeps_others(hb, a, b.name);
    assert forall|name: Seq<char>| #[trigger]
        registry::found(ab, name) == registry::found(ba, name) by {
        if name != a.name && name != b.name {
            law_register_keeps_others(hooks, a, name);
            law_register_keeps_others(ha, b, name);
            law_register_keeps_others(hooks, b, name);
            law_register_keeps_others(hb, a, name);
        }
    }
}

/// The registry that any number of writers leave who register `entries`, one after the other: each
/// finds what the one before it left.
pub open spec fn after_writers(
    loaded: Option<RegistryView>,
    app_id: Seq<char>,
    entries: Seq<EntryView>,
) -> Option<RegistryView>
    decreases entries.len(),
{
    if entries.len() == 0 {
        loaded
    } else {
        Some(
            registry::locked_registered(
                after_writers(loaded, app_id, entries.drop_last()),
                app_id,
                entries.last(),
            ),
        )
    }
}

/// The hook of a name in a registry, if there is a registry.
pub open spec fn found_in(reg: Option<RegistryView>, name: Seq<char>) -> Option<EntryView> {
    match reg {
        Some(r) => registry::found(r.hooks, name),
        None => None,
    }
}

/// Any number of writers that register different names, in whatever order they get the lock, are all
/// in the registry afterwards, and every other name is found as before.
pub proof fn law_all_writers_are_kept(
    loaded: Option<RegistryView>,
    app_id: Seq<char>,
    entries: Seq<EntryView>,
)
    requires
        unique_names(entries),
    ensures
        forall|i: int|
            0 <= i < entries.len() ==> found_in(
                after_writers(loaded, app_id, entries),
                (#[trigger] entries[i]).name,
            ) == Some(entries[i]),
        forall|name: Seq<char>|
            (forall|i: int| 0 <= i < entries.len() ==> (#[trigger] entries[i]).name != name)
                ==> #[trigger] found_in(after_writers(loaded, app_id, entries), name) == found_in(
                loaded,
                name,
            ),
    decreases entries.len(),
{
    if entries.len() > 0 {
        let front = entries.drop_last();
        let last = entries.last();
        let before = after_writers(loaded, app_id, front);
        let now = after_writers(loaded, app_id, entries);
        let hooks = match before {
            Some(r) => r.hooks,
            None => registry::empty_registry().hooks,
        };
        assert forall|i: int, j: int| 0 <= i < j < front.len() implies front[i].name
            != front[j].name by {
            assert(front[i] == entries[i] && front[j] == entries[j]);
        }
        law_all_writers_are_kept(loaded, app_id, front);
        law_register_then_find(hooks, last);
        assert forall|name: Seq<char>| registry::found(hooks, name) == #[trigger] found_in(
            before,
            name,
        ) by {
            if before is None {
                lemma_not_found(hooks, name);
            }
        }
        assert forall|i: int| 0 <= i < entries.len() implies found_in(
            now,
            (#[trigger] entries[i]).name,
        ) == Some(entries[i]) by {
            if i < front.len() {
                assert(front[i] == entries[i]);
                assert(entries[i].name != entries[entries.len() - 1].name);
                law_register_keeps_others(hooks, last, entries[i].name);
                assert(found_in(before, front[i].name) == Some(front[i]));
            }
        }
        assert forall|name: Seq<char>|
            (forall|i: int|
                0 <= i < entries.len() ==> (#[trigger] entries[i]).name
                    != name) implies #[trigger] found_in(now, name) == found_in(loaded, name) by {
            assert(entries[entries.len() - 1].name != name);
            assert forall|i: int| 0 <= i < front.len() implies (#[trigger] front[i]).name
                != name by {
                assert(front[i] == entries[i]);
            }
            law_register_keeps_others(hooks, last, name);
            assert(found_in(before, name) == found_in(loaded, name));
        }
    }
}

/// Taking hooks off the front of the filter.
proof fn lemma_without_step(hooks: Seq<EntryView>, name: Seq<char>)
    requires
        hooks.len() > 0,
    ensures
        registry::without(hooks, name) == (if hooks.last().name != name {
            registry::without(hooks.drop_last(), name).push(hooks.last())
        } else {
            registry::without(hooks.drop_last(), name)
        }),
{
    reveal(Seq::filter);
}

/// A removed hook is not found.
pub proof fn law_remove_then_find(hooks: Seq<EntryView>, name: Seq<char>)
    ensures
        registry::found(registry::without(hooks, name), name) is None,
        forall|k: int|
            0 <= k < registry::without(hooks, name).len() ==> (#[trigger] registry::without(
                hooks,
                name,
            )[k]).name != name,
    decreases hooks.len(),
{
    let after = registry::without(hooks, name);
    if hooks.len() == 0 {
        reveal(Seq::filter);
    } else {
        lemma_without_step(hooks, name);
        law_remove_then_find(hooks.drop_last(), name);
        let shorter = registry::without(hooks.drop_last(), name);
        assert forall|k: int| 0 <= k < after.len() implies (#[trigger] after[k]).name != name by {
            if k < shorter.len() {
                assert(after[k] == shorter[k]);
            }
        }
    }
    lemma_not_found(after, name);
}

/// A lookup in a list that has one hook more.
proof fn lemma_found_push(hooks: Seq<EntryView>, entry: EntryView, name: Seq<char>)
    ensures
        registry::found(hooks.push(entry), name) == (match registry::found(hooks, name) {
            Some(e) => Some(e),
            None => if entry.name == name {
                Some(entry)
            } else {
                None
            },
        }),
{
    let more = hooks.push(entry);
    registry::lemma_index_of(hooks, name, 0);
    let i = registry::index_of(hooks, name, 0);
    if i < hooks.len() {
        assert(forall|k: int| 0 <= k < hooks.len() ==> more[k] == hooks[k]);
        lemma_found_at(more, name, i);
    } else if entry.name == name {
        lemma_found_at(more, name, hooks.len() as int);
    } else {
        lemma_not_found(more, name);
    }
}

/// Removing a hook changes no lookup of another name.
pub proof fn law_remove_keeps_others(hooks: Seq<EntryView>, name: Seq<char>, other: Seq<char>)
    requires
        other != name,
    ensures
        registry::found(registry::without(hooks, name), other) == registry::found(hooks, other),
    decreases hooks.len(),
{
    if hooks.len() == 0 {
        reveal(Seq::filter);
    } else {
        let front = hooks.drop_last();
        lemma_without_step(hooks, name);
        law_remove_keeps_others(front, name, other);
        lemma_found_push(front, hooks.last(), other);
        assert(front.push(hooks.last()) =~= hooks);
        lemma_found_push(registry::without(front, name), hooks.last(), other);
    }
}

/// Removing a name that is not registered changes nothing.
pub proof fn law_remove_unknown_changes_nothing(hooks: Seq<EntryView>, name: Seq<char>)
    requires
        registry::found(hooks, name) is None,
    ensures
        registry::without(hooks, name) == hooks,
    decreases hooks.len(),
{
    if hooks.len() == 0 {
        reveal(Seq::filter);
        assert(registry::without(hooks, name) =~= hooks);
    } else {
        let front = hooks.drop_last();
        lemma_without_step(hooks, name);
        lemma_found_push(front, hooks.last(), name);
        assert(front.push(hooks.last()) =~= hooks);
        law_remove_unknown_changes_nothing(front, name);
    }
}

/// Removing undoes the registration of a new name.
pub proof fn law_remove_undoes_register(hooks: Seq<EntryView>, entry: EntryView)
    requires
        registry::found(hooks, entry.name) is None,
    ensures
        registry::without(registry::registered(hooks, entry), entry.name) == hooks,
{
    let after = registry::registered(hooks, entry);
    registry::lemma_index_of(hooks, entry.name, 0);
    assert(after =~= hooks.push(entry));
    assert(after.drop_last() =~= hooks);
    lemma_without_step(after, entry.name);
    law_remove_unknown_changes_nothing(hooks, entry.name);
}

/// The hooks that a removal keeps stand in the order they had.
proof fn lemma_without_positions(hooks: Seq<EntryView>, name: Seq<char>)
    ensures
        forall|k: int|
            0 <= k < registry::without(hooks, name).len() ==> hooks.contains(
                #[trigger] registry::without(hooks, name)[k],
            ),
    decreases hooks.len(),
{
    let after = registry::without(hooks, name);
    if hooks.len() == 0 {
        reveal(Seq::filter);
    } else {
        let front = hooks.drop_last();
        lemma_without_step(hooks, name);
        lemma_without_positions(front, name);
        let shorter = registry::without(front, name);
        assert forall|k: int| 0 <= k < after.len() implies hooks.contains(#[trigger] after[k]) by {
            if k < shorter.len() {
                assert(after[k] == shorter[k]);
                let m = choose|m: int| 0 <= m < front.len() && front[m] == shorter[k];
                assert(hooks[m] == after[k]);
            } else {
                assert(hooks[hooks.len() - 1] == after[k]);
            }
        }
    }
}

/// Removing keeps names unique.
pub proof fn law_remove_keeps_unique_names(hooks: Seq<EntryView>, name: Seq<char>)
    requires
        unique_names(hooks),
    ensures
        unique_names(registry::without(hooks, name)),
    decreases hooks.len(),
{
    if hooks.len() == 0 {
        reveal(Seq::filter);
    } else {
        let front = hooks.drop_last();
        assert(unique_names(front));
        lemma_without_step(hooks, name);
        law_remove_keeps_unique_names(front, name);
        lemma_without_positions(front, name);
        let shorter = registry::without(front, name);
        let after = registry::without(hooks, name);
        assert forall|i: int, j: int| 0 <= i < j < after.len() implies after[i].name
            != after[j].name by {
            assert(after[i] == shorter[i]);
            if j < shorter.len() {
                assert(after[j] == shorter[j]);
            } else {
                let m = choose|m: int| 0 <= m < front.len() && front[m] == shorter[i];
                assert(hooks[m].name != hooks[hooks.len() - 1].name);
            }
        }
    }
}

/// A reported conflict is a registered hook of another name that replaces the symbol; none is
/// reported exactly when there is no such hook. Hooks that only attach never conflict.
pub proof fn law_conflict_is_another_replacing_hook(
    hooks: Seq<EntryView>,
    symbol: Seq<char>,
    mine: Seq<char>,
    from: int,
)
    requires
        0 <= from <= hooks.len(),
    ensures
        match registry::rival_from(hooks, symbol, mine, from) {
            Some(name) => name != mine && exists|i: int|
                from <= i < hooks.len() && (#[trigger] hooks[i]).name == name && registry::replaces(
                    hooks[i],
                    symbol,
                ),
            None => forall|i: int|
                from <= i < hooks.len() && (#[trigger] hooks[i]).name != mine
                    ==> !registry::replaces(hooks[i], symbol),
        },
    decreases hooks.len() - from,
{
    if from < hooks.len() && !registry::is_rival(hooks[from], symbol, mine) {
        law_conflict_is_another_replacing_hook(hooks, symbol, mine, from + 1);
    }
}

/// The hooks whose order key is `key`, in the order they have.
pub open spec fn with_key(hooks: Seq<EntryView>, key: u32) -> Seq<EntryView> {
    hooks.filter(|h: EntryView| registry::order_key(h) == key)
}

/// The hooks stand in ascending load order.
pub open spec fn ascending(hooks: Seq<EntryView>) -> bool {
    forall|i: int, j: int|
        0 <= i < j < hooks.len() ==> registry::order_key(hooks[i]) <= registry::order_key(hooks[j])
}

proof fn lemma_with_key_push(hooks: Seq<EntryView>, e: EntryView, key: u32)
    ensures
        with_key(hooks.push(e), key) == (if registry::order_key(e) == key {
            with_key(hooks, key).push(e)
        } else {
            with_key(hooks, key)
        }),
{
    reveal(Seq::filter);
    assert(hooks.push(e).drop_last() =~= hooks);
}

proof fn lemma_no_key(hooks: Seq<EntryView>, key: u32)
    requires
        forall|k: int| 0 <= k < hooks.len() ==> registry::order_key(hooks[k]) != key,
    ensures
        with_key(hooks, key) == Seq::<EntryView>::empty(),
    decreases hooks.len(),
{
    reveal(Seq::filter);
    if hooks.len() > 0 {
        lemma_no_key(hooks.drop_last(), key);
    } else {
        assert(with_key(hooks, key) =~= Seq::<EntryView>::empty());
    }
}

/// Inserting by load order keeps the order, and puts the hook behind those of its own order.
proof fn lemma_inserted(s: Seq<EntryView>, e: EntryView)
    requires
        ascending(s),
    ensures
        ascending(registry::inserted_by_order(s, e)),
        registry::inserted_by_order(s, e).to_multiset() == s.to_multiset().insert(e),
        s.len() > 0 && registry::order_key(s.last()) > registry::order_key(e)
            ==> registry::inserted_by_order(s, e).last() == s.last(),
        registry::inserted_by_order(s, e).len() == s.len() + 1,
        forall|key: u32| #[trigger]
            with_key(registry::inserted_by_order(s, e), key) == with_key(s.push(e), key),
    decreases s.len(),
{
    broadcast use vstd::seq_lib::group_to_multiset_ensures;

    if s.len() > 0 && registry::order_key(s.last()) > registry::order_key(e) {
        let front = s.drop_last();
        let last = s.last();
        assert(ascending(front));
        lemma_inserted(front, e);
        let mid = registry::inserted_by_order(front, e);
        let all = mid.push(last);
        assert(front.push(last) =~= s);
        assert forall|i: int, j: int| 0 <= i < j < all.len() implies registry::order_key(all[i])
            <= registry::order_key(all[j]) by {
            if j == mid.len() {
                if mid.len() > 0 {
                    if i < mid.len() - 1 {
                        assert(registry::order_key(mid[i]) <= registry::order_key(
                            mid[mid.len() - 1],
                        ));
                    }
                    lemma_last_of_inserted(front, e);
                }
            }
        }
        assert forall|key: u32| #[trigger] with_key(all, key) == with_key(s.push(e), key) by {
            lemma_with_key_push(mid, last, key);
            lemma_with_key_push(front, e, key);
            lemma_with_key_push(s, e, key);
            lemma_with_key_push(front, last, key);
            assert(with_key(mid, key) == with_key(front.push(e), key));
        }
        assert(all.to_multiset() =~= s.to_multiset().insert(e));
    } else {
        assert(s.push(e).to_multiset() =~= s.to_multiset().insert(e));
        if s.len() > 0 {
            assert forall|i: int, j: int| 0 <= i < j < s.push(e).len() implies registry::order_key(
                s.push(e)[i],
            ) <= registry::order_key(s.push(e)[j]) by {
                if j == s.len() && i < s.len() - 1 {
                    assert(registry::order_key(s[i]) <= registry::order_key(s[s.len() - 1]));
                }
            }
        }
    }
}

/// The last hook after an insertion is the one that was last or the one that was inserted.
proof fn lemma_last_of_inserted(s: Seq<EntryView>, e: EntryView)
    ensures
        registry::inserted_by_order(s, e).len() == s.len() + 1,
        registry::inserted_by_order(s, e).last() == e || (s.len() > 0
            && registry::inserted_by_order(s, e).last() == s.last()),
    decreases s.len(),
{
    if s.len() > 0 && registry::order_key(s.last()) > registry::order_key(e) {
        lemma_last_of_inserted(s.drop_last(), e);
    }
}

/// Ordering by load order loses and adds no hook, puts lower orders first, and keeps hooks of one
/// order in the order in which they are registered.
pub proof fn law_load_order(hooks: Seq<EntryView>)
    ensures
        ascending(registry::by_load_order(hooks)),
        registry::by_load_order(hooks).to_multiset() == hooks.to_multiset(),
        forall|key: u32| #[trigger]
            with_key(registry::by_load_order(hooks), key) == with_key(hooks, key),
    decreases hooks.len(),
{
    broadcast use vstd::seq_lib::group_to_multiset_ensures;

    if hooks.len() == 0 {
        assert(registry::by_load_order(hooks) =~= hooks);
    } else {
        let front = hooks.drop_last();
        law_load_order(front);
        let s = registry::by_load_order(front);
        lemma_inserted(s, hooks.last());
        assert(front.push(hooks.last()) =~= hooks);
        assert forall|key: u32| #[trigger]
            with_key(registry::by_load_order(hooks), key) == with_key(hooks, key) by {
            assert(with_key(registry::by_load_order(hooks), key) == with_key(
                s.push(hooks.last()),
                key,
            ));
            lemma_with_key_push(s, hooks.last(), key);
            lemma_with_key_push(front, hooks.last(), key);
            assert(with_key(s, key) == with_key(front, key));
        }
        assert(front.push(hooks.last()).to_multiset() =~= front.to_multiset().insert(
            hooks.last(),
        ));
    }
}

/// Hooks that are already in load order stay as they are.
pub proof fn law_load_order_is_stable(hooks: Seq<EntryView>)
    requires
        ascending(hooks),
    ensures
        registry::by_load_order(hooks) == hooks,
    decreases hooks.len(),
{
    if hooks.len() > 0 {
        let front = hooks.drop_last();
        assert(ascending(front));
        law_load_order_is_stable(front);
        assert(front.push(hooks.last()) =~= hooks);
        if front.len() > 0 {
            assert(registry::order_key(hooks[front.len() - 1]) <= registry::order_key(
                hooks[front.len() as int],
            ));
        }
    } else {
        assert(registry::by_load_order(hooks) =~= hooks);
    }
}

/// The list of all symbols holds exactly the symbols of the registered hooks.
pub proof fn law_all_symbols_are_listed(
    hooks: Seq<EntryView>,
    item: (Seq<char>, Seq<char>, Seq<char>),
)
    ensures
        registry::all_symbols(hooks).contains(item) == (exists|i: int, j: int|
            0 <= i < hooks.len() && 0 <= j < hooks[i].hooked_symbols.len() && item == (
                hooks[i].name,
                (#[trigger] hooks[i].hooked_symbols[j]).symbol,
                hooks[i].hooked_symbols[j].method,
            )),
    decreases hooks.len(),
{
    let all = registry::all_symbols(hooks);
    if hooks.len() > 0 {
        let front = hooks.drop_last();
        let own = registry::symbols_of(hooks.last());
        let before = registry::all_symbols(front);
        law_all_symbols_are_listed(front, item);
        assert(all == before + own);
        let last = hooks.len() - 1;
        if all.contains(item) {
            let k = choose|k: int| 0 <= k < all.len() && all[k] == item;
            if k < before.len() {
                assert(before[k] == item);
                let (i, j) = choose|i: int, j: int|
                    0 <= i < front.len() && 0 <= j < front[i].hooked_symbols.len() && item == (
                        front[i].name,
                        (#[trigger] front[i].hooked_symbols[j]).symbol,
                        front[i].hooked_symbols[j].method,
                    );
                assert(hooks[i] == front[i]);
                assert(hooks[i].hooked_symbols[j] == front[i].hooked_symbols[j]);
            } else {
                let j = k - before.len();
                assert(own[j] == item);
                assert(hooks[last].hooked_symbols[j] == hooks.last().hooked_symbols[j]);
            }
        }
        if exists|i: int, j: int|
            0 <= i < hooks.len() && 0 <= j < hooks[i].hooked_symbols.len() && item == (
                hooks[i].name,
                (#[trigger] hooks[i].hooked_symbols[j]).symbol,
                hooks[i].hooked_symbols[j].method,
            ) {
            let (i, j) = choose|i: int, j: int|
                0 <= i < hooks.len() && 0 <= j < hooks[i].hooked_symbols.len() && item == (
                    hooks[i].name,
                    (#[trigger] hooks[i].hooked_symbols[j]).symbol,
                    hooks[i].hooked_symbols[j].method,
                );
            if i < last {
                assert(front[i] == hooks[i]);
                assert(front[i].hooked_symbols[j] == hooks[i].hooked_symbols[j]);
                assert(before.contains(item));
                let k = choose|k: int| 0 <= k < before.len() && before[k] == item;
                assert(all[k] == item);
            } else {
                assert(own[j] == item);
                assert(all[before.len() + j] == item);
            }
        }
    } else {
        assert(all =~= seq![]);
    }
}

/// What a filter keeps of an ascending list is ascending.
pub proof fn lemma_filter_ascending(s: Seq<EntryView>, keep: spec_fn(EntryView) -> bool)
    requires
        ascending(s),
    ensures
        ascending(s.filter(keep)),
        s.filter(keep).len() > 0 ==> registry::order_key(s.filter(keep).last())
            <= registry::order_key(s.last()),
    decreases s.len(),
{
    reveal(Seq::filter);
    if s.len() > 0 {
        let front = s.drop_last();
        assert(ascending(front));
        lemma_filter_ascending(front, keep);
        let kept = front.filter(keep);
        if front.len() > 0 {
            assert(registry::order_key(s[front.len() - 1]) <= registry::order_key(
                s[front.len() as int],
            ));
        }
        if keep(s.last()) {
            let all = kept.push(s.last());
            assert forall|i: int, j: int| 0 <= i < j < all.len() implies registry::order_key(all[i])
                <= registry::order_key(all[j]) by {
                if j == kept.len() && i < kept.len() - 1 {
                    assert(registry::order_key(kept[i]) <= registry::order_key(
                        kept[kept.len() - 1],
                    ));
                }
            }
        }
    }
}

/// Filtering after an insertion is inserting after the filtering.
proof fn lemma_filter_inserted(s: Seq<EntryView>, e: EntryView, keep: spec_fn(EntryView) -> bool)
    requires
        ascending(s),
    ensures
        registry::inserted_by_order(s, e).filter(keep) == (if keep(e) {
            registry::inserted_by_order(s.filter(keep), e)
        } else {
            s.filter(keep)
        }),
    decreases s.len(),
{
    reveal(Seq::filter);
    if s.len() == 0 || registry::order_key(s.last()) <= registry::order_key(e) {
        assert(s.push(e).drop_last() =~= s);
        lemma_filter_ascending(s, keep);
    } else {
        let front = s.drop_last();
        let last = s.last();
        let mid = registry::inserted_by_order(front, e);
        assert(ascending(front));
        lemma_filter_inserted(front, e, keep);
        assert(mid.push(last).drop_last() =~= mid);
        if keep(last) {
            assert(s.filter(keep).drop_last() =~= front.filter(keep));
        }
    }
}

/// Leaving hooks out and ordering by load order can be done in either order.
pub proof fn law_load_order_of_some_hooks(
    hooks: Seq<EntryView>,
    keep: spec_fn(EntryView) -> bool,
)
    ensures
        registry::by_load_order(hooks).filter(keep) == registry::by_load_order(
            hooks.filter(keep),
        ),
    decreases hooks.len(),
{
    reveal(Seq::filter);
    if hooks.len() == 0 {
        assert(registry::by_load_order(hooks).filter(keep) =~= seq![]);
        assert(hooks.filter(keep) =~= seq![]);
    } else {
        let front = hooks.drop_last();
        law_load_order_of_some_hooks(front, keep);
        law_load_order(front);
        lemma_filter_inserted(registry::by_load_order(front), hooks.last(), keep);
        if keep(hooks.last()) {
            assert(hooks.filter(keep).drop_last() =~= front.filter(keep));
        }
    }
}

/// Registering a hook leaves the hooks of other names as they are, in their order.
pub proof fn law_register_keeps_the_list_of_others(hooks: Seq<EntryView>, entry: EntryView)
    ensures
        registry::without(registry::registered(hooks, entry), entry.name) == registry::without(
            hooks,
            entry.name,
        ),
{
    let i = registry::index_of(hooks, entry.name, 0);
    registry::lemma_index_of(hooks, entry.name, 0);
    if i < hooks.len() {
        lemma_without_update(hooks, i, entry);
    } else {
        lemma_without_step(hooks.push(entry), entry.name);
        assert(hooks.push(entry).drop_last() =~= hooks);
    }
}

/// Replacing a hook by one of the same name leaves the others as they are.
proof fn lemma_without_update(hooks: Seq<EntryView>, i: int, entry: EntryView)
    requires
        0 <= i < hooks.len(),
        hooks[i].name == entry.name,
    ensures
        registry::without(hooks.update(i, entry), entry.name) == registry::without(
            hooks,
            entry.name,
        ),
    decreases hooks.len(),
{
    let after = hooks.update(i, entry);
    lemma_without_step(hooks, entry.name);
    lemma_without_step(after, entry.name);
    if i < hooks.len() - 1 {
        lemma_without_update(hooks.drop_last(), i, entry);
        assert(after.drop_last() =~= hooks.drop_last().update(i, entry));
    } else {
        assert(after.drop_last() =~= hooks.drop_last());
    }
}

} // verus!
