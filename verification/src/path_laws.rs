//! Laws of the places that the library uses: registries, binaries, backups and logs.

use crate::path;
use crate::project::TargetView;
use crate::registry;
use vstd::prelude::*;

verus! {

/// A file name that stands for one component: not empty, without a separator, neither `.` nor `..`.
pub open spec fn is_plain_name(name: Seq<char>) -> bool {
    &&& name.len() > 0
    &&& !name.contains('/')
    &&& name != seq!['.']
    &&& name != seq!['.', '.']
}

/// Walking back over a part without separators ends where the part begins.
proof fn lemma_component_start_append(q: Seq<char>, name: Seq<char>, start: int)
    requires
        0 <= start <= q.len(),
        !name.contains('/'),
    ensures
        path::component_start(q + name, start) == path::component_start(q, start),
    decreases name.len(),
{
    if name.len() == 0 {
        assert(q + name =~= q);
    } else {
        let front = name.drop_last();
        assert(!front.contains('/')) by {
            if front.contains('/') {
                let i = choose|i: int| 0 <= i < front.len() && front[i] == '/';
                assert(name[i] == '/');
            }
        }
        lemma_component_start_append(q, front, start);
        assert((q + name).drop_last() =~= q + front);
        assert((q + name).last() == name[name.len() - 1]);
    }
}

/// The last component of a path whose prefix is empty or ends in a separator.
pub proof fn lemma_last_of(q: Seq<char>, name: Seq<char>)
    requires
        q.len() == 0 || q.last() == '/',
        is_plain_name(name),
    ensures
        path::body_start(q + name) == path::body_start(q),
        path::body_start(q) <= q.len(),
        path::component_start(q + name, path::body_start(q)) == q.len(),
        path::last_component(q + name) == name,
        path::stripped(q + name) == q + name,
{
    let p = q + name;
    assert(forall|i: int| 0 <= i < q.len() ==> p[i] == q[i]);
    assert(forall|i: int| 0 <= i < name.len() ==> p[q.len() + i] == name[i]);
    assert(name.contains(name[0]));
    if name.len() > 1 {
        assert(name.contains(name[1]));
    } else {
        assert(name[0] != '.') by {
            if name[0] == '.' {
                assert(name =~= seq!['.']);
            }
        }
    }
    let b = path::body_start(q);
    lemma_component_start_append(q, name, b);
    assert(path::component_start(q, b) == q.len());
    assert(p.skip(q.len() as int) =~= name);
}

/// A name below a directory has that directory as its parent and itself as its file name.
pub proof fn law_join_then_parent(dir: Seq<char>, name: Seq<char>)
    requires
        is_plain_name(name),
    ensures
        path::file_name_of(path::joined(dir, name)) == Some(name),
        path::parent_of(path::joined(dir, name)) == Some(path::stripped(dir)),
{
    assert(name.contains(name[0]));
    let p = path::joined(dir, name);
    let q = if dir.len() == 0 || dir.last() == '/' {
        dir
    } else {
        dir.push('/')
    };
    lemma_last_of(q, name);
    assert(p == q + name);
    let b = path::body_start(q);
    if dir.len() > 0 && dir.last() != '/' {
        assert(p.take(q.len() - 1) =~= dir);
    } else if q.len() > b {
        assert(p.take(q.len() - 1) =~= dir.take(dir.len() - 1));
        assert(path::component_start(dir, b) == dir.len());
        assert(path::is_void(path::last_component(dir)));
        assert(path::without_last(dir) == dir.take(dir.len() - 1));
    } else {
        assert(p.take(q.len() as int) =~= dir);
    }
}

/// Adding to the last component changes the file name and nothing else.
proof fn lemma_longer_name(p: Seq<char>, more: Seq<char>)
    requires
        p.len() > path::body_start(p),
        is_plain_name(path::last_component(p)),
        more.len() > 1,
        !more.contains('/'),
    ensures
        path::file_name_of(p + more) == Some(path::last_component(p) + more),
        path::parent_of(p + more) == path::parent_of(p),
        path::file_name_of(p) == Some(path::last_component(p)),
{
    let b = path::body_start(p);
    let c = path::component_start(p, b);
    let name = path::last_component(p);
    path::lemma_component_start(p, b);
    assert(name.contains(name[0]));
    assert(p[0] == (p + more)[0]);
    assert(path::body_start(p + more) == b) by {
        if p.len() > 1 {
            assert((p + more)[1] == p[1]);
        } else {
            assert((p + more)[1] == more[0]);
            assert(more.contains(more[0]));
        }
    }
    lemma_component_start_append(p, more, b);
    assert((p + more).skip(c) =~= name + more);
    assert(path::stripped(p) == p);
    assert((name + more).len() > 2);
    assert(path::stripped(p + more) == p + more);
    if c > b {
        assert((p + more).take(c - 1) =~= p.take(c - 1));
    } else {
        assert((p + more).take(c) =~= p.take(c));
    }
}

/// The backup and the logs stand in the directory of the binary, and the backup is another file.
pub proof fn law_backup_and_logs_are_beside_the_binary(target: TargetView)
    requires
        target.binary_path().len() > path::body_start(target.binary_path()),
        is_plain_name(path::last_component(target.binary_path())),
    ensures
        target.backup_path() != target.binary_path(),
        path::parent_of(target.backup_path()) == Some(target.logs_dir()),
        path::parent_of(target.binary_path()) == Some(target.logs_dir()),
        path::file_name_of(target.binary_path()) == Some(target.binary_name()),
        path::file_name_of(target.backup_path()) == Some(target.binary_name() + ".original"@),
{
    let p = target.binary_path();
    reveal_strlit(".original");
    lemma_longer_name(p, ".original"@);
}

/// Applications of different identifiers have different registries.
pub proof fn law_applications_have_their_own_registry(
    home: Seq<char>,
    a: Seq<char>,
    b: Seq<char>,
)
    requires
        is_plain_name(a),
        is_plain_name(b),
        a != b,
    ensures
        registry::registry_file_in(registry::registry_dir_in(home, a))
            != registry::registry_file_in(registry::registry_dir_in(home, b)),
{
    let all = path::joined(path::joined(home, ".config"@), "dylib-hooks"@);
    let in_a = registry::registry_file_in(registry::registry_dir_in(home, a));
    let in_b = registry::registry_file_in(registry::registry_dir_in(home, b));
    reveal_strlit("registry.json");
    assert(is_plain_name("registry.json"@));
    law_join_then_parent(registry::registry_dir_in(home, a), "registry.json"@);
    law_join_then_parent(registry::registry_dir_in(home, b), "registry.json"@);
    law_join_then_parent(all, a);
    law_join_then_parent(all, b);
    assert(path::stripped(path::joined(all, a)) == path::joined(all, a)) by {
        lemma_joined_is_stripped(all, a);
    }
    assert(path::stripped(path::joined(all, b)) == path::joined(all, b)) by {
        lemma_joined_is_stripped(all, b);
    }
}

proof fn lemma_joined_is_stripped(dir: Seq<char>, name: Seq<char>)
    requires
        is_plain_name(name),
    ensures
        path::stripped(path::joined(dir, name)) == path::joined(dir, name),
{
    assert(name.contains(name[0]));
    let q = if dir.len() == 0 || dir.last() == '/' {
        dir
    } else {
        dir.push('/')
    };
    lemma_last_of(q, name);
}

} // verus!
