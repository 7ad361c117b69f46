//! Laws of paths, said of their characters.

use crate::path;
use crate::path_laws;
use crate::project::{self, PatcherView, ProjectView, TargetView};
use vstd::prelude::*;

verus! {

/// Joining puts one separator between the two, none when there is one already or the first is empty,
/// and an absolute path stands for itself.
pub proof fn law_join_puts_one_separator(base: Seq<char>, rel: Seq<char>)
    ensures
        rel.len() > 0 && rel[0] == '/' ==> path::joined(base, rel) == rel,
        rel.len() == 0 || rel[0] != '/' ==> {
            &&& path::joined(seq![], rel) == rel
            &&& base.len() > 0 && base.last() == '/' ==> path::joined(base, rel) == base + rel
            &&& base.len() > 0 && base.last() != '/' ==> path::joined(base, rel) == base
                + seq!['/'] + rel
        },
{
    let none: Seq<char> = seq![];
    assert(none + rel =~= rel);
    assert(base.push('/') + rel =~= base + seq!['/'] + rel);
}

/// A path that ends in two plain names has the second as its file name and the rest as its parent.
pub proof fn law_parent_and_name_of_a_path(base: Seq<char>, dir: Seq<char>, name: Seq<char>)
    requires
        path_laws::is_plain_name(dir),
        path_laws::is_plain_name(name),
    ensures
        path::parent_of(base + seq!['/'] + dir + seq!['/'] + name) == Some(
            base + seq!['/'] + dir,
        ),
        path::file_name_of(base + seq!['/'] + dir + seq!['/'] + name) == Some(name),
{
    let q = base + seq!['/'];
    let d = q + dir;
    assert(dir.contains(dir[0]));
    assert(dir.contains(dir.last()));
    assert(d.last() == dir.last());
    assert(name.contains(name[0]));
    path_laws::lemma_last_of(q, dir);
    path_laws::law_join_then_parent(d, name);
    assert(path::joined(d, name) =~= d + seq!['/'] + name);
}

/// A plain name by itself has the empty path as its parent; below the root its parent is the root.
pub proof fn law_names_without_a_directory(name: Seq<char>)
    requires
        path_laws::is_plain_name(name),
    ensures
        path::parent_of(name) == Some(Seq::<char>::empty()),
        path::file_name_of(name) == Some(name),
        path::parent_of(seq!['/'] + name) == Some(seq!['/']),
        path::file_name_of(seq!['/'] + name) == Some(name),
{
    let none: Seq<char> = seq![];
    assert(name.contains(name[0]));
    path_laws::law_join_then_parent(none, name);
    assert(path::joined(none, name) =~= name);
    path_laws::law_join_then_parent(seq!['/'], name);
    assert(path::joined(seq!['/'], name) =~= seq!['/'] + name);
    assert(path::stripped(none) == none);
    assert(path::stripped(seq!['/']) == seq!['/']);
}

/// The root and the empty path have neither a parent nor a file name.
pub proof fn law_paths_without_a_name()
    ensures
        path::parent_of(seq!['/']) is None,
        path::file_name_of(seq!['/']) is None,
        path::parent_of(seq![]) is None,
        path::file_name_of(seq![]) is None,
{
    let none: Seq<char> = seq![];
    let root = seq!['/'];
    assert(path::stripped(none) == none);
    assert(path::stripped(root) == root);
    assert(root[0] == '/');
    assert(seq!['.'][0] == '.');
}

/// What is stripped from the end of a path.
proof fn lemma_stripped_at_the_end(p: Seq<char>)
    requires
        p.len() > 0,
    ensures
        path::stripped(p + seq!['/']) == path::stripped(p),
        path::stripped(p + seq!['/', '.']) == path::stripped(p),
{
    let a = p + seq!['/'];
    let b = path::body_start(p);
    assert(a[0] == p[0]);
    if p.len() > 1 {
        assert(a[1] == p[1]);
    }
    assert(path::body_start(a) == b);
    assert(path::component_start(a, b) == a.len());
    assert(path::last_component(a).len() == 0);
    assert(a.take(a.len() - 1) =~= p);
    assert(path::stripped(a) == path::stripped(p));
    let c = p + seq!['/', '.'];
    assert(c[0] == p[0]);
    if p.len() > 1 {
        assert(c[1] == p[1]);
    }
    assert(path::body_start(c) == b);
    assert(c.drop_last() =~= a);
    assert(path::component_start(c, b) == a.len());
    assert(path::last_component(c) =~= seq!['.']);
    assert(c.take(a.len() - 1) =~= p);
    assert(path::stripped(c) == path::stripped(p));
}

/// A separator at the end of a path, or one with a `.` behind it, changes neither the parent nor the
/// file name.
pub proof fn law_trailing_separators_do_not_count(p: Seq<char>)
    requires
        p.len() > 0,
    ensures
        path::parent_of(p + seq!['/']) == path::parent_of(p),
        path::file_name_of(p + seq!['/']) == path::file_name_of(p),
        path::parent_of(p + seq!['/', '.']) == path::parent_of(p),
        path::file_name_of(p + seq!['/', '.']) == path::file_name_of(p),
{
    lemma_stripped_at_the_end(p);
}

/// A path that ends in `..` has no file name.
pub proof fn law_no_name_behind_two_dots(p: Seq<char>)
    ensures
        path::file_name_of(seq!['.', '.']) is None,
        path::file_name_of(p + seq!['/', '.', '.']) is None,
{
    let two = seq!['.', '.'];
    lemma_two_dots(seq![]);
    let none: Seq<char> = seq![];
    assert(none + two =~= two);
    let q = p + seq!['/'];
    lemma_two_dots(q);
    assert(q + two =~= p + seq!['/', '.', '.']);
}

proof fn lemma_two_dots(q: Seq<char>)
    requires
        q.len() == 0 || q.last() == '/',
    ensures
        path::file_name_of(q + seq!['.', '.']) is None,
        path::stripped(q + seq!['.', '.']) == q + seq!['.', '.'],
{
    let two = seq!['.', '.'];
    let r = q + two;
    let b = path::body_start(r);
    assert(forall|i: int| 0 <= i < q.len() ==> r[i] == q[i]);
    assert(r[q.len() as int] == '.' && r[q.len() as int + 1] == '.');
    assert(b <= q.len());
    assert(r.drop_last().drop_last() =~= q);
    reveal_with_fuel(path::component_start, 4);
    assert(path::component_start(r, b) == path::component_start(q, b));
    assert(path::component_start(q, b) == q.len());
    assert(path::last_component(r) =~= two);
    assert(two.len() == 2);
    assert(path::stripped(r) == r);
}

/// Separators and `.` components before the last name do not count either.
pub proof fn law_separators_before_the_name_do_not_count(dir: Seq<char>, name: Seq<char>)
    requires
        dir.len() > 0,
        path_laws::is_plain_name(name),
    ensures
        path::parent_of(dir + seq!['/', '/'] + name) == path::parent_of(dir + seq!['/'] + name),
        path::file_name_of(dir + seq!['/', '/'] + name) == Some(name),
        path::parent_of(dir + seq!['/', '.', '/'] + name) == path::parent_of(
            dir + seq!['/'] + name,
        ),
        path::file_name_of(dir + seq!['/', '.', '/'] + name) == Some(name),
        path::file_name_of(dir + seq!['/'] + name) == Some(name),
{
    assert(name.contains(name[0]));
    let one = dir + seq!['/'];
    let dot = dir + seq!['/', '.'];
    path_laws::law_join_then_parent(one, name);
    path_laws::law_join_then_parent(one + seq!['/'], name);
    path_laws::law_join_then_parent(dot, name);
    assert(path::joined(one, name) =~= dir + seq!['/'] + name);
    assert(path::joined(one + seq!['/'], name) =~= dir + seq!['/', '/'] + name);
    assert(path::joined(dot, name) =~= dir + seq!['/', '.', '/'] + name);
    lemma_stripped_at_the_end(dir);
    lemma_stripped_at_the_end(one);
}

/// A `.` at the start of a path counts: a name below it has it as its parent. By itself it has the
/// empty path as its parent and no file name. A `..` counts as a directory.
pub proof fn law_leading_dot_counts(base: Seq<char>, name: Seq<char>)
    requires
        path_laws::is_plain_name(name),
    ensures
        path::parent_of(seq!['.', '/'] + name) == Some(seq!['.']),
        path::file_name_of(seq!['.', '/'] + name) == Some(name),
        path::parent_of(seq!['.']) == Some(Seq::<char>::empty()),
        path::file_name_of(seq!['.']) is None,
        path::parent_of(base + seq!['/', '.', '.', '/'] + name) == Some(
            base + seq!['/', '.', '.'],
        ),
{
    assert(name.contains(name[0]));
    let dot = seq!['.'];
    path_laws::law_join_then_parent(dot, name);
    assert(path::joined(dot, name) =~= seq!['.', '/'] + name);
    assert(path::stripped(dot) == dot);
    let q = base + seq!['/'];
    let up = q + seq!['.', '.'];
    lemma_two_dots(q);
    path_laws::law_join_then_parent(up, name);
    assert(up =~= base + seq!['/', '.', '.']);
    assert(path::joined(up, name) =~= base + seq!['/', '.', '.', '/'] + name);
}

/// The last `.` of a text in which none stands behind it.
proof fn lemma_last_dot(a: Seq<char>, ext: Seq<char>)
    requires
        !ext.contains('.'),
    ensures
        path::last_position_of(a + seq!['.'] + ext, '.') == a.len(),
    decreases ext.len(),
{
    let s = a + seq!['.'] + ext;
    if ext.len() == 0 {
        assert(s.last() == '.');
    } else {
        let front = ext.drop_last();
        assert(s.last() == ext.last());
        assert(ext.contains(ext.last()));
        assert(s.drop_last() =~= a + seq!['.'] + front);
        assert forall|k: int| 0 <= k < front.len() implies front[k] != '.' by {
            assert(ext.contains(ext[k]));
        }
        lemma_last_dot(a, front);
    }
}

/// The last `.` of a text without one.
proof fn lemma_no_dot(s: Seq<char>)
    requires
        !s.contains('.'),
    ensures
        path::last_position_of(s, '.') == -1,
    decreases s.len(),
{
    if s.len() > 0 {
        assert(s.contains(s.last()));
        let front = s.drop_last();
        assert forall|k: int| 0 <= k < front.len() implies front[k] != '.' by {
            assert(s.contains(s[k]));
        }
        lemma_no_dot(front);
    }
}

/// The stem of a name is what stands before its last `.`; a name without a `.` and a name that begins
/// with its only one are their own stems.
pub proof fn law_stem_stands_before_the_last_dot(a: Seq<char>, ext: Seq<char>)
    requires
        !ext.contains('.'),
    ensures
        a.len() > 0 ==> path::stem_of_name(a + seq!['.'] + ext) == a,
        path::stem_of_name(ext) == ext,
        path::stem_of_name(seq!['.'] + ext) == seq!['.'] + ext,
{
    let none: Seq<char> = seq![];
    lemma_last_dot(a, ext);
    lemma_last_dot(none, ext);
    lemma_no_dot(ext);
    assert((a + seq!['.'] + ext).take(a.len() as int) =~= a);
    assert(none + seq!['.'] + ext =~= seq!['.'] + ext);
}

/// The stem of a path is the stem of its file name.
pub proof fn law_stem_of_a_path(dir: Seq<char>, name: Seq<char>, a: Seq<char>, ext: Seq<char>)
    requires
        path_laws::is_plain_name(name),
        name == a + seq!['.'] + ext,
        a.len() > 0,
        !ext.contains('.'),
    ensures
        path::file_stem_of(name) == Some(a),
        path::file_stem_of(path::joined(dir, name)) == Some(a),
{
    law_names_without_a_directory(name);
    path_laws::law_join_then_parent(dir, name);
    law_stem_stands_before_the_last_dot(a, ext);
}

/// An application is called what its bundle is called, without the extension.
pub proof fn law_application_has_the_name_of_its_bundle(
    target: TargetView,
    dir: Seq<char>,
    a: Seq<char>,
    ext: Seq<char>,
)
    requires
        path_laws::is_plain_name(a + seq!['.'] + ext),
        a.len() > 0,
        !ext.contains('.'),
        target.app_path == path::joined(dir, a + seq!['.'] + ext) || target.app_path == a + seq![
            '.',
        ] + ext,
    ensures
        target.app_name() == a,
{
    law_stem_of_a_path(dir, a + seq!['.'] + ext, a, ext);
}

/// The name of an application is the stem of its bundle's file name, and empty when the path has none.
pub proof fn law_application_name_is_a_stem(target: TargetView, p: Seq<char>)
    ensures
        path::file_name_of(target.app_path) matches Some(n) ==> target.app_name()
            == path::stem_of_name(n),
        path::file_name_of(target.app_path) is None ==> target.app_name().len() == 0,
        path::file_name_of(p) matches Some(n) ==> path::file_stem_of(p) == Some(
            path::stem_of_name(n),
        ),
        path::file_name_of(p) is None ==> path::file_stem_of(p) is None,
{
}

/// The binary stands below the bundle, the backup beside the binary with `.original` behind its name,
/// and the logs in the binary's directory, or in `/tmp` when it has none.
pub proof fn law_places_of_a_target(
    target: TargetView,
    base: Seq<char>,
    dir: Seq<char>,
    name: Seq<char>,
)
    ensures
        target.app_path.len() > 0 && target.app_path.last() != '/' && target.binary_rel_path.len()
            > 0 && target.binary_rel_path[0] != '/' ==> target.binary_path() == target.app_path
            + seq!['/'] + target.binary_rel_path,
        target.backup_path() == target.binary_path() + ".original"@,
        path_laws::is_plain_name(dir) && path_laws::is_plain_name(name) && target.binary_path()
            == base + seq!['/'] + dir + seq!['/'] + name ==> {
            &&& target.logs_dir() == base + seq!['/'] + dir
            &&& target.binary_name() == name
        },
        target.binary_path() == seq!['/'] ==> target.logs_dir() == "/tmp"@
            && target.binary_name().len() == 0,
        path::parent_of(target.binary_path()) matches Some(d) ==> target.logs_dir() == d,
        path::parent_of(target.binary_path()) is None ==> target.logs_dir() == "/tmp"@,
        path::file_name_of(target.binary_path()) matches Some(n) ==> target.binary_name() == n,
        path::file_name_of(target.binary_path()) is None ==> target.binary_name().len() == 0,
{
    law_join_puts_one_separator(target.app_path, target.binary_rel_path);
    law_paths_without_a_name();
    if path_laws::is_plain_name(dir) && path_laws::is_plain_name(name) {
        law_parent_and_name_of_a_path(base, dir, name);
    }
}

/// The dylib is looked for below the project's directory, in `target/release`, under its file name.
pub proof fn law_dylib_stands_below_the_project(patcher: PatcherView)
    requires
        patcher.project_root.len() > 0,
        patcher.project_root.last() != '/',
        patcher.project.dylib_filename.len() > 0,
        patcher.project.dylib_filename[0] != '/',
    ensures
        patcher.default_dylib_path() == patcher.project_root + "/target/release/"@
            + patcher.project.dylib_filename,
{
    reveal_strlit("target/release");
    reveal_strlit("/target/release/");
    let dir = path::joined(patcher.project_root, "target/release"@);
    assert(dir.last() == 'e');
    assert(patcher.default_dylib_path() =~= patcher.project_root + "/target/release/"@
        + patcher.project.dylib_filename);
}

/// The crate that is built is the one that was set, or else the one of the hook's name.
pub proof fn law_crate_is_the_one_that_was_set(project: ProjectView)
    ensures
        project.crate_name matches Some(c) ==> project.effective_crate_name() == c,
        project.crate_name is None ==> project.effective_crate_name() == project.name,
{
}

/// The value of a flag is the argument behind its first place, when there is one behind it.
pub proof fn law_value_stands_behind_the_first_flag(args: Seq<Seq<char>>, flag: Seq<char>)
    ensures
        match project::arg_value_from(args, flag, 0) {
            Some(v) => exists|i: int|
                {
                    &&& 0 <= i < args.len() - 1
                    &&& #[trigger] args[i] == flag
                    &&& v == args[i + 1]
                    &&& forall|k: int| 0 <= k < i ==> #[trigger] args[k] != flag
                },
            None => forall|k: int| 0 <= k < args.len() - 1 ==> #[trigger] args[k] != flag,
        },
{
    lemma_value(args, flag, 0);
}

proof fn lemma_value(args: Seq<Seq<char>>, flag: Seq<char>, from: int)
    requires
        0 <= from,
    ensures
        match project::arg_value_from(args, flag, from) {
            Some(v) => exists|i: int|
                {
                    &&& from <= i < args.len() - 1
                    &&& #[trigger] args[i] == flag
                    &&& v == args[i + 1]
                    &&& forall|k: int| from <= k < i ==> #[trigger] args[k] != flag
                },
            None => forall|k: int| from <= k < args.len() - 1 ==> #[trigger] args[k] != flag,
        },
    decreases args.len() - from,
{
    if from + 1 < args.len() {
        if args[from] == flag {
            assert(args[from] == flag);
        } else {
            lemma_value(args, flag, from + 1);
        }
    }
}

/// `--stable` anywhere names the stable release; otherwise the path behind the first `--app` is
/// patched, and without one the preview release.
pub proof fn law_target_that_the_arguments_name(args: Seq<Seq<char>>, i: int)
    ensures
        ({
            let t = project::target_from(args);
            &&& t.binary_rel_path == "Contents/MacOS/zed"@
            &&& 0 <= i < args.len() && args[i] == "--stable"@ ==> {
                &&& t.app_path == "/Applications/Zed.app"@
                &&& t.app_id == "zed-stable"@
            }
            &&& (forall|k: int| 0 <= k < args.len() ==> #[trigger] args[k] != "--stable"@) ==> {
                &&& 0 <= i < args.len() - 1 && args[i] == "--app"@ && (forall|k: int|
                    0 <= k < i ==> #[trigger] args[k] != "--app"@) ==> {
                    &&& t.app_path == args[i + 1]
                    &&& t.app_id == "custom"@
                }
                &&& (forall|k: int| 0 <= k < args.len() - 1 ==> #[trigger] args[k] != "--app"@)
                    ==> {
                    &&& t.app_path == "/Applications/Zed Preview.app"@
                    &&& t.app_id == "zed-preview"@
                }
            }
        }),
{
    law_value_stands_behind_the_first_flag(args, "--app"@);
    if args.contains("--stable"@) {
        let k = choose|k: int| 0 <= k < args.len() && args[k] == "--stable"@;
        assert(args[k] == "--stable"@);
    } else if 0 <= i < args.len() {
        assert(args[i] != "--stable"@);
    }
}

} // verus!
