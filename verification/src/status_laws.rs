//! Laws of the status report, said of its lines.

use crate::artifact;
use crate::outside;
use crate::project::PatcherView;
use crate::registry::{self, EntryView, RegistryView};
use crate::registry_laws;
use crate::status;
use crate::text;
use vstd::prelude::*;

verus! {

/// The lines on a hook, one after the other: its name with its version and load order, its features,
/// its dylib, its symbols in their order, its artifact with the commit, whether it is up to date, and
/// its health check.
pub proof fn law_lines_of_a_hook(h: EntryView, features: Seq<char>, fresh: Option<bool>)
    ensures
        ({
            let lines = status::hook_report(h, features, fresh);
            let n = 3 + h.hooked_symbols.len() as int;
            let art: int = match h.artifact {
                None => 0,
                Some(a) => if a.git_commit is Some {
                    3
                } else {
                    2
                },
            };
            &&& lines.len() == n + art + (if h.health_check is Some {
                1int
            } else {
                0
            })
            &&& lines[0] == "\n  "@ + h.name + " v"@ + (match h.version {
                Some(v) => v,
                None => "?"@,
            }) + " (order="@ + text::decimal(
                match h.load_order {
                    Some(o) => o as nat,
                    None => 0,
                },
            ) + ")"@
            &&& lines[1] == "    features: "@ + features
            &&& lines[2] == "    dylib: "@ + h.dylib_path
            &&& forall|j: int|
                0 <= j < h.hooked_symbols.len() ==> #[trigger] lines[3 + j] == "    hook: "@
                    + h.hooked_symbols[j].symbol + " ["@ + h.hooked_symbols[j].method + "] "@ + (
                match h.hooked_symbols[j].description {
                    Some(d) => d,
                    None => ""@,
                })
            &&& h.artifact matches Some(a) ==> {
                &&& lines[n] == "    artifact: sha256="@ + a.sha256.take(
                    if a.sha256.len() < 16 {
                        a.sha256.len() as int
                    } else {
                        16
                    },
                ) + "... size="@ + text::decimal(a.size as nat) + " patched="@ + a.patched_at
                &&& a.git_commit matches Some(c) ==> lines[n + 1] == "    git: "@ + c
                &&& lines[n + art - 1] == (match fresh {
                    Some(true) => "    artifact: up to date"@,
                    Some(false) =>
                        "    WARNING: dylib on disk has CHANGED since patching — re-patch needed"@,
                    None => "    artifact: cannot verify (dylib missing?)"@,
                })
            }
            &&& h.health_check matches Some(c) ==> lines[n + art] == "    health: log="@
                + c.log_glob + ", markers="@ + text::decimal(c.success_markers.len())
                + ", timeout="@ + text::decimal(c.timeout_secs as nat) + "s"@
        }),
{
    let lines = status::hook_report(h, features, fresh);
    let n = 3 + h.hooked_symbols.len() as int;
    if let Some(a) = h.artifact {
        assert(lines[n] == status::artifact_line(a));
        assert(text::shortened(a.sha256, 16) =~= a.sha256.take(
            if a.sha256.len() < 16 {
                a.sha256.len() as int
            } else {
                16
            },
        ));
    }
    assert forall|j: int| 0 <= j < h.hooked_symbols.len() implies #[trigger] lines[3 + j]
        == status::symbol_line(h.hooked_symbols[j]) by {}
}

/// No line on a hook but the one on freshness reads like one on freshness.
proof fn lemma_other_lines(h: EntryView, features: Seq<char>, fresh: Option<bool>, j: int)
    requires
        0 <= j < status::hook_report(h, features, fresh).len(),
        ({
            let line = status::hook_report(h, features, fresh)[j];
            ||| line == "    artifact: up to date"@
            ||| line
                == "    WARNING: dylib on disk has CHANGED since patching — re-patch needed"@
            ||| line == "    artifact: cannot verify (dylib missing?)"@
        }),
    ensures
        h.artifact is Some,
        status::hook_report(h, features, fresh)[j] == status::fresh_line(fresh),
{
    reveal_strlit("    artifact: up to date");
    reveal_strlit("    WARNING: dylib on disk has CHANGED since patching — re-patch needed");
    reveal_strlit("    artifact: cannot verify (dylib missing?)");
    reveal_strlit("\n  ");
    reveal_strlit("    features: ");
    reveal_strlit("    dylib: ");
    reveal_strlit("    hook: ");
    reveal_strlit("    artifact: sha256=");
    reveal_strlit("    git: ");
    reveal_strlit("    health: log=");
    let lines = status::hook_report(h, features, fresh);
    let n = 3 + h.hooked_symbols.len() as int;
    let line = lines[j];
    assert(line[0] == ' ');
    if j == 0 {
        assert(line == status::title_line(h));
        assert(line[0] == '\n');
    } else if j == 1 {
        assert(line == "    features: "@ + features);
        assert(line[4] == 'f');
    } else if j == 2 {
        assert(line == "    dylib: "@ + h.dylib_path);
        assert(line[4] == 'd');
    } else if j < n {
        let s = h.hooked_symbols[j - 3];
        assert(line == status::symbol_line(s));
        assert(line[4] == 'h');
    } else {
        match h.artifact {
            Some(a) => {
                let art: int = if a.git_commit is Some {
                    3
                } else {
                    2
                };
                if j == n {
                    assert(line == status::artifact_line(a));
                    assert(line[4] == 'a');
                    assert(line[14] == 's');
                } else if j == n + art - 1 {
                    assert(line == status::fresh_line(fresh));
                } else if j < n + art {
                    assert(line == "    git: "@ + a.git_commit->0);
                    assert(line[4] == 'g');
                } else {
                    assert(line == status::health_line(h.health_check->0));
                    assert(line[4] == 'h');
                }
            },
            None => {
                assert(line == status::health_line(h.health_check->0));
                assert(line[4] == 'h');
            },
        }
    }
}

/// The lines on freshness are three different ones.
proof fn lemma_fresh_lines_differ()
    ensures
        "    artifact: up to date"@
            != "    WARNING: dylib on disk has CHANGED since patching — re-patch needed"@,
        "    artifact: up to date"@ != "    artifact: cannot verify (dylib missing?)"@,
        "    artifact: cannot verify (dylib missing?)"@
            != "    WARNING: dylib on disk has CHANGED since patching — re-patch needed"@,
{
    reveal_strlit("    artifact: up to date");
    reveal_strlit("    WARNING: dylib on disk has CHANGED since patching — re-patch needed");
    reveal_strlit("    artifact: cannot verify (dylib missing?)");
    assert("    artifact: up to date"@[4] == 'a');
    assert("    artifact: up to date"@[14] == 'u');
    assert("    artifact: cannot verify (dylib missing?)"@[4] == 'a');
    assert("    artifact: cannot verify (dylib missing?)"@[14] == 'c');
    assert("    WARNING: dylib on disk has CHANGED since patching — re-patch needed"@[4] == 'W');
}

/// Exactly one of the three lines on freshness stands in the lines on a hook with an artifact, and
/// none in those on a hook without one.
proof fn lemma_fresh_line_of_a_hook(h: EntryView, features: Seq<char>, fresh: Option<bool>)
    ensures
        ({
            let lines = status::hook_report(h, features, fresh);
            &&& lines.contains("    artifact: up to date"@) == (h.artifact is Some && fresh
                == Some(true))
            &&& lines.contains(
                "    WARNING: dylib on disk has CHANGED since patching — re-patch needed"@,
            ) == (h.artifact is Some && fresh == Some(false))
            &&& lines.contains("    artifact: cannot verify (dylib missing?)"@) == (h.artifact
                is Some && fresh is None)
        }),
{
    let lines = status::hook_report(h, features, fresh);
    law_lines_of_a_hook(h, features, fresh);
    lemma_fresh_lines_differ();
    let yes = "    artifact: up to date"@;
    let no = "    WARNING: dylib on disk has CHANGED since patching — re-patch needed"@;
    let unknown = "    artifact: cannot verify (dylib missing?)"@;
    if h.artifact is Some {
        let n = 3 + h.hooked_symbols.len() as int;
        let art: int = if h.artifact->0.git_commit is Some {
            3
        } else {
            2
        };
        assert(lines[n + art - 1] == status::fresh_line(fresh));
    }
    if lines.contains(yes) {
        let j = choose|j: int| 0 <= j < lines.len() && lines[j] == yes;
        lemma_other_lines(h, features, fresh, j);
    }
    if lines.contains(no) {
        let j = choose|j: int| 0 <= j < lines.len() && lines[j] == no;
        lemma_other_lines(h, features, fresh, j);
    }
    if lines.contains(unknown) {
        let j = choose|j: int| 0 <= j < lines.len() && lines[j] == unknown;
        lemma_other_lines(h, features, fresh, j);
    }
}

/// The lines on the first hooks are the beginning of the lines on more of them.
proof fn lemma_report_grows(
    hooks: Seq<EntryView>,
    dylibs: Seq<Option<Seq<u8>>>,
    i: int,
    n: int,
)
    requires
        0 <= i <= n,
    ensures
        status::hooks_report(hooks, dylibs, i).len() <= status::hooks_report(
            hooks,
            dylibs,
            n,
        ).len(),
        status::hooks_report(hooks, dylibs, n).take(
            status::hooks_report(hooks, dylibs, i).len() as int,
        ) == status::hooks_report(hooks, dylibs, i),
    decreases n - i,
{
    let part = status::hooks_report(hooks, dylibs, i);
    let all = status::hooks_report(hooks, dylibs, n);
    if i == n {
        assert(all.take(part.len() as int) =~= part);
    } else {
        lemma_report_grows(hooks, dylibs, i, n - 1);
        let most = status::hooks_report(hooks, dylibs, n - 1);
        assert(all.take(part.len() as int) =~= most.take(part.len() as int));
    }
}

/// The lines on a hook in the lines on all of them.
proof fn lemma_block(hooks: Seq<EntryView>, dylibs: Seq<Option<Seq<u8>>>, i: int, n: int)
    requires
        0 <= i < n,
    ensures
        ({
            let from = status::hooks_report(hooks, dylibs, i).len() as int;
            let to = status::hooks_report(hooks, dylibs, i + 1).len() as int;
            &&& from <= to <= status::hooks_report(hooks, dylibs, n).len()
            &&& status::hooks_report(hooks, dylibs, n).subrange(from, to) == status::hook_report(
                hooks[i],
                outside::debug_list_of(hooks[i].features),
                status::is_fresh(hooks[i], status::data_at(dylibs, i)),
            )
        }),
{
    let all = status::hooks_report(hooks, dylibs, n);
    let before = status::hooks_report(hooks, dylibs, i);
    let after = status::hooks_report(hooks, dylibs, i + 1);
    lemma_report_grows(hooks, dylibs, i + 1, n);
    let block = status::hook_report(
        hooks[i],
        outside::debug_list_of(hooks[i].features),
        status::is_fresh(hooks[i], status::data_at(dylibs, i)),
    );
    assert(after == before + block);
    assert(all.subrange(before.len() as int, after.len() as int) =~= all.take(
        after.len() as int,
    ).skip(before.len() as int));
    assert(after.skip(before.len() as int) =~= block);
}

/// The report of a registry falls into a beginning and a part for each hook, in load order; `cuts`
/// are the places where the parts begin and end. The part of the i-th hook begins with its name, and
/// it holds the line that the dylib is up to date exactly when the registered digest is that of the
/// i-th dylib's bytes, the warning exactly when it is another, and the line that this cannot be told
/// exactly when there is an artifact and the i-th dylib cannot be read. The beginning is the time of
/// the last patch, when there was one.
pub proof fn law_report_tells_of_each_hook_whether_it_changed(
    reg: RegistryView,
    dylibs: Seq<Option<Seq<u8>>>,
) -> (cuts: Seq<int>)
    ensures
        ({
            let report = status::registry_report(Some(reg), dylibs);
            let hooks = registry::by_load_order(reg.hooks);
            &&& hooks.len() == reg.hooks.len()
            &&& cuts.len() == hooks.len() + 1
            &&& cuts.last() == report.len()
            &&& report.take(cuts[0]) == (match reg.last_patched {
                Some(t) => seq!["  Last patched: "@ + t],
                None => seq![],
            })
            &&& forall|i: int|
                0 <= i < hooks.len() ==> {
                    let lines = report.subrange(#[trigger] cuts[i], cuts[i + 1]);
                    &&& 0 <= cuts[i] <= cuts[i + 1] <= report.len()
                    &&& lines.len() >= 3
                    &&& lines == status::hook_report(
                        hooks[i],
                        outside::debug_list_of(hooks[i].features),
                        status::is_fresh(
                            hooks[i],
                            if i < dylibs.len() {
                                dylibs[i]
                            } else {
                                None
                            },
                        ),
                    )
                    &&& lines[1] == "    features: "@ + outside::debug_list_of(hooks[i].features)
                    &&& lines[2] == "    dylib: "@ + hooks[i].dylib_path
                    &&& lines.contains("    artifact: up to date"@) == {
                        &&& hooks[i].artifact is Some
                        &&& i < dylibs.len()
                        &&& dylibs[i] is Some
                        &&& hooks[i].artifact->0.sha256 == artifact::fingerprint(dylibs[i]->0)
                    }
                    &&& lines.contains(
                        "    WARNING: dylib on disk has CHANGED since patching — re-patch needed"@,
                    ) == {
                        &&& hooks[i].artifact is Some
                        &&& i < dylibs.len()
                        &&& dylibs[i] is Some
                        &&& hooks[i].artifact->0.sha256 != artifact::fingerprint(dylibs[i]->0)
                    }
                    &&& lines.contains("    artifact: cannot verify (dylib missing?)"@) == {
                        &&& hooks[i].artifact is Some
                        &&& i < dylibs.len() ==> dylibs[i] is None
                    }
                }
        }),
{
    let report = status::registry_report(Some(reg), dylibs);
    let hooks = registry::by_load_order(reg.hooks);
    let head: Seq<Seq<char>> = match reg.last_patched {
        Some(t) => seq!["  Last patched: "@ + t],
        None => seq![],
    };
    registry_laws::law_load_order(reg.hooks);
    assert(hooks.len() == reg.hooks.len()) by {
        broadcast use vstd::seq_lib::group_to_multiset_ensures;

        assert(hooks.to_multiset().len() == reg.hooks.to_multiset().len());
    }
    let n = hooks.len() as int;
    let cuts = Seq::new(
        (n + 1) as nat,
        |i: int| (head.len() + status::hooks_report(hooks, dylibs, i).len()) as int,
    );
    let all = status::hooks_report(hooks, dylibs, n);
    assert(report =~= head + all);
    assert(report.take(cuts[0]) =~= head);
    assert forall|i: int| 0 <= i < hooks.len() implies {
        let lines = report.subrange(#[trigger] cuts[i], cuts[i + 1]);
        &&& 0 <= cuts[i] <= cuts[i + 1] <= report.len()
        &&& lines.len() >= 3
        &&& lines == status::hook_report(
            hooks[i],
            outside::debug_list_of(hooks[i].features),
            status::is_fresh(
                hooks[i],
                if i < dylibs.len() {
                    dylibs[i]
                } else {
                    None
                },
            ),
        )
        &&& lines[1] == "    features: "@ + outside::debug_list_of(hooks[i].features)
        &&& lines[2] == "    dylib: "@ + hooks[i].dylib_path
        &&& lines.contains("    artifact: up to date"@) == {
            &&& hooks[i].artifact is Some
            &&& i < dylibs.len()
            &&& dylibs[i] is Some
            &&& hooks[i].artifact->0.sha256 == artifact::fingerprint(dylibs[i]->0)
        }
        &&& lines.contains(
            "    WARNING: dylib on disk has CHANGED since patching — re-patch needed"@,
        ) == {
            &&& hooks[i].artifact is Some
            &&& i < dylibs.len()
            &&& dylibs[i] is Some
            &&& hooks[i].artifact->0.sha256 != artifact::fingerprint(dylibs[i]->0)
        }
        &&& lines.contains("    artifact: cannot verify (dylib missing?)"@) == {
            &&& hooks[i].artifact is Some
            &&& i < dylibs.len() ==> dylibs[i] is None
        }
    } by {
        lemma_block(hooks, dylibs, i, n);
        let features = outside::debug_list_of(hooks[i].features);
        let fresh = status::is_fresh(hooks[i], status::data_at(dylibs, i));
        let from = status::hooks_report(hooks, dylibs, i).len() as int;
        let to = status::hooks_report(hooks, dylibs, i + 1).len() as int;
        assert(cuts[i] == head.len() + from);
        assert(cuts[i + 1] == head.len() + to);
        assert(report.subrange(cuts[i], cuts[i + 1]) =~= all.subrange(from, to));
        law_lines_of_a_hook(hooks[i], features, fresh);
        lemma_fresh_line_of_a_hook(hooks[i], features, fresh);
    }
    cuts
}

/// The part of the report that is on the i-th hook in load order depends on no other dylib: with
/// another list that has the same i-th dylib, the part on the hook has the same lines. The part is
/// what the report has more when the hook is reported too.
pub proof fn law_part_of_a_hook_depends_on_its_dylib_only(
    hooks: Seq<EntryView>,
    dylibs: Seq<Option<Seq<u8>>>,
    others: Seq<Option<Seq<u8>>>,
    i: int,
)
    requires
        0 <= i < hooks.len(),
        i < dylibs.len() && i < others.len() ==> dylibs[i] == others[i],
        i < dylibs.len() && i >= others.len() ==> dylibs[i] is None,
        i >= dylibs.len() && i < others.len() ==> others[i] is None,
    ensures
        ({
            let before = status::hooks_report(hooks, dylibs, i);
            let after = status::hooks_report(hooks, dylibs, i + 1);
            let other_before = status::hooks_report(hooks, others, i);
            let other_after = status::hooks_report(hooks, others, i + 1);
            &&& before.len() <= after.len()
            &&& after.take(before.len() as int) == before
            &&& after.skip(before.len() as int) == other_after.skip(other_before.len() as int)
        }),
        status::hooks_report(hooks, dylibs, 0).len() == 0,
{
    let before = status::hooks_report(hooks, dylibs, i);
    let after = status::hooks_report(hooks, dylibs, i + 1);
    let other_before = status::hooks_report(hooks, others, i);
    let other_after = status::hooks_report(hooks, others, i + 1);
    let block = status::hook_report(
        hooks[i],
        outside::debug_list_of(hooks[i].features),
        status::is_fresh(hooks[i], status::data_at(dylibs, i)),
    );
    assert(after.take(before.len() as int) =~= before);
    assert(after.skip(before.len() as int) =~= block);
    assert(other_after.skip(other_before.len() as int) =~= block);
}

/// Without a registry the report says so.
pub proof fn law_report_without_a_registry(dylibs: Seq<Option<Seq<u8>>>)
    ensures
        status::registry_report(None, dylibs) == seq!["  (no registry file)"@],
{
}

/// The lines on the application, one after the other.
pub proof fn law_lines_of_the_target(
    patcher: PatcherView,
    backup_exists: bool,
    injected: Seq<Seq<char>>,
)
    ensures
        ({
            let lines = patcher.target_report(backup_exists, injected);
            let n = injected.len() as int;
            &&& lines.len() == n + 5
            &&& lines[0] == "App:     "@ + patcher.target.app_path
            &&& lines[1] == "Binary:  "@ + patcher.target.binary_path()
            &&& lines[2] == "Backup:  "@ + patcher.target.backup_path() + " ("@ + (
            if backup_exists {
                "exists"@
            } else {
                "missing"@
            }) + ")"@
            &&& lines[3] == "\nInjected hooks (otool):"@
            &&& forall|i: int| 0 <= i < n ==> #[trigger] lines[4 + i] == "  "@ + injected[i]
            &&& lines[n + 4] == "\nRegistry ("@ + patcher.target.app_id + "):"@
            &&& patcher.head_report(backup_exists) == lines.take(4)
        }),
{
    let lines = patcher.target_report(backup_exists, injected);
    assert(patcher.head_report(backup_exists) =~= lines.take(4));
}

/// Whether a dylib changed is told by comparing digests: it is known exactly when the hook has an
/// artifact and the dylib can be read, and then the dylib is fresh exactly when the digests agree.
pub proof fn law_freshness_is_equality_of_digests(h: EntryView, data: Option<Seq<u8>>)
    ensures
        status::is_fresh(h, data) is Some == (h.artifact is Some && data is Some),
        h.artifact is Some && data is Some ==> status::is_fresh(h, data) == Some(
            h.artifact->0.sha256 == artifact::fingerprint(data->0),
        ),
{
}

} // verus!
