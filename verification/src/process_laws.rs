//! Laws of the process decisions: what a whole walk, a whole quit and a whole detached start come
//! to.

use crate::outside;
use crate::path;
use crate::path_laws;
use crate::plan_laws;
use crate::process::{self, AncestryView, ExitView, QuitView, Restart, RestartStep, WalkView};
use crate::project::TargetView;
use vstd::prelude::*;

verus! {

/// Whether a walk from `at` finds the target. `ps` is what `ps` prints for each process, when it
/// succeeds.
pub open spec fn found_inside(
    binary: Seq<char>,
    ps: spec_fn(Seq<char>) -> Option<Seq<char>>,
    at: AncestryView,
) -> bool
    decreases at.left,
{
    match process::walk(binary, at, ps(at.pid)) {
        WalkView::Inside => true,
        WalkView::Outside => false,
        WalkView::Up(next) => if next.left < at.left {
            found_inside(binary, ps, next)
        } else {
            false
        },
    }
}

/// The parent of a process that has one to look at.
pub open spec fn parent_in(ps: spec_fn(Seq<char>) -> Option<Seq<char>>, pid: Seq<char>) -> Option<
    Seq<char>,
> {
    match ps(pid) {
        None => None,
        Some(o) => match process::process_fields(o) {
            None => None,
            Some((ppid, comm)) => if process::is_root(pid, ppid) {
                None
            } else {
                Some(ppid)
            },
        },
    }
}

/// The process that stands `k` steps above `pid`; `pid` itself stands no step above.
pub open spec fn ancestor_in(
    ps: spec_fn(Seq<char>) -> Option<Seq<char>>,
    pid: Seq<char>,
    k: nat,
) -> Option<Seq<char>>
    decreases k,
{
    if k == 0 {
        Some(pid)
    } else {
        match parent_in(ps, pid) {
            Some(ppid) => ancestor_in(ps, ppid, (k - 1) as nat),
            None => None,
        }
    }
}

/// A process runs the target binary.
pub open spec fn runs_target(
    binary: Seq<char>,
    ps: spec_fn(Seq<char>) -> Option<Seq<char>>,
    pid: Seq<char>,
) -> bool {
    match ps(pid) {
        None => false,
        Some(o) => match process::process_fields(o) {
            None => false,
            Some((ppid, comm)) => process::is_target_command(binary, comm),
        },
    }
}

/// One of the first `left` processes, from `pid` upwards, runs the target binary.
pub open spec fn target_above(
    binary: Seq<char>,
    ps: spec_fn(Seq<char>) -> Option<Seq<char>>,
    pid: Seq<char>,
    left: nat,
) -> bool {
    exists|k: nat|
        k < left && (#[trigger] ancestor_in(ps, pid, k) matches Some(q) && runs_target(
            binary,
            ps,
            q,
        ))
}

/// The walk finds the target exactly when the patcher's process or one of the ancestors that it may
/// look at runs the target binary.
pub proof fn law_walk_finds_the_target_among_the_ancestors(
    binary: Seq<char>,
    ps: spec_fn(Seq<char>) -> Option<Seq<char>>,
    at: AncestryView,
)
    requires
        at.left > 0,
    ensures
        found_inside(binary, ps, at) == target_above(binary, ps, at.pid, at.left),
    decreases at.left,
{
    let step = process::walk(binary, at, ps(at.pid));
    assert(ancestor_in(ps, at.pid, 0) == Some(at.pid));
    assert forall|k: nat| 0 < k implies #[trigger] ancestor_in(ps, at.pid, k) == (match parent_in(
        ps,
        at.pid,
    ) {
        Some(ppid) => ancestor_in(ps, ppid, (k - 1) as nat),
        None => None,
    }) by {}
    match step {
        WalkView::Inside => {
            assert(runs_target(binary, ps, at.pid));
        },
        WalkView::Outside => {
            assert(!runs_target(binary, ps, at.pid));
        },
        WalkView::Up(next) => {
            law_walk_finds_the_target_among_the_ancestors(binary, ps, next);
            assert(parent_in(ps, at.pid) == Some(next.pid));
            if target_above(binary, ps, next.pid, next.left) {
                let k = choose|k: nat|
                    k < next.left && (#[trigger] ancestor_in(ps, next.pid, k) matches Some(q)
                        && runs_target(binary, ps, q));
                assert(ancestor_in(ps, at.pid, k + 1) == ancestor_in(ps, next.pid, k));
            }
            if target_above(binary, ps, at.pid, at.left) {
                let k = choose|k: nat|
                    k < at.left && (#[trigger] ancestor_in(ps, at.pid, k) matches Some(q)
                        && runs_target(binary, ps, q));
                assert(k > 0);
                assert(ancestor_in(ps, next.pid, (k - 1) as nat) == ancestor_in(ps, at.pid, k));
            }
        },
    }
}

/// Above the end of a chain there is nothing.
proof fn lemma_nothing_above_the_root(
    ps: spec_fn(Seq<char>) -> Option<Seq<char>>,
    pid: Seq<char>,
    n: nat,
    k: nat,
)
    requires
        n <= k,
        ancestor_in(ps, pid, n) is None,
    ensures
        ancestor_in(ps, pid, k) is None,
    decreases n,
{
    if n > 0 {
        match parent_in(ps, pid) {
            Some(ppid) => {
                lemma_nothing_above_the_root(ps, ppid, (n - 1) as nat, (k - 1) as nat);
            },
            None => {},
        }
    }
}

/// The walk goes up to the root: on a chain that ends before the bound it finds the target exactly
/// when the patcher's process or any of its ancestors, the topmost among them, runs the target
/// binary.
pub proof fn law_walk_goes_up_to_the_root(
    binary: Seq<char>,
    ps: spec_fn(Seq<char>) -> Option<Seq<char>>,
    pid: Seq<char>,
)
    requires
        ancestor_in(ps, pid, process::MAX_ANCESTORS as nat) is None,
    ensures
        found_inside(
            binary,
            ps,
            (AncestryView { pid, left: process::MAX_ANCESTORS as nat }),
        ) == exists|k: nat|
            (#[trigger] ancestor_in(ps, pid, k) matches Some(q) && runs_target(binary, ps, q)),
{
    let max = process::MAX_ANCESTORS as nat;
    law_walk_finds_the_target_among_the_ancestors(binary, ps, AncestryView { pid, left: max });
    if exists|k: nat|
        (#[trigger] ancestor_in(ps, pid, k) matches Some(q) && runs_target(binary, ps, q)) {
        let k = choose|k: nat|
            (#[trigger] ancestor_in(ps, pid, k) matches Some(q) && runs_target(binary, ps, q));
        if k >= max {
            lemma_nothing_above_the_root(ps, pid, max, k);
        }
        assert(k < max && ancestor_in(ps, pid, k) is Some);
    }
}

/// How a quit ends.
#[verifier::ext_equal]
pub struct QuitEnd {
    /// The outcome that is reported.
    pub quit: bool,
    /// Whether the application was killed.
    pub killed: bool,
    /// How long it took.
    pub millis: nat,
}

/// The end of a quit that has looked at the application `checks` times. `runs` tells what each look
/// finds.
pub open spec fn quit_end(
    target: TargetView,
    runs: spec_fn(nat) -> bool,
    checks: nat,
    millis: nat,
) -> QuitEnd
    decreases process::MAX_QUIT_CHECKS + 1 - checks,
{
    if checks > process::MAX_QUIT_CHECKS {
        QuitEnd { quit: true, killed: true, millis }
    } else {
        match target.quit_step(checks, runs(checks)) {
            QuitView::NotRunning => QuitEnd { quit: false, killed: false, millis },
            QuitView::Stopped => QuitEnd { quit: true, killed: false, millis },
            QuitView::Kill { command, pause_millis } => QuitEnd {
                quit: true,
                killed: true,
                millis: millis + pause_millis as nat,
            },
            QuitView::Ask { command, pause_millis } => quit_end(
                target,
                runs,
                checks + 1,
                millis + pause_millis as nat,
            ),
            QuitView::Wait { pause_millis } => quit_end(
                target,
                runs,
                checks + 1,
                millis + pause_millis as nat,
            ),
        }
    }
}

/// From the first look on, an application that runs has five seconds to stop.
proof fn lemma_quit_end(target: TargetView, runs: spec_fn(nat) -> bool, checks: nat, millis: nat)
    requires
        1 <= checks <= process::MAX_QUIT_CHECKS,
        forall|k: nat| k < checks ==> #[trigger] runs(k),
        millis == process::QUIT_PAUSE_MILLIS * checks,
    ensures
        quit_end(target, runs, checks, millis).quit,
        quit_end(target, runs, checks, millis).killed == (forall|k: nat|
            k <= process::MAX_QUIT_CHECKS ==> #[trigger] runs(k)),
        quit_end(target, runs, checks, millis).millis <= 7000,
        !quit_end(target, runs, checks, millis).killed ==> quit_end(
            target,
            runs,
            checks,
            millis,
        ).millis <= 5000,
    decreases process::MAX_QUIT_CHECKS - checks,
{
    if runs(checks) && checks < process::MAX_QUIT_CHECKS {
        lemma_quit_end(target, runs, checks + 1, millis + process::QUIT_PAUSE_MILLIS as nat);
    }
}

/// A quit reports whether the application ran, kills it only when it is still there after five
/// seconds, and takes no more than seven.
pub proof fn law_quit_ends(target: TargetView, runs: spec_fn(nat) -> bool)
    ensures
        ({
            let end = quit_end(target, runs, 0, 0);
            &&& end.quit == runs(0)
            &&& end.killed == (forall|k: nat|
                k <= process::MAX_QUIT_CHECKS ==> #[trigger] runs(k))
            &&& end.millis <= 7000
            &&& !end.killed ==> end.millis <= 5000
            &&& !end.quit ==> end.millis == 0
        }),
{
    if runs(0) {
        lemma_quit_end(target, runs, 1, process::QUIT_PAUSE_MILLIS as nat);
    }
}

/// How a wait for the application ends.
#[verifier::ext_equal]
pub struct ExitEnd {
    /// Whether the application was found gone, or was not known.
    pub gone: bool,
    /// How many looks at it there were.
    pub checks: nat,
    /// How long it took.
    pub millis: nat,
}

/// The end of a wait that has looked at the application `checks` times. `alive` tells what each look
/// finds, the first one being number 1.
pub open spec fn exit_end(
    app_pid: Seq<char>,
    alive: spec_fn(nat) -> bool,
    checks: nat,
    millis: nat,
) -> ExitEnd
    decreases process::MAX_EXIT_CHECKS + 1 - checks,
{
    if checks > process::MAX_EXIT_CHECKS {
        ExitEnd { gone: false, checks, millis }
    } else {
        match process::exit_step_of(app_pid, checks, alive(checks)) {
            ExitView::Done => ExitEnd { gone: true, checks, millis },
            ExitView::GiveUp { pause_millis } => ExitEnd {
                gone: false,
                checks,
                millis: millis + pause_millis as nat,
            },
            ExitView::Check { command, pause_millis } => exit_end(
                app_pid,
                alive,
                checks + 1,
                millis + pause_millis as nat,
            ),
        }
    }
}

proof fn lemma_exit_end(app_pid: Seq<char>, alive: spec_fn(nat) -> bool, checks: nat, millis: nat)
    requires
        app_pid.len() > 0,
        1 <= checks <= process::MAX_EXIT_CHECKS,
        forall|k: nat| 1 <= k < checks ==> #[trigger] alive(k),
        millis == process::EXIT_PAUSE_MILLIS * (checks - 1),
    ensures
        ({
            let end = exit_end(app_pid, alive, checks, millis);
            &&& end.gone == !(forall|k: nat|
                1 <= k <= process::MAX_EXIT_CHECKS ==> #[trigger] alive(k))
            &&& end.checks <= process::MAX_EXIT_CHECKS
            &&& end.millis <= 30000
            &&& end.gone ==> !alive(end.checks)
        }),
    decreases process::MAX_EXIT_CHECKS - checks,
{
    if alive(checks) && checks < process::MAX_EXIT_CHECKS {
        lemma_exit_end(app_pid, alive, checks + 1, millis + process::EXIT_PAUSE_MILLIS as nat);
    }
}

/// A wait for the application takes at most thirty looks and thirty seconds. It ends early exactly
/// when a look finds the application gone, and at once when its process is not known.
pub proof fn law_wait_for_exit_ends(app_pid: Seq<char>, alive: spec_fn(nat) -> bool)
    ensures
        ({
            let end = exit_end(app_pid, alive, 0, 0);
            &&& end.checks <= 30
            &&& end.millis <= 30000
            &&& app_pid.len() == 0 ==> end == (ExitEnd { gone: true, checks: 0, millis: 0 })
            &&& app_pid.len() > 0 ==> end.gone == !(forall|k: nat|
                1 <= k <= process::MAX_EXIT_CHECKS ==> #[trigger] alive(k))
            &&& app_pid.len() > 0 && end.gone ==> !alive(end.checks)
        }),
{
    if app_pid.len() > 0 {
        lemma_exit_end(app_pid, alive, 1, 0);
    }
}

/// A step that makes the application quit.
pub open spec fn quits(step: RestartStep) -> bool {
    step == RestartStep::Quit || step == RestartStep::AskToQuit
}

/// All steps of a patch, those of the detached patcher among them when there is one.
pub open spec fn all_steps(restart: Restart, and_verify: bool) -> Seq<RestartStep> {
    if restart == Restart::Detached {
        process::restart_steps(restart, and_verify) + process::detached_steps_of()
    } else {
        process::restart_steps(restart, and_verify)
    }
}

/// An application that runs is quit before it is patched and launched again afterwards; one that
/// does not run is patched and nothing else, unless its hooks are to be checked.
pub proof fn law_running_application_is_quit_and_launched_again(
    restart: Restart,
    and_verify: bool,
)
    ensures
        ({
            let all = all_steps(restart, and_verify);
            &&& restart == Restart::PatchOnly && !and_verify ==> all == seq![RestartStep::Patch]
            &&& restart != Restart::PatchOnly ==> exists|q: int, p: int, l: int|
                {
                    &&& 0 <= q < p < l < all.len()
                    &&& quits(#[trigger] all[q])
                    &&& #[trigger] all[p] == RestartStep::Patch
                    &&& #[trigger] all[l] == RestartStep::Launch
                }
        }),
{
    let all = all_steps(restart, and_verify);
    let n: int = if and_verify {
        1
    } else {
        0
    };
    match restart {
        Restart::Detached => {
            assert(quits(all[n + 1]) && all[n + 6] == RestartStep::Patch && all[n + 7]
                == RestartStep::Launch);
        },
        Restart::Inline => {
            assert(quits(all[0]) && all[1] == RestartStep::Patch && all[n + 2]
                == RestartStep::Launch);
        },
        Restart::PatchOnly => {},
    }
}

/// When the hooks are to be checked after a patch, the application is launched, and the sizes of the
/// logs are noted before that.
pub proof fn law_logs_are_noted_before_the_launch(restart: Restart)
    ensures
        ({
            let all = all_steps(restart, true);
            &&& all.contains(RestartStep::Launch)
            &&& forall|l: int|
                0 <= l < all.len() && #[trigger] all[l] == RestartStep::Launch ==> exists|n: int|
                    0 <= n < l && #[trigger] all[n] == RestartStep::NoteLogs
        }),
{
    let all = all_steps(restart, true);
    match restart {
        Restart::Detached => {
            assert(all[0] == RestartStep::NoteLogs && all[8] == RestartStep::Launch);
        },
        Restart::Inline => {
            assert(all[2] == RestartStep::NoteLogs && all[3] == RestartStep::Launch);
        },
        Restart::PatchOnly => {
            assert(all[1] == RestartStep::NoteLogs && all[2] == RestartStep::Launch);
        },
    }
}

/// A detached patcher is called with its command first and nowhere else, and with exactly the other
/// arguments of the patcher that started it.
pub proof fn law_detached_arguments(args: Seq<Seq<char>>, arg: Seq<char>)
    ensures
        ({
            let r = process::detached_arguments(args);
            &&& r.len() > 0
            &&& r[0] == process::DETACHED_COMMAND@
            &&& forall|i: int| 0 < i < r.len() ==> #[trigger] r[i] != process::DETACHED_COMMAND@
            &&& arg != process::DETACHED_COMMAND@ ==> r.contains(arg)
                == process::own_arguments(args).contains(arg)
        }),
{
    let own = process::own_arguments(args);
    let keep = |a: Seq<char>| a != process::DETACHED_COMMAND@;
    let kept = own.filter(keep);
    let r = process::detached_arguments(args);
    assert forall|i: int| 0 < i < r.len() implies #[trigger] r[i] != process::DETACHED_COMMAND@ by {
        assert(r[i] == kept[i - 1]);
        own.lemma_filter_pred(keep, i - 1);
    }
    plan_laws::lemma_filter_contains(own, keep, arg);
    if arg != process::DETACHED_COMMAND@ {
        if r.contains(arg) {
            let i = choose|i: int| 0 <= i < r.len() && r[i] == arg;
            assert(kept[i - 1] == arg);
        }
        if kept.contains(arg) {
            let i = choose|i: int| 0 <= i < kept.len() && kept[i] == arg;
            assert(r[i + 1] == arg);
        }
    }
}

/// The value of the variable `name`, when it is set.
pub open spec fn value_of(variables: Seq<(Seq<char>, Seq<char>)>, name: Seq<char>) -> Option<
    Seq<char>,
>
    decreases variables.len(),
{
    if variables.len() == 0 {
        None
    } else if variables.last().0 == name {
        Some(variables.last().1)
    } else {
        value_of(variables.drop_last(), name)
    }
}

/// A detached patcher learns from its variables what it was started with.
pub proof fn law_detached_variables_are_read_back(app_pid: Seq<char>, dylib: Seq<char>)
    ensures
        value_of(process::detached_variables(app_pid, dylib), process::APP_PID_VARIABLE@) == Some(
            app_pid,
        ),
        value_of(process::detached_variables(app_pid, dylib), process::DYLIB_PATH_VARIABLE@)
            == Some(dylib),
{
    let all = process::detached_variables(app_pid, dylib);
    reveal_strlit("__DYLIB_PATCHER_APP_PID");
    reveal_strlit("__DYLIB_PATCHER_DYLIB_PATH");
    assert(all.drop_last() =~= seq![(process::APP_PID_VARIABLE@, app_pid)]);
    assert(process::APP_PID_VARIABLE@.len() != process::DYLIB_PATH_VARIABLE@.len());
    reveal_with_fuel(value_of, 3);
}

/// The log of a detached patcher is a file of the directory of the binary.
pub proof fn law_detached_log_is_in_the_logs_directory(target: TargetView, stamp: Seq<char>)
    requires
        !stamp.contains('/'),
    ensures
        path::parent_of(target.detached_log_path(stamp)) == Some(path::stripped(target.logs_dir())),
        path::file_name_of(target.detached_log_path(stamp)) == Some(
            "dylib-patch-"@ + stamp + ".log"@,
        ),
{
    let name = "dylib-patch-"@ + stamp + ".log"@;
    reveal_strlit("dylib-patch-");
    reveal_strlit(".log");
    assert(!name.contains('/')) by {
        if name.contains('/') {
            let i = choose|i: int| 0 <= i < name.len() && name[i] == '/';
            if i < 12 {
                assert(name[i] == "dylib-patch-"@[i]);
            } else if i < 12 + stamp.len() {
                assert(name[i] == stamp[i - 12]);
            } else {
                assert(name[i] == ".log"@[i - 12 - stamp.len()]);
            }
        }
    }
    path_laws::law_join_then_parent(target.logs_dir(), name);
}

/// The time in the name of a detached patcher's log does not lead into another directory.
pub proof fn law_stamp_holds_no_separator(stamp: Seq<char>)
    requires
        outside::is_stamp(stamp),
    ensures
        !stamp.contains('/'),
{
    if stamp.contains('/') {
        let i = choose|i: int| 0 <= i < stamp.len() && stamp[i] == '/';
        assert('0' <= stamp[i] <= '9' || stamp[i] == '-' || stamp[i] == '+');
    }
}

} // verus!
