//! Laws of the single steps of a walk, a quit, a wait and a restart.

use crate::commands::CommandView;
use crate::process::{self, AncestryView, ExitView, QuitView, Restart, RestartStep, WalkView};
use crate::project::TargetView;
use vstd::prelude::*;

verus! {

/// A look at a process ends the walk inside when its command is the target binary, whatever its
/// parent is. Otherwise the parent is looked at next, with one look less, unless there is no parent
/// to look at: the root, the process itself, a process that `ps` does not show, or one look too many.
pub proof fn law_one_look_at_a_process(
    binary: Seq<char>,
    at: AncestryView,
    output: Seq<char>,
    ppid: Seq<char>,
    comm: Seq<char>,
)
    requires
        process::process_fields(output) == Some((ppid, comm)),
    ensures
        comm == binary ==> process::walk(binary, at, Some(output)) == WalkView::Inside,
        comm != binary && (ppid == "1"@ || ppid == "0"@ || ppid == at.pid || at.left <= 1)
            ==> process::walk(binary, at, Some(output)) == WalkView::Outside,
        comm != binary && ppid != "1"@ && ppid != "0"@ && ppid != at.pid && at.left > 1
            ==> process::walk(binary, at, Some(output)) == WalkView::Up(
            AncestryView { pid: ppid, left: (at.left - 1) as nat },
        ),
        process::walk(binary, at, None) == WalkView::Outside,
{
}

/// A process of which `ps` prints no parent and command ends the walk outside.
pub proof fn law_unreadable_process_ends_the_walk(
    binary: Seq<char>,
    at: AncestryView,
    output: Seq<char>,
)
    requires
        process::process_fields(output) is None,
    ensures
        process::walk(binary, at, Some(output)) == WalkView::Outside,
        process::MAX_ANCESTORS == 100000,
{
}

/// An application that does not run is left alone. One that runs is asked to quit, looked at again
/// after half a second each time, and killed when the tenth look behind the first still finds it,
/// which takes two seconds more. It was quit exactly when it ran.
pub proof fn law_quit_look_by_look(target: TargetView, checks: nat, running: bool)
    ensures
        ({
            let step = target.quit_step(checks, running);
            &&& checks == 0 && !running ==> step == QuitView::NotRunning
            &&& checks == 0 && running ==> step == (QuitView::Ask {
                command: CommandView {
                    program: "osascript"@,
                    args: seq![
                        "-e"@,
                        "tell application \""@ + target.app_name() + "\" to quit"@,
                    ],
                },
                pause_millis: 500,
            })
            &&& checks > 0 && !running ==> step == QuitView::Stopped
            &&& 0 < checks < 10 && running ==> step == (QuitView::Wait { pause_millis: 500 })
            &&& checks >= 10 && running ==> step == (QuitView::Kill {
                command: CommandView {
                    program: "pkill"@,
                    args: seq!["-f"@, target.binary_path()],
                },
                pause_millis: 2000,
            })
            &&& process::quit_outcome(step) == (if checks == 0 {
                if running {
                    None
                } else {
                    Some(false)
                }
            } else if running && checks < 10 {
                None
            } else {
                Some(true)
            })
        }),
{
}

/// A process that is not known, or was found gone, is not waited for. Any other is looked at, at once
/// and then after a second each time, until the thirtieth look has found it.
pub proof fn law_wait_look_by_look(app_pid: Seq<char>, checks: nat, alive: bool)
    ensures
        ({
            let step = process::exit_step_of(app_pid, checks, alive);
            &&& app_pid.len() == 0 ==> step == ExitView::Done
            &&& checks > 0 && !alive ==> step == ExitView::Done
            &&& app_pid.len() > 0 && checks == 0 ==> step == (ExitView::Check {
                command: CommandView { program: "kill"@, args: seq!["-0"@, app_pid] },
                pause_millis: 0,
            })
            &&& app_pid.len() > 0 && 0 < checks < 30 && alive ==> step == (ExitView::Check {
                command: CommandView { program: "kill"@, args: seq!["-0"@, app_pid] },
                pause_millis: 1000,
            })
            &&& app_pid.len() > 0 && checks >= 30 && alive ==> step == (ExitView::GiveUp {
                pause_millis: 1000,
            })
        }),
{
}

/// The steps of each kind of restart. The sizes of the logs are noted exactly when the hooks are to
/// be checked.
pub proof fn law_restart_step_by_step()
    ensures
        process::restart_steps(Restart::Detached, false) == seq![
            RestartStep::SpawnDetached,
            RestartStep::AskToQuit,
            RestartStep::Pause { millis: 1000 },
        ],
        process::restart_steps(Restart::Detached, true) == seq![
            RestartStep::NoteLogs,
            RestartStep::SpawnDetached,
            RestartStep::AskToQuit,
            RestartStep::Pause { millis: 1000 },
        ],
        process::restart_steps(Restart::Inline, false) == seq![
            RestartStep::Quit,
            RestartStep::Patch,
            RestartStep::Launch,
        ],
        process::restart_steps(Restart::Inline, true) == seq![
            RestartStep::Quit,
            RestartStep::Patch,
            RestartStep::NoteLogs,
            RestartStep::Launch,
        ],
        process::restart_steps(Restart::PatchOnly, false) == seq![RestartStep::Patch],
        process::restart_steps(Restart::PatchOnly, true) == seq![
            RestartStep::Patch,
            RestartStep::NoteLogs,
            RestartStep::Launch,
        ],
        process::detached_steps_of() == seq![
            RestartStep::WaitForExit,
            RestartStep::Pause { millis: 2000 },
            RestartStep::KillOrphans,
            RestartStep::Patch,
            RestartStep::Launch,
        ],
{
    assert(process::restart_steps(Restart::Detached, false) =~= seq![
        RestartStep::SpawnDetached,
        RestartStep::AskToQuit,
        RestartStep::Pause { millis: 1000 },
    ]);
    assert(process::restart_steps(Restart::Detached, true) =~= seq![
        RestartStep::NoteLogs,
        RestartStep::SpawnDetached,
        RestartStep::AskToQuit,
        RestartStep::Pause { millis: 1000 },
    ]);
    assert(process::restart_steps(Restart::PatchOnly, false) =~= seq![RestartStep::Patch]);
}

/// The detached patcher gets the arguments behind the program one by one, in their order, without its
/// own command, which comes first.
pub proof fn law_detached_arguments_one_by_one(
    program: Seq<char>,
    args: Seq<Seq<char>>,
    arg: Seq<char>,
)
    ensures
        process::detached_arguments(seq![program]) == seq!["__detached_patch"@],
        process::detached_arguments(seq![program] + args + seq![arg])
            == process::detached_arguments(seq![program] + args) + (if arg == "__detached_patch"@ {
            seq![]
        } else {
            seq![arg]
        }),
        process::detached_arguments(seq![]) == seq!["__detached_patch"@],
{
    let keep = |a: Seq<char>| a != process::DETACHED_COMMAND@;
    let none: Seq<Seq<char>> = seq![];
    reveal(Seq::filter);
    assert(none.filter(keep) =~= none);
    assert(process::own_arguments(seq![program]) =~= none);
    assert(process::detached_arguments(seq![program]) =~= seq!["__detached_patch"@]);
    assert(process::detached_arguments(none) =~= seq!["__detached_patch"@]);
    let all = seq![program] + args + seq![arg];
    assert(process::own_arguments(all) =~= args + seq![arg]);
    assert(process::own_arguments(seq![program] + args) =~= args);
    assert((args + seq![arg]).drop_last() =~= args);
    assert((args + seq![arg]).last() == arg);
    assert(process::detached_arguments(all) =~= process::detached_arguments(seq![program] + args)
        + (if arg == "__detached_patch"@ {
        seq![]
    } else {
        seq![arg]
    }));
}

/// The detached patcher is told the application's process and the dylib, and logs into a file of the
/// logs' directory that is named after the time.
pub proof fn law_what_the_detached_patcher_is_told(
    target: TargetView,
    app_pid: Seq<char>,
    dylib: Seq<char>,
    stamp: Seq<char>,
)
    ensures
        process::detached_variables(app_pid, dylib) == seq![
            ("__DYLIB_PATCHER_APP_PID"@, app_pid),
            ("__DYLIB_PATCHER_DYLIB_PATH"@, dylib),
        ],
        target.logs_dir().len() > 0 && target.logs_dir().last() != '/' ==> target.detached_log_path(
            stamp,
        ) == target.logs_dir() + "/dylib-patch-"@ + stamp + ".log"@,
{
    reveal_strlit("dylib-patch-");
    reveal_strlit("/dylib-patch-");
    reveal_strlit(".log");
    if target.logs_dir().len() > 0 && target.logs_dir().last() != '/' {
        let name = "dylib-patch-"@ + stamp + ".log"@;
        assert(name[0] == 'd');
        assert(target.detached_log_path(stamp) =~= target.logs_dir() + "/dylib-patch-"@ + stamp
            + ".log"@);
    }
}

} // verus!
