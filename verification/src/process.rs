//! Decisions about processes: whether the patcher runs inside the target application, how the
//! application is quit, and what the detached patcher does.
//!
//! The functions here decide; running programs and sleeping is left to the caller, who hands back
//! what came of it.

use crate::commands::{self, CommandLine};
use crate::outside;
use crate::path;
use crate::plan::PatchResult;
use crate::project::{Patcher, TargetApp, TargetView};
use crate::text;
use vstd::prelude::*;

verus! {

/// How many ancestors are looked at. Process identifiers on macOS stay below this number, so every
/// chain of different processes ends before it is reached.
pub const MAX_ANCESTORS: u32 = 100000;

/// How many times a quitting application is looked at before it is killed.
pub const MAX_QUIT_CHECKS: u32 = 10;

/// The pause before each look at a quitting application.
pub const QUIT_PAUSE_MILLIS: u64 = 500;

/// The pause after the application was killed.
pub const KILL_PAUSE_MILLIS: u64 = 2000;

/// How many seconds the detached patcher waits for the application to exit.
pub const MAX_EXIT_CHECKS: u32 = 30;

/// The position of the first white space in `s`, not before `from`; the length of `s` when there is
/// none.
pub open spec fn white_position(s: Seq<char>, from: int) -> int
    decreases s.len() - from,
{
    if from < 0 || from >= s.len() {
        s.len() as int
    } else if text::is_white(s[from]) {
        from
    } else {
        white_position(s, from + 1)
    }
}

/// The parent and the command that `ps` printed for a process; nothing when it printed no line of
/// two fields.
pub open spec fn process_fields(output: Seq<char>) -> Option<(Seq<char>, Seq<char>)> {
    let line = text::trimmed(output);
    let i = white_position(line, 0);
    if 0 <= i < line.len() {
        Some((text::trimmed(line.take(i)), text::trimmed(line.skip(i + 1))))
    } else {
        None
    }
}

/// The parent and the command that `ps` printed for a process.
pub fn parse_process(output: &str) -> (r: Option<(String, String)>)
    ensures
        r.deep_view() == process_fields(output@),
{
    let line = text::trim(output);
    let c = text::chars_of(line.as_str());
    let mut i: usize = 0;
    while i < c.len() && !text::white(c[i])
        invariant
            c@ == line@,
            i <= c@.len(),
            white_position(line@, 0) == white_position(line@, i as int),
        decreases c@.len() - i,
    {
        i += 1;
    }
    if i == c.len() {
        return None;
    }
    assert(line@.subrange(0, i as int) =~= line@.take(i as int));
    assert(line@.subrange(i + 1, line@.len() as int) =~= line@.skip(i + 1));
    let ppid = text::part_of(line.as_str(), 0, i);
    let comm = text::part_of(line.as_str(), i + 1, c.len());
    Some((text::trim(ppid.as_str()), text::trim(comm.as_str())))
}

/// The command of a process is the target binary.
pub open spec fn is_target_command(binary: Seq<char>, comm: Seq<char>) -> bool {
    comm == binary
}

/// A process that has no parent to look at: its parent is the root of all processes or itself.
pub open spec fn is_root(pid: Seq<char>, ppid: Seq<char>) -> bool {
    ppid == "1"@ || ppid == "0"@ || ppid == pid
}

/// A walk up the chain of parent processes.
#[derive(Debug)]
pub struct Ancestry {
    /// The process to look at.
    pub pid: String,
    /// How many processes may still be looked at, this one among them.
    pub left: u32,
}

/// What an [`Ancestry`] holds.
#[verifier::ext_equal]
pub struct AncestryView {
    pub pid: Seq<char>,
    pub left: nat,
}

impl View for Ancestry {
    type V = AncestryView;

    open spec fn view(&self) -> AncestryView {
        AncestryView { pid: self.pid@, left: self.left as nat }
    }
}

/// What a look at a process tells.
#[derive(Debug)]
pub enum Walk {
    /// The patcher runs inside the target application.
    Inside,
    /// It does not.
    Outside,
    /// The parent process has to be looked at.
    Up(Ancestry),
}

/// What a [`Walk`] holds.
#[verifier::ext_equal]
pub enum WalkView {
    Inside,
    Outside,
    Up(AncestryView),
}

impl View for Walk {
    type V = WalkView;

    open spec fn view(&self) -> WalkView {
        match *self {
            Walk::Inside => WalkView::Inside,
            Walk::Outside => WalkView::Outside,
            Walk::Up(a) => WalkView::Up(a@),
        }
    }
}

/// One step of the walk: `output` is what `ps` printed for the process, when it succeeded.
pub open spec fn walk(binary: Seq<char>, at: AncestryView, output: Option<Seq<char>>) -> WalkView {
    match output {
        None => WalkView::Outside,
        Some(o) => match process_fields(o) {
            None => WalkView::Outside,
            Some((ppid, comm)) => if is_target_command(binary, comm) {
                WalkView::Inside
            } else if is_root(at.pid, ppid) || at.left <= 1 {
                WalkView::Outside
            } else {
                WalkView::Up(AncestryView { pid: ppid, left: (at.left - 1) as nat })
            },
        },
    }
}

impl Patcher {
    /// The walk that starts at the patcher's own process.
    pub fn ancestry(&self, own_pid: &str) -> (r: Ancestry)
        ensures
            r@ == (AncestryView { pid: own_pid@, left: MAX_ANCESTORS as nat }),
    {
        Ancestry { pid: own_pid.to_owned(), left: MAX_ANCESTORS }
    }

    /// One step of finding out whether the patcher runs inside the target application: `output` is
    /// what `ps` printed for the process that the walk has reached, when it succeeded.
    pub fn is_running_inside_target(&self, at: &Ancestry, output: Option<&[u8]>) -> (r: Walk)
        ensures
            r@ == walk(
                self@.target.binary_path(),
                at@,
                match output {
                    Some(o) => Some(outside::lossy_text_of(o@)),
                    None => None,
                },
            ),
    {
        match output {
            None => Walk::Outside,
            Some(o) => {
                let printed = outside::lossy_text(o);
                self.look_at(at, printed.as_str())
            },
        }
    }

    /// One step of the walk on the text that `ps` printed.
    pub fn look_at(&self, at: &Ancestry, output: &str) -> (r: Walk)
        ensures
            r@ == walk(self@.target.binary_path(), at@, Some(output@)),
    {
        match parse_process(output) {
            None => Walk::Outside,
            Some((ppid, comm)) => {
                let binary = self.target.binary_path();
                if text::text_eq(comm.as_str(), binary.as_str()) {
                    Walk::Inside
                } else if text::text_eq(ppid.as_str(), "1") || text::text_eq(ppid.as_str(), "0")
                    || text::text_eq(ppid.as_str(), at.pid.as_str()) || at.left <= 1 {
                    Walk::Outside
                } else {
                    Walk::Up(Ancestry { pid: ppid, left: at.left - 1 })
                }
            },
        }
    }

    /// Whether the target application runs at all: `found` tells whether `pgrep` found a process of
    /// its binary, when `pgrep` could be run.
    pub fn is_target_running(&self, found: Option<bool>) -> (r: bool)
        ensures
            r == (found == Some(true)),
    {
        match found {
            Some(f) => f,
            None => false,
        }
    }
}

/// What to do next to quit the application.
#[derive(Debug)]
pub enum QuitStep {
    /// Nothing: the application does not run.
    NotRunning,
    /// Run this, pause, and look whether the application runs.
    Ask { command: CommandLine, pause_millis: u64 },
    /// Pause, and look whether the application runs.
    Wait { pause_millis: u64 },
    /// Nothing: the application has stopped.
    Stopped,
    /// Run this and pause; that is all.
    Kill { command: CommandLine, pause_millis: u64 },
}

/// What a [`QuitStep`] holds.
#[verifier::ext_equal]
pub enum QuitView {
    NotRunning,
    Ask { command: commands::CommandView, pause_millis: u64 },
    Wait { pause_millis: u64 },
    Stopped,
    Kill { command: commands::CommandView, pause_millis: u64 },
}

impl View for QuitStep {
    type V = QuitView;

    open spec fn view(&self) -> QuitView {
        match *self {
            QuitStep::NotRunning => QuitView::NotRunning,
            QuitStep::Ask { command, pause_millis } => QuitView::Ask {
                command: command@,
                pause_millis,
            },
            QuitStep::Wait { pause_millis } => QuitView::Wait { pause_millis },
            QuitStep::Stopped => QuitView::Stopped,
            QuitStep::Kill { command, pause_millis } => QuitView::Kill {
                command: command@,
                pause_millis,
            },
        }
    }
}

impl TargetView {
    /// The step after the application was looked at; `checks` counts the earlier looks.
    pub open spec fn quit_step(self, checks: nat, running: bool) -> QuitView {
        if checks == 0 {
            if running {
                QuitView::Ask {
                    command: commands::command("osascript"@, seq!["-e"@, self.quit_script()]),
                    pause_millis: QUIT_PAUSE_MILLIS,
                }
            } else {
                QuitView::NotRunning
            }
        } else if !running {
            QuitView::Stopped
        } else if checks < MAX_QUIT_CHECKS {
            QuitView::Wait { pause_millis: QUIT_PAUSE_MILLIS }
        } else {
            QuitView::Kill {
                command: commands::command("pkill"@, seq!["-f"@, self.binary_path()]),
                pause_millis: KILL_PAUSE_MILLIS,
            }
        }
    }
}

impl QuitStep {
    /// Whether the application was quit, once nothing is left to do; `None` while the application
    /// has to be looked at again.
    pub fn outcome(&self) -> (r: Option<bool>)
        ensures
            r == quit_outcome(self@),
    {
        match self {
            QuitStep::NotRunning => Some(false),
            QuitStep::Stopped => Some(true),
            QuitStep::Kill { .. } => Some(true),
            QuitStep::Ask { .. } => None,
            QuitStep::Wait { .. } => None,
        }
    }
}

/// Whether the application was quit, once nothing is left to do.
pub open spec fn quit_outcome(step: QuitView) -> Option<bool> {
    match step {
        QuitView::NotRunning => Some(false),
        QuitView::Stopped => Some(true),
        QuitView::Kill { .. } => Some(true),
        _ => None,
    }
}

impl Patcher {
    /// One step of quitting the target application: `running` tells whether it runs, and `checks`
    /// how many times that was looked up before. The application is asked to quit, looked at every
    /// half second for five seconds, and then killed.
    pub fn quit_target_app(&self, checks: u32, running: bool) -> (r: QuitStep)
        ensures
            r@ == self@.target.quit_step(checks as nat, running),
    {
        if checks == 0 {
            if running {
                QuitStep::Ask {
                    command: self.target.quit_command(),
                    pause_millis: QUIT_PAUSE_MILLIS,
                }
            } else {
                QuitStep::NotRunning
            }
        } else if !running {
            QuitStep::Stopped
        } else if checks < MAX_QUIT_CHECKS {
            QuitStep::Wait { pause_millis: QUIT_PAUSE_MILLIS }
        } else {
            QuitStep::Kill {
                command: self.target.kill_command(),
                pause_millis: KILL_PAUSE_MILLIS,
            }
        }
    }

    /// The command that launches the target application.
    pub fn launch_target_app(&self) -> (r: CommandLine)
        ensures
            r@ == commands::command("open"@, seq![self@.target.app_path]),
    {
        self.target.launch_command()
    }
}

/// How a patch deals with an application that is open.
#[derive(Debug, PartialEq, Eq, Structural)]
pub enum Restart {
    /// A detached process patches: it survives the application, which is quit now and launched
    /// again afterwards.
    Detached,
    /// The application is quit, patched and launched again.
    Inline,
    /// The application does not run and is only patched.
    PatchOnly,
}

/// A step of a patch.
#[derive(Debug, PartialEq, Eq, Structural, Clone, Copy)]
pub enum RestartStep {
    /// Notes the sizes of the hooks' logs.
    NoteLogs,
    /// Starts the detached patcher.
    SpawnDetached,
    /// Asks the application to quit, without waiting for it.
    AskToQuit,
    /// Quits the application.
    Quit,
    /// Waits until the application has exited.
    WaitForExit,
    /// Does nothing for this long.
    Pause { millis: u64 },
    /// Kills the processes that the application left behind.
    KillOrphans,
    /// Patches the binary.
    Patch,
    /// Launches the application.
    Launch,
}

/// The steps of a patch. When the hooks are to be checked afterwards, the application is launched in
/// any case, and the sizes of the logs are noted before that.
pub open spec fn restart_steps(restart: Restart, and_verify: bool) -> Seq<RestartStep> {
    let note = if and_verify {
        seq![RestartStep::NoteLogs]
    } else {
        seq![]
    };
    match restart {
        Restart::Detached => note + seq![
            RestartStep::SpawnDetached,
            RestartStep::AskToQuit,
            RestartStep::Pause { millis: 1000 },
        ],
        Restart::Inline => seq![RestartStep::Quit, RestartStep::Patch] + note + seq![
            RestartStep::Launch,
        ],
        Restart::PatchOnly => seq![RestartStep::Patch] + note + (if and_verify {
            seq![RestartStep::Launch]
        } else {
            seq![]
        }),
    }
}

/// The steps of the detached patcher.
pub open spec fn detached_steps_of() -> Seq<RestartStep> {
    seq![
        RestartStep::WaitForExit,
        RestartStep::Pause { millis: 2000 },
        RestartStep::KillOrphans,
        RestartStep::Patch,
        RestartStep::Launch,
    ]
}

impl Restart {
    /// The steps of a patch; `and_verify` tells whether the hooks are checked afterwards.
    pub fn steps(&self, and_verify: bool) -> (r: Vec<RestartStep>)
        ensures
            r@ == restart_steps(*self, and_verify),
    {
        let mut r: Vec<RestartStep> = Vec::new();
        match self {
            Restart::Detached => {
                if and_verify {
                    r.push(RestartStep::NoteLogs);
                }
                r.push(RestartStep::SpawnDetached);
                r.push(RestartStep::AskToQuit);
                r.push(RestartStep::Pause { millis: 1000 });
            },
            Restart::Inline => {
                r.push(RestartStep::Quit);
                r.push(RestartStep::Patch);
                if and_verify {
                    r.push(RestartStep::NoteLogs);
                }
                r.push(RestartStep::Launch);
            },
            Restart::PatchOnly => {
                r.push(RestartStep::Patch);
                if and_verify {
                    r.push(RestartStep::NoteLogs);
                    r.push(RestartStep::Launch);
                }
            },
        }
        assert(r@ =~= restart_steps(*self, and_verify));
        r
    }
}

/// The steps of the detached patcher.
pub fn detached_steps() -> (r: Vec<RestartStep>)
    ensures
        r@ == detached_steps_of(),
{
    let mut r: Vec<RestartStep> = Vec::new();
    r.push(RestartStep::WaitForExit);
    r.push(RestartStep::Pause { millis: 2000 });
    r.push(RestartStep::KillOrphans);
    r.push(RestartStep::Patch);
    r.push(RestartStep::Launch);
    assert(r@ =~= detached_steps_of());
    r
}

impl Patcher {
    /// How a patch deals with the application: `inside` tells whether the patcher runs inside it,
    /// `running` whether it runs at all.
    pub fn patch_and_restart(&self, inside: bool, running: bool) -> (r: Restart)
        ensures
            r == (if inside {
                Restart::Detached
            } else if running {
                Restart::Inline
            } else {
                Restart::PatchOnly
            }),
    {
        if inside {
            Restart::Detached
        } else if running {
            Restart::Inline
        } else {
            Restart::PatchOnly
        }
    }

    /// What is known of a patch that a detached process does: nothing is signed or checked yet.
    pub fn detached_result(&self, dylib_path: &str) -> (r: PatchResult)
        ensures
            r.dylib_path@ == dylib_path@,
            r.hooks_injected.deep_view() == seq![self@.project.name],
            !r.codesigned,
            !r.verified,
    {
        let mut names: Vec<String> = Vec::new();
        names.push(self.project.name.clone());
        assert(names.deep_view() =~= seq![self@.project.name]);
        PatchResult {
            dylib_path: dylib_path.to_owned(),
            hooks_injected: names,
            codesigned: false,
            verified: false,
        }
    }
}

/// The first line that `pgrep` printed, without white space around the output; empty when there is
/// none.
pub open spec fn first_line(output: Seq<char>) -> Seq<char> {
    let lines = text::lines_of(text::trimmed(output));
    if lines.len() > 0 {
        lines[0]
    } else {
        seq![]
    }
}

/// The first line of `output`, trimmed.
pub fn first_line_of(output: &str) -> (r: String)
    ensures
        r@ == first_line(output@),
{
    let t = text::trim(output);
    let lines = text::lines(t.as_str());
    let ghost views = lines.deep_view();
    if lines.len() > 0 {
        assert(views[0] == lines@[0]@);
        lines[0].clone()
    } else {
        let r = String::new();
        assert(r@ =~= seq![]);
        r
    }
}

/// The process of the application: `output` is what `pgrep` printed, when it could be run.
pub fn app_pid(output: Option<&[u8]>) -> (r: String)
    ensures
        r@ == (match output {
            Some(o) => first_line(outside::lossy_text_of(o@)),
            None => seq![],
        }),
{
    match output {
        Some(o) => {
            let printed = outside::lossy_text(o);
            first_line_of(printed.as_str())
        },
        None => {
            let r = String::new();
            assert(r@ =~= seq![]);
            r
        },
    }
}

/// The command that the detached patcher is called with.
pub const DETACHED_COMMAND: &'static str = "__detached_patch";

/// The variable that tells the detached patcher the process of the application.
pub const APP_PID_VARIABLE: &'static str = "__DYLIB_PATCHER_APP_PID";

/// The variable that tells the detached patcher the dylib.
pub const DYLIB_PATH_VARIABLE: &'static str = "__DYLIB_PATCHER_DYLIB_PATH";

/// The arguments of a program that was called with `args`, the program first.
pub open spec fn own_arguments(args: Seq<Seq<char>>) -> Seq<Seq<char>> {
    if args.len() > 0 {
        args.skip(1)
    } else {
        seq![]
    }
}

/// The arguments of the detached patcher, for a patcher that was called with `args`, the program
/// first: its command, and the patcher's own arguments without that command.
pub open spec fn detached_arguments(args: Seq<Seq<char>>) -> Seq<Seq<char>> {
    seq![DETACHED_COMMAND@] + own_arguments(args).filter(|a: Seq<char>| a != DETACHED_COMMAND@)
}

/// The arguments of the detached patcher, for a patcher that was called with `args`.
pub fn detached_args(args: &Vec<String>) -> (r: Vec<String>)
    ensures
        r.deep_view() == detached_arguments(args.deep_view()),
{
    let ghost own = own_arguments(args.deep_view());
    let ghost keep = |a: Seq<char>| a != DETACHED_COMMAND@;
    let ghost start = seq![DETACHED_COMMAND@];
    let mut r: Vec<String> = Vec::new();
    r.push(DETACHED_COMMAND.to_owned());
    let mut i: usize = 1;
    proof {
        reveal(Seq::filter);
        assert(own.take(0).filter(keep) =~= seq![]);
        assert(r.deep_view() =~= start + own.take(0).filter(keep));
    }
    while i < args.len()
        invariant
            own == own_arguments(args.deep_view()),
            keep == (|a: Seq<char>| a != DETACHED_COMMAND@),
            start == seq![DETACHED_COMMAND@],
            1 <= i,
            i - 1 <= own.len(),
            r.deep_view() == start + own.take(i - 1).filter(keep),
        decreases args@.len() - i,
    {
        let ghost before = r.deep_view();
        proof {
            text::lemma_filter_step(own, i - 1, keep);
            assert(own[i - 1] == args@[i as int]@);
        }
        if !text::text_eq(args[i].as_str(), DETACHED_COMMAND) {
            r.push(args[i].clone());
            assert(r.deep_view() =~= before.push(own[i - 1]));
            assert(start + own.take(i as int).filter(keep) =~= before.push(own[i - 1]));
        }
        i += 1;
    }
    assert(own.take(own.len() as int) =~= own);
    r
}

impl TargetView {
    /// The log of the detached patcher, beside the binary.
    pub open spec fn detached_log_path(self, stamp: Seq<char>) -> Seq<char> {
        path::joined(self.logs_dir(), "dylib-patch-"@ + stamp + ".log"@)
    }

    /// What the command lines of processes have in common that the application may leave behind.
    pub open spec fn orphan_patterns(self) -> Seq<Seq<char>> {
        seq![self.app_name() + "/extensions/"@, self.app_name() + "/languages/"@]
    }
}

impl TargetApp {
    /// The log of the detached patcher for the time `stamp`.
    pub fn detached_log_path(&self, stamp: &str) -> (r: String)
        ensures
            r@ == self@.detached_log_path(stamp@),
    {
        let mut name = "dylib-patch-".to_owned();
        name.append(stamp);
        name.append(".log");
        path::join(self.logs_dir().as_str(), name.as_str())
    }

    /// What the command lines of processes have in common that the application may leave behind.
    pub fn orphan_patterns(&self) -> (r: Vec<String>)
        ensures
            r.deep_view() == self@.orphan_patterns(),
    {
        let mut extensions = self.app_name();
        extensions.append("/extensions/");
        let mut languages = self.app_name();
        languages.append("/languages/");
        let mut r: Vec<String> = Vec::new();
        r.push(extensions);
        r.push(languages);
        assert(r.deep_view() =~= self@.orphan_patterns());
        r
    }
}

/// How the detached patcher is started.
#[derive(Debug)]
pub struct DetachedSpawn {
    /// The arguments of the patcher, which is the running program itself.
    pub args: Vec<String>,
    /// The process of the application; empty when it is not known.
    pub app_pid: String,
    /// The variables that are set for the patcher, with their values.
    pub variables: Vec<(String, String)>,
    /// The directory of the log.
    pub log_dir: String,
    /// The file that takes what the patcher reports.
    pub log_path: String,
}

/// The variables of the detached patcher.
pub open spec fn detached_variables(app_pid: Seq<char>, dylib: Seq<char>) -> Seq<
    (Seq<char>, Seq<char>),
> {
    seq![(APP_PID_VARIABLE@, app_pid), (DYLIB_PATH_VARIABLE@, dylib)]
}

impl Patcher {
    /// How the detached patcher is started at the time `stamp` for the dylib at `dylib_path`: `args`
    /// are the running program and its arguments, `pid_output` is what `pgrep` printed for the
    /// application, when it could be run.
    pub fn detached_spawn(
        &self,
        args: &Vec<String>,
        dylib_path: &str,
        pid_output: Option<&[u8]>,
        stamp: &str,
    ) -> (r: DetachedSpawn)
        ensures
            r.args.deep_view() == detached_arguments(args.deep_view()),
            r.app_pid@ == (match pid_output {
                Some(o) => first_line(outside::lossy_text_of(o@)),
                None => seq![],
            }),
            r.variables.deep_view() == detached_variables(r.app_pid@, dylib_path@),
            r.log_dir@ == self@.target.logs_dir(),
            r.log_path@ == self@.target.detached_log_path(stamp@),
    {
        let pid = app_pid(pid_output);
        let mut variables: Vec<(String, String)> = Vec::new();
        variables.push((APP_PID_VARIABLE.to_owned(), pid.clone()));
        variables.push((DYLIB_PATH_VARIABLE.to_owned(), dylib_path.to_owned()));
        assert(variables.deep_view() =~= detached_variables(pid@, dylib_path@));
        DetachedSpawn {
            args: detached_args(args),
            app_pid: pid,
            variables,
            log_dir: self.target.logs_dir(),
            log_path: self.target.detached_log_path(stamp),
        }
    }

    /// How the detached patcher is started now.
    pub fn detached_spawn_now(
        &self,
        args: &Vec<String>,
        dylib_path: &str,
        pid_output: Option<&[u8]>,
    ) -> (r: DetachedSpawn)
        ensures
            r.args.deep_view() == detached_arguments(args.deep_view()),
            r.app_pid@ == (match pid_output {
                Some(o) => first_line(outside::lossy_text_of(o@)),
                None => seq![],
            }),
            r.variables.deep_view() == detached_variables(r.app_pid@, dylib_path@),
            r.log_dir@ == self@.target.logs_dir(),
            exists|stamp: Seq<char>|
                outside::is_stamp(stamp) && r.log_path@ == #[trigger] self@.target.detached_log_path(
                    stamp,
                ),
    {
        let stamp = outside::local_now();
        self.detached_spawn(args, dylib_path, pid_output, stamp.as_str())
    }
}

/// The lines of `output` that hold more than white space.
pub open spec fn filled_lines(output: Seq<char>) -> Seq<Seq<char>> {
    text::lines_of(output).filter(|l: Seq<char>| text::trimmed(l).len() > 0)
}

/// How many lines of `output` hold more than white space.
pub fn count_filled_lines(output: &str) -> (r: usize)
    ensures
        r == filled_lines(output@).len(),
{
    let lines = text::lines(output);
    let ghost all = lines.deep_view();
    let ghost keep = |l: Seq<char>| text::trimmed(l).len() > 0;
    let mut n: usize = 0;
    let mut i: usize = 0;
    proof {
        reveal(Seq::filter);
        assert(all.take(0).filter(keep) =~= seq![]);
    }
    while i < lines.len()
        invariant
            all == lines.deep_view(),
            keep == (|l: Seq<char>| text::trimmed(l).len() > 0),
            i <= lines@.len(),
            n <= i,
            n == all.take(i as int).filter(keep).len(),
        decreases lines@.len() - i,
    {
        proof {
            text::lemma_filter_step(all, i as int, keep);
            assert(all[i as int] == lines@[i as int]@);
        }
        let t = text::trim(lines[i].as_str());
        if t.as_str().unicode_len() > 0 {
            n += 1;
        }
        i += 1;
    }
    assert(all.take(all.len() as int) =~= all);
    n
}

/// Processes that the application left behind.
#[derive(Debug)]
pub struct Orphans {
    /// How many there are.
    pub count: usize,
    /// Kills them.
    pub command: CommandLine,
}

/// The processes left behind whose command lines match `pattern`: `output` is what `pgrep` printed
/// for it, when it could be run. There is nothing to kill when it listed no process.
pub fn kill_orphaned_children(pattern: &str, output: Option<&[u8]>) -> (r: Option<Orphans>)
    ensures
        ({
            let count = match output {
                Some(o) => filled_lines(outside::lossy_text_of(o@)).len(),
                None => 0,
            };
            match r {
                Some(orphans) => orphans.count == count && count > 0 && orphans.command@
                    == commands::command("pkill"@, seq!["-f"@, pattern@]),
                None => count == 0,
            }
        }),
{
    match output {
        None => None,
        Some(o) => {
            let printed = outside::lossy_text(o);
            let count: usize = count_filled_lines(printed.as_str());
            if count > 0 {
                Some(Orphans { count, command: commands::kill_matching_command(pattern) })
            } else {
                None
            }
        },
    }
}

/// What a detached patcher was told.
#[derive(Debug)]
pub struct DetachedRun {
    /// The process of the application; empty when it is not known.
    pub app_pid: String,
    /// The dylib to patch in.
    pub dylib: String,
}

impl Patcher {
    /// What a detached patcher was told: the values of its two variables, when they are set. The
    /// dylib is the default one when nothing else was said.
    pub fn run_detached_patch(&self, app_pid: Option<&str>, dylib: Option<&str>) -> (r: DetachedRun)
        ensures
            r.app_pid@ == (match app_pid {
                Some(p) => p@,
                None => seq![],
            }),
            r.dylib@ == (match dylib {
                Some(d) => d@,
                None => self@.default_dylib_path(),
            }),
    {
        let app_pid = match app_pid {
            Some(p) => p.to_owned(),
            None => {
                let p = String::new();
                assert(p@ =~= seq![]);
                p
            },
        };
        let dylib = match dylib {
            Some(d) => d.to_owned(),
            None => self.default_dylib_path(),
        };
        DetachedRun { app_pid, dylib }
    }
}

/// What to do next while the application exits.
#[derive(Debug)]
pub enum ExitStep {
    /// Pause, and then run this, which succeeds while the application is there.
    Check { command: CommandLine, pause_millis: u64 },
    /// Pause; the application is still there, and the wait is over.
    GiveUp { pause_millis: u64 },
    /// Nothing: the application is gone, or its process is not known.
    Done,
}

/// What an [`ExitStep`] holds.
#[verifier::ext_equal]
pub enum ExitView {
    Check { command: commands::CommandView, pause_millis: u64 },
    GiveUp { pause_millis: u64 },
    Done,
}

impl View for ExitStep {
    type V = ExitView;

    open spec fn view(&self) -> ExitView {
        match *self {
            ExitStep::Check { command, pause_millis } => ExitView::Check {
                command: command@,
                pause_millis,
            },
            ExitStep::GiveUp { pause_millis } => ExitView::GiveUp { pause_millis },
            ExitStep::Done => ExitView::Done,
        }
    }
}

/// The pause after each look that finds an exiting application still there.
pub const EXIT_PAUSE_MILLIS: u64 = 1000;

/// The step of waiting for the process `app_pid`, of which nothing is known when it is empty:
/// `checks` counts the looks at it, and `alive` tells what the last one found. The wait ends when the
/// process is gone or the patience is at its end.
pub open spec fn exit_step_of(app_pid: Seq<char>, checks: nat, alive: bool) -> ExitView {
    if app_pid.len() == 0 || (checks > 0 && !alive) {
        ExitView::Done
    } else if checks >= MAX_EXIT_CHECKS {
        ExitView::GiveUp { pause_millis: EXIT_PAUSE_MILLIS }
    } else {
        ExitView::Check {
            command: commands::command("kill"@, seq!["-0"@, app_pid]),
            pause_millis: if checks == 0 {
                0
            } else {
                EXIT_PAUSE_MILLIS
            },
        }
    }
}

impl DetachedRun {
    /// The next step of waiting for the application to exit: `checks` counts the looks at it, and
    /// `alive` tells what the last one found.
    pub fn exit_step(&self, checks: u32, alive: bool) -> (r: ExitStep)
        ensures
            r@ == exit_step_of(self.app_pid@, checks as nat, alive),
    {
        if self.app_pid.as_str().unicode_len() == 0 || (checks > 0 && !alive) {
            ExitStep::Done
        } else if checks >= MAX_EXIT_CHECKS {
            ExitStep::GiveUp { pause_millis: EXIT_PAUSE_MILLIS }
        } else {
            ExitStep::Check {
                command: commands::alive_command(self.app_pid.as_str()),
                pause_millis: if checks == 0 {
                    0
                } else {
                    EXIT_PAUSE_MILLIS
                },
            }
        }
    }
}

} // verus!
