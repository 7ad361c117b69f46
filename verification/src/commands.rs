//! The external programs that a patch runs, as command lines.

use crate::path;
use crate::project::{Patcher, PatcherView, TargetApp, TargetView};
use vstd::prelude::*;

verus! {

/// A program and its arguments.
#[derive(Debug)]
pub struct CommandLine {
    pub program: String,
    pub args: Vec<String>,
}

/// What a [`CommandLine`] holds.
#[verifier::ext_equal]
pub struct CommandView {
    pub program: Seq<char>,
    pub args: Seq<Seq<char>>,
}

impl DeepView for CommandLine {
    type V = CommandView;

    open spec fn deep_view(&self) -> CommandView {
        CommandView { program: self.program@, args: self.args.deep_view() }
    }
}

impl View for CommandLine {
    type V = CommandView;

    open spec fn view(&self) -> CommandView {
        self.deep_view()
    }
}

/// A command line.
pub open spec fn command(program: Seq<char>, args: Seq<Seq<char>>) -> CommandView {
    CommandView { program, args }
}

/// The command line of `program` with `args`.
fn command_line(program: &str, args: &[&str]) -> (r: CommandLine)
    ensures
        r@.program == program@,
        r@.args.len() == args@.len(),
        forall|k: int| 0 <= k < args@.len() ==> r@.args[k] == args@[k]@,
{
    let mut texts: Vec<String> = Vec::new();
    let mut i: usize = 0;
    while i < args.len()
        invariant
            i <= args@.len(),
            texts@.len() == i,
            forall|k: int| 0 <= k < i ==> texts@[k]@ == args@[k]@,
        decreases args@.len() - i,
    {
        texts.push(args[i].to_owned());
        i += 1;
    }
    CommandLine { program: program.to_owned(), args: texts }
}

impl PatcherView {
    /// Where the `insert-dylib` tool is installed.
    pub open spec fn tools_root(self) -> Seq<char> {
        path::joined(self.project_root, "target/tools"@)
    }

    /// The `insert-dylib` tool.
    pub open spec fn insert_dylib_path(self) -> Seq<char> {
        path::joined(self.project_root, "target/tools/bin/insert-dylib"@)
    }
}

impl Patcher {
    /// Builds the hook dylib in release mode; it runs in the project's root.
    pub fn build_command(&self) -> (r: CommandLine)
        ensures
            r@ == command(
                "cargo"@,
                seq!["build"@, "--release"@, "-p"@, self@.project.effective_crate_name()],
            ),
    {
        command_line("cargo", &["build", "--release", "-p", self.project.effective_crate_name()])
    }

    /// The path of the `insert-dylib` tool.
    pub fn insert_dylib_path(&self) -> (r: String)
        ensures
            r@ == self@.insert_dylib_path(),
    {
        path::join(self.project_root.as_str(), "target/tools/bin/insert-dylib")
    }

    /// Installs the `insert-dylib` tool below the project's root.
    pub fn install_command(&self) -> (r: CommandLine)
        ensures
            r@ == command(
                "cargo"@,
                seq!["install"@, "insert-dylib"@, "--root"@, self@.tools_root()],
            ),
    {
        let root = path::join(self.project_root.as_str(), "target/tools");
        command_line("cargo", &["install", "insert-dylib", "--root", root.as_str()])
    }

    /// Adds the dylib at `dylib_path` to the target binary with the tool at `tool`: as a weak
    /// dependency, in place, and without the binary's signature.
    pub fn inject_command(&self, tool: &str, dylib_path: &str) -> (r: CommandLine)
        ensures
            r@ == command(
                tool@,
                seq![
                    "--weak"@,
                    "--strip-codesig"@,
                    "--all-yes"@,
                    "--inplace"@,
                    dylib_path@,
                    self@.target.binary_path(),
                ],
            ),
    {
        let bin = self.target.binary_path();
        command_line(
            tool,
            &["--weak", "--strip-codesig", "--all-yes", "--inplace", dylib_path, bin.as_str()],
        )
    }
}

impl TargetView {
    /// The script that asks the application to quit.
    pub open spec fn quit_script(self) -> Seq<char> {
        "tell application \""@ + self.app_name() + "\" to quit"@
    }

    /// What the command line of the application's crash handler looks like.
    pub open spec fn crash_handler_pattern(self) -> Seq<char> {
        "--crash-handler.*"@ + self.binary_name()
    }
}

impl TargetApp {
    /// Lists the libraries that the binary loads.
    pub fn libraries_command(&self) -> (r: CommandLine)
        ensures
            r@ == command("otool"@, seq!["-L"@, self@.binary_path()]),
    {
        let bin = self.binary_path();
        command_line("otool", &["-L", bin.as_str()])
    }

    /// Signs the bundle anew with an ad-hoc signature.
    pub fn codesign_command(&self) -> (r: CommandLine)
        ensures
            r@ == command("codesign"@, seq!["-fs"@, "-"@, "--deep"@, self@.app_path]),
    {
        command_line("codesign", &["-fs", "-", "--deep", self.app_path.as_str()])
    }

    /// Finds the processes that run the binary.
    pub fn running_command(&self) -> (r: CommandLine)
        ensures
            r@ == command("pgrep"@, seq!["-f"@, self@.binary_path()]),
    {
        let bin = self.binary_path();
        command_line("pgrep", &["-f", bin.as_str()])
    }

    /// Finds the process of the application by the binary's file name.
    pub fn app_pid_command(&self) -> (r: CommandLine)
        ensures
            r@ == command("pgrep"@, seq!["-x"@, self@.binary_name()]),
    {
        let name = self.binary_name();
        command_line("pgrep", &["-x", name.as_str()])
    }

    /// Asks the application to quit.
    pub fn quit_command(&self) -> (r: CommandLine)
        ensures
            r@ == command("osascript"@, seq!["-e"@, self@.quit_script()]),
    {
        let mut script = "tell application \"".to_owned();
        script.append(self.app_name().as_str());
        script.append("\" to quit");
        command_line("osascript", &["-e", script.as_str()])
    }

    /// Kills the processes that run the binary.
    pub fn kill_command(&self) -> (r: CommandLine)
        ensures
            r@ == command("pkill"@, seq!["-f"@, self@.binary_path()]),
    {
        let bin = self.binary_path();
        command_line("pkill", &["-f", bin.as_str()])
    }

    /// Starts the application.
    pub fn launch_command(&self) -> (r: CommandLine)
        ensures
            r@ == command("open"@, seq![self@.app_path]),
    {
        command_line("open", &[self.app_path.as_str()])
    }

    /// Kills the crash handler of the application.
    pub fn kill_crash_handler_command(&self) -> (r: CommandLine)
        ensures
            r@ == command("pkill"@, seq!["-f"@, self@.crash_handler_pattern()]),
    {
        let mut pattern = "--crash-handler.*".to_owned();
        pattern.append(self.binary_name().as_str());
        command_line("pkill", &["-f", pattern.as_str()])
    }
}

/// Shows the parent and the command of process `pid`.
pub fn process_command(pid: &str) -> (r: CommandLine)
    ensures
        r@ == command("ps"@, seq!["-o"@, "ppid=,comm="@, "-p"@, pid@]),
{
    command_line("ps", &["-o", "ppid=,comm=", "-p", pid])
}

/// Succeeds while process `pid` exists.
pub fn alive_command(pid: &str) -> (r: CommandLine)
    ensures
        r@ == command("kill"@, seq!["-0"@, pid@]),
{
    command_line("kill", &["-0", pid])
}

/// Finds the processes whose command lines match `pattern`.
pub fn find_command(pattern: &str) -> (r: CommandLine)
    ensures
        r@ == command("pgrep"@, seq!["-f"@, pattern@]),
{
    command_line("pgrep", &["-f", pattern])
}

/// Kills the processes whose command lines match `pattern`.
pub fn kill_matching_command(pattern: &str) -> (r: CommandLine)
    ensures
        r@ == command("pkill"@, seq!["-f"@, pattern@]),
{
    command_line("pkill", &["-f", pattern])
}

/// Shows the commit of the hook project; it runs in the project's root.
pub fn git_commit_command() -> (r: CommandLine)
    ensures
        r@ == command("git"@, seq!["rev-parse"@, "--short"@, "HEAD"@]),
{
    command_line("git", &["rev-parse", "--short", "HEAD"])
}

} // verus!
