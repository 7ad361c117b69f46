//! The command line of `cargo patch`: what the arguments ask for, and in which steps it is done.

use crate::error::PatchError;
use crate::process;
use crate::project::{self, Patcher, PatcherView};
use crate::text;
use vstd::prelude::*;

verus! {

/// How long the hooks get to start after a patch before they are verified, in seconds.
pub const START_SECS: u64 = 15;

/// Where the dylib of a patch comes from.
#[derive(Debug)]
pub enum DylibSource {
    /// The path that the command line names.
    Explicit(String),
    /// The default path; nothing is built.
    Existing(String),
    /// A build.
    Build,
}

/// What a [`DylibSource`] holds.
#[verifier::ext_equal]
pub enum SourceView {
    Explicit(Seq<char>),
    Existing(Seq<char>),
    Build,
}

impl View for DylibSource {
    type V = SourceView;

    open spec fn view(&self) -> SourceView {
        match *self {
            DylibSource::Explicit(p) => SourceView::Explicit(p@),
            DylibSource::Existing(p) => SourceView::Existing(p@),
            DylibSource::Build => SourceView::Build,
        }
    }
}

/// A command on the configuration of the hook.
#[derive(Debug)]
pub enum ConfigCommand {
    Show,
    Assign { key: String, value: String },
    Reset,
    Path,
}

/// What the arguments ask for.
#[derive(Debug)]
pub enum CliCommand {
    /// Shows the usage.
    Help,
    /// Patches as the detached process.
    DetachedPatch,
    /// Restores the unpatched binary.
    Restore,
    /// Removes this hook.
    Remove,
    /// Shows the status.
    Status,
    /// Launches the application and checks the hooks.
    Verify,
    /// Patches, and checks the hooks afterwards when asked to.
    Patch { source: DylibSource, and_verify: bool },
    /// Deals with the configuration.
    Config(ConfigCommand),
}

/// What the arguments ask for, or what is wrong with them.
#[verifier::ext_equal]
pub enum CliView {
    Help,
    DetachedPatch,
    Restore,
    Remove,
    Status,
    Verify,
    Patch { source: SourceView, and_verify: bool },
    ConfigShow,
    ConfigSet { key: Seq<char>, value: Seq<char> },
    ConfigReset,
    ConfigPath,
    UnknownCommand(Seq<char>),
    UnknownConfig(Seq<char>),
    ConfigUsage(Seq<char>),
    OtherError(Seq<char>),
}

/// What `r` holds.
pub open spec fn cli_view(r: Result<CliCommand, PatchError>) -> CliView {
    match r {
        Ok(CliCommand::Help) => CliView::Help,
        Ok(CliCommand::DetachedPatch) => CliView::DetachedPatch,
        Ok(CliCommand::Restore) => CliView::Restore,
        Ok(CliCommand::Remove) => CliView::Remove,
        Ok(CliCommand::Status) => CliView::Status,
        Ok(CliCommand::Verify) => CliView::Verify,
        Ok(CliCommand::Patch { source, and_verify }) => CliView::Patch {
            source: source@,
            and_verify,
        },
        Ok(CliCommand::Config(ConfigCommand::Show)) => CliView::ConfigShow,
        Ok(CliCommand::Config(ConfigCommand::Assign { key, value })) => CliView::ConfigSet {
            key: key@,
            value: value@,
        },
        Ok(CliCommand::Config(ConfigCommand::Reset)) => CliView::ConfigReset,
        Ok(CliCommand::Config(ConfigCommand::Path)) => CliView::ConfigPath,
        Err(PatchError::UnknownCommand(name)) => CliView::UnknownCommand(name@),
        Err(PatchError::UnknownConfig(name)) => CliView::UnknownConfig(name@),
        Err(PatchError::ConfigUsage(usage)) => CliView::ConfigUsage(usage@),
        Err(e) => CliView::OtherError(e.text()),
    }
}

/// A field of the configuration, with the values that it can have.
#[derive(Debug)]
pub struct ConfigField {
    pub key: String,
    pub values: Vec<String>,
}

/// What a [`ConfigField`] holds.
#[verifier::ext_equal]
pub struct FieldView {
    pub key: Seq<char>,
    pub values: Seq<Seq<char>>,
}

impl DeepView for ConfigField {
    type V = FieldView;

    open spec fn deep_view(&self) -> FieldView {
        FieldView { key: self.key@, values: self.values.deep_view() }
    }
}

/// An argument that is a flag.
pub open spec fn is_flag(arg: Seq<char>) -> bool {
    arg.len() > 0 && arg[0] == '-'
}

/// A flag whose value, the argument behind it, is never a command.
pub open spec fn takes_value(arg: Seq<char>) -> bool {
    arg == "--dylib"@
}

/// The first of `args`, from position `from` on, that is neither a flag nor the value of one.
pub open spec fn first_plain(args: Seq<Seq<char>>, from: int) -> Option<Seq<char>>
    decreases args.len() - from + 1,
{
    if from < 0 || from >= args.len() {
        None
    } else if takes_value(args[from]) {
        first_plain(args, from + 2)
    } else if !is_flag(args[from]) {
        Some(args[from])
    } else {
        first_plain(args, from + 1)
    }
}

/// The command that `args` name, the program being the first of them.
pub open spec fn subcommand_of(args: Seq<Seq<char>>) -> Option<Seq<char>> {
    first_plain(args, 1)
}

/// Where the dylib comes from: `--dylib` comes first, then `--no-build`.
pub open spec fn source_of(args: Seq<Seq<char>>, default_dylib: Seq<char>) -> SourceView {
    match project::arg_value_from(args, "--dylib"@, 0) {
        Some(p) => SourceView::Explicit(p),
        None => if args.contains("--no-build"@) {
            SourceView::Existing(default_dylib)
        } else {
            SourceView::Build
        },
    }
}

/// Those of `args`, from position `from` on, that are neither flags nor values of flags, but for
/// `config` itself.
pub open spec fn config_from(args: Seq<Seq<char>>, from: int) -> Seq<Seq<char>>
    decreases args.len() - from + 1,
{
    if from < 0 || from >= args.len() {
        seq![]
    } else if takes_value(args[from]) {
        config_from(args, from + 2)
    } else if is_flag(args[from]) || args[from] == "config"@ {
        config_from(args, from + 1)
    } else {
        seq![args[from]] + config_from(args, from + 1)
    }
}

/// The arguments of `config`.
pub open spec fn config_arguments(args: Seq<Seq<char>>) -> Seq<Seq<char>> {
    config_from(args, 1)
}

/// The line of the usage that describes a field.
pub open spec fn field_line(field: FieldView) -> Seq<char> {
    "  "@ + text::padded(field.key, 20) + text::joined(field.values, " | "@) + "\n"@
}

/// The lines that describe the fields.
pub open spec fn field_lines(fields: Seq<FieldView>) -> Seq<char>
    decreases fields.len(),
{
    if fields.len() == 0 {
        seq![]
    } else {
        field_lines(fields.drop_last()) + field_line(fields.last())
    }
}

/// How `config set` is used: with the fields when there is a configuration.
pub open spec fn set_usage(fields: Option<Seq<FieldView>>) -> Seq<char> {
    match fields {
        Some(f) => "Usage: cargo patch config set <key> <value>\n\nKeys:\n"@ + field_lines(f),
        None => "Usage: cargo patch config set <key> <value>"@,
    }
}

/// What `config` is asked to do.
pub open spec fn config_of(args: Seq<Seq<char>>, fields: Option<Seq<FieldView>>) -> CliView {
    let own = config_arguments(args);
    if own.len() == 0 || own[0] == "show"@ {
        CliView::ConfigShow
    } else if own[0] == "set"@ {
        if own.len() < 3 {
            CliView::ConfigUsage(set_usage(fields))
        } else {
            CliView::ConfigSet { key: own[1], value: own[2] }
        }
    } else if own[0] == "reset"@ {
        CliView::ConfigReset
    } else if own[0] == "path"@ {
        CliView::ConfigPath
    } else {
        CliView::UnknownConfig(own[0])
    }
}

/// What the arguments ask for, the program being the first of them.
pub open spec fn command_of(
    args: Seq<Seq<char>>,
    default_dylib: Seq<char>,
    fields: Option<Seq<FieldView>>,
) -> CliView {
    if args.contains("--help"@) || args.contains("-h"@) {
        CliView::Help
    } else {
        match subcommand_of(args) {
            None => CliView::Patch {
                source: source_of(args, default_dylib),
                and_verify: args.contains("--verify"@),
            },
            Some(name) => if name == process::DETACHED_COMMAND@ {
                CliView::DetachedPatch
            } else if name == "restore"@ {
                CliView::Restore
            } else if name == "remove"@ {
                CliView::Remove
            } else if name == "status"@ || name == "list"@ {
                CliView::Status
            } else if name == "verify"@ {
                CliView::Verify
            } else if name == "patch"@ {
                CliView::Patch {
                    source: source_of(args, default_dylib),
                    and_verify: args.contains("--verify"@),
                }
            } else if name == "config"@ {
                config_of(args, fields)
            } else {
                CliView::UnknownCommand(name)
            },
        }
    }
}

/// Whether `arg` is a flag.
fn flag(arg: &str) -> (r: bool)
    ensures
        r == is_flag(arg@),
{
    arg.unicode_len() > 0 && arg.get_char(0) == '-'
}

/// Whether `s` is one of `args`.
fn given(args: &Vec<String>, s: &str) -> (r: bool)
    ensures
        r == args.deep_view().contains(s@),
{
    let list = args.as_slice();
    assert(list.deep_view() =~= args.deep_view());
    text::holds(list, s)
}

/// Whether `arg` is a flag whose value is never a command.
fn has_value(arg: &str) -> (r: bool)
    ensures
        r == takes_value(arg@),
{
    text::text_eq(arg, "--dylib")
}

/// The position behind `args[i]`, and behind its value when it is a flag that has one.
fn next_position(args: &Vec<String>, i: usize) -> (r: usize)
    requires
        i < args@.len(),
    ensures
        i < r <= args@.len(),
        takes_value(args@[i as int]@) ==> r == i + 2 || (r == args@.len() && r == i + 1),
        !takes_value(args@[i as int]@) ==> r == i + 1,
{
    let len: usize = args.len();
    if has_value(args[i].as_str()) && i + 1 < len {
        i + 2
    } else {
        i + 1
    }
}

/// The command that `args` name.
fn subcommand(args: &Vec<String>) -> (r: Option<String>)
    ensures
        r.deep_view() == subcommand_of(args.deep_view()),
{
    let ghost all = args.deep_view();
    let mut i: usize = 1;
    while i < args.len()
        invariant
            all == args.deep_view(),
            1 <= i,
            first_plain(all, 1) == first_plain(all, i as int),
        decreases args@.len() - i,
    {
        assert(all[i as int] == args@[i as int]@);
        if !has_value(args[i].as_str()) && !flag(args[i].as_str()) {
            return Some(args[i].clone());
        }
        let next: usize = next_position(args, i);
        proof {
            if next == args@.len() {
                assert(first_plain(all, next as int) is None);
                assert(first_plain(all, i + 2) is None);
            }
        }
        i = next;
    }
    None
}

/// The arguments of `config`.
fn config_args(args: &Vec<String>) -> (r: Vec<String>)
    ensures
        r.deep_view() == config_arguments(args.deep_view()),
{
    let ghost all = args.deep_view();
    let mut r: Vec<String> = Vec::new();
    let mut i: usize = 1;
    assert(r.deep_view() + config_from(all, 1) =~= config_from(all, 1));
    while i < args.len()
        invariant
            all == args.deep_view(),
            1 <= i,
            r.deep_view() + config_from(all, i as int) == config_from(all, 1),
        decreases args@.len() - i,
    {
        let ghost before = r.deep_view();
        assert(all[i as int] == args@[i as int]@);
        if !has_value(args[i].as_str()) && !flag(args[i].as_str()) && !text::text_eq(
            args[i].as_str(),
            "config",
        ) {
            r.push(args[i].clone());
            proof {
                assert(r.deep_view() =~= before.push(all[i as int]));
                assert(r.deep_view() + config_from(all, i + 1) =~= before + (seq![all[i as int]]
                    + config_from(all, i + 1)));
            }
        }
        let next: usize = next_position(args, i);
        proof {
            if next == args@.len() {
                assert(config_from(all, next as int) =~= seq![]);
                assert(config_from(all, i + 2) =~= seq![]);
            }
        }
        i = next;
    }
    assert(r.deep_view() + config_from(all, i as int) =~= r.deep_view());
    r
}

/// How `config set` is used.
fn set_usage_text(fields: Option<&Vec<ConfigField>>) -> (r: String)
    ensures
        r@ == set_usage(fields.deep_view()),
{
    match fields {
        None => "Usage: cargo patch config set <key> <value>".to_owned(),
        Some(fields) => {
            let mut r = "Usage: cargo patch config set <key> <value>\n\nKeys:\n".to_owned();
            let ghost start = r@;
            let ghost all = fields.deep_view();
            let mut i: usize = 0;
            assert(all.take(0) =~= seq![]);
            assert(start + field_lines(all.take(0)) =~= start);
            while i < fields.len()
                invariant
                    all == fields.deep_view(),
                    i <= fields@.len(),
                    r@ == start + field_lines(all.take(i as int)),
                decreases fields@.len() - i,
            {
                let ghost before = field_lines(all.take(i as int));
                r.append("  ");
                r.append(text::pad(fields[i].key.as_str(), 20).as_str());
                r.append(text::join(&fields[i].values, " | ").as_str());
                r.append("\n");
                proof {
                    let f = fields@[i as int].deep_view();
                    assert(all.take(i + 1).drop_last() =~= all.take(i as int));
                    assert(all.take(i + 1).last() == f);
                    assert(r@ =~= start + (before + field_line(f)));
                }
                i += 1;
            }
            assert(all.take(all.len() as int) =~= all);
            r
        },
    }
}

/// What `config` is asked to do.
fn config_command(args: &Vec<String>, fields: Option<&Vec<ConfigField>>) -> (r: Result<
    CliCommand,
    PatchError,
>)
    ensures
        cli_view(r) == config_of(args.deep_view(), fields.deep_view()),
{
    let own = config_args(args);
    let ghost views = own.deep_view();
    if own.len() == 0 {
        return Ok(CliCommand::Config(ConfigCommand::Show));
    }
    assert(views[0] == own@[0]@);
    let name = own[0].as_str();
    if text::text_eq(name, "show") {
        Ok(CliCommand::Config(ConfigCommand::Show))
    } else if text::text_eq(name, "set") {
        if own.len() < 3 {
            Err(PatchError::ConfigUsage(set_usage_text(fields)))
        } else {
            assert(views[1] == own@[1]@ && views[2] == own@[2]@);
            Ok(
                CliCommand::Config(
                    ConfigCommand::Assign { key: own[1].clone(), value: own[2].clone() },
                ),
            )
        }
    } else if text::text_eq(name, "reset") {
        Ok(CliCommand::Config(ConfigCommand::Reset))
    } else if text::text_eq(name, "path") {
        Ok(CliCommand::Config(ConfigCommand::Path))
    } else {
        Err(PatchError::UnknownConfig(own[0].clone()))
    }
}

/// What a patch is asked to do.
fn patch_command(patcher: &Patcher, args: &Vec<String>) -> (r: CliCommand)
    ensures
        cli_view(Ok(r)) == (CliView::Patch {
            source: source_of(args.deep_view(), patcher@.default_dylib_path()),
            and_verify: args.deep_view().contains("--verify"@),
        }),
{
    let list = args.as_slice();
    assert(list.deep_view() =~= args.deep_view());
    let source = match project::get_arg_value(list, "--dylib") {
        Some(p) => DylibSource::Explicit(p),
        None => if given(args, "--no-build") {
            DylibSource::Existing(patcher.default_dylib_path())
        } else {
            DylibSource::Build
        },
    };
    CliCommand::Patch { source, and_verify: given(args, "--verify") }
}

/// What the arguments of the program ask for, the program being the first of them. `fields` are the
/// fields of the hook's configuration, when it has one.
pub fn run(patcher: &Patcher, args: &Vec<String>, fields: Option<&Vec<ConfigField>>) -> (r: Result<
    CliCommand,
    PatchError,
>)
    ensures
        cli_view(r) == command_of(
            args.deep_view(),
            patcher@.default_dylib_path(),
            fields.deep_view(),
        ),
{
    if given(args, "--help") || given(args, "-h") {
        return Ok(CliCommand::Help);
    }
    match subcommand(args) {
        None => Ok(patch_command(patcher, args)),
        Some(name) => {
            let n = name.as_str();
            if text::text_eq(n, process::DETACHED_COMMAND) {
                Ok(CliCommand::DetachedPatch)
            } else if text::text_eq(n, "restore") {
                Ok(CliCommand::Restore)
            } else if text::text_eq(n, "remove") {
                Ok(CliCommand::Remove)
            } else if text::text_eq(n, "status") || text::text_eq(n, "list") {
                Ok(CliCommand::Status)
            } else if text::text_eq(n, "verify") {
                Ok(CliCommand::Verify)
            } else if text::text_eq(n, "patch") {
                Ok(patch_command(patcher, args))
            } else if text::text_eq(n, "config") {
                config_command(args, fields)
            } else {
                Err(PatchError::UnknownCommand(name))
            }
        },
    }
}

impl DylibSource {
    /// The dylib of a patch, or nothing when it has to be built; `exists` tells whether there is a
    /// file at the path.
    pub fn resolve(&self, exists: bool) -> (r: Result<Option<String>, PatchError>)
        ensures
            match self@ {
                SourceView::Explicit(p) => if exists {
                    r matches Ok(Some(d)) && d@ == p
                } else {
                    r matches Err(PatchError::DylibNotFound(e)) && e@ == p
                },
                SourceView::Existing(p) => if exists {
                    r matches Ok(Some(d)) && d@ == p
                } else {
                    r matches Err(PatchError::NoExistingDylib(e)) && e@ == p
                },
                SourceView::Build => r matches Ok(None),
            },
    {
        match self {
            DylibSource::Explicit(p) => if exists {
                Ok(Some(p.clone()))
            } else {
                Err(PatchError::DylibNotFound(p.clone()))
            },
            DylibSource::Existing(p) => if exists {
                Ok(Some(p.clone()))
            } else {
                Err(PatchError::NoExistingDylib(p.clone()))
            },
            DylibSource::Build => Ok(None),
        }
    }
}

/// A step of a command.
#[derive(Debug, PartialEq, Eq, Structural, Clone, Copy)]
pub enum CliStep {
    /// Quits the application.
    Quit,
    /// Launches the application.
    Launch,
    /// Restores the unpatched binary.
    Restore,
    /// Removes this hook.
    Remove,
    /// Patches, with the restart that the application needs. When the hooks are to be checked
    /// afterwards, the sizes of their logs are noted before the application is launched.
    PatchAndRestart { and_verify: bool },
    /// Patches as the detached process, and launches the application.
    DetachedPatch,
    /// Waits for the hooks to start.
    Pause,
    /// Makes sure that there are hooks to check.
    RequireHooks,
    /// Notes the sizes of the hooks' logs.
    NoteLogs,
    /// Waits for the hooks to report and checks them; the program fails when a check does.
    CheckHooks,
    /// Shows the status.
    Status,
    /// Shows the usage.
    Usage,
    /// Deals with the configuration.
    Config,
}

/// The steps of a command.
pub open spec fn steps_of(command: CliView) -> Seq<CliStep> {
    match command {
        CliView::Help => seq![CliStep::Usage],
        CliView::DetachedPatch => seq![CliStep::DetachedPatch],
        CliView::Restore => seq![CliStep::Quit, CliStep::Restore, CliStep::Launch],
        CliView::Remove => seq![CliStep::Quit, CliStep::Remove, CliStep::Launch],
        CliView::Status => seq![CliStep::Status],
        CliView::Verify => seq![
            CliStep::RequireHooks,
            CliStep::NoteLogs,
            CliStep::Launch,
            CliStep::CheckHooks,
        ],
        CliView::Patch { source, and_verify } => if and_verify {
            seq![CliStep::PatchAndRestart { and_verify }, CliStep::Pause, CliStep::CheckHooks]
        } else {
            seq![CliStep::PatchAndRestart { and_verify }]
        },
        CliView::ConfigShow => seq![CliStep::Config],
        CliView::ConfigSet { key, value } => seq![CliStep::Config],
        CliView::ConfigReset => seq![CliStep::Config],
        CliView::ConfigPath => seq![CliStep::Config],
        _ => seq![],
    }
}

impl CliCommand {
    /// The steps of the command; the first that fails ends it.
    pub fn steps(&self) -> (r: Vec<CliStep>)
        ensures
            r@ == steps_of(cli_view(Ok(*self))),
    {
        let mut steps: Vec<CliStep> = Vec::new();
        match self {
            CliCommand::Help => steps.push(CliStep::Usage),
            CliCommand::DetachedPatch => steps.push(CliStep::DetachedPatch),
            CliCommand::Restore => {
                steps.push(CliStep::Quit);
                steps.push(CliStep::Restore);
                steps.push(CliStep::Launch);
            },
            CliCommand::Remove => {
                steps.push(CliStep::Quit);
                steps.push(CliStep::Remove);
                steps.push(CliStep::Launch);
            },
            CliCommand::Status => steps.push(CliStep::Status),
            CliCommand::Verify => {
                steps.push(CliStep::RequireHooks);
                steps.push(CliStep::NoteLogs);
                steps.push(CliStep::Launch);
                steps.push(CliStep::CheckHooks);
            },
            CliCommand::Patch { source: _, and_verify } => {
                steps.push(CliStep::PatchAndRestart { and_verify: *and_verify });
                if *and_verify {
                    steps.push(CliStep::Pause);
                    steps.push(CliStep::CheckHooks);
                }
            },
            CliCommand::Config(_) => steps.push(CliStep::Config),
        }
        assert(steps@ =~= steps_of(cli_view(Ok(*self))));
        steps
    }
}

/// The lines of the usage on the configuration.
pub open spec fn config_usage() -> Seq<Seq<char>> {
    seq![
        "  cargo patch config         Show config + available options"@,
        "  cargo patch config set K V Set a config field"@,
        "  cargo patch config reset   Reset config to defaults"@,
        "  cargo patch config path    Print config file path"@,
    ]
}

impl PatcherView {
    /// The lines of the usage; those on the configuration stand there when the hook has one.
    pub open spec fn usage(self, with_config: bool) -> Seq<Seq<char>> {
        seq![
            "dylib-patcher — "@ + self.project.name + " hook management"@,
            ""@,
            "Usage:"@,
            "  cargo patch                Quit app + build + inject + sign + relaunch"@,
            "  cargo patch --verify       Quit + build + inject + sign + relaunch + verify"@,
            "  cargo patch --no-build     Skip build, use existing dylib"@,
            "  cargo patch --stable       Target Zed stable instead of Preview"@,
            "  cargo patch --dylib PATH   Use specific pre-built dylib"@,
            "  cargo patch verify         Check hook health from logs (app must be running)"@,
            "  cargo patch status         Show injected hooks, registry, artifact hashes"@,
            "  cargo patch list           Same as status"@,
            "  cargo patch remove         Quit + remove this hook + relaunch (keeps others)"@,
            "  cargo patch restore        Quit + restore original binary + relaunch"@,
        ] + (if with_config {
            config_usage()
        } else {
            seq![]
        }) + seq![
            "  cargo patch --help         Show this help"@,
            ""@,
            "Target: "@ + self.target.app_path,
            "Dylib:  "@ + self.default_dylib_path(),
            ""@,
            "Note: When running inside the target app (e.g., from Zed's terminal),"@,
            "      the app is automatically quit, patched, and relaunched."@,
        ]
    }
}

/// Adds `more` to `lines`.
fn add_lines(lines: &mut Vec<String>, more: &[&str])
    ensures
        final(lines).deep_view() == old(lines).deep_view() + more.deep_view(),
{
    let ghost before = lines.deep_view();
    let ghost all = more.deep_view();
    let mut i: usize = 0;
    assert(before + all.take(0) =~= before);
    while i < more.len()
        invariant
            all == more.deep_view(),
            i <= more@.len(),
            lines.deep_view() == before + all.take(i as int),
        decreases more@.len() - i,
    {
        let ghost now = lines.deep_view();
        lines.push(more[i].to_owned());
        proof {
            assert(all[i as int] == more@[i as int]@);
            assert(lines.deep_view() =~= now.push(all[i as int]));
            assert(before + all.take(i + 1) =~= now.push(all[i as int]));
        }
        i += 1;
    }
    assert(all.take(all.len() as int) =~= all);
}

/// The usage, line by line; `with_config` tells whether the hook has a configuration.
pub fn print_usage(patcher: &Patcher, with_config: bool) -> (r: Vec<String>)
    ensures
        r.deep_view() == patcher@.usage(with_config),
{
    let mut lines: Vec<String> = Vec::new();
    let mut title = "dylib-patcher — ".to_owned();
    title.append(patcher.project.name.as_str());
    title.append(" hook management");
    lines.push(title);
    add_lines(
        &mut lines,
        &[
            "",
            "Usage:",
            "  cargo patch                Quit app + build + inject + sign + relaunch",
            "  cargo patch --verify       Quit + build + inject + sign + relaunch + verify",
            "  cargo patch --no-build     Skip build, use existing dylib",
            "  cargo patch --stable       Target Zed stable instead of Preview",
            "  cargo patch --dylib PATH   Use specific pre-built dylib",
            "  cargo patch verify         Check hook health from logs (app must be running)",
            "  cargo patch status         Show injected hooks, registry, artifact hashes",
            "  cargo patch list           Same as status",
            "  cargo patch remove         Quit + remove this hook + relaunch (keeps others)",
            "  cargo patch restore        Quit + restore original binary + relaunch",
        ],
    );
    if with_config {
        add_lines(
            &mut lines,
            &[
                "  cargo patch config         Show config + available options",
                "  cargo patch config set K V Set a config field",
                "  cargo patch config reset   Reset config to defaults",
                "  cargo patch config path    Print config file path",
            ],
        );
    }
    let mut target = "Target: ".to_owned();
    target.append(patcher.target.app_path.as_str());
    let mut dylib = "Dylib:  ".to_owned();
    dylib.append(patcher.default_dylib_path().as_str());
    add_lines(
        &mut lines,
        &[
            "  cargo patch --help         Show this help",
            "",
            target.as_str(),
            dylib.as_str(),
            "",
            "Note: When running inside the target app (e.g., from Zed's terminal),",
            "      the app is automatically quit, patched, and relaunched.",
        ],
    );
    assert(lines.deep_view() =~= patcher@.usage(with_config));
    lines
}

/// A detached patcher recognises its command, unless help was asked for.
pub proof fn law_detached_arguments_name_the_detached_command(
    program: Seq<char>,
    args: Seq<Seq<char>>,
    default_dylib: Seq<char>,
    fields: Option<Seq<FieldView>>,
)
    requires
        !args.contains("--help"@),
        !args.contains("-h"@),
        program != "--help"@,
        program != "-h"@,
    ensures
        command_of(
            seq![program] + process::detached_arguments(args),
            default_dylib,
            fields,
        ) == CliView::DetachedPatch,
{
    let detached = process::detached_arguments(args);
    let all = seq![program] + detached;
    reveal_strlit("__detached_patch");
    reveal_strlit("--help");
    reveal_strlit("-h");
    reveal_strlit("--dylib");
    assert(process::DETACHED_COMMAND@[0] == '_');
    assert("--help"@[0] == '-');
    assert("-h"@[0] == '-');
    assert("--dylib"@[0] == '-');
    assert(!all.contains("--help"@)) by {
        lemma_not_in_detached(program, args, "--help"@);
    }
    assert(!all.contains("-h"@)) by {
        lemma_not_in_detached(program, args, "-h"@);
    }
    assert(all[1] == process::DETACHED_COMMAND@);
    assert(first_plain(all, 1) == Some(process::DETACHED_COMMAND@));
}

proof fn lemma_not_in_detached(program: Seq<char>, args: Seq<Seq<char>>, arg: Seq<char>)
    requires
        !args.contains(arg),
        program != arg,
        arg != process::DETACHED_COMMAND@,
    ensures
        !(seq![program] + process::detached_arguments(args)).contains(arg),
{
    let detached = process::detached_arguments(args);
    let all = seq![program] + detached;
    let own = process::own_arguments(args);
    crate::process_laws::law_detached_arguments(args, arg);
    assert(!own.contains(arg)) by {
        if own.contains(arg) {
            let i = choose|i: int| 0 <= i < own.len() && own[i] == arg;
            assert(args[i + 1] == arg);
        }
    }
    if all.contains(arg) {
        let i = choose|i: int| 0 <= i < all.len() && all[i] == arg;
        assert(detached[i - 1] == arg);
    }
}

/// A dylib that is named behind `--dylib`, with no command, is patched in.
pub proof fn law_dylib_argument_is_patched_in(
    program: Seq<char>,
    dylib: Seq<char>,
    default_dylib: Seq<char>,
    fields: Option<Seq<FieldView>>,
)
    requires
        program != "--help"@,
        program != "-h"@,
        program != "--dylib"@,
        program != "--verify"@,
        dylib != "--help"@,
        dylib != "-h"@,
        dylib != "--verify"@,
    ensures
        command_of(seq![program, "--dylib"@, dylib], default_dylib, fields) == (CliView::Patch {
            source: SourceView::Explicit(dylib),
            and_verify: false,
        }),
{
    let all = seq![program, "--dylib"@, dylib];
    reveal_strlit("--dylib");
    reveal_strlit("--help");
    reveal_strlit("--verify");
    reveal_strlit("-h");
    assert("--dylib"@[2] == 'd' && "--help"@[2] == 'h' && "--verify"@[2] == 'v');
    assert("-h"@.len() == 2 && "--dylib"@.len() == 7);
    reveal_with_fuel(first_plain, 3);
    reveal_with_fuel(project::arg_value_from, 3);
    assert(all[0] == program && all[1] == "--dylib"@ && all[2] == dylib);
}

} // verus!
