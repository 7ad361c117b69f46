//! Laws of the command line, said of its words.

use crate::cli::{self, CliCommand, CliStep, CliView, ConfigCommand, FieldView, SourceView};
use crate::error::PatchError;
use crate::path_text_laws;
use crate::project::PatcherView;
use crate::text;
use vstd::prelude::*;

verus! {

/// What is found from a place on depends on the words from there on.
proof fn lemma_first_plain(a: Seq<Seq<char>>, i: int, b: Seq<Seq<char>>, j: int)
    requires
        0 <= i,
        0 <= j,
        a.len() - i == b.len() - j,
        forall|k: int| 0 <= k < a.len() - i ==> #[trigger] a[i + k] == b[j + k],
    ensures
        cli::first_plain(a, i) == cli::first_plain(b, j),
        cli::config_from(a, i) == cli::config_from(b, j),
    decreases a.len() - i + 1,
{
    if i < a.len() {
        assert(a[i + 0] == b[j + 0]);
        if i + 2 <= a.len() {
            assert forall|k: int| 0 <= k < a.len() - (i + 2) implies #[trigger] a[i + 2 + k] == b[j
                + 2 + k] by {
                assert(a[i + (k + 2)] == b[j + (k + 2)]);
            }
            lemma_first_plain(a, i + 2, b, j + 2);
        }
        assert forall|k: int| 0 <= k < a.len() - (i + 1) implies #[trigger] a[i + 1 + k] == b[j + 1
            + k] by {
            assert(a[i + (k + 1)] == b[j + (k + 1)]);
        }
        lemma_first_plain(a, i + 1, b, j + 1);
    }
}

/// The command is the first word behind the program that is no flag and does not stand behind
/// `--dylib`; the words of `config` are all such words but `config` itself.
pub proof fn law_words_behind_the_program(
    program: Seq<char>,
    word: Seq<char>,
    value: Seq<char>,
    rest: Seq<Seq<char>>,
)
    ensures
        cli::subcommand_of(seq![]) is None,
        cli::subcommand_of(seq![program]) is None,
        cli::config_arguments(seq![]).len() == 0,
        cli::config_arguments(seq![program]).len() == 0,
        cli::subcommand_of(seq![program, "--dylib"@]) is None,
        cli::config_arguments(seq![program, "--dylib"@]).len() == 0,
        cli::subcommand_of(seq![program, "--dylib"@, value] + rest) == cli::subcommand_of(
            seq![program] + rest,
        ),
        cli::config_arguments(seq![program, "--dylib"@, value] + rest) == cli::config_arguments(
            seq![program] + rest,
        ),
        word.len() > 0 && word[0] == '-' && word != "--dylib"@ ==> {
            &&& cli::subcommand_of(seq![program, word] + rest) == cli::subcommand_of(
                seq![program] + rest,
            )
            &&& cli::config_arguments(seq![program, word] + rest) == cli::config_arguments(
                seq![program] + rest,
            )
        },
        word.len() == 0 || word[0] != '-' ==> {
            &&& cli::subcommand_of(seq![program, word] + rest) == Some(word)
            &&& cli::config_arguments(seq![program, word] + rest) == (if word == "config"@ {
                seq![]
            } else {
                seq![word]
            }) + cli::config_arguments(seq![program] + rest)
        },
{
    reveal_strlit("--dylib");
    assert("--dylib"@[0] == '-');
    let base = seq![program] + rest;
    let two = seq![program, word] + rest;
    let three = seq![program, "--dylib"@, value] + rest;
    assert(two[1] == word);
    assert(three[1] == "--dylib"@);
    assert forall|k: int| 0 <= k < two.len() - 2 implies #[trigger] two[2 + k] == base[1 + k] by {}
    assert forall|k: int| 0 <= k < three.len() - 3 implies #[trigger] three[3 + k] == base[1
        + k] by {}
    lemma_first_plain(two, 2, base, 1);
    lemma_first_plain(three, 3, base, 1);
    assert(cli::config_arguments(two) =~= cli::config_from(two, 1));
    if (word.len() == 0 || word[0] != '-') && word == "config"@ {
        assert(Seq::<Seq<char>>::empty() + cli::config_arguments(base) =~= cli::config_arguments(
            base,
        ));
    }
    reveal_with_fuel(cli::first_plain, 3);
    reveal_with_fuel(cli::config_from, 3);
}

/// The dylib comes from the path behind the first `--dylib`, when there is one; otherwise `--no-build`
/// asks for the one at the default path, and without that one is built.
pub proof fn law_where_the_dylib_comes_from(
    args: Seq<Seq<char>>,
    default_dylib: Seq<char>,
    i: int,
)
    ensures
        0 <= i < args.len() - 1 && args[i] == "--dylib"@ && (forall|k: int|
            0 <= k < i ==> #[trigger] args[k] != "--dylib"@) ==> cli::source_of(
            args,
            default_dylib,
        ) == SourceView::Explicit(args[i + 1]),
        (forall|k: int| 0 <= k < args.len() - 1 ==> #[trigger] args[k] != "--dylib"@) ==> {
            &&& 0 <= i < args.len() && args[i] == "--no-build"@ ==> cli::source_of(
                args,
                default_dylib,
            ) == SourceView::Existing(default_dylib)
            &&& (forall|k: int| 0 <= k < args.len() ==> #[trigger] args[k] != "--no-build"@)
                ==> cli::source_of(args, default_dylib) == SourceView::Build
        },
{
    path_text_laws::law_value_stands_behind_the_first_flag(args, "--dylib"@);
    if args.contains("--no-build"@) {
        let k = choose|k: int| 0 <= k < args.len() && args[k] == "--no-build"@;
        assert(args[k] == "--no-build"@);
    }
}

/// `--help` or `-h` anywhere asks for help, whatever else is said.
pub proof fn law_help_comes_first(
    args: Seq<Seq<char>>,
    default_dylib: Seq<char>,
    fields: Option<Seq<FieldView>>,
    i: int,
)
    requires
        0 <= i < args.len(),
        args[i] == "--help"@ || args[i] == "-h"@,
    ensures
        cli::command_of(args, default_dylib, fields) == CliView::Help,
{
}

/// Each command is called by its name; without a name, the hook is patched in. `--verify` anywhere
/// asks for a check of the hooks after a patch. Any other name is unknown.
pub proof fn law_commands_are_called_by_their_names(
    args: Seq<Seq<char>>,
    default_dylib: Seq<char>,
    fields: Option<Seq<FieldView>>,
)
    requires
        forall|k: int|
            0 <= k < args.len() ==> #[trigger] args[k] != "--help"@ && args[k] != "-h"@,
    ensures
        ({
            let asked = cli::command_of(args, default_dylib, fields);
            let patch = CliView::Patch {
                source: cli::source_of(args, default_dylib),
                and_verify: exists|k: int|
                    0 <= k < args.len() && #[trigger] args[k] == "--verify"@,
            };
            match cli::subcommand_of(args) {
                None => asked == patch,
                Some(name) => {
                    &&& name == "patch"@ ==> asked == patch
                    &&& name == "__detached_patch"@ ==> asked == CliView::DetachedPatch
                    &&& name == "restore"@ ==> asked == CliView::Restore
                    &&& name == "remove"@ ==> asked == CliView::Remove
                    &&& name == "status"@ ==> asked == CliView::Status
                    &&& name == "list"@ ==> asked == CliView::Status
                    &&& name == "verify"@ ==> asked == CliView::Verify
                    &&& name == "config"@ ==> asked == cli::config_of(args, fields)
                    &&& name != "patch"@ && name != "__detached_patch"@ && name != "restore"@
                        && name != "remove"@ && name != "status"@ && name != "list"@ && name
                        != "verify"@ && name != "config"@ ==> asked == CliView::UnknownCommand(
                        name,
                    )
                },
            }
        }),
{
    lemma_names_differ();
    if args.contains("--help"@) {
        let k = choose|k: int| 0 <= k < args.len() && args[k] == "--help"@;
        assert(args[k] == "--help"@);
    }
    if args.contains("-h"@) {
        let k = choose|k: int| 0 <= k < args.len() && args[k] == "-h"@;
        assert(args[k] == "-h"@);
    }
    if args.contains("--verify"@) {
        let k = choose|k: int| 0 <= k < args.len() && args[k] == "--verify"@;
        assert(args[k] == "--verify"@);
    }
}

/// The commands have different names.
proof fn lemma_names_differ()
    ensures
        "__detached_patch"@ != "restore"@,
        "__detached_patch"@ != "remove"@,
        "__detached_patch"@ != "status"@,
        "__detached_patch"@ != "list"@,
        "__detached_patch"@ != "verify"@,
        "__detached_patch"@ != "patch"@,
        "__detached_patch"@ != "config"@,
        "restore"@ != "remove"@,
        "restore"@ != "status"@,
        "restore"@ != "list"@,
        "restore"@ != "verify"@,
        "restore"@ != "patch"@,
        "restore"@ != "config"@,
        "remove"@ != "status"@,
        "remove"@ != "list"@,
        "remove"@ != "verify"@,
        "remove"@ != "patch"@,
        "remove"@ != "config"@,
        "status"@ != "verify"@,
        "status"@ != "patch"@,
        "status"@ != "config"@,
        "list"@ != "verify"@,
        "list"@ != "patch"@,
        "list"@ != "config"@,
        "verify"@ != "patch"@,
        "verify"@ != "config"@,
        "patch"@ != "config"@,
{
    reveal_strlit("__detached_patch");
    reveal_strlit("restore");
    reveal_strlit("remove");
    reveal_strlit("status");
    reveal_strlit("list");
    reveal_strlit("verify");
    reveal_strlit("patch");
    reveal_strlit("config");
    assert("__detached_patch"@[0] == '_');
    assert("restore"@.len() == 7 && "restore"@[0] == 'r');
    assert("remove"@.len() == 6 && "remove"@[0] == 'r');
    assert("status"@[0] == 's');
    assert("list"@[0] == 'l');
    assert("verify"@[0] == 'v');
    assert("patch"@[0] == 'p');
    assert("config"@[0] == 'c');
}

/// `config` shows the configuration unless its first word says otherwise: `set` needs a key and a
/// value, which are the two words behind it, and any other word is unknown.
pub proof fn law_config_does_what_its_first_word_says(
    args: Seq<Seq<char>>,
    fields: Option<Seq<FieldView>>,
)
    ensures
        ({
            let own = cli::config_arguments(args);
            let asked = cli::config_of(args, fields);
            &&& own.len() == 0 ==> asked == CliView::ConfigShow
            &&& own.len() > 0 ==> {
                &&& own[0] == "show"@ ==> asked == CliView::ConfigShow
                &&& own[0] == "reset"@ ==> asked == CliView::ConfigReset
                &&& own[0] == "path"@ ==> asked == CliView::ConfigPath
                &&& own[0] == "set"@ && own.len() >= 3 ==> asked == (CliView::ConfigSet {
                    key: own[1],
                    value: own[2],
                })
                &&& own[0] == "set"@ && own.len() < 3 ==> asked == CliView::ConfigUsage(
                    cli::set_usage(fields),
                )
                &&& own[0] != "show"@ && own[0] != "reset"@ && own[0] != "path"@ && own[0]
                    != "set"@ ==> asked == CliView::UnknownConfig(own[0])
            }
        }),
{
    reveal_strlit("show");
    reveal_strlit("set");
    reveal_strlit("reset");
    reveal_strlit("path");
    assert("show"@.len() == 4 && "show"@[0] == 's');
    assert("set"@.len() == 3);
    assert("reset"@.len() == 5);
    assert("path"@.len() == 4 && "path"@[0] == 'p');
}

/// The usage of `config set` lists the fields one after the other: each with its key, padded to
/// twenty characters, and its values with bars between them. Without a configuration it lists none.
pub proof fn law_usage_of_set_field_by_field(
    a: Seq<FieldView>,
    b: Seq<FieldView>,
    f: FieldView,
)
    ensures
        cli::set_usage(None) == "Usage: cargo patch config set <key> <value>"@,
        cli::set_usage(Some(seq![]))
            == "Usage: cargo patch config set <key> <value>\n\nKeys:\n"@,
        cli::set_usage(Some(a + seq![f])) == cli::set_usage(Some(a)) + "  "@ + text::padded(
            f.key,
            20,
        ) + text::joined(f.values, " | "@) + "\n"@,
        cli::field_lines(a + b) == cli::field_lines(a) + cli::field_lines(b),
    decreases b.len(),
{
    let none: Seq<FieldView> = seq![];
    let head = "Usage: cargo patch config set <key> <value>\n\nKeys:\n"@;
    assert(cli::field_lines(none) =~= seq![]);
    assert(cli::set_usage(Some(none)) =~= head);
    assert((a + seq![f]).drop_last() =~= a);
    assert((a + seq![f]).last() == f);
    assert(cli::set_usage(Some(a + seq![f])) =~= cli::set_usage(Some(a)) + "  "@ + text::padded(
        f.key,
        20,
    ) + text::joined(f.values, " | "@) + "\n"@);
    if b.len() == 0 {
        assert(a + b =~= a);
        assert(cli::field_lines(a) + cli::field_lines(b) =~= cli::field_lines(a));
    } else {
        law_usage_of_set_field_by_field(a, b.drop_last(), f);
        assert((a + b).drop_last() =~= a + b.drop_last());
        assert((a + b).last() == b.last());
        assert(cli::field_lines(a + b) =~= cli::field_lines(a) + cli::field_lines(b));
    }
}

/// The steps of each command.
pub proof fn law_command_step_by_step(
    source: SourceView,
    key: Seq<char>,
    value: Seq<char>,
    text: Seq<char>,
)
    ensures
        cli::steps_of(CliView::Help) == seq![CliStep::Usage],
        cli::steps_of(CliView::DetachedPatch) == seq![CliStep::DetachedPatch],
        cli::steps_of(CliView::Restore) == seq![CliStep::Quit, CliStep::Restore, CliStep::Launch],
        cli::steps_of(CliView::Remove) == seq![CliStep::Quit, CliStep::Remove, CliStep::Launch],
        cli::steps_of(CliView::Status) == seq![CliStep::Status],
        cli::steps_of(CliView::Verify) == seq![
            CliStep::RequireHooks,
            CliStep::NoteLogs,
            CliStep::Launch,
            CliStep::CheckHooks,
        ],
        cli::steps_of(CliView::Patch { source, and_verify: false }) == seq![
            CliStep::PatchAndRestart { and_verify: false },
        ],
        cli::steps_of(CliView::Patch { source, and_verify: true }) == seq![
            CliStep::PatchAndRestart { and_verify: true },
            CliStep::Pause,
            CliStep::CheckHooks,
        ],
        cli::steps_of(CliView::ConfigShow) == seq![CliStep::Config],
        cli::steps_of(CliView::ConfigSet { key, value }) == seq![CliStep::Config],
        cli::steps_of(CliView::ConfigReset) == seq![CliStep::Config],
        cli::steps_of(CliView::ConfigPath) == seq![CliStep::Config],
        cli::steps_of(CliView::UnknownCommand(text)).len() == 0,
        cli::steps_of(CliView::UnknownConfig(text)).len() == 0,
        cli::steps_of(CliView::ConfigUsage(text)).len() == 0,
        cli::START_SECS == 15,
{
}

/// What the arguments ask for is told apart by its view, with what it holds.
pub proof fn law_command_view_shows_what_was_asked(r: Result<CliCommand, PatchError>)
    ensures
        match r {
            Ok(CliCommand::Help) => cli::cli_view(r) is Help,
            Ok(CliCommand::DetachedPatch) => cli::cli_view(r) is DetachedPatch,
            Ok(CliCommand::Restore) => cli::cli_view(r) is Restore,
            Ok(CliCommand::Remove) => cli::cli_view(r) is Remove,
            Ok(CliCommand::Status) => cli::cli_view(r) is Status,
            Ok(CliCommand::Verify) => cli::cli_view(r) is Verify,
            Ok(CliCommand::Patch { source, and_verify }) => cli::cli_view(r) == (CliView::Patch {
                source: source@,
                and_verify,
            }),
            Ok(CliCommand::Config(ConfigCommand::Show)) => cli::cli_view(r) is ConfigShow,
            Ok(CliCommand::Config(ConfigCommand::Assign { key, value })) => cli::cli_view(r) == (
            CliView::ConfigSet { key: key@, value: value@ }),
            Ok(CliCommand::Config(ConfigCommand::Reset)) => cli::cli_view(r) is ConfigReset,
            Ok(CliCommand::Config(ConfigCommand::Path)) => cli::cli_view(r) is ConfigPath,
            Err(PatchError::UnknownCommand(n)) => cli::cli_view(r) == CliView::UnknownCommand(n@),
            Err(PatchError::UnknownConfig(n)) => cli::cli_view(r) == CliView::UnknownConfig(n@),
            Err(PatchError::ConfigUsage(u)) => cli::cli_view(r) == CliView::ConfigUsage(u@),
            Err(_) => cli::cli_view(r) is OtherError,
        },
{
}

/// The usage names the hook, the application and the dylib, describes every command, and describes
/// the configuration exactly when there is one, behind the other commands.
pub proof fn law_usage_describes_the_commands(patcher: PatcherView, with_config: bool)
    ensures
        ({
            let lines = patcher.usage(with_config);
            let n: int = if with_config {
                4
            } else {
                0
            };
            &&& lines.len() == 20 + n
            &&& lines[0] == "dylib-patcher — "@ + patcher.project.name + " hook management"@
            &&& lines.subrange(1, 13) == seq![
                ""@,
                "Usage:"@,
                "  cargo patch                Quit app + build + inject + sign + relaunch"@,
                "  cargo patch --verify       Quit + build + inject + sign + relaunch + verify"@,
                "  cargo patch --no-build     Skip build, use existing dylib"@,
                "  cargo patch --stable       Target Zed stable instead of Preview"@,
                "  cargo patch --dylib PATH   Use specific pre-built dylib"@,
                "  cargo patch verify         Check hook health from logs (app must be running)"@,
                "  cargo patch status         Show injected hooks, registry, artifact hashes"@,
                "  cargo patch list           Same as status"@,
                "  cargo patch remove         Quit + remove this hook + relaunch (keeps others)"@,
                "  cargo patch restore        Quit + restore original binary + relaunch"@,
            ]
            &&& with_config ==> lines.subrange(13, 17) == seq![
                "  cargo patch config         Show config + available options"@,
                "  cargo patch config set K V Set a config field"@,
                "  cargo patch config reset   Reset config to defaults"@,
                "  cargo patch config path    Print config file path"@,
            ]
            &&& lines.skip(13 + n) == seq![
                "  cargo patch --help         Show this help"@,
                ""@,
                "Target: "@ + patcher.target.app_path,
                "Dylib:  "@ + patcher.default_dylib_path(),
                ""@,
                "Note: When running inside the target app (e.g., from Zed's terminal),"@,
                "      the app is automatically quit, patched, and relaunched."@,
            ]
        }),
{
}

} // verus!
