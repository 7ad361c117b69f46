//! Laws of what outside programs print, what they are called with, and what the user is told.

use crate::commands;
use crate::error::PatchError;
use crate::inject;
use crate::path_text_laws;
use crate::process;
use crate::project::{PatcherView, TargetView};
use crate::text;
use crate::text_laws;
use vstd::prelude::*;

verus! {

/// A line lists an added dylib exactly when it is marked as weak and neither a library of the system
/// nor one below `/usr` stands in it.
pub proof fn law_added_dylibs_are_weak_and_not_of_the_system(line: Seq<char>)
    ensures
        inject::is_custom(line) == {
            &&& text::contains_text(line, "(weak)"@) || text::contains_text(
                line,
                "LC_LOAD_WEAK_DYLIB"@,
            )
            &&& !text::contains_text(line, "/System/"@)
            &&& !text::contains_text(line, "/usr/"@)
        },
{
}

/// The output is looked at line by line: the dylibs of a line and of the lines behind it come one
/// after the other, and a line that lists no added dylib adds nothing.
pub proof fn law_added_dylibs_line_by_line(line: Seq<char>, rest: Seq<char>)
    requires
        !line.contains('\n'),
        line.len() > 0,
        line.last() != '\r',
    ensures
        inject::custom_dylibs_of(seq![]).len() == 0,
        inject::custom_dylibs_of(line) == (if inject::is_custom(line) {
            seq![inject::dylib_of(line)]
        } else {
            seq![]
        }),
        inject::custom_dylibs_of(line + seq!['\n'] + rest) == (if inject::is_custom(line) {
            seq![inject::dylib_of(line)]
        } else {
            seq![]
        }) + inject::custom_dylibs_of(rest),
        inject::custom_dylibs_of(line + seq!['\r', '\n'] + rest) == inject::custom_dylibs_of(
            line + seq!['\n'] + rest,
        ),
{
    let none: Seq<char> = seq![];
    let keep = |l: Seq<char>| inject::is_custom(l);
    let dylib = |l: Seq<char>| inject::dylib_of(l);
    let one = seq![line];
    let others = text::lines_of(rest);
    text_laws::law_lines_line_by_line(line, rest);
    text_laws::law_lines_line_by_line(none, rest);
    let returned = line + seq!['\r'];
    assert(!returned.contains('\n')) by {
        if returned.contains('\n') {
            let i = choose|i: int| 0 <= i < returned.len() && returned[i] == '\n';
            if i < line.len() {
                assert(line.contains(line[i]));
            }
        }
    }
    text_laws::law_lines_line_by_line(returned, rest);
    assert(returned.drop_last() =~= line);
    assert(line + seq!['\r', '\n'] + rest =~= returned + seq!['\n'] + rest);
    reveal(Seq::filter);
    assert(one.drop_last() =~= seq![]);
    assert(one.drop_last().filter(keep) =~= seq![]);
    assert(one.filter(keep) =~= (if inject::is_custom(line) {
        one
    } else {
        seq![]
    }));
    Seq::filter_distributes_over_add(one, others, keep);
    assert((one.filter(keep) + others.filter(keep)).map_values(dylib) =~= one.filter(
        keep,
    ).map_values(dylib) + others.filter(keep).map_values(dylib));
    assert(one.map_values(dylib) =~= seq![inject::dylib_of(line)]);
    assert(text::lines_of(none).filter(keep) =~= seq![]);
}

/// The first ` (` behind a text that holds none.
proof fn lemma_first_bracket(p: Seq<char>, t: Seq<char>)
    requires
        p.len() > 0,
        !text::is_white(p.last()),
        !text::contains_text(p, " ("@),
        t.len() >= p.len() + 2,
        t.take(p.len() as int) == p,
        t[p.len() as int] == ' ',
        t[p.len() as int + 1] == '(',
    ensures
        text::first_occurrence(t, " ("@, 0) == Some(p.len() as int),
{
    reveal_strlit(" (");
    let mark = " ("@;
    let m = p.len() as int;
    text_laws::law_white_characters(' ');
    text_laws::law_first_occurrence_is_the_first(t, mark, 0);
    assert(t.subrange(m, m + 2) =~= mark);
    assert(t.subrange(m, m + mark.len()) == mark);
    let j = text::first_occurrence(t, mark, 0)->0;
    if j < m {
        assert(t.subrange(j, j + 2)[0] == ' ');
        assert(t.subrange(j, j + 2)[1] == '(');
        if j == m - 1 {
            assert(t.take(m)[j] == t[j]);
        } else {
            assert(p.subrange(j, j + 2) =~= t.subrange(j, j + 2));
            text_laws::law_contains_its_characters(p, mark);
            assert(p.subrange(j, j + mark.len()) == mark);
        }
    }
}

/// The dylib that a line lists is what stands before the first ` (`, without white space around it;
/// it is the whole line when there is no ` (`.
pub proof fn law_dylib_stands_before_the_bracket(
    pad: Seq<char>,
    p: Seq<char>,
    rest: Seq<char>,
    end: Seq<char>,
)
    requires
        p.len() > 0,
        !text::is_white(p[0]),
        !text::is_white(p.last()),
        !text::contains_text(p, " ("@),
        forall|k: int| 0 <= k < pad.len() ==> text::is_white(#[trigger] pad[k]),
        forall|k: int| 0 <= k < end.len() ==> text::is_white(#[trigger] end[k]),
    ensures
        inject::dylib_of(pad + p + seq![' ', '('] + rest) == p,
        inject::dylib_of(pad + p + end) == p,
{
    text_laws::law_white_characters('(');
    let all = pad + p + seq![' ', '('] + rest;
    let n = pad.len() as int;
    let m = p.len() as int;
    text_laws::law_trim_takes_off_white_space_only(all);
    let (x, y) = choose|x: int, y: int|
        {
            &&& 0 <= x <= y <= all.len()
            &&& text::trimmed(all) == #[trigger] all.subrange(x, y)
            &&& forall|k: int| 0 <= k < x || y <= k < all.len() ==> text::is_white(
                #[trigger] all[k],
            )
        };
    let t = text::trimmed(all);
    assert(all[n] == p[0]);
    assert(all[n + m + 1] == '(');
    assert(all[n + m] == ' ');
    assert(x <= n);
    assert(y > n + m + 1);
    assert(t[0] == all[x]);
    if x < n {
        assert(all[x] == pad[x]);
    }
    assert(x == n);
    assert(t[m] == all[n + m]);
    assert(t[m + 1] == all[n + m + 1]);
    assert(t.take(m) =~= p);
    lemma_first_bracket(p, t);
    text_laws::law_trim_undoes_padding(pad, p, end);
    text_laws::law_first_occurrence_is_the_first(p, " ("@, 0);
    text_laws::law_contains_its_characters(p, " ("@);
}

/// A command line has the program and the arguments that it was made of.
pub proof fn law_command_is_its_program_and_arguments(program: Seq<char>, args: Seq<Seq<char>>)
    ensures
        commands::command(program, args).program == program,
        commands::command(program, args).args == args,
{
}

/// The tool is installed below the project's directory, and looked for where it is installed.
pub proof fn law_tool_stands_below_the_project(patcher: PatcherView)
    requires
        patcher.project_root.len() > 0,
        patcher.project_root.last() != '/',
    ensures
        patcher.tools_root() == patcher.project_root + "/target/tools"@,
        patcher.insert_dylib_path() == patcher.project_root + "/target/tools/bin/insert-dylib"@,
        patcher.insert_dylib_path() == patcher.tools_root() + "/bin/insert-dylib"@,
{
    reveal_strlit("target/tools");
    reveal_strlit("/target/tools");
    reveal_strlit("target/tools/bin/insert-dylib");
    reveal_strlit("/target/tools/bin/insert-dylib");
    reveal_strlit("/bin/insert-dylib");
    path_text_laws::law_join_puts_one_separator(patcher.project_root, "target/tools"@);
    path_text_laws::law_join_puts_one_separator(
        patcher.project_root,
        "target/tools/bin/insert-dylib"@,
    );
    assert(patcher.tools_root() =~= patcher.project_root + "/target/tools"@);
    assert(patcher.insert_dylib_path() =~= patcher.project_root
        + "/target/tools/bin/insert-dylib"@);
    assert(patcher.insert_dylib_path() =~= patcher.tools_root() + "/bin/insert-dylib"@);
}

/// The script and the patterns by which processes are found hold the application's or the binary's
/// name.
pub proof fn law_scripts_and_patterns_hold_the_names(target: TargetView)
    ensures
        target.quit_script() == "tell application \""@ + target.app_name() + "\" to quit"@,
        target.crash_handler_pattern() == "--crash-handler.*"@ + target.binary_name(),
        target.orphan_patterns() == seq![
            target.app_name() + "/extensions/"@,
            target.app_name() + "/languages/"@,
        ],
{
}

/// Every message says what went wrong and holds the path, the name or the output that it is about.
pub proof fn law_messages_hold_what_they_are_about(e: PatchError)
    ensures
        match e {
            PatchError::BuildFailed(s) => e.text() == "cargo build failed with "@ + s@,
            PatchError::DylibNotBuilt(p) => e.text() == "build succeeded but dylib not found at "@
                + p@,
            PatchError::InstallFailed => e.text() == "cargo install insert-dylib failed"@,
            PatchError::ToolNotInstalled(p) => e.text()
                == "install succeeded but binary not found at "@ + p@,
            PatchError::InsertFailed(s) => e.text() == "insert-dylib failed: "@ + s@,
            PatchError::SignFailed(s) => e.text() == "codesign failed: "@ + s@,
            PatchError::AppNotFound(p) => e.text() == "target app not found: "@ + p@,
            PatchError::NotInjected(f) => e.text() == "verification failed: "@ + f@
                + " not found in binary after injection"@,
            PatchError::NoBackup(p) => e.text() == "no backup found at "@ + p@,
            PatchError::NoRegistry(id) => e.text() == "no registry found for '"@ + id@
                + "' — run `cargo patch` first"@,
            PatchError::EmptyRegistry => e.text() == "registry is empty — no hooks to verify"@,
            PatchError::DylibNotFound(p) => e.text() == "specified dylib not found: "@ + p@,
            PatchError::NoExistingDylib(p) => e.text()
                == "--no-build specified but dylib not found at "@ + p@
                + "\nRun `cargo build --release` first."@,
            PatchError::UnknownCommand(n) => e.text() == "Unknown command: "@ + n@
                + "\nRun with --help for usage."@,
            PatchError::UnknownConfig(n) => e.text() == "Unknown config subcommand: "@ + n@
                + "\n\nUsage: cargo patch config [show|set|reset|path]"@,
            PatchError::ConfigUsage(u) => e.text() == u@,
        },
{
}

/// The first white space of a text.
proof fn lemma_white_position(s: Seq<char>, from: int, at: int)
    requires
        0 <= from <= at <= s.len(),
        forall|k: int| from <= k < at ==> !text::is_white(#[trigger] s[k]),
        at < s.len() ==> text::is_white(s[at]),
    ensures
        process::white_position(s, from) == at,
    decreases at - from,
{
    if from < at {
        assert(!text::is_white(s[from]));
        lemma_white_position(s, from + 1, at);
    }
}

/// What `ps` printed for a process is its parent, white space and its command, with white space
/// around; the command may hold white space. A text without white space inside is no such line.
pub proof fn law_parent_and_command_of_a_process(
    a: Seq<char>,
    ppid: Seq<char>,
    gap: Seq<char>,
    comm: Seq<char>,
    b: Seq<char>,
)
    requires
        forall|k: int| 0 <= k < a.len() ==> text::is_white(#[trigger] a[k]),
        forall|k: int| 0 <= k < gap.len() ==> text::is_white(#[trigger] gap[k]),
        forall|k: int| 0 <= k < b.len() ==> text::is_white(#[trigger] b[k]),
        forall|k: int| 0 <= k < ppid.len() ==> !text::is_white(#[trigger] ppid[k]),
        ppid.len() > 0,
        gap.len() > 0,
        comm.len() > 0,
        !text::is_white(comm[0]),
        !text::is_white(comm.last()),
    ensures
        process::process_fields(a + ppid + gap + comm + b) == Some((ppid, comm)),
        process::process_fields(a + ppid + b) is None,
        process::process_fields(a) is None,
{
    let none: Seq<char> = seq![];
    let line = ppid + gap + comm;
    let n = ppid.len() as int;
    assert(line[0] == ppid[0]);
    assert(line.last() == comm.last());
    text_laws::law_trim_undoes_padding(a, line, b);
    assert(a + line + b =~= a + ppid + gap + comm + b);
    assert(line[n] == gap[0]);
    assert forall|k: int| 0 <= k < n implies !text::is_white(#[trigger] line[k]) by {
        assert(line[k] == ppid[k]);
    }
    lemma_white_position(line, 0, n);
    assert(line.take(n) =~= ppid);
    text_laws::law_trim_undoes_padding(none, ppid, none);
    assert(none + ppid + none =~= ppid);
    let more = gap.skip(1);
    assert forall|k: int| 0 <= k < more.len() implies text::is_white(#[trigger] more[k]) by {
        assert(more[k] == gap[k + 1]);
    }
    text_laws::law_trim_undoes_padding(more, comm, none);
    assert(line.skip(n + 1) =~= more + comm + none);
    text_laws::law_trim_undoes_padding(a, ppid, b);
    lemma_white_position(ppid, 0, n);
    text_laws::law_trim_undoes_padding(a, none, none);
    assert(a + none + none =~= a);
    lemma_white_position(none, 0, 0);
}

/// The first line of an output is what stands before its first line feed, without the white space
/// around the output; an output of white space has an empty first line.
pub proof fn law_first_line_stands_before_the_line_feed(
    a: Seq<char>,
    line: Seq<char>,
    rest: Seq<char>,
    b: Seq<char>,
)
    requires
        forall|k: int| 0 <= k < a.len() ==> text::is_white(#[trigger] a[k]),
        forall|k: int| 0 <= k < b.len() ==> text::is_white(#[trigger] b[k]),
        line.len() > 0,
        !line.contains('\n'),
        !text::is_white(line[0]),
        !text::is_white(line.last()),
        rest.len() > 0,
        !text::is_white(rest.last()),
    ensures
        process::first_line(a + line + b) == line,
        process::first_line(a + line + seq!['\n'] + rest + b) == line,
        process::first_line(a) == Seq::<char>::empty(),
{
    let none: Seq<char> = seq![];
    text_laws::law_trim_undoes_padding(a, line, b);
    text_laws::law_lines_line_by_line(line, rest);
    text_laws::law_white_characters('\r');
    let t = line + seq!['\n'] + rest;
    assert(t[0] == line[0]);
    assert(t.last() == rest.last());
    text_laws::law_trim_undoes_padding(a, t, b);
    assert(a + t + b =~= a + line + seq!['\n'] + rest + b);
    text_laws::law_trim_undoes_padding(a, none, none);
    assert(a + none + none =~= a);
    text_laws::law_lines_line_by_line(none, none);
    assert((seq![line] + text::lines_of(rest))[0] == line);
}

/// A line counts as filled exactly when it holds a character that is not white.
proof fn lemma_filled(l: Seq<char>)
    ensures
        (text::trimmed(l).len() > 0) == (exists|k: int|
            0 <= k < l.len() && !text::is_white(#[trigger] l[k])),
{
    text_laws::law_trim_takes_off_white_space_only(l);
    let (x, y) = choose|x: int, y: int|
        {
            &&& 0 <= x <= y <= l.len()
            &&& text::trimmed(l) == #[trigger] l.subrange(x, y)
            &&& forall|k: int| 0 <= k < x || y <= k < l.len() ==> text::is_white(#[trigger] l[k])
        };
    if text::trimmed(l).len() > 0 {
        assert(text::trimmed(l)[0] == l[x]);
        assert(!text::is_white(l[x]));
    }
}

/// Processes are counted line by line, and a line counts when it holds more than white space.
pub proof fn law_processes_are_counted_line_by_line(line: Seq<char>, rest: Seq<char>)
    requires
        !line.contains('\n'),
    ensures
        ({
            let one: nat = if exists|k: int|
                0 <= k < line.len() && !text::is_white(#[trigger] line[k]) {
                1
            } else {
                0
            };
            &&& process::filled_lines(line).len() == one
            &&& process::filled_lines(line + seq!['\n'] + rest).len() == one
                + process::filled_lines(rest).len()
        }),
{
    let keep = |l: Seq<char>| text::trimmed(l).len() > 0;
    let cut = if line.len() > 0 && line.last() == '\r' {
        line.drop_last()
    } else {
        line
    };
    text_laws::law_lines_line_by_line(line, rest);
    text_laws::law_white_characters('\r');
    lemma_filled(line);
    lemma_filled(cut);
    if exists|k: int| 0 <= k < line.len() && !text::is_white(#[trigger] line[k]) {
        let k = choose|k: int| 0 <= k < line.len() && !text::is_white(#[trigger] line[k]);
        assert(cut[k] == line[k]);
    }
    if exists|k: int| 0 <= k < cut.len() && !text::is_white(#[trigger] cut[k]) {
        let k = choose|k: int| 0 <= k < cut.len() && !text::is_white(#[trigger] cut[k]);
        assert(cut[k] == line[k]);
    }
    reveal(Seq::filter);
    let first = seq![cut];
    let whole = seq![line];
    assert(first.drop_last() =~= seq![]);
    assert(whole.drop_last() =~= seq![]);
    assert(first.drop_last().filter(keep).len() == 0);
    assert(first.filter(keep).len() == (if keep(cut) {
        1int
    } else {
        0
    }));
    assert(whole.filter(keep).len() == (if keep(line) {
        1int
    } else {
        0
    }));
    Seq::filter_distributes_over_add(first, text::lines_of(rest), keep);
}

} // verus!
