//! What the external programs report: which dylibs are in a binary, and whether a step succeeded.

use crate::commands::CommandLine;
use crate::error::PatchError;
use crate::outside;
use crate::project::Patcher;
use crate::text;
use vstd::prelude::*;

verus! {

/// A line of `otool -L` that lists a dylib which was added and does not belong to the system.
pub open spec fn is_custom(line: Seq<char>) -> bool {
    &&& text::contains_text(line, "(weak)"@) || text::contains_text(line, "LC_LOAD_WEAK_DYLIB"@)
    &&& !text::contains_text(line, "/System/"@)
    &&& !text::contains_text(line, "/usr/"@)
}

/// The dylib that a line of `otool -L` lists: what stands before the first ` (`.
pub open spec fn dylib_of(line: Seq<char>) -> Seq<char> {
    let t = text::trimmed(line);
    match text::first_occurrence(t, " ("@, 0) {
        Some(i) => t.take(i),
        None => t,
    }
}

/// The added dylibs that the output of `otool -L` lists.
pub open spec fn custom_dylibs_of(output: Seq<char>) -> Seq<Seq<char>> {
    text::lines_of(output).filter(|l: Seq<char>| is_custom(l)).map_values(
        |l: Seq<char>| dylib_of(l),
    )
}

/// Whether a line lists a dylib that was added.
fn custom(line: &str) -> (r: bool)
    ensures
        r == is_custom(line@),
{
    (text::contains(line, "(weak)") || text::contains(line, "LC_LOAD_WEAK_DYLIB"))
        && !text::contains(line, "/System/") && !text::contains(line, "/usr/")
}

/// The dylib that a line lists.
fn dylib_in(line: &str) -> (r: String)
    ensures
        r@ == dylib_of(line@),
{
    let t = text::trim(line);
    let c = text::chars_of(t.as_str());
    let p = text::chars_of(" (");
    match text::find_chars(&c, &p, 0) {
        Some(i) => {
            assert(t@.subrange(0, i as int) =~= t@.take(i as int));
            text::part_of(t.as_str(), 0, i)
        },
        None => t,
    }
}

/// The added dylibs that the output of `otool -L` lists.
pub fn custom_dylibs(output: &str) -> (r: Vec<String>)
    ensures
        r.deep_view() == custom_dylibs_of(output@),
{
    let lines = text::lines(output);
    let ghost all = lines.deep_view();
    let ghost keep = |l: Seq<char>| is_custom(l);
    let ghost name = |l: Seq<char>| dylib_of(l);
    let mut r: Vec<String> = Vec::new();
    let mut i: usize = 0;
    proof {
        reveal(Seq::filter);
        assert(all.take(0).filter(keep) =~= seq![]);
        assert(r.deep_view() =~= all.take(0).filter(keep).map_values(name));
    }
    while i < lines.len()
        invariant
            all == lines.deep_view(),
            keep == (|l: Seq<char>| is_custom(l)),
            name == (|l: Seq<char>| dylib_of(l)),
            i <= lines@.len(),
            r.deep_view() == all.take(i as int).filter(keep).map_values(name),
        decreases lines@.len() - i,
    {
        let ghost before = r.deep_view();
        proof {
            text::lemma_filter_step(all, i as int, keep);
            assert(all[i as int] == lines@[i as int]@);
        }
        if custom(lines[i].as_str()) {
            let d = dylib_in(lines[i].as_str());
            r.push(d);
            proof {
                assert(r.deep_view() =~= before.push(d@));
                assert(all.take(i + 1).filter(keep).map_values(name) =~= before.push(d@));
            }
        }
        i += 1;
    }
    assert(all.take(all.len() as int) =~= all);
    r
}

impl Patcher {
    /// Whether the hook's dylib is listed in `otool_output`, what `otool -L` printed for the target
    /// binary.
    pub fn is_injected(&self, otool_output: &[u8]) -> (r: bool)
        ensures
            r == text::contains_text(
                outside::lossy_text_of(otool_output@),
                self@.project.dylib_filename,
            ),
    {
        let output = outside::lossy_text(otool_output);
        text::contains(output.as_str(), self.project.dylib_filename.as_str())
    }

    /// The added dylibs listed in `otool_output`, what `otool -L` printed for the target binary.
    pub fn list_injected(&self, otool_output: &[u8]) -> (r: Vec<String>)
        ensures
            r.deep_view() == custom_dylibs_of(outside::lossy_text_of(otool_output@)),
    {
        let output = outside::lossy_text(otool_output);
        custom_dylibs(output.as_str())
    }

    /// Whether the hook is present in the binary.
    pub fn verify(&self, otool_output: &[u8]) -> (r: bool)
        ensures
            r == text::contains_text(
                outside::lossy_text_of(otool_output@),
                self@.project.dylib_filename,
            ),
    {
        self.is_injected(otool_output)
    }

    /// The dylib that a build made: `success` and `status` tell how cargo ended, `dylib_exists`
    /// whether there is a file at the default dylib path.
    pub fn build(&self, success: bool, status: &str, dylib_exists: bool) -> (r: Result<
        String,
        PatchError,
    >)
        ensures
            match r {
                Ok(p) => success && dylib_exists && p@ == self@.default_dylib_path(),
                Err(PatchError::BuildFailed(s)) => !success && s@ == status@,
                Err(PatchError::DylibNotBuilt(p)) => success && !dylib_exists && p@
                    == self@.default_dylib_path(),
                Err(_) => false,
            },
    {
        let dylib = self.default_dylib_path();
        if !success {
            Err(PatchError::BuildFailed(status.to_owned()))
        } else if !dylib_exists {
            Err(PatchError::DylibNotBuilt(dylib))
        } else {
            Ok(dylib)
        }
    }

    /// What is needed to have the `insert-dylib` tool: nothing but its path when it is there, else
    /// an installation.
    pub fn ensure_insert_dylib(&self, tool_exists: bool) -> (r: ToolStep)
        ensures
            match r {
                ToolStep::Ready(p) => tool_exists && p@ == self@.insert_dylib_path(),
                ToolStep::Install(c) => !tool_exists && c@ == crate::commands::command(
                    "cargo"@,
                    seq!["install"@, "insert-dylib"@, "--root"@, self@.tools_root()],
                ),
            },
    {
        if tool_exists {
            ToolStep::Ready(self.insert_dylib_path())
        } else {
            ToolStep::Install(self.install_command())
        }
    }

    /// The `insert-dylib` tool after its installation: `success` tells how cargo ended,
    /// `tool_exists` whether the tool is there now.
    pub fn insert_dylib_installed(&self, success: bool, tool_exists: bool) -> (r: Result<
        String,
        PatchError,
    >)
        ensures
            match r {
                Ok(p) => success && tool_exists && p@ == self@.insert_dylib_path(),
                Err(PatchError::InstallFailed) => !success,
                Err(PatchError::ToolNotInstalled(p)) => success && !tool_exists && p@
                    == self@.insert_dylib_path(),
                Err(_) => false,
            },
    {
        let tool = self.insert_dylib_path();
        if !success {
            Err(PatchError::InstallFailed)
        } else if !tool_exists {
            Err(PatchError::ToolNotInstalled(tool))
        } else {
            Ok(tool)
        }
    }

    /// How an injection ended: `success` and `stderr` are what the `insert-dylib` tool left.
    pub fn inject(&self, success: bool, stderr: &[u8]) -> (r: Result<(), PatchError>)
        ensures
            match r {
                Ok(_) => success,
                Err(PatchError::InsertFailed(e)) => !success && e@ == outside::lossy_text_of(
                    stderr@,
                ),
                Err(_) => false,
            },
    {
        if success {
            Ok(())
        } else {
            Err(PatchError::InsertFailed(outside::lossy_text(stderr)))
        }
    }

    /// How signing ended: `success` and `stderr` are what `codesign` left.
    pub fn codesign(&self, success: bool, stderr: &[u8]) -> (r: Result<(), PatchError>)
        ensures
            match r {
                Ok(_) => success,
                Err(PatchError::SignFailed(e)) => !success && e@ == outside::lossy_text_of(
                    stderr@,
                ),
                Err(_) => false,
            },
    {
        if success {
            Ok(())
        } else {
            Err(PatchError::SignFailed(outside::lossy_text(stderr)))
        }
    }

    /// How the check after an injection ended: the hook has to be listed in `otool_output`.
    pub fn verify_injected(&self, otool_output: &[u8]) -> (r: Result<(), PatchError>)
        ensures
            ({
                let there = text::contains_text(
                    outside::lossy_text_of(otool_output@),
                    self@.project.dylib_filename,
                );
                match r {
                    Ok(_) => there,
                    Err(PatchError::NotInjected(f)) => !there && f@ == self@.project.dylib_filename,
                    Err(_) => false,
                }
            }),
    {
        if self.verify(otool_output) {
            Ok(())
        } else {
            Err(PatchError::NotInjected(self.project.dylib_filename.clone()))
        }
    }
}

/// What is needed to have a tool.
pub enum ToolStep {
    /// The tool is at this path.
    Ready(String),
    /// This command has to install it.
    Install(CommandLine),
}

} // verus!
