//! What can go wrong in a patch, and how it is reported.

use vstd::prelude::*;

verus! {

/// Why a command could not be carried out.
#[derive(Debug)]
pub enum PatchError {
    /// `cargo build` failed; the text describes its exit status.
    BuildFailed(String),
    /// The build succeeded without making the dylib at this path.
    DylibNotBuilt(String),
    /// The `insert-dylib` tool could not be installed.
    InstallFailed,
    /// The installation succeeded without making the tool at this path.
    ToolNotInstalled(String),
    /// The `insert-dylib` tool failed with this output.
    InsertFailed(String),
    /// `codesign` failed with this output.
    SignFailed(String),
    /// There is no application at this path.
    AppNotFound(String),
    /// The dylib of this name is not in the binary after it was injected.
    NotInjected(String),
    /// There is no backup at this path.
    NoBackup(String),
    /// There is no registry for the application of this identifier.
    NoRegistry(String),
    /// The registry lists no hook.
    EmptyRegistry,
    /// There is no dylib at the path that the command line names.
    DylibNotFound(String),
    /// There is no dylib at the default path, and none is to be built.
    NoExistingDylib(String),
    /// There is no command of this name.
    UnknownCommand(String),
    /// There is no `config` subcommand of this name.
    UnknownConfig(String),
    /// The arguments of `config set` are incomplete; the text says which there are.
    ConfigUsage(String),
}

impl PatchError {
    /// The message that the user sees.
    pub open spec fn text(self) -> Seq<char> {
        match self {
            PatchError::BuildFailed(status) => "cargo build failed with "@ + status@,
            PatchError::DylibNotBuilt(path) => "build succeeded but dylib not found at "@ + path@,
            PatchError::InstallFailed => "cargo install insert-dylib failed"@,
            PatchError::ToolNotInstalled(path) => "install succeeded but binary not found at "@
                + path@,
            PatchError::InsertFailed(stderr) => "insert-dylib failed: "@ + stderr@,
            PatchError::SignFailed(stderr) => "codesign failed: "@ + stderr@,
            PatchError::AppNotFound(path) => "target app not found: "@ + path@,
            PatchError::NotInjected(file) => "verification failed: "@ + file@
                + " not found in binary after injection"@,
            PatchError::NoBackup(path) => "no backup found at "@ + path@,
            PatchError::NoRegistry(app_id) => "no registry found for '"@ + app_id@
                + "' — run `cargo patch` first"@,
            PatchError::EmptyRegistry => "registry is empty — no hooks to verify"@,
            PatchError::DylibNotFound(path) => "specified dylib not found: "@ + path@,
            PatchError::NoExistingDylib(path) => "--no-build specified but dylib not found at "@
                + path@ + "\nRun `cargo build --release` first."@,
            PatchError::UnknownCommand(name) => "Unknown command: "@ + name@
                + "\nRun with --help for usage."@,
            PatchError::UnknownConfig(name) => "Unknown config subcommand: "@ + name@
                + "\n\nUsage: cargo patch config [show|set|reset|path]"@,
            PatchError::ConfigUsage(usage) => usage@,
        }
    }

    /// The message that the user sees.
    pub fn message(&self) -> (r: String)
        ensures
            r@ == self.text(),
    {
        match self {
            PatchError::BuildFailed(status) => around("cargo build failed with ", status, ""),
            PatchError::DylibNotBuilt(path) => around(
                "build succeeded but dylib not found at ",
                path,
                "",
            ),
            PatchError::InstallFailed => "cargo install insert-dylib failed".to_owned(),
            PatchError::ToolNotInstalled(path) => around(
                "install succeeded but binary not found at ",
                path,
                "",
            ),
            PatchError::InsertFailed(stderr) => around("insert-dylib failed: ", stderr, ""),
            PatchError::SignFailed(stderr) => around("codesign failed: ", stderr, ""),
            PatchError::AppNotFound(path) => around("target app not found: ", path, ""),
            PatchError::NotInjected(file) => around(
                "verification failed: ",
                file,
                " not found in binary after injection",
            ),
            PatchError::NoBackup(path) => around("no backup found at ", path, ""),
            PatchError::NoRegistry(app_id) => around(
                "no registry found for '",
                app_id,
                "' — run `cargo patch` first",
            ),
            PatchError::EmptyRegistry => "registry is empty — no hooks to verify".to_owned(),
            PatchError::DylibNotFound(path) => around("specified dylib not found: ", path, ""),
            PatchError::NoExistingDylib(path) => around(
                "--no-build specified but dylib not found at ",
                path,
                "\nRun `cargo build --release` first.",
            ),
            PatchError::UnknownCommand(name) => around(
                "Unknown command: ",
                name,
                "\nRun with --help for usage.",
            ),
            PatchError::UnknownConfig(name) => around(
                "Unknown config subcommand: ",
                name,
                "\n\nUsage: cargo patch config [show|set|reset|path]",
            ),
            PatchError::ConfigUsage(usage) => usage.clone(),
        }
    }
}

/// `middle` with `before` and `after` around it.
fn around(before: &str, middle: &String, after: &str) -> (r: String)
    ensures
        r@ == before@ + middle@ + after@,
        after@ == ""@ ==> r@ == before@ + middle@,
{
    let mut r = before.to_owned();
    r.append(middle.as_str());
    r.append(after);
    proof {
        reveal_strlit("");
        if after@ == ""@ {
            assert(r@ =~= before@ + middle@);
        }
    }
    r
}

} // verus!
