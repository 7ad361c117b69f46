//! A hook project, the application that it targets, and the patcher that brings the two together.

use crate::path;
use crate::registry::{self, HookEntry};
use crate::text;
use vstd::prelude::*;

verus! {

/// Configuration of a hook project.
#[derive(Debug)]
pub struct HookProject {
    /// Human-readable hook name (e.g., "zed-yolo-hook").
    pub name: String,
    /// Dylib file name (e.g., "libzed_yolo_hook.dylib").
    pub dylib_filename: String,
    /// Cargo crate to build; the hook's name when not set.
    pub crate_name: Option<String>,
    /// Template of the hook's registry entry.
    pub registry_entry: Option<HookEntry>,
}

/// What a [`HookProject`] holds.
#[verifier::ext_equal]
pub struct ProjectView {
    pub name: Seq<char>,
    pub dylib_filename: Seq<char>,
    pub crate_name: Option<Seq<char>>,
    pub registry_entry: Option<registry::EntryView>,
}

impl View for HookProject {
    type V = ProjectView;

    open spec fn view(&self) -> ProjectView {
        ProjectView {
            name: self.name@,
            dylib_filename: self.dylib_filename@,
            crate_name: self.crate_name.deep_view(),
            registry_entry: self.registry_entry.deep_view(),
        }
    }
}

impl Clone for HookProject {
    fn clone(&self) -> (r: Self)
        ensures
            r@ == self@,
    {
        HookProject {
            name: self.name.clone(),
            dylib_filename: self.dylib_filename.clone(),
            crate_name: registry::copy_option(&self.crate_name),
            registry_entry: match &self.registry_entry {
                Some(e) => Some(e.clone()),
                None => None,
            },
        }
    }
}

impl ProjectView {
    /// The crate that is built.
    pub open spec fn effective_crate_name(self) -> Seq<char> {
        match self.crate_name {
            Some(c) => c,
            None => self.name,
        }
    }
}

impl HookProject {
    /// Creates a project with a name and a dylib file name.
    pub fn new(name: &str, dylib_filename: &str) -> (r: Self)
        ensures
            r@ == (ProjectView {
                name: name@,
                dylib_filename: dylib_filename@,
                crate_name: None,
                registry_entry: None,
            }),
    {
        HookProject {
            name: name.to_owned(),
            dylib_filename: dylib_filename.to_owned(),
            crate_name: None,
            registry_entry: None,
        }
    }

    /// Sets the crate to build.
    pub fn with_crate_name(self, name: &str) -> (r: Self)
        ensures
            r@ == (ProjectView { crate_name: Some(name@), ..self@ }),
    {
        let mut r = self;
        r.crate_name = Some(name.to_owned());
        r
    }

    /// Sets the template of the registry entry.
    pub fn with_registry_entry(self, entry: HookEntry) -> (r: Self)
        ensures
            r@ == (ProjectView { registry_entry: Some(entry@), ..self@ }),
    {
        let mut r = self;
        r.registry_entry = Some(entry);
        r
    }

    /// The crate that is built: the one that was set, or else the hook's name.
    pub fn effective_crate_name(&self) -> (r: &str)
        ensures
            r@ == self@.effective_crate_name(),
    {
        match &self.crate_name {
            Some(c) => c.as_str(),
            None => self.name.as_str(),
        }
    }
}

/// The application that is patched.
#[derive(Debug)]
pub struct TargetApp {
    /// Path to the `.app` bundle.
    pub app_path: String,
    /// Path of the binary within the bundle.
    pub binary_rel_path: String,
    /// Identifier of the application in the hook registry.
    pub app_id: String,
}

/// What a [`TargetApp`] holds.
#[verifier::ext_equal]
pub struct TargetView {
    pub app_path: Seq<char>,
    pub binary_rel_path: Seq<char>,
    pub app_id: Seq<char>,
}

impl View for TargetApp {
    type V = TargetView;

    open spec fn view(&self) -> TargetView {
        TargetView {
            app_path: self.app_path@,
            binary_rel_path: self.binary_rel_path@,
            app_id: self.app_id@,
        }
    }
}

impl Clone for TargetApp {
    fn clone(&self) -> (r: Self)
        ensures
            r@ == self@,
    {
        TargetApp {
            app_path: self.app_path.clone(),
            binary_rel_path: self.binary_rel_path.clone(),
            app_id: self.app_id.clone(),
        }
    }
}

/// What [`TargetApp::zed_preview`] holds.
pub open spec fn zed_preview_view() -> TargetView {
    TargetView {
        app_path: "/Applications/Zed Preview.app"@,
        binary_rel_path: "Contents/MacOS/zed"@,
        app_id: "zed-preview"@,
    }
}

/// What [`TargetApp::zed_stable`] holds.
pub open spec fn zed_stable_view() -> TargetView {
    TargetView {
        app_path: "/Applications/Zed.app"@,
        binary_rel_path: "Contents/MacOS/zed"@,
        app_id: "zed-stable"@,
    }
}

/// The argument behind the first `flag` that has one, from position `from` on.
pub open spec fn arg_value_from(args: Seq<Seq<char>>, flag: Seq<char>, from: int) -> Option<
    Seq<char>,
>
    decreases args.len() - from,
{
    if from < 0 || from + 1 >= args.len() {
        None
    } else if args[from] == flag {
        Some(args[from + 1])
    } else {
        arg_value_from(args, flag, from + 1)
    }
}

/// The target that the arguments name: `--stable` comes first, then the path behind `--app`.
pub open spec fn target_from(args: Seq<Seq<char>>) -> TargetView {
    if args.contains("--stable"@) {
        zed_stable_view()
    } else {
        match arg_value_from(args, "--app"@, 0) {
            Some(p) => TargetView {
                app_path: p,
                binary_rel_path: "Contents/MacOS/zed"@,
                app_id: "custom"@,
            },
            None => zed_preview_view(),
        }
    }
}

/// The argument behind the first `flag` that has one.
pub fn get_arg_value(args: &[String], flag: &str) -> (r: Option<String>)
    ensures
        r.deep_view() == arg_value_from(args.deep_view(), flag@, 0),
{
    let ghost all = args.deep_view();
    let n: usize = args.len();
    let mut i: usize = 0;
    while i < n
        invariant
            all == args.deep_view(),
            i <= n == args@.len(),
            arg_value_from(all, flag@, 0) == arg_value_from(all, flag@, i as int),
        decreases n - i,
    {
        if i == n - 1 {
            return None;
        }
        assert(all[i as int] == args@[i as int]@);
        assert(all[i + 1] == args@[i + 1]@);
        if text::text_eq(args[i].as_str(), flag) {
            return Some(args[i + 1].clone());
        }
        i += 1;
    }
    None
}

impl TargetView {
    /// The binary within the bundle.
    pub open spec fn binary_path(self) -> Seq<char> {
        path::joined(self.app_path, self.binary_rel_path)
    }

    /// Where the unpatched binary is kept.
    pub open spec fn backup_path(self) -> Seq<char> {
        self.binary_path() + ".original"@
    }

    /// The directory of the binary.
    pub open spec fn logs_dir(self) -> Seq<char> {
        match path::parent_of(self.binary_path()) {
            Some(dir) => dir,
            None => "/tmp"@,
        }
    }

    /// The name of the application: the bundle's name without its extension.
    pub open spec fn app_name(self) -> Seq<char> {
        match path::file_stem_of(self.app_path) {
            Some(s) => s,
            None => seq![],
        }
    }

    /// The file name of the binary.
    pub open spec fn binary_name(self) -> Seq<char> {
        match path::file_name_of(self.binary_path()) {
            Some(s) => s,
            None => seq![],
        }
    }
}

impl TargetApp {
    /// Creates a target.
    pub fn new(app_path: &str, binary_rel: &str, app_id: &str) -> (r: Self)
        ensures
            r@ == (TargetView {
                app_path: app_path@,
                binary_rel_path: binary_rel@,
                app_id: app_id@,
            }),
    {
        TargetApp {
            app_path: app_path.to_owned(),
            binary_rel_path: binary_rel.to_owned(),
            app_id: app_id.to_owned(),
        }
    }

    /// Zed's preview release.
    pub fn zed_preview() -> (r: Self)
        ensures
            r@ == zed_preview_view(),
    {
        TargetApp::new("/Applications/Zed Preview.app", "Contents/MacOS/zed", "zed-preview")
    }

    /// Zed's stable release.
    pub fn zed_stable() -> (r: Self)
        ensures
            r@ == zed_stable_view(),
    {
        TargetApp::new("/Applications/Zed.app", "Contents/MacOS/zed", "zed-stable")
    }

    /// The target that command line arguments name.
    pub fn from_args(args: &[String]) -> (r: Self)
        ensures
            r@ == target_from(args.deep_view()),
    {
        if text::holds(args, "--stable") {
            TargetApp::zed_stable()
        } else {
            match get_arg_value(args, "--app") {
                Some(p) => TargetApp::new(p.as_str(), "Contents/MacOS/zed", "custom"),
                None => TargetApp::zed_preview(),
            }
        }
    }

    /// The binary within the bundle.
    pub fn binary_path(&self) -> (r: String)
        ensures
            r@ == self@.binary_path(),
    {
        path::join(self.app_path.as_str(), self.binary_rel_path.as_str())
    }

    /// Where the unpatched binary is kept: beside the binary, with `.original` behind its name.
    pub fn backup_path(&self) -> (r: String)
        ensures
            r@ == self@.backup_path(),
    {
        let mut r = self.binary_path();
        r.append(".original");
        r
    }

    /// The directory for patch logs: the one that holds the binary.
    pub fn logs_dir(&self) -> (r: String)
        ensures
            r@ == self@.logs_dir(),
    {
        let bin = self.binary_path();
        match path::parent(bin.as_str()) {
            Some(dir) => dir,
            None => "/tmp".to_owned(),
        }
    }

    /// The name of the application: the bundle's name without its extension.
    pub fn app_name(&self) -> (r: String)
        ensures
            r@ == self@.app_name(),
    {
        match path::file_stem(self.app_path.as_str()) {
            Some(s) => s,
            None => empty_text(),
        }
    }

    /// The file name of the binary.
    pub fn binary_name(&self) -> (r: String)
        ensures
            r@ == self@.binary_name(),
    {
        let bin = self.binary_path();
        match path::file_name(bin.as_str()) {
            Some(s) => s,
            None => empty_text(),
        }
    }
}

/// The empty text.
pub(crate) fn empty_text() -> (r: String)
    ensures
        r@ == Seq::<char>::empty(),
{
    String::new()
}

/// A project, its target, and the directory in which the project is built.
#[derive(Debug)]
pub struct Patcher {
    pub project: HookProject,
    pub target: TargetApp,
    pub project_root: String,
}

/// What a [`Patcher`] holds.
#[verifier::ext_equal]
pub struct PatcherView {
    pub project: ProjectView,
    pub target: TargetView,
    pub project_root: Seq<char>,
}

impl View for Patcher {
    type V = PatcherView;

    open spec fn view(&self) -> PatcherView {
        PatcherView {
            project: self.project@,
            target: self.target@,
            project_root: self.project_root@,
        }
    }
}

impl PatcherView {
    /// Where cargo puts the dylib.
    pub open spec fn default_dylib_path(self) -> Seq<char> {
        path::joined(
            path::joined(self.project_root, "target/release"@),
            self.project.dylib_filename,
        )
    }
}

impl Patcher {
    /// Creates a patcher.
    pub fn new(project: HookProject, target: TargetApp, project_root: String) -> (r: Self)
        ensures
            r.project == project,
            r.target == target,
            r.project_root == project_root,
    {
        Patcher { project, target, project_root }
    }

    /// Where cargo puts the dylib: `{project_root}/target/release/{dylib_filename}`.
    pub fn default_dylib_path(&self) -> (r: String)
        ensures
            r@ == self@.default_dylib_path(),
    {
        let dir = path::join(self.project_root.as_str(), "target/release");
        path::join(dir.as_str(), self.project.dylib_filename.as_str())
    }
}

} // verus!
