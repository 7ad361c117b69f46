//! Laws of the views: what a contract reads of a value is what its fields hold.

use crate::cli::{ConfigField, DylibSource, SourceView};
use crate::commands::CommandLine;
use crate::health::{HookVerifyResult, LogNote};
use crate::outside;
use crate::plan::{Action, ActionView, HookTarget};
use crate::process::{
    Ancestry, ExitStep, ExitView, QuitStep, QuitView, Walk, WalkView,
};
use crate::project::{HookProject, Patcher, TargetApp};
use crate::registry::{ArtifactInfo, HealthCheck, HookEntry, HookRegistry, HookedSymbol};
use vstd::prelude::*;

verus! {

/// `view` is what the optional text `s` holds.
pub open spec fn shows_text(view: Option<Seq<char>>, s: Option<String>) -> bool {
    match s {
        Some(s) => view == Some(s@),
        None => view is None,
    }
}

/// `view` is what the texts of `list` hold, one by one.
pub open spec fn shows_texts(view: Seq<Seq<char>>, list: Vec<String>) -> bool {
    &&& view.len() == list@.len()
    &&& forall|i: int| 0 <= i < view.len() ==> #[trigger] view[i] == list@[i]@
}

/// The view of a symbol shows every field.
pub proof fn law_symbol_view(s: HookedSymbol)
    ensures
        s@.symbol == s.symbol@,
        s@.method == s.method@,
        shows_text(s@.description, s.description),
{
}

/// The view of a health check shows every field.
pub proof fn law_check_view(c: HealthCheck)
    ensures
        c@.log_glob == c.log_glob@,
        shows_texts(c@.success_markers, c.success_markers),
        shows_texts(c@.failure_markers, c.failure_markers),
        c@.timeout_secs == c.timeout_secs,
{
}

/// The view of an artifact shows every field.
pub proof fn law_artifact_view(a: ArtifactInfo)
    ensures
        a@.sha256 == a.sha256@,
        a@.size == a.size,
        a@.patched_at == a.patched_at@,
        shows_text(a@.git_commit, a.git_commit),
{
}

/// The view of a hook shows every field, and every one of its symbols.
pub proof fn law_entry_view(e: HookEntry)
    ensures
        e@.name == e.name@,
        e@.dylib_path == e.dylib_path@,
        shows_text(e@.version, e.version),
        shows_texts(e@.features, e.features),
        e@.hooked_symbols.len() == e.hooked_symbols@.len(),
        forall|i: int|
            0 <= i < e@.hooked_symbols.len() ==> #[trigger] e@.hooked_symbols[i]
                == e.hooked_symbols@[i]@,
        e@.load_order == e.load_order,
        shows_text(e@.installed_at, e.installed_at),
        shows_text(e@.log_path, e.log_path),
        match e.health_check {
            Some(c) => e@.health_check == Some(c@),
            None => e@.health_check is None,
        },
        match e.artifact {
            Some(a) => e@.artifact == Some(a@),
            None => e@.artifact is None,
        },
        e@.extra == outside::members(e.extra),
{
}

/// The view of a registry shows every field, and every one of its hooks in its place.
pub proof fn law_registry_view(r: HookRegistry)
    ensures
        r@.schema_version == r.schema_version,
        shows_text(r@.app_id, r.app_id),
        shows_text(r@.host_app, r.host_app),
        shows_text(r@.last_patched, r.last_patched),
        r@.hooks.len() == r.hooks@.len(),
        forall|i: int| 0 <= i < r@.hooks.len() ==> #[trigger] r@.hooks[i] == r.hooks@[i]@,
{
}

/// The views of a project, a target and a patcher show every field.
pub proof fn law_patcher_view(p: Patcher, project: HookProject, target: TargetApp)
    ensures
        p@.project == p.project@,
        p@.target == p.target@,
        p@.project_root == p.project_root@,
        project@.name == project.name@,
        project@.dylib_filename == project.dylib_filename@,
        shows_text(project@.crate_name, project.crate_name),
        match project.registry_entry {
            Some(e) => project@.registry_entry == Some(e@),
            None => project@.registry_entry is None,
        },
        target@.app_path == target.app_path@,
        target@.binary_rel_path == target.binary_rel_path@,
        target@.app_id == target.app_id@,
{
}

/// The views of a command line and of a field of a configuration show every field.
pub proof fn law_command_view(c: CommandLine, f: ConfigField)
    ensures
        c@.program == c.program@,
        shows_texts(c@.args, c.args),
        f.deep_view().key == f.key@,
        shows_texts(f.deep_view().values, f.values),
{
}

/// The views of a target of an injection and of an action show which it is and what it holds.
pub proof fn law_action_view(t: HookTarget, a: Action)
    ensures
        t@.name == t.name@,
        t@.path == t.path@,
        match a {
            Action::CreateBackup => a.deep_view() is CreateBackup,
            Action::RestoreBackup => a.deep_view() is RestoreBackup,
            Action::Inject(t) => a.deep_view() == ActionView::Inject(t@),
            Action::Sign => a.deep_view() is Sign,
            Action::VerifyInjected => a.deep_view() is VerifyInjected,
            Action::UpdateRegistry => a.deep_view() is UpdateRegistry,
            Action::Unregister => a.deep_view() is Unregister,
            Action::ClearRegistry => a.deep_view() is ClearRegistry,
        },
{
}

/// The views of a hook's outcome and of a noted size show every field.
pub proof fn law_outcome_view(r: HookVerifyResult, n: LogNote)
    ensures
        r@.name == r.name@,
        r@.passed == r.passed,
        shows_text(r@.error, r.error),
        n.deep_view().name == n.name@,
        n.deep_view().size == n.size,
{
}

/// The views of the steps of a walk, a quit and a wait show which step it is and what it holds.
pub proof fn law_step_view(at: Ancestry, w: Walk, q: QuitStep, e: ExitStep)
    ensures
        at@.pid == at.pid@,
        at@.left == at.left,
        match w {
            Walk::Inside => w@ is Inside,
            Walk::Outside => w@ is Outside,
            Walk::Up(next) => w@ == WalkView::Up(next@),
        },
        match q {
            QuitStep::NotRunning => q@ is NotRunning,
            QuitStep::Ask { command, pause_millis } => q@ == (QuitView::Ask {
                command: command@,
                pause_millis,
            }),
            QuitStep::Wait { pause_millis } => q@ == (QuitView::Wait { pause_millis }),
            QuitStep::Stopped => q@ is Stopped,
            QuitStep::Kill { command, pause_millis } => q@ == (QuitView::Kill {
                command: command@,
                pause_millis,
            }),
        },
        match e {
            ExitStep::Check { command, pause_millis } => e@ == (ExitView::Check {
                command: command@,
                pause_millis,
            }),
            ExitStep::GiveUp { pause_millis } => e@ == (ExitView::GiveUp { pause_millis }),
            ExitStep::Done => e@ is Done,
        },
{
}

/// The view of the source of a dylib shows which it is and the path.
pub proof fn law_source_view(s: DylibSource)
    ensures
        match s {
            DylibSource::Explicit(p) => s@ == SourceView::Explicit(p@),
            DylibSource::Existing(p) => s@ == SourceView::Existing(p@),
            DylibSource::Build => s@ is Build,
        },
{
}

} // verus!
