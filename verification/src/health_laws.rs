//! Laws of health checks: what makes a hook pass, and which part of its log counts.

use crate::cli::{self, CliStep, CliView};
use crate::health::{self, CheckEnd, HookLog, LogReading};
use crate::plan;
use crate::project::PatcherView;
use crate::registry::{self, CheckView, EntryView};
use crate::registry_laws;
use crate::text;
use vstd::prelude::*;

verus! {

/// The first marker that stands in the content is one of the list, and no earlier one does; there is
/// none exactly when no marker stands there.
pub proof fn lemma_first_present(content: Seq<char>, markers: Seq<Seq<char>>, from: int)
    requires
        0 <= from <= markers.len(),
    ensures
        match health::first_present(content, markers, from) {
            Some(m) => exists|i: int|
                {
                    &&& from <= i < markers.len()
                    &&& #[trigger] markers[i] == m
                    &&& text::contains_text(content, m)
                    &&& forall|j: int|
                        from <= j < i ==> !text::contains_text(content, #[trigger] markers[j])
                },
            None => forall|j: int|
                from <= j < markers.len() ==> !text::contains_text(content, #[trigger] markers[j]),
        },
    decreases markers.len() - from,
{
    if from < markers.len() {
        if !text::contains_text(content, markers[from]) {
            lemma_first_present(content, markers, from + 1);
        } else {
            assert(markers[from] == health::first_present(content, markers, from)->0);
        }
    }
}

/// The first markers of a list that is in order are in order.
proof fn lemma_in_order_take(content: Seq<char>, markers: Seq<Seq<char>>, n: int)
    requires
        0 <= n <= markers.len(),
        health::in_order(content, markers),
    ensures
        health::in_order(content, markers.take(n)),
{
    let at = choose|at: Seq<int>| health::placed(content, markers, at);
    let some = markers.take(n);
    assert(forall|i: int| 0 <= i < n ==> some[i] == markers[i] && at.take(n)[i] == at[i]);
    assert(health::placed(content, some, at.take(n)));
}

/// A marker is missing when the list up to it is out of order, and the list before it is not; none
/// is missing exactly when the whole list is in order.
pub proof fn lemma_first_missing(content: Seq<char>, markers: Seq<Seq<char>>, from: int)
    requires
        0 <= from <= markers.len(),
        health::in_order(content, markers.take(from)),
    ensures
        match health::first_missing(content, markers, from) {
            Some(m) => exists|i: int|
                {
                    &&& from <= i < markers.len()
                    &&& #[trigger] markers[i] == m
                    &&& health::in_order(content, markers.take(i))
                    &&& !health::in_order(content, markers.take(i + 1))
                },
            None => health::in_order(content, markers),
        },
        health::first_missing(content, markers, from) is None == health::in_order(content, markers),
    decreases markers.len() - from,
{
    if from == markers.len() {
        assert(markers.take(from) =~= markers);
    } else if health::in_order(content, markers.take(from + 1)) {
        lemma_first_missing(content, markers, from + 1);
    } else {
        assert(markers[from] == health::first_missing(content, markers, from)->0);
        if health::in_order(content, markers) {
            lemma_in_order_take(content, markers, from + 1);
        }
    }
}

pub proof fn lemma_none_in_order(content: Seq<char>, markers: Seq<Seq<char>>)
    ensures
        health::in_order(content, markers.take(0)),
{
    assert(health::placed(content, markers.take(0), seq![]));
}

/// A hook passes exactly when its new log content holds no failure marker and every success marker,
/// earlier ones before later ones.
pub proof fn law_hook_passes_exactly_on_its_markers(content: Seq<char>, check: CheckView)
    ensures
        health::is_pass(health::marker_check(content, check)) == {
            &&& forall|i: int|
                0 <= i < check.failure_markers.len() ==> !text::contains_text(
                    content,
                    #[trigger] check.failure_markers[i],
                )
            &&& health::in_order(content, check.success_markers)
        },
{
    lemma_first_present(content, check.failure_markers, 0);
    lemma_none_in_order(content, check.success_markers);
    lemma_first_missing(content, check.success_markers, 0);
}

/// A hook that passes has every success marker in its new log content.
pub proof fn law_passing_hook_has_every_success_marker(
    content: Seq<char>,
    check: CheckView,
    i: int,
)
    requires
        health::is_pass(health::marker_check(content, check)),
        0 <= i < check.success_markers.len(),
    ensures
        text::contains_text(content, check.success_markers[i]),
{
    law_hook_passes_exactly_on_its_markers(content, check);
    let at = choose|at: Seq<int>| health::placed(content, check.success_markers, at);
    assert(text::occurs_at(content, check.success_markers[i], at[i]));
}

/// The success marker that is reported is the first with which the markers are no longer in order.
pub proof fn law_missing_marker_is_the_first(content: Seq<char>, check: CheckView)
    requires
        health::marker_check(content, check) is MissingMarker,
    ensures
        exists|i: int|
            {
                &&& 0 <= i < check.success_markers.len()
                &&& health::marker_check(content, check) == CheckEnd::MissingMarker(
                    #[trigger] check.success_markers[i],
                )
                &&& health::in_order(content, check.success_markers.take(i))
                &&& !health::in_order(content, check.success_markers.take(i + 1))
            },
{
    lemma_none_in_order(content, check.success_markers);
    lemma_first_missing(content, check.success_markers, 0);
}

/// A failure marker in the new log content fails the hook, whatever else stands there; the one that
/// is reported is the first of the list.
pub proof fn law_failure_markers_come_first(content: Seq<char>, check: CheckView, i: int)
    requires
        0 <= i < check.failure_markers.len(),
        text::contains_text(content, check.failure_markers[i]),
    ensures
        health::marker_check(content, check) matches CheckEnd::FailureMarker(m) && exists|k: int|
            {
                &&& 0 <= k <= i
                &&& #[trigger] check.failure_markers[k] == m
                &&& forall|j: int|
                    0 <= j < k ==> !text::contains_text(
                        content,
                        #[trigger] check.failure_markers[j],
                    )
            },
{
    lemma_first_present(content, check.failure_markers, 0);
    let m = health::first_present(content, check.failure_markers, 0)->0;
    let k = choose|k: int|
        {
            &&& 0 <= k < check.failure_markers.len()
            &&& #[trigger] check.failure_markers[k] == m
            &&& text::contains_text(content, m)
            &&& forall|j: int|
                0 <= j < k ==> !text::contains_text(content, #[trigger] check.failure_markers[j])
        };
    assert(k <= i);
}

/// A hook without a health check passes, whatever its log.
pub proof fn law_no_health_check_passes(hook: EntryView, reading: LogReading)
    requires
        hook.health_check is None,
    ensures
        health::result_of(hook, reading).passed,
        health::result_of(hook, reading).error is None,
{
}

/// A hook whose log is missing or cannot be read does not pass, and the reason is reported.
pub proof fn law_missing_log_fails(hook: EntryView, reading: LogReading)
    requires
        hook.health_check is Some,
        !(reading.log is Content),
    ensures
        !health::result_of(hook, reading).passed,
        health::result_of(hook, reading).error is Some,
{
}

/// The encoding of two texts one after the other.
pub proof fn lemma_encode_concat(a: Seq<char>, b: Seq<char>)
    ensures
        vstd::utf8::encode_utf8(a + b) == vstd::utf8::encode_utf8(a) + vstd::utf8::encode_utf8(b),
    decreases a.len(),
{
    if a.len() == 0 {
        assert(a + b =~= b);
        assert(vstd::utf8::encode_utf8(a) + vstd::utf8::encode_utf8(b)
            =~= vstd::utf8::encode_utf8(b));
    } else {
        lemma_encode_concat(a.drop_first(), b);
        assert((a + b).drop_first() =~= a.drop_first() + b);
        assert((a + b)[0] == a[0]);
        assert(vstd::utf8::encode_utf8(a + b) =~= vstd::utf8::encode_utf8(a)
            + vstd::utf8::encode_utf8(b));
    }
}

/// The encoding of the first of two texts ends between two characters.
pub proof fn lemma_boundary(a: Seq<char>, b: Seq<char>)
    ensures
        vstd::utf8::is_char_boundary(
            vstd::utf8::encode_utf8(a + b),
            vstd::utf8::encode_utf8(a).len() as int,
        ),
    decreases a.len(),
{
    let all = a + b;
    let bytes = vstd::utf8::encode_utf8(all);
    vstd::utf8::encode_utf8_valid_utf8(all);
    if a.len() > 0 {
        lemma_boundary(a.drop_first(), b);
        lemma_encode_concat(a, b);
        assert(all.drop_first() =~= a.drop_first() + b);
        assert(all[0] == a[0]);
        vstd::utf8::encode_utf8_first_scalar(all);
        let n = vstd::utf8::encode_scalar(all[0] as u32).len();
        assert(vstd::utf8::pop_first_scalar(bytes) =~= vstd::utf8::encode_utf8(all.drop_first()));
        assert(vstd::utf8::encode_utf8(a).len() == n + vstd::utf8::encode_utf8(
            a.drop_first(),
        ).len());
    }
}

/// Only what was written after the launch counts: a log that held `old` before and has got `new`
/// since is judged by `new` alone.
pub proof fn law_only_new_log_content_counts(
    hook: EntryView,
    check: CheckView,
    reading: LogReading,
    old_log: Seq<char>,
    new_log: Seq<char>,
)
    requires
        hook.health_check == Some(check),
        reading.log matches HookLog::Content(content) && content@ == old_log + new_log,
        reading.baseline matches Some(n) && n == vstd::utf8::encode_utf8(old_log).len(),
    ensures
        reading.wf(),
        health::check_of(hook, reading) == health::marker_check(new_log, check),
{
    let before = vstd::utf8::encode_utf8(old_log);
    let bytes = vstd::utf8::encode_utf8(old_log + new_log);
    lemma_encode_concat(old_log, new_log);
    lemma_boundary(old_log, new_log);
    assert(bytes.skip(before.len() as int) =~= vstd::utf8::encode_utf8(new_log));
    vstd::utf8::encode_utf8_decode_utf8(new_log);
}

/// No hook is judged before its own timeout has passed.
pub proof fn law_timeout_covers_every_hook(hooks: Seq<EntryView>, secs: u32, i: int)
    requires
        health::is_timeout(hooks, secs),
        0 <= i < hooks.len(),
    ensures
        hooks[i].health_check matches Some(check) ==> check.timeout_secs <= secs,
{
    if let Some(check) = hooks[i].health_check {
        lemma_timeout_listed(hooks, i);
    }
}

pub proof fn lemma_timeout_listed(hooks: Seq<EntryView>, i: int)
    requires
        0 <= i < hooks.len(),
        hooks[i].health_check is Some,
    ensures
        health::timeouts_of(hooks).contains(hooks[i].health_check->0.timeout_secs),
    decreases hooks.len(),
{
    let all = health::timeouts_of(hooks);
    let before = health::timeouts_of(hooks.drop_last());
    let secs = hooks[i].health_check->0.timeout_secs;
    if i < hooks.len() - 1 {
        lemma_timeout_listed(hooks.drop_last(), i);
        let k = choose|k: int| 0 <= k < before.len() && before[k] == secs;
        assert(all[k] == secs);
    } else {
        assert(all[before.len() as int] == secs);
    }
}

/// Every hook that has a health check after a patch was watched before: its log is noted under its
/// name and by the pattern that it is checked by.
pub proof fn law_patched_hooks_are_watched(
    patcher: PatcherView,
    loaded: Option<registry::RegistryView>,
    dylib: Seq<char>,
    patched_at: Seq<char>,
    installed_at: Seq<char>,
    artifact: registry::ArtifactView,
    name: Seq<char>,
)
    ensures
        ({
            let reg = patcher.updated_registry(loaded, dylib, patched_at, installed_at, artifact);
            registry::found(reg.hooks, name) matches Some(e) ==> e.health_check is Some ==> (
            registry::found(patcher.watched(loaded), name) matches Some(w) && w.health_check
                == e.health_check)
        }),
{
    let hooks = plan::loaded_or_empty(loaded).hooks;
    let entry = patcher.registered_entry(dylib, installed_at, artifact);
    registry_laws::law_register_then_find(hooks, entry);
    if name != entry.name {
        registry_laws::law_register_keeps_others(hooks, entry, name);
    }
    if let Some(template) = patcher.project.registry_entry {
        registry_laws::law_register_then_find(hooks, template);
        if name != template.name {
            registry_laws::law_register_keeps_others(hooks, template, name);
        }
    }
}

/// Whatever the command, hooks are checked only against sizes of logs that were noted before, in a
/// step of their own or in the course of a patch, and no launch comes before the sizes are noted.
pub proof fn law_hooks_are_checked_against_noted_logs(command: CliView)
    ensures
        ({
            let steps = cli::steps_of(command);
            forall|c: int|
                0 <= c < steps.len() && #[trigger] steps[c] == CliStep::CheckHooks
                    ==> notes_first(steps, c)
        }),
{
    let steps = cli::steps_of(command);
    assert forall|c: int|
        0 <= c < steps.len() && #[trigger] steps[c] == CliStep::CheckHooks implies notes_first(
        steps,
        c,
    ) by {
        if command is Verify {
            assert(steps[1] == CliStep::NoteLogs);
        } else {
            assert(command is Patch);
            assert(steps[0] == CliStep::PatchAndRestart { and_verify: true });
        }
    }
}

/// Before step `c` the sizes of the logs are noted, and before that nothing is launched.
pub open spec fn notes_first(steps: Seq<CliStep>, c: int) -> bool {
    exists|n: int|
        {
            &&& 0 <= n < c
            &&& #[trigger] steps[n] == CliStep::NoteLogs || steps[n] == (
            CliStep::PatchAndRestart { and_verify: true })
            &&& forall|l: int| 0 <= l < n ==> #[trigger] steps[l] != CliStep::Launch
        }
}

} // verus!
