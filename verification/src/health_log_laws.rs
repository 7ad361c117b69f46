//! Laws of health checks, said of the texts of logs and markers: every hook is judged by its own new
//! log content, and by nothing else.

use crate::health::{
    self, CheckEnd, CheckError, HookCheck, HookLog, LogReading, NoteView, VerifyPlan, VerifyResult,
};
use crate::health_laws;
use crate::project::PatcherView;
use crate::registry::{self, CheckView, EntryView};
use crate::text;
use crate::text_laws;
use vstd::prelude::*;

verus! {

/// The part of a log that counts: everything when no size was noted or the log is shorter than it
/// was, and otherwise what stands behind the noted size, nothing when the log did not grow.
pub proof fn law_new_content_is_what_was_added(
    old_log: Seq<char>,
    new_log: Seq<char>,
    noted: u64,
)
    requires
        noted == vstd::utf8::encode_utf8(old_log).len(),
    ensures
        health::new_content(old_log + new_log, Some(noted)) == new_log,
        health::new_content(old_log, Some(noted)) == Seq::<char>::empty(),
        health::new_content(new_log, None) == new_log,
        noted > vstd::utf8::encode_utf8(new_log).len() ==> health::new_content(
            new_log,
            Some(noted),
        ) == new_log,
{
    let none: Seq<char> = seq![];
    health_laws::lemma_encode_concat(old_log, new_log);
    let bytes = vstd::utf8::encode_utf8(old_log + new_log);
    assert(bytes.skip(noted as int) =~= vstd::utf8::encode_utf8(new_log));
    vstd::utf8::encode_utf8_decode_utf8(new_log);
    vstd::utf8::encode_utf8_decode_utf8(none);
    assert(vstd::utf8::encode_utf8(old_log).skip(noted as int) =~= vstd::utf8::encode_utf8(none));
}

/// A log can be judged whenever the size that was noted is the size of its beginning, or it is shorter
/// than that, or no size was noted, or there is nothing to read.
pub proof fn law_logs_that_can_be_judged(
    reading: LogReading,
    old_log: Seq<char>,
    new_log: Seq<char>,
)
    ensures
        reading.baseline is None ==> reading.wf(),
        !(reading.log is Content) ==> reading.wf(),
        reading.log matches HookLog::Content(c) && reading.baseline matches Some(n) && {
            ||| c@ == old_log + new_log && n == vstd::utf8::encode_utf8(old_log).len()
            ||| n > vstd::utf8::encode_utf8(c@).len()
        } ==> reading.wf(),
{
    if reading.log is Content && reading.baseline is Some {
        if reading.log->Content_0@ == old_log + new_log {
            health_laws::lemma_boundary(old_log, new_log);
        }
    }
}

/// Success markers are in order exactly when there are positions for them in the log, none before
/// that of an earlier marker, at which their characters stand.
pub proof fn law_in_order_means_positions(content: Seq<char>, markers: Seq<Seq<char>>)
    ensures
        health::in_order(content, markers) == (exists|at: Seq<int>|
                #![trigger at.len()]
            {
                &&& at.len() == markers.len()
                &&& forall|k: int|
                    0 <= k < markers.len() ==> 0 <= #[trigger] at[k] <= content.len()
                        - markers[k].len() && content.subrange(at[k], at[k] + markers[k].len())
                        == markers[k]
                &&& forall|k: int, l: int|
                    0 <= k < l < markers.len() ==> #[trigger] at[k] <= #[trigger] at[l]
            }),
{
    if health::in_order(content, markers) {
        let at = choose|at: Seq<int>| health::placed(content, markers, at);
        assert(at.len() == markers.len());
        assert forall|k: int| 0 <= k < markers.len() implies 0 <= #[trigger] at[k] <= content.len()
            - markers[k].len() && content.subrange(at[k], at[k] + markers[k].len())
            == markers[k] by {
            assert(text::occurs_at(content, markers[k], at[k]));
        }
    }
    if exists|at: Seq<int>|
                #![trigger at.len()]
        {
            &&& at.len() == markers.len()
            &&& forall|k: int|
                0 <= k < markers.len() ==> 0 <= #[trigger] at[k] <= content.len() - markers[k].len()
                    && content.subrange(at[k], at[k] + markers[k].len()) == markers[k]
            &&& forall|k: int, l: int|
                0 <= k < l < markers.len() ==> #[trigger] at[k] <= #[trigger] at[l]
        } {
        let at = choose|at: Seq<int>|
                #![trigger at.len()]
            {
                &&& at.len() == markers.len()
                &&& forall|k: int|
                    0 <= k < markers.len() ==> 0 <= #[trigger] at[k] <= content.len()
                        - markers[k].len() && content.subrange(at[k], at[k] + markers[k].len())
                        == markers[k]
                &&& forall|k: int, l: int|
                    0 <= k < l < markers.len() ==> #[trigger] at[k] <= #[trigger] at[l]
            };
        assert(health::placed(content, markers, at));
    }
}

/// A hook's outcome is told by its own log alone: another hook's log, or another hook, changes
/// nothing about it, and it bears the hook's name.
pub proof fn law_other_logs_change_nothing(
    hooks: Seq<EntryView>,
    readings: Seq<LogReading>,
    other_hooks: Seq<EntryView>,
    other_readings: Seq<LogReading>,
    i: int,
)
    requires
        0 <= i < hooks.len(),
        i < other_hooks.len(),
        hooks[i] == other_hooks[i],
        readings[i] == other_readings[i],
    ensures
        health::results_of(hooks, readings).len() == hooks.len(),
        health::results_of(hooks, readings)[i] == health::results_of(
            other_hooks,
            other_readings,
        )[i],
        health::results_of(hooks, readings)[i].name == hooks[i].name,
{
}

/// The i-th hook with a health check and a readable log passes exactly when no failure marker of its
/// own stands in its own new log content and all its own success markers stand there, none before an
/// earlier one; there is no error then.
pub proof fn law_each_hook_is_judged_by_its_own_log(
    hooks: Seq<EntryView>,
    readings: Seq<LogReading>,
    i: int,
    check: CheckView,
    old_log: Seq<char>,
    new_log: Seq<char>,
)
    requires
        0 <= i < hooks.len(),
        hooks[i].health_check == Some(check),
        readings[i].log matches HookLog::Content(content) && match readings[i].baseline {
            None => content@ == new_log,
            Some(n) => {
                ||| content@ == old_log + new_log && n == vstd::utf8::encode_utf8(old_log).len()
                ||| content@ == new_log && n > vstd::utf8::encode_utf8(new_log).len()
            },
        },
    ensures
        health::results_of(hooks, readings)[i].error is None,
        health::results_of(hooks, readings)[i].passed == {
            &&& forall|f: int, p: int|
                0 <= f < check.failure_markers.len() && 0 <= p <= new_log.len()
                    - check.failure_markers[f].len() ==> #[trigger] new_log.subrange(
                    p,
                    p + check.failure_markers[f].len(),
                ) != #[trigger] check.failure_markers[f]
            &&& exists|at: Seq<int>|
                #![trigger at.len()]
                {
                    &&& at.len() == check.success_markers.len()
                    &&& forall|k: int|
                        0 <= k < check.success_markers.len() ==> 0 <= #[trigger] at[k]
                            <= new_log.len() - check.success_markers[k].len() && new_log.subrange(
                            at[k],
                            at[k] + check.success_markers[k].len(),
                        ) == check.success_markers[k]
                    &&& forall|k: int, l: int|
                        0 <= k < l < check.success_markers.len() ==> #[trigger] at[k]
                            <= #[trigger] at[l]
                }
        },
{
    let content = readings[i].log->Content_0@;
    match readings[i].baseline {
        None => {},
        Some(n) => {
            if content == old_log + new_log && n == vstd::utf8::encode_utf8(old_log).len() {
                law_new_content_is_what_was_added(old_log, new_log, n);
            }
        },
    }
    assert(health::new_content(content, readings[i].baseline) == new_log);
    let end = health::marker_check(new_log, check);
    assert(health::check_of(hooks[i], readings[i]) == end);
    health_laws::law_hook_passes_exactly_on_its_markers(new_log, check);
    law_in_order_means_positions(new_log, check.success_markers);
    assert((forall|f: int|
        0 <= f < check.failure_markers.len() ==> !text::contains_text(
            new_log,
            #[trigger] check.failure_markers[f],
        )) == (forall|f: int, p: int|
        0 <= f < check.failure_markers.len() && 0 <= p <= new_log.len()
            - check.failure_markers[f].len() ==> #[trigger] new_log.subrange(
            p,
            p + check.failure_markers[f].len(),
        ) != #[trigger] check.failure_markers[f])) by {
        if forall|f: int|
            0 <= f < check.failure_markers.len() ==> !text::contains_text(
                new_log,
                #[trigger] check.failure_markers[f],
            ) {
            assert forall|f: int, p: int|
                0 <= f < check.failure_markers.len() && 0 <= p <= new_log.len()
                    - check.failure_markers[f].len() implies #[trigger] new_log.subrange(
                p,
                p + check.failure_markers[f].len(),
            ) != #[trigger] check.failure_markers[f] by {
                assert(!text::occurs_at(new_log, check.failure_markers[f], p));
            }
        } else {
            let f = choose|f: int|
                0 <= f < check.failure_markers.len() && text::contains_text(
                    new_log,
                    #[trigger] check.failure_markers[f],
                );
            let p = choose|p: int| text::occurs_at(new_log, check.failure_markers[f], p);
            assert(new_log.subrange(p, p + check.failure_markers[f].len())
                == check.failure_markers[f]);
        }
    }
}

/// A hook whose own new log content lacks one of its success markers, or holds one of its failure
/// markers, does not pass, whatever the other logs hold.
pub proof fn law_missing_or_failure_marker_fails_the_hook(
    hooks: Seq<EntryView>,
    readings: Seq<LogReading>,
    i: int,
    check: CheckView,
    k: int,
)
    requires
        0 <= i < hooks.len(),
        hooks[i].health_check == Some(check),
        readings[i].log matches HookLog::Content(content) && {
            let new_log = health::new_content(content@, readings[i].baseline);
            ||| 0 <= k < check.success_markers.len() && forall|p: int|
                0 <= p <= new_log.len() - check.success_markers[k].len()
                    ==> #[trigger] new_log.subrange(p, p + check.success_markers[k].len())
                    != check.success_markers[k]
            ||| 0 <= k < check.failure_markers.len() && exists|p: int|
                0 <= p <= new_log.len() - check.failure_markers[k].len()
                    && #[trigger] new_log.subrange(p, p + check.failure_markers[k].len())
                    == check.failure_markers[k]
        },
    ensures
        !health::results_of(hooks, readings)[i].passed,
{
    let new_log = health::new_content(readings[i].log->Content_0@, readings[i].baseline);
    health_laws::law_hook_passes_exactly_on_its_markers(new_log, check);
    law_in_order_means_positions(new_log, check.success_markers);
    if health::results_of(hooks, readings)[i].passed {
        if 0 <= k < check.failure_markers.len() {
            text_laws::law_contains_its_characters(new_log, check.failure_markers[k]);
        }
        if 0 <= k < check.success_markers.len() {
            let at = choose|at: Seq<int>|
                #![trigger at.len()]
                {
                    &&& at.len() == check.success_markers.len()
                    &&& forall|k: int|
                        0 <= k < check.success_markers.len() ==> 0 <= #[trigger] at[k]
                            <= new_log.len() - check.success_markers[k].len() && new_log.subrange(
                            at[k],
                            at[k] + check.success_markers[k].len(),
                        ) == check.success_markers[k]
                    &&& forall|k: int, l: int|
                        0 <= k < l < check.success_markers.len() ==> #[trigger] at[k]
                            <= #[trigger] at[l]
                };
            assert(new_log.subrange(at[k], at[k] + check.success_markers[k].len())
                == check.success_markers[k]);
        }
    }
}

/// When a hook's own new log content lacks one of its success markers, not all hooks have passed,
/// whatever the other logs hold: `r` is what the checks of `plan` give for `readings`.
pub proof fn law_one_missing_marker_fails_the_whole(
    plan: VerifyPlan,
    readings: Seq<LogReading>,
    r: VerifyResult,
    i: int,
    k: int,
)
    requires
        r.hooks.deep_view() == health::results_of(plan.hooks.deep_view(), readings),
        r.all_passed == (forall|j: int|
            0 <= j < r.hooks@.len() ==> (#[trigger] r.hooks@[j]).passed),
        0 <= i < plan.hooks@.len() == readings.len(),
        plan.hooks@[i].health_check is Some,
        0 <= k < plan.hooks@[i].health_check->0.success_markers@.len(),
        readings[i].log matches HookLog::Content(content) && {
            let new_log = health::new_content(content@, readings[i].baseline);
            let marker = plan.hooks@[i].health_check->0.success_markers@[k]@;
            forall|p: int|
                0 <= p <= new_log.len() - marker.len() ==> #[trigger] new_log.subrange(
                    p,
                    p + marker.len(),
                ) != marker
        },
    ensures
        r.hooks@[i].name@ == plan.hooks@[i].name@,
        !r.hooks@[i].passed,
        !r.all_passed,
{
    let hooks = plan.hooks.deep_view();
    let results = health::results_of(hooks, readings);
    assert(hooks[i] == plan.hooks@[i]@);
    let check = plan.hooks@[i].health_check->0;
    assert(check@.success_markers[k] == check.success_markers@[k]@);
    law_missing_or_failure_marker_fails_the_hook(hooks, readings, i, check@, k);
    assert(hooks.len() == plan.hooks@.len());
    assert(r.hooks.deep_view().len() == r.hooks@.len());
    assert(r.hooks@.len() == plan.hooks@.len());
    assert(r.hooks.deep_view()[i] == r.hooks@[i]@);
    assert(results[i].name == hooks[i].name);
}

/// A hook without a health check passes without an error; one whose log is missing or cannot be read
/// does not pass, and the error says so.
pub proof fn law_hooks_without_a_log(
    hooks: Seq<EntryView>,
    readings: Seq<LogReading>,
    i: int,
)
    requires
        0 <= i < hooks.len(),
    ensures
        ({
            let r = health::results_of(hooks, readings)[i];
            match hooks[i].health_check {
                None => r.passed && r.error is None,
                Some(check) => match readings[i].log {
                    HookLog::NotFound => !r.passed && r.error == Some(
                        "log file not found matching: "@ + check.log_glob,
                    ),
                    HookLog::Unreadable => !r.passed && r.error == Some(
                        "failed to read log file"@,
                    ),
                    HookLog::Content(_) => r.error is None,
                },
            }
        }),
{
}

/// The failure marker that is reported stands in the log, and no earlier one does; a success marker
/// is reported only when no failure marker stands there, and then it is the first with which there
/// are no positions in order any more.
pub proof fn law_reported_marker(content: Seq<char>, check: CheckView)
    ensures
        match health::marker_check(content, check) {
            CheckEnd::FailureMarker(m) => exists|i: int|
                {
                    &&& 0 <= i < check.failure_markers.len()
                    &&& #[trigger] check.failure_markers[i] == m
                    &&& text::contains_text(content, m)
                    &&& forall|j: int|
                        0 <= j < i ==> !text::contains_text(
                            content,
                            #[trigger] check.failure_markers[j],
                        )
                },
            CheckEnd::MissingMarker(m) => {
                &&& forall|j: int|
                    0 <= j < check.failure_markers.len() ==> !text::contains_text(
                        content,
                        #[trigger] check.failure_markers[j],
                    )
                &&& exists|i: int|
                    {
                        &&& 0 <= i < check.success_markers.len()
                        &&& #[trigger] check.success_markers[i] == m
                        &&& health::in_order(content, check.success_markers.take(i))
                        &&& !health::in_order(content, check.success_markers.take(i + 1))
                    }
            },
            CheckEnd::Passed => true,
            _ => false,
        },
{
    health_laws::lemma_first_present(content, check.failure_markers, 0);
    health_laws::lemma_none_in_order(content, check.success_markers);
    health_laws::lemma_first_missing(content, check.success_markers, 0);
}

/// What a check found is what its view says, and it counts as passed exactly when there was nothing
/// to check or all markers were as they should be.
pub proof fn law_check_results_mean_what_they_say(r: Result<HookCheck, CheckError>)
    ensures
        match r {
            Ok(HookCheck::NoCheck) => health::end_of(r) is NoCheck && health::is_pass(
                health::end_of(r),
            ),
            Ok(HookCheck::Passed) => health::end_of(r) is Passed && health::is_pass(
                health::end_of(r),
            ),
            Ok(HookCheck::FailureMarker(m)) => health::end_of(r) == CheckEnd::FailureMarker(m@)
                && !health::is_pass(health::end_of(r)),
            Ok(HookCheck::MissingMarker(m)) => health::end_of(r) == CheckEnd::MissingMarker(m@)
                && !health::is_pass(health::end_of(r)),
            Err(CheckError::LogNotFound(g)) => health::end_of(r) == CheckEnd::LogNotFound(g@)
                && !health::is_pass(health::end_of(r)),
            Err(CheckError::LogUnreadable) => health::end_of(r) is LogUnreadable
                && !health::is_pass(health::end_of(r)),
        },
{
}

/// The report of a check names the hook, and a marker that decided stands in it with its characters.
pub proof fn law_reports_name_the_hook(name: Seq<char>, m: Seq<char>)
    ensures
        health::report_of(name, CheckEnd::Passed) == "[verify] PASS "@ + name
            + " — all markers found"@,
        health::report_of(name, CheckEnd::NoCheck) == "[verify] PASS "@ + name
            + " — all markers found"@,
        health::report_of(name, CheckEnd::FailureMarker(m)) == "[verify] FAIL "@ + name
            + " — markers not found in log"@,
        health::report_of(name, CheckEnd::MissingMarker(m)) == "[verify] FAIL "@ + name
            + " — markers not found in log"@,
        health::report_of(name, CheckEnd::LogNotFound(m)) == "[verify] ERROR "@ + name + " — "@ + (
        "log file not found matching: "@ + m),
        health::report_of(name, CheckEnd::LogUnreadable) == "[verify] ERROR "@ + name + " — "@
            + "failed to read log file"@,
        health::note_of(name, CheckEnd::NoCheck) == Some(
            "  "@ + name + " — no health check defined, skipping"@,
        ),
        health::note_of(name, CheckEnd::FailureMarker(m)) == Some(
            "  "@ + name + " — FAILURE marker found: \""@ + m + "\""@,
        ),
        health::note_of(name, CheckEnd::MissingMarker(m)) == Some(
            "  "@ + name + " — missing marker: \""@ + m + "\""@,
        ),
        health::note_of(name, CheckEnd::Passed) is None,
        health::note_of(name, CheckEnd::LogNotFound(m)) is None,
        health::note_of(name, CheckEnd::LogUnreadable) is None,
{
}

/// The hooks get exactly as long as the most patient health check asks for, and fifteen seconds when
/// no hook has one.
pub proof fn law_timeout_is_the_longest(hooks: Seq<EntryView>, secs: u32)
    ensures
        health::is_timeout(hooks, secs) == {
            ||| {
                &&& exists|i: int|
                    {
                        &&& 0 <= i < hooks.len()
                        &&& (#[trigger] hooks[i]).health_check is Some
                        &&& hooks[i].health_check->0.timeout_secs == secs
                    }
                &&& forall|i: int|
                    0 <= i < hooks.len() && (#[trigger] hooks[i]).health_check is Some
                        ==> hooks[i].health_check->0.timeout_secs <= secs
            }
            ||| {
                &&& forall|i: int|
                    0 <= i < hooks.len() ==> (#[trigger] hooks[i]).health_check is None
                &&& secs == 15
            }
        },
{
    let all = health::timeouts_of(hooks);
    assert forall|i: int| 0 <= i < hooks.len() && (#[trigger] hooks[i]).health_check is Some implies all.contains(
        hooks[i].health_check->0.timeout_secs,
    ) by {
        health_laws::lemma_timeout_listed(hooks, i);
    }
    assert forall|k: int| 0 <= k < all.len() implies exists|i: int|
        0 <= i < hooks.len() && (#[trigger] hooks[i]).health_check is Some
            && hooks[i].health_check->0.timeout_secs == #[trigger] all[k] by {
        lemma_timeout_of_some_hook(hooks, k);
    }
    if all.len() > 0 {
        assert(exists|i: int| 0 <= i < hooks.len() && (#[trigger] hooks[i]).health_check is Some) by {
            lemma_timeout_of_some_hook(hooks, 0);
        }
    }
    if health::is_timeout(hooks, secs) && all.len() > 0 {
        let k = choose|k: int| 0 <= k < all.len() && all[k] == secs;
        assert(all[k] == secs);
        assert forall|i: int|
            0 <= i < hooks.len() && (#[trigger] hooks[i]).health_check is Some implies hooks[i].health_check->0.timeout_secs
            <= secs by {
            let t = hooks[i].health_check->0.timeout_secs;
            let m = choose|m: int| 0 <= m < all.len() && all[m] == t;
            assert(all[m] <= secs);
        }
    }
}

proof fn lemma_timeout_of_some_hook(hooks: Seq<EntryView>, k: int)
    requires
        0 <= k < health::timeouts_of(hooks).len(),
    ensures
        exists|i: int|
            0 <= i < hooks.len() && (#[trigger] hooks[i]).health_check is Some
                && hooks[i].health_check->0.timeout_secs == health::timeouts_of(hooks)[k],
    decreases hooks.len(),
{
    let all = health::timeouts_of(hooks);
    let front = hooks.drop_last();
    let before = health::timeouts_of(front);
    if k < before.len() {
        lemma_timeout_of_some_hook(front, k);
        let i = choose|i: int|
            0 <= i < front.len() && (#[trigger] front[i]).health_check is Some
                && front[i].health_check->0.timeout_secs == before[k];
        assert(hooks[i] == front[i]);
        assert(all[k] == before[k]);
    } else {
        assert(hooks[hooks.len() - 1].health_check is Some);
    }
}

/// The size that counts for a hook is the one that was noted first under its name; nothing is noted
/// for a name without a note.
pub proof fn law_noted_size_is_that_of_the_name(notes: Seq<NoteView>, name: Seq<char>)
    ensures
        ({
            ||| exists|i: int|
                {
                    &&& 0 <= i < notes.len()
                    &&& (#[trigger] notes[i]).name == name
                    &&& notes[i].size == health::noted_size(notes, name, 0)
                    &&& forall|k: int| 0 <= k < i ==> (#[trigger] notes[k]).name != name
                }
            ||| {
                &&& forall|k: int| 0 <= k < notes.len() ==> (#[trigger] notes[k]).name != name
                &&& health::noted_size(notes, name, 0) is None
            }
        }),
{
    lemma_noted(notes, name, 0);
}

proof fn lemma_noted(notes: Seq<NoteView>, name: Seq<char>, from: int)
    requires
        0 <= from <= notes.len(),
    ensures
        ({
            ||| exists|i: int|
                {
                    &&& from <= i < notes.len()
                    &&& (#[trigger] notes[i]).name == name
                    &&& notes[i].size == health::noted_size(notes, name, from)
                    &&& forall|k: int| from <= k < i ==> (#[trigger] notes[k]).name != name
                }
            ||| {
                &&& forall|k: int| from <= k < notes.len() ==> (#[trigger] notes[k]).name != name
                &&& health::noted_size(notes, name, from) is None
            }
        }),
    decreases notes.len() - from,
{
    if from < notes.len() {
        if notes[from].name == name {
            assert(notes[from].size == health::noted_size(notes, name, from));
        } else {
            lemma_noted(notes, name, from + 1);
        }
    }
}

/// The logs of all registered hooks are watched, in their places, and that of the project's own hook
/// as its template describes it: in the place of the first hook of its name, or behind all others.
pub proof fn law_every_registered_hook_is_watched(
    patcher: PatcherView,
    reg: registry::RegistryView,
    i: int,
)
    requires
        0 <= i < reg.hooks.len(),
    ensures
        ({
            let watched = patcher.watched(Some(reg));
            match patcher.project.registry_entry {
                Some(t) => {
                    &&& watched.contains(t)
                    &&& reg.hooks[i].name != t.name ==> watched[i] == reg.hooks[i]
                    &&& reg.hooks[i].name == t.name && (forall|k: int|
                        0 <= k < i ==> (#[trigger] reg.hooks[k]).name != t.name) ==> watched[i]
                        == t
                    &&& reg.hooks[i].name == t.name ==> watched.len() == reg.hooks.len()
                    &&& (forall|k: int|
                        0 <= k < reg.hooks.len() ==> (#[trigger] reg.hooks[k]).name != t.name)
                        ==> watched == reg.hooks.push(t)
                },
                None => watched == reg.hooks,
            }
        }),
        patcher.project.registry_entry matches Some(t) ==> patcher.watched(None) == seq![t],
        patcher.project.registry_entry is None ==> patcher.watched(None).len() == 0,
{
    if let Some(t) = patcher.project.registry_entry {
        let none: Seq<EntryView> = seq![];
        let watched = patcher.watched(Some(reg));
        registry::lemma_index_of(reg.hooks, t.name, 0);
        registry::lemma_index_of(none, t.name, 0);
        let at = registry::index_of(reg.hooks, t.name, 0);
        assert(watched[at] == t);
        assert(patcher.watched(None) =~= seq![t]);
    }
}

} // verus!
