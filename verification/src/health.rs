//! Health checks: whether the hooks of a launched application report in their logs that they work.

use crate::commands::{self, CommandLine};
use crate::error::PatchError;
use crate::plan;
use crate::project::{Patcher, PatcherView};
use crate::registry::{self, HookEntry, HookRegistry};
use crate::text;
use vstd::prelude::*;

verus! {

/// The log of a hook after the application was launched.
#[derive(Debug)]
pub enum HookLog {
    /// No file matches the pattern.
    NotFound,
    /// The file could not be read, or does not hold text.
    Unreadable,
    /// What the file holds.
    Content(String),
}

/// A hook's log, with its size before the launch when there was one.
#[derive(Debug)]
pub struct LogReading {
    pub log: HookLog,
    pub baseline: Option<u64>,
}

/// What a check of a log finds.
#[derive(Debug)]
pub enum HookCheck {
    /// The hook has no health check.
    NoCheck,
    /// This failure marker stands in the log.
    FailureMarker(String),
    /// This success marker does not stand in the log, or only before an earlier one.
    MissingMarker(String),
    /// The log holds every success marker, in their order, and no failure marker.
    Passed,
}

/// Why a log could not be checked.
#[derive(Debug)]
pub enum CheckError {
    /// No file matches this pattern.
    LogNotFound(String),
    /// The file could not be read.
    LogUnreadable,
}

/// What a check of a log finds, or why there was none.
#[verifier::ext_equal]
pub enum CheckEnd {
    NoCheck,
    FailureMarker(Seq<char>),
    MissingMarker(Seq<char>),
    Passed,
    LogNotFound(Seq<char>),
    LogUnreadable,
}

/// What `r` holds.
pub open spec fn end_of(r: Result<HookCheck, CheckError>) -> CheckEnd {
    match r {
        Ok(HookCheck::NoCheck) => CheckEnd::NoCheck,
        Ok(HookCheck::FailureMarker(m)) => CheckEnd::FailureMarker(m@),
        Ok(HookCheck::MissingMarker(m)) => CheckEnd::MissingMarker(m@),
        Ok(HookCheck::Passed) => CheckEnd::Passed,
        Err(CheckError::LogNotFound(g)) => CheckEnd::LogNotFound(g@),
        Err(CheckError::LogUnreadable) => CheckEnd::LogUnreadable,
    }
}

/// The part of a log that was written after it had `baseline` bytes. A log that is shorter now was
/// started anew, and is new as a whole.
pub open spec fn new_content(content: Seq<char>, baseline: Option<u64>) -> Seq<char> {
    let bytes = vstd::utf8::encode_utf8(content);
    match baseline {
        Some(offset) => if offset <= bytes.len() {
            vstd::utf8::decode_utf8(bytes.skip(offset as int))
        } else {
            content
        },
        None => content,
    }
}

/// The first of `markers`, from position `from` on, that stands in `content`.
pub open spec fn first_present(content: Seq<char>, markers: Seq<Seq<char>>, from: int) -> Option<
    Seq<char>,
>
    decreases markers.len() - from,
{
    if from < 0 || from >= markers.len() {
        None
    } else if text::contains_text(content, markers[from]) {
        Some(markers[from])
    } else {
        first_present(content, markers, from + 1)
    }
}

/// The markers stand in `content` at the positions `at`, none of them before an earlier one. They may
/// overlap.
pub open spec fn placed(content: Seq<char>, markers: Seq<Seq<char>>, at: Seq<int>) -> bool {
    &&& at.len() == markers.len()
    &&& forall|i: int|
        0 <= i < markers.len() ==> text::occurs_at(content, markers[i], #[trigger] at[i])
    &&& forall|i: int, j: int|
        0 <= i < j < markers.len() ==> #[trigger] at[i] <= #[trigger] at[j]
}

/// The markers stand in `content`, earlier ones before later ones.
pub open spec fn in_order(content: Seq<char>, markers: Seq<Seq<char>>) -> bool {
    exists|at: Seq<int>| placed(content, markers, at)
}

/// The first of `markers`, from position `from` on, with which they are no longer in order.
pub open spec fn first_missing(content: Seq<char>, markers: Seq<Seq<char>>, from: int) -> Option<
    Seq<char>,
>
    decreases markers.len() - from,
{
    if from < 0 || from >= markers.len() {
        None
    } else if !in_order(content, markers.take(from + 1)) {
        Some(markers[from])
    } else {
        first_missing(content, markers, from + 1)
    }
}

/// What new log content tells of a hook: failure markers come first.
pub open spec fn marker_check(content: Seq<char>, check: registry::CheckView) -> CheckEnd {
    match first_present(content, check.failure_markers, 0) {
        Some(m) => CheckEnd::FailureMarker(m),
        None => match first_missing(content, check.success_markers, 0) {
            Some(m) => CheckEnd::MissingMarker(m),
            None => CheckEnd::Passed,
        },
    }
}

/// What a hook's log tells.
pub open spec fn check_of(hook: registry::EntryView, reading: LogReading) -> CheckEnd {
    match hook.health_check {
        None => CheckEnd::NoCheck,
        Some(check) => match reading.log {
            HookLog::NotFound => CheckEnd::LogNotFound(check.log_glob),
            HookLog::Unreadable => CheckEnd::LogUnreadable,
            HookLog::Content(content) => marker_check(
                new_content(content@, reading.baseline),
                check,
            ),
        },
    }
}

impl LogReading {
    /// The size before the launch does not fall inside a character of what the log holds now.
    pub open spec fn wf(self) -> bool {
        match (self.log, self.baseline) {
            (HookLog::Content(content), Some(offset)) => offset <= vstd::utf8::encode_utf8(
                content@,
            ).len() ==> vstd::utf8::is_char_boundary(
                vstd::utf8::encode_utf8(content@),
                offset as int,
            ),
            _ => true,
        }
    }
}

/// The part of a log that was written after it had `baseline` bytes.
fn new_part(content: &str, baseline: Option<u64>) -> (r: &str)
    requires
        baseline matches Some(offset) ==> offset <= vstd::utf8::encode_utf8(content@).len()
            ==> vstd::utf8::is_char_boundary(vstd::utf8::encode_utf8(content@), offset as int),
    ensures
        r@ == new_content(content@, baseline),
{
    match baseline {
        None => content,
        Some(offset) => {
            let len: usize = content.as_bytes().len();
            if offset <= len as u64 {
                let parts = content.split_at(offset as usize);
                proof {
                    let bytes = vstd::utf8::encode_utf8(content@);
                    assert(bytes.skip(offset as int) =~= bytes.subrange(
                        offset as int,
                        bytes.len() as int,
                    ));
                    vstd::utf8::encode_utf8_decode_utf8(parts.1@);
                }
                parts.1
            } else {
                content
            }
        },
    }
}

/// Where the last of `markers` stands when each is looked for from where the one before it was found,
/// beginning at `pos`.
pub open spec fn reached(content: Seq<char>, markers: Seq<Seq<char>>, pos: int) -> Option<int>
    decreases markers.len(),
{
    if markers.len() == 0 {
        Some(pos)
    } else {
        match text::first_occurrence(content, markers[0], pos) {
            Some(j) => reached(content, markers.drop_first(), j),
            None => None,
        }
    }
}

/// One marker more is looked for from where the one before it was found.
proof fn lemma_reached_last(content: Seq<char>, markers: Seq<Seq<char>>, pos: int)
    requires
        markers.len() > 0,
    ensures
        reached(content, markers, pos) == (match reached(content, markers.drop_last(), pos) {
            Some(p) => text::first_occurrence(content, markers.last(), p),
            None => None,
        }),
    decreases markers.len(),
{
    if markers.len() == 1 {
        reveal_with_fuel(reached, 2);
    } else {
        match text::first_occurrence(content, markers[0], pos) {
            Some(j) => {
                lemma_reached_last(content, markers.drop_first(), j);
                assert(markers.drop_first().drop_last() =~= markers.drop_last().drop_first());
            },
            None => {},
        }
    }
}

/// Markers that are found one by one are in order.
proof fn lemma_reached_placed(content: Seq<char>, markers: Seq<Seq<char>>, pos: int) -> (at: Seq<
    int,
>)
    requires
        0 <= pos,
        reached(content, markers, pos) is Some,
    ensures
        placed(content, markers, at),
        forall|i: int| 0 <= i < at.len() ==> pos <= #[trigger] at[i],
    decreases markers.len(),
{
    if markers.len() == 0 {
        seq![]
    } else {
        let first = markers[0];
        let rest = markers.drop_first();
        text::lemma_first_occurrence(content, first, pos);
        let j = text::first_occurrence(content, first, pos)->0;
        let later = lemma_reached_placed(content, rest, j);
        let at = seq![j] + later;
        assert forall|i: int| 0 <= i < markers.len() implies text::occurs_at(
            content,
            markers[i],
            #[trigger] at[i],
        ) by {
            if i > 0 {
                assert(rest[i - 1] == markers[i] && later[i - 1] == at[i]);
            }
        }
        assert forall|i: int, k: int| 0 <= i < k < markers.len() implies #[trigger] at[i]
            <= #[trigger] at[k] by {
            assert(later[k - 1] == at[k]);
            if i > 0 {
                assert(later[i - 1] == at[i]);
            }
        }
        assert forall|i: int| 0 <= i < at.len() implies pos <= #[trigger] at[i] by {
            if i > 0 {
                assert(later[i - 1] == at[i]);
            }
        }
        at
    }
}

/// Markers that are in order are found one by one.
proof fn lemma_placed_reached(content: Seq<char>, markers: Seq<Seq<char>>, at: Seq<int>, pos: int)
    requires
        0 <= pos,
        placed(content, markers, at),
        forall|i: int| 0 <= i < at.len() ==> pos <= #[trigger] at[i],
    ensures
        reached(content, markers, pos) is Some,
    decreases markers.len(),
{
    if markers.len() > 0 {
        let first = markers[0];
        let rest = markers.drop_first();
        let later = at.drop_first();
        text::lemma_first_occurrence(content, first, pos);
        assert(text::occurs_at(content, first, at[0]));
        let j = text::first_occurrence(content, first, pos)->0;
        assert forall|i: int| 0 <= i < rest.len() implies text::occurs_at(
            content,
            rest[i],
            #[trigger] later[i],
        ) by {
            assert(at[i + 1] == later[i] && markers[i + 1] == rest[i]);
        }
        assert forall|i: int, k: int| 0 <= i < k < rest.len() implies #[trigger] later[i]
            <= #[trigger] later[k] by {
            assert(at[i + 1] == later[i] && at[k + 1] == later[k]);
        }
        assert forall|i: int| 0 <= i < later.len() implies j <= #[trigger] later[i] by {
            assert(at[0] <= at[i + 1]);
        }
        lemma_placed_reached(content, rest, later, j);
    }
}

/// Markers are in order exactly when each is found from where the one before it was found.
pub proof fn law_in_order_when_found_one_by_one(content: Seq<char>, markers: Seq<Seq<char>>)
    ensures
        in_order(content, markers) == (reached(content, markers, 0) is Some),
{
    if in_order(content, markers) {
        let at = choose|at: Seq<int>| placed(content, markers, at);
        assert forall|i: int| 0 <= i < at.len() implies 0 <= #[trigger] at[i] by {
            assert(text::occurs_at(content, markers[i], at[i]));
        }
        lemma_placed_reached(content, markers, at, 0);
    }
    if reached(content, markers, 0) is Some {
        let at = lemma_reached_placed(content, markers, 0);
        assert(placed(content, markers, at));
    }
}

/// The first of `markers` that stands in `content`.
fn find_present(content: &str, markers: &Vec<String>) -> (r: Option<String>)
    ensures
        r.deep_view() == first_present(content@, markers.deep_view(), 0),
{
    let ghost all = markers.deep_view();
    let mut i: usize = 0;
    while i < markers.len()
        invariant
            all == markers.deep_view(),
            i <= markers@.len(),
            first_present(content@, all, 0) == first_present(content@, all, i as int),
        decreases markers@.len() - i,
    {
        assert(all[i as int] == markers@[i as int]@);
        if text::contains(content, markers[i].as_str()) {
            return Some(markers[i].clone());
        }
        i += 1;
    }
    None
}

/// The first of `markers` with which they are no longer in order.
fn find_missing(content: &str, markers: &Vec<String>) -> (r: Option<String>)
    ensures
        r.deep_view() == first_missing(content@, markers.deep_view(), 0),
{
    let ghost all = markers.deep_view();
    let c = text::chars_of(content);
    let mut pos: usize = 0;
    let mut i: usize = 0;
    assert(all.take(0) =~= seq![]);
    while i < markers.len()
        invariant
            all == markers.deep_view(),
            c@ == content@,
            i <= markers@.len(),
            pos <= c@.len(),
            reached(content@, all.take(i as int), 0) == Some(pos as int),
            first_missing(content@, all, 0) == first_missing(content@, all, i as int),
        decreases markers@.len() - i,
    {
        let m = text::chars_of(markers[i].as_str());
        proof {
            let now = all.take(i + 1);
            assert(all[i as int] == markers@[i as int]@);
            assert(now.drop_last() =~= all.take(i as int));
            assert(now.last() == m@);
            lemma_reached_last(content@, now, 0);
            law_in_order_when_found_one_by_one(content@, now);
        }
        match text::find_chars(&c, &m, pos) {
            Some(j) => {
                pos = j;
            },
            None => {
                return Some(markers[i].clone());
            },
        }
        i += 1;
    }
    None
}

/// Checks the log of a hook for the markers of its health check.
pub fn verify_hook(hook: &HookEntry, reading: &LogReading) -> (r: Result<HookCheck, CheckError>)
    requires
        reading.wf(),
    ensures
        end_of(r) == check_of(hook@, *reading),
{
    match &hook.health_check {
        None => Ok(HookCheck::NoCheck),
        Some(check) => match &reading.log {
            HookLog::NotFound => Err(CheckError::LogNotFound(check.log_glob.clone())),
            HookLog::Unreadable => Err(CheckError::LogUnreadable),
            HookLog::Content(content) => {
                let new = new_part(content.as_str(), reading.baseline);
                match find_present(new, &check.failure_markers) {
                    Some(m) => Ok(HookCheck::FailureMarker(m)),
                    None => match find_missing(new, &check.success_markers) {
                        Some(m) => Ok(HookCheck::MissingMarker(m)),
                        None => Ok(HookCheck::Passed),
                    },
                }
            },
        },
    }
}

/// Whether a check counts as passed: a hook without a health check does.
pub open spec fn is_pass(end: CheckEnd) -> bool {
    end is NoCheck || end is Passed
}

/// The message of a check that could not be made.
pub open spec fn error_of(end: CheckEnd) -> Option<Seq<char>> {
    match end {
        CheckEnd::LogNotFound(glob) => Some("log file not found matching: "@ + glob),
        CheckEnd::LogUnreadable => Some("failed to read log file"@),
        _ => None,
    }
}

impl CheckError {
    /// The message that the user sees.
    pub fn message(&self) -> (r: String)
        ensures
            Some(r@) == error_of(end_of(Err(*self))),
    {
        match self {
            CheckError::LogNotFound(glob) => {
                let mut m = "log file not found matching: ".to_owned();
                m.append(glob.as_str());
                m
            },
            CheckError::LogUnreadable => "failed to read log file".to_owned(),
        }
    }
}

impl HookCheck {
    /// Whether the check counts as passed.
    pub fn passed(&self) -> (r: bool)
        ensures
            r == is_pass(end_of(Ok(*self))),
    {
        match self {
            HookCheck::NoCheck => true,
            HookCheck::Passed => true,
            HookCheck::FailureMarker(_) => false,
            HookCheck::MissingMarker(_) => false,
        }
    }
}

/// The outcome of one hook's check.
#[derive(Debug)]
pub struct HookVerifyResult {
    pub name: String,
    pub passed: bool,
    pub error: Option<String>,
}

/// What a [`HookVerifyResult`] holds.
#[verifier::ext_equal]
pub struct HookResultView {
    pub name: Seq<char>,
    pub passed: bool,
    pub error: Option<Seq<char>>,
}

impl DeepView for HookVerifyResult {
    type V = HookResultView;

    open spec fn deep_view(&self) -> HookResultView {
        HookResultView { name: self.name@, passed: self.passed, error: self.error.deep_view() }
    }
}

impl View for HookVerifyResult {
    type V = HookResultView;

    open spec fn view(&self) -> HookResultView {
        self.deep_view()
    }
}

/// The outcomes of all hooks' checks.
#[derive(Debug)]
pub struct VerifyResult {
    pub hooks: Vec<HookVerifyResult>,
    pub all_passed: bool,
}

/// The outcome of a hook's check.
pub open spec fn result_of(hook: registry::EntryView, reading: LogReading) -> HookResultView {
    HookResultView {
        name: hook.name,
        passed: is_pass(check_of(hook, reading)),
        error: error_of(check_of(hook, reading)),
    }
}

/// The outcomes of the hooks' checks, hook by hook.
pub open spec fn results_of(hooks: Seq<registry::EntryView>, readings: Seq<LogReading>) -> Seq<
    HookResultView,
> {
    Seq::new(hooks.len(), |i: int| result_of(hooks[i], readings[i]))
}

/// `a`, `b` and `c` one after the other.
fn concat(a: &str, b: &str, c: &str) -> (r: String)
    ensures
        r@ == a@ + b@ + c@,
{
    let mut r = a.to_owned();
    r.append(b);
    r.append(c);
    r
}

/// What is reported of a check before its outcome.
pub open spec fn note_of(name: Seq<char>, end: CheckEnd) -> Option<Seq<char>> {
    match end {
        CheckEnd::NoCheck => Some("  "@ + name + " — no health check defined, skipping"@),
        CheckEnd::FailureMarker(m) => Some(
            "  "@ + name + " — FAILURE marker found: \""@ + m + "\""@,
        ),
        CheckEnd::MissingMarker(m) => Some("  "@ + name + " — missing marker: \""@ + m + "\""@),
        _ => None,
    }
}

/// What is reported of the check of the hook called `name` before its outcome.
pub fn check_note(name: &str, check: &Result<HookCheck, CheckError>) -> (r: Option<String>)
    ensures
        r.deep_view() == note_of(name@, end_of(*check)),
{
    match check {
        Ok(HookCheck::NoCheck) => Some(concat("  ", name, " — no health check defined, skipping")),
        Ok(HookCheck::FailureMarker(m)) => {
            let start = concat("  ", name, " — FAILURE marker found: \"");
            Some(concat(start.as_str(), m.as_str(), "\""))
        },
        Ok(HookCheck::MissingMarker(m)) => {
            let start = concat("  ", name, " — missing marker: \"");
            Some(concat(start.as_str(), m.as_str(), "\""))
        },
        Ok(HookCheck::Passed) => None,
        Err(_) => None,
    }
}

/// The line that reports the outcome of a check.
pub open spec fn report_of(name: Seq<char>, end: CheckEnd) -> Seq<char> {
    match error_of(end) {
        Some(e) => "[verify] ERROR "@ + name + " — "@ + e,
        None => if is_pass(end) {
            "[verify] PASS "@ + name + " — all markers found"@
        } else {
            "[verify] FAIL "@ + name + " — markers not found in log"@
        },
    }
}

/// The line that reports the outcome of the check of the hook called `name`.
pub fn check_report(name: &str, check: &Result<HookCheck, CheckError>) -> (r: String)
    ensures
        r@ == report_of(name@, end_of(*check)),
{
    match check {
        Err(e) => {
            let mut r = concat("[verify] ERROR ", name, " — ");
            r.append(e.message().as_str());
            r
        },
        Ok(c) => if c.passed() {
            concat("[verify] PASS ", name, " — all markers found")
        } else {
            concat("[verify] FAIL ", name, " — markers not found in log")
        },
    }
}

/// The timeouts of the hooks that have a health check.
pub open spec fn timeouts_of(hooks: Seq<registry::EntryView>) -> Seq<u32>
    decreases hooks.len(),
{
    if hooks.len() == 0 {
        seq![]
    } else {
        let before = timeouts_of(hooks.drop_last());
        match hooks.last().health_check {
            Some(check) => before.push(check.timeout_secs),
            None => before,
        }
    }
}

/// How long hooks get to report: as long as the most patient health check says, and the default
/// when there is none.
pub open spec fn is_timeout(hooks: Seq<registry::EntryView>, secs: u32) -> bool {
    let all = timeouts_of(hooks);
    if all.len() == 0 {
        secs == 15
    } else {
        all.contains(secs) && forall|i: int| 0 <= i < all.len() ==> #[trigger] all[i] <= secs
    }
}

/// How long the hooks get to report, in seconds.
fn verify_timeout(hooks: &Vec<HookEntry>) -> (r: u32)
    ensures
        is_timeout(hooks.deep_view(), r),
{
    let ghost all = hooks.deep_view();
    let mut longest: Option<u32> = None;
    let mut i: usize = 0;
    assert(all.take(0) =~= seq![]);
    while i < hooks.len()
        invariant
            all == hooks.deep_view(),
            i <= hooks@.len(),
            match longest {
                None => timeouts_of(all.take(i as int)).len() == 0,
                Some(n) => timeouts_of(all.take(i as int)).len() > 0 && is_timeout(
                    all.take(i as int),
                    n,
                ),
            },
        decreases hooks@.len() - i,
    {
        let ghost before = timeouts_of(all.take(i as int));
        proof {
            assert(all.take(i + 1).drop_last() =~= all.take(i as int));
            assert(all.take(i + 1).last() == hooks@[i as int]@);
        }
        if let Some(check) = &hooks[i].health_check {
            let secs: u32 = check.timeout_secs;
            let next: u32 = match longest {
                Some(n) => if n >= secs {
                    n
                } else {
                    secs
                },
                None => secs,
            };
            proof {
                let now = timeouts_of(all.take(i + 1));
                assert(now == before.push(secs));
                assert(now[before.len() as int] == secs);
                if let Some(n) = longest {
                    let k = choose|k: int| 0 <= k < before.len() && before[k] == n;
                    assert(now[k] == n);
                }
                assert(forall|k: int| 0 <= k < before.len() ==> now[k] == before[k]);
            }
            longest = Some(next);
        }
        i += 1;
    }
    assert(all.take(all.len() as int) =~= all);
    match longest {
        Some(n) => n,
        None => registry::default_verify_timeout(),
    }
}

/// The size that a hook's log had before the launch.
#[derive(Debug)]
pub struct LogNote {
    /// The name of the hook.
    pub name: String,
    /// The size in bytes, when there was a log.
    pub size: Option<u64>,
}

/// What a [`LogNote`] holds.
#[verifier::ext_equal]
pub struct NoteView {
    pub name: Seq<char>,
    pub size: Option<u64>,
}

impl DeepView for LogNote {
    type V = NoteView;

    open spec fn deep_view(&self) -> NoteView {
        NoteView { name: self.name@, size: self.size }
    }
}

/// The size that was noted first for the hook called `name`, from position `from` on.
pub open spec fn noted_size(notes: Seq<NoteView>, name: Seq<char>, from: int) -> Option<u64>
    decreases notes.len() - from,
{
    if from < 0 || from >= notes.len() {
        None
    } else if notes[from].name == name {
        notes[from].size
    } else {
        noted_size(notes, name, from + 1)
    }
}

/// The size that was noted for the hook called `name`.
pub fn baseline_of(notes: &Vec<LogNote>, name: &str) -> (r: Option<u64>)
    ensures
        r == noted_size(notes.deep_view(), name@, 0),
{
    let ghost all = notes.deep_view();
    let mut i: usize = 0;
    while i < notes.len()
        invariant
            all == notes.deep_view(),
            i <= notes@.len(),
            noted_size(all, name@, 0) == noted_size(all, name@, i as int),
        decreases notes@.len() - i,
    {
        assert(all[i as int] == notes@[i as int].deep_view());
        if text::text_eq(notes[i].name.as_str(), name) {
            return notes[i].size;
        }
        i += 1;
    }
    None
}

impl PatcherView {
    /// The hooks whose logs are noted: the registered ones, with the project's template registered.
    pub open spec fn watched(self, reg: Option<registry::RegistryView>) -> Seq<
        registry::EntryView,
    > {
        let hooks = plan::loaded_or_empty(reg).hooks;
        match self.project.registry_entry {
            Some(e) => registry::registered(hooks, e),
            None => hooks,
        }
    }
}

impl Patcher {
    /// The hooks whose logs are noted before a launch: the registered ones, and this one as it is
    /// registered by a patch.
    pub fn hooks_to_watch(&self, reg: Option<&HookRegistry>) -> (r: Vec<HookEntry>)
        ensures
            r.deep_view() == self@.watched(reg.deep_view()),
    {
        let mut all = match reg {
            Some(reg) => reg.clone(),
            None => HookRegistry::new(),
        };
        if let Some(e) = &self.project.registry_entry {
            all.register(e.clone());
        }
        all.hooks
    }
}

/// A verification that is about to be done.
#[derive(Debug)]
pub struct VerifyPlan {
    /// The hooks to check, in load order.
    pub hooks: Vec<HookEntry>,
    /// Launches the application.
    pub command: CommandLine,
    /// How long the hooks get to report after the launch.
    pub timeout_secs: u32,
}

impl Patcher {
    /// Plans to launch the application and to check every registered hook. The sizes of the logs are
    /// noted before the launch, and the logs are read after the timeout.
    pub fn launch_and_verify(&self, reg: Option<&HookRegistry>) -> (r: Result<
        VerifyPlan,
        PatchError,
    >)
        ensures
            match r {
                Ok(plan) => reg matches Some(registry) && {
                    &&& registry@.hooks.len() > 0
                    &&& plan.hooks.deep_view() == registry::by_load_order(registry@.hooks)
                    &&& plan.command@ == commands::command("open"@, seq![self@.target.app_path])
                    &&& is_timeout(plan.hooks.deep_view(), plan.timeout_secs)
                },
                Err(PatchError::NoRegistry(id)) => reg is None && id@ == self@.target.app_id,
                Err(PatchError::EmptyRegistry) => reg matches Some(registry)
                    && registry@.hooks.len() == 0,
                Err(_) => false,
            },
    {
        match reg {
            None => Err(PatchError::NoRegistry(self.target.app_id.clone())),
            Some(registry) => {
                if registry.hooks.len() == 0 {
                    return Err(PatchError::EmptyRegistry);
                }
                let sorted = registry.hooks_by_load_order();
                let mut hooks: Vec<HookEntry> = Vec::new();
                let mut i: usize = 0;
                while i < sorted.len()
                    invariant
                        i <= sorted@.len(),
                        hooks@.len() == i,
                        forall|k: int| 0 <= k < i ==> (#[trigger] hooks@[k])@ == sorted@[k]@,
                    decreases sorted@.len() - i,
                {
                    hooks.push(sorted[i].clone());
                    i += 1;
                }
                assert(hooks.deep_view() =~= sorted.deep_view());
                let timeout_secs: u32 = verify_timeout(&hooks);
                Ok(VerifyPlan { hooks, command: self.target.launch_command(), timeout_secs })
            },
        }
    }
}

impl VerifyPlan {
    /// The outcome of the checks, given each hook's log.
    pub fn results(&self, readings: &Vec<LogReading>) -> (r: VerifyResult)
        requires
            readings@.len() == self.hooks@.len(),
            forall|i: int| 0 <= i < readings@.len() ==> (#[trigger] readings@[i]).wf(),
        ensures
            r.hooks.deep_view() == results_of(self.hooks.deep_view(), readings@),
            r.hooks@.len() == self.hooks@.len(),
            forall|i: int|
                0 <= i < self.hooks@.len() ==> {
                    &&& (#[trigger] r.hooks@[i]).name@ == self.hooks@[i].name@
                    &&& r.hooks@[i].passed == is_pass(check_of(self.hooks@[i]@, readings@[i]))
                    &&& r.hooks@[i].error.deep_view() == error_of(
                        check_of(self.hooks@[i]@, readings@[i]),
                    )
                },
            r.all_passed == (forall|i: int|
                0 <= i < r.hooks@.len() ==> (#[trigger] r.hooks@[i]).passed),
    {
        let ghost all = results_of(self.hooks.deep_view(), readings@);
        let mut hooks: Vec<HookVerifyResult> = Vec::new();
        let mut all_passed: bool = true;
        let mut i: usize = 0;
        while i < self.hooks.len()
            invariant
                all == results_of(self.hooks.deep_view(), readings@),
                readings@.len() == self.hooks@.len(),
                forall|k: int| 0 <= k < readings@.len() ==> (#[trigger] readings@[k]).wf(),
                i <= self.hooks@.len(),
                hooks@.len() == i,
                forall|k: int| 0 <= k < i ==> (#[trigger] hooks@[k])@ == all[k],
                forall|k: int|
                    0 <= k < i ==> (#[trigger] hooks@[k])@ == result_of(
                        self.hooks@[k]@,
                        readings@[k],
                    ),
                all_passed == (forall|k: int| 0 <= k < i ==> (#[trigger] hooks@[k]).passed),
            decreases self.hooks@.len() - i,
        {
            assert(readings@[i as int].wf());
            let check = verify_hook(&self.hooks[i], &readings[i]);
            let result = hook_result(self.hooks[i].name.as_str(), &check);
            assert(result@ == all[i as int]);
            let ghost before = hooks@;
            let passed: bool = result.passed;
            hooks.push(result);
            proof {
                assert(hooks@[i as int].passed == passed);
                assert(forall|k: int| 0 <= k < i ==> hooks@[k] == #[trigger] before[k]);
            }
            all_passed = all_passed && passed;
            i += 1;
        }
        assert(hooks.deep_view() =~= all);
        VerifyResult { hooks, all_passed }
    }
}

/// The outcome of the check of the hook called `name`.
fn hook_result(name: &str, check: &Result<HookCheck, CheckError>) -> (r: HookVerifyResult)
    ensures
        r@ == (HookResultView {
            name: name@,
            passed: is_pass(end_of(*check)),
            error: error_of(end_of(*check)),
        }),
{
    match check {
        Ok(c) => HookVerifyResult { name: name.to_owned(), passed: c.passed(), error: None },
        Err(e) => HookVerifyResult {
            name: name.to_owned(),
            passed: false,
            error: Some(e.message()),
        },
    }
}

impl VerifyResult {
    /// The line that closes the report.
    pub fn summary(&self) -> (r: String)
        ensures
            r@ == (if self.all_passed {
                "\n[verify] ALL HOOKS VERIFIED"@
            } else {
                "\n[verify] SOME HOOKS FAILED"@
            }),
    {
        if self.all_passed {
            "\n[verify] ALL HOOKS VERIFIED".to_owned()
        } else {
            "\n[verify] SOME HOOKS FAILED".to_owned()
        }
    }
}

} // verus!
