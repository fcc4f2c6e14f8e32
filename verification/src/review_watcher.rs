//! Watches the session files of Codex for reviews that are complete.

use crate::config::{RuntimeConfig, RuntimeView};
use crate::error::{outcome, AppError, AppErrorView};
use crate::hook::{delivery_failure, telegram_failure};
use crate::lines::{
    complete_bytes, complete_length, law_lines_in_two_reads, lemma_complete_and_open, lines,
    open_line,
};
use crate::message::{
    build_review_notification, law_truncation_bounds, project_of, review_notification,
    truncate_unicode, truncated,
};
use crate::order::{
    before, comes_before, lemma_before_irreflexive, lemma_before_total, lemma_before_transitive,
};
use crate::telegram::{SendMessageRequest, SendMessageView, TelegramError};
use crate::text::{
    as_deref, begins, copy_opt, ends, ends_with, keep_non_blank, non_blank, opt, opt_str, same_text,
    starts_with, trimmed,
};
use vstd::prelude::*;

verus! {

/// The nanoseconds between two looks at the session files.
pub const POLL_INTERVAL_NANOS: u64 = 2_000_000_000;

/// The name of the file that keeps what has been seen.
pub const STATE_FILE_NAME: &'static str = "review-watcher-state.json";

/// The name of the file that keeps a second watcher away.
pub const LOCK_FILE_NAME: &'static str = "review-watcher.lock";

/// The most characters that are kept of what a review says.
pub const MAX_EXPLANATION_LENGTH: usize = 1000;

/// Stands where a review has no identifier, so that reviews with it need not be the same.
pub const UNKNOWN_REVIEW: &'static str = "unknown-review";

/// The outcome of a review.
#[derive(Debug, PartialEq, Eq)]
pub struct ReviewSummary {
    pub review_id: String,
    pub cwd: Option<String>,
    pub model: Option<String>,
    pub effort: Option<String>,
    pub findings: Option<usize>,
    pub explanation: Option<String>,
}

/// What a `ReviewSummary` holds.
pub struct ReviewView {
    pub review_id: Seq<char>,
    pub cwd: Option<Seq<char>>,
    pub model: Option<Seq<char>>,
    pub effort: Option<Seq<char>>,
    pub findings: Option<usize>,
    pub explanation: Option<Seq<char>>,
}

impl View for ReviewSummary {
    type V = ReviewView;

    open spec fn view(&self) -> ReviewView {
        ReviewView {
            review_id: self.review_id@,
            cwd: opt(self.cwd),
            model: opt(self.model),
            effort: opt(self.effort),
            findings: self.findings,
            explanation: opt(self.explanation),
        }
    }
}

impl Clone for ReviewSummary {
    fn clone(&self) -> (summary: Self)
        ensures
            summary@ == self@,
    {
        ReviewSummary {
            review_id: self.review_id.clone(),
            cwd: copy_opt(&self.cwd),
            model: copy_opt(&self.model),
            effort: copy_opt(&self.effort),
            findings: self.findings,
            explanation: copy_opt(&self.explanation),
        }
    }
}

/// The views of some summaries.
pub open spec fn review_views(summaries: Seq<ReviewSummary>) -> Seq<ReviewView> {
    summaries.map_values(|summary: ReviewSummary| summary@)
}

/// What is known of a session file.
#[derive(Debug)]
pub struct SessionFileState {
    pub offset: u64,
    pub is_review: bool,
    pub review_id: Option<String>,
    pub parent_session_id: Option<String>,
    pub cwd: Option<String>,
    pub model: Option<String>,
    pub effort: Option<String>,
    pub completion: Option<ReviewSummary>,
    pub notified: bool,
}

/// What a `SessionFileState` holds.
pub struct FileView {
    pub offset: u64,
    pub is_review: bool,
    pub review_id: Option<Seq<char>>,
    pub parent_session_id: Option<Seq<char>>,
    pub cwd: Option<Seq<char>>,
    pub model: Option<Seq<char>>,
    pub effort: Option<Seq<char>>,
    pub completion: Option<ReviewView>,
    pub notified: bool,
}

impl View for SessionFileState {
    type V = FileView;

    open spec fn view(&self) -> FileView {
        FileView {
            offset: self.offset,
            is_review: self.is_review,
            review_id: opt(self.review_id),
            parent_session_id: opt(self.parent_session_id),
            cwd: opt(self.cwd),
            model: opt(self.model),
            effort: opt(self.effort),
            completion: match self.completion {
                Some(summary) => Some(summary@),
                None => None,
            },
            notified: self.notified,
        }
    }
}

/// What is known of a file that has not been read.
pub open spec fn unread() -> FileView {
    FileView {
        offset: 0,
        is_review: false,
        review_id: None,
        parent_session_id: None,
        cwd: None,
        model: None,
        effort: None,
        completion: None,
        notified: false,
    }
}

impl Default for SessionFileState {
    fn default() -> (state: Self)
        ensures
            state@ == unread(),
    {
        SessionFileState {
            offset: 0,
            is_review: false,
            review_id: None,
            parent_session_id: None,
            cwd: None,
            model: None,
            effort: None,
            completion: None,
            notified: false,
        }
    }
}

impl Clone for SessionFileState {
    fn clone(&self) -> (state: Self)
        ensures
            state@ == self@,
    {
        SessionFileState {
            offset: self.offset,
            is_review: self.is_review,
            review_id: copy_opt(&self.review_id),
            parent_session_id: copy_opt(&self.parent_session_id),
            cwd: copy_opt(&self.cwd),
            model: copy_opt(&self.model),
            effort: copy_opt(&self.effort),
            completion: match &self.completion {
                Some(summary) => Some(summary.clone()),
                None => None,
            },
            notified: self.notified,
        }
    }
}

/// One line of a session file.
pub struct SessionRecord {
    pub record_type: String,
    pub payload: Option<SessionPayload>,
}

/// What a line says, read in each of the shapes that matter. A shape that it does not have is
/// missing.
pub struct SessionPayload {
    pub meta: Option<SessionMetaPayload>,
    pub context: Option<TurnContextPayload>,
    pub event: Option<EventMessagePayload>,
}

/// What a session is.
pub struct SessionMetaPayload {
    pub id: Option<String>,
    pub session_id: Option<String>,
    pub parent_thread_id: Option<String>,
    pub cwd: Option<String>,
    pub source: Option<SessionSource>,
}

/// What a session was started by.
pub struct SessionSource {
    pub subagent: Option<String>,
}

/// What a turn runs with.
pub struct TurnContextPayload {
    pub cwd: Option<String>,
    pub model: Option<String>,
    pub effort: Option<String>,
}

/// What happened in a session.
pub struct EventMessagePayload {
    pub event_type: Option<String>,
    pub turn_id: Option<String>,
    pub last_agent_message: Option<String>,
    /// The last message, where it is a review in JSON.
    pub result: Option<ReviewResult>,
}

/// What a review in JSON says: how many findings it lists, and its explanation.
pub struct ReviewResult {
    pub findings: Option<usize>,
    pub overall_explanation: Option<String>,
}

/// The first of two optional texts that is there.
pub open spec fn either(first: Option<Seq<char>>, second: Option<Seq<char>>) -> Option<Seq<char>> {
    match first {
        Some(text) => Some(text),
        None => second,
    }
}

/// Takes the first of two optional texts that is there.
fn first_of(first: Option<String>, second: Option<String>) -> (result: Option<String>)
    ensures
        opt(result) == either(opt(first), opt(second)),
{
    match first {
        Some(text) => Some(text),
        None => second,
    }
}

/// Whether a session was started to review.
pub open spec fn reviews(meta: SessionMetaPayload) -> bool {
    match meta.source {
        Some(source) => opt(source.subagent) == Some("review"@),
        None => false,
    }
}

/// Whether an optional text is a given one.
fn is_given(text: &Option<String>, given: &str) -> (result: bool)
    ensures
        result == (opt(*text) == Some(given@)),
{
    match text {
        Some(text) => same_text(text.as_str(), given),
        None => false,
    }
}

/// What is kept of an explanation.
pub open spec fn explained(text: Option<Seq<char>>) -> Option<Seq<char>> {
    match non_blank(text) {
        Some(text) => Some(truncated(text, MAX_EXPLANATION_LENGTH as nat)),
        None => None,
    }
}

/// Keeps what matters of an explanation.
pub fn normalize_explanation(value: &str) -> (result: Option<String>)
    ensures
        opt(result) == explained(Some(value@)),
{
    match keep_non_blank(Some(value)) {
        Some(kept) => Some(truncate_unicode(kept, MAX_EXPLANATION_LENGTH)),
        None => None,
    }
}

/// The number of findings and the explanation of a review: those of its JSON where it is
/// JSON, else its text.
pub open spec fn review_outcome(message: Option<Seq<char>>, result: Option<ReviewResult>) -> (
    Option<usize>,
    Option<Seq<char>>,
) {
    match non_blank(message) {
        None => (None, None),
        Some(_) => match result {
            Some(result) => (result.findings, explained(opt(result.overall_explanation))),
            None => (None, explained(message)),
        },
    }
}

/// The text of a message in which a review in JSON is looked for.
pub fn review_text(message: Option<&str>) -> (result: Option<&str>)
    ensures
        opt_str(result) == non_blank(opt_str(message)),
{
    keep_non_blank(message)
}

/// Sums a review up.
pub fn summarize_review(message: Option<&str>, result: Option<ReviewResult>) -> (summary: (
    Option<usize>,
    Option<String>,
))
    ensures
        (summary.0, opt(summary.1)) == review_outcome(opt_str(message), result),
{
    match review_text(message) {
        None => (None, None),
        Some(text) => match result {
            Some(result) => {
                let explanation = match &result.overall_explanation {
                    Some(explanation) => normalize_explanation(explanation.as_str()),
                    None => None,
                };
                (result.findings, explanation)
            },
            None => (None, Some(truncate_unicode(text, MAX_EXPLANATION_LENGTH))),
        },
    }
}

/// What is known of a file after its session is described.
pub open spec fn after_meta(state: FileView, meta: SessionMetaPayload) -> FileView {
    if reviews(meta) {
        FileView {
            is_review: true,
            review_id: opt(meta.id),
            parent_session_id: either(opt(meta.session_id), opt(meta.parent_thread_id)),
            cwd: opt(meta.cwd),
            ..state
        }
    } else {
        state
    }
}

/// What is known of a review after a turn is described.
pub open spec fn after_context(state: FileView, context: TurnContextPayload) -> FileView {
    FileView {
        cwd: either(state.cwd, opt(context.cwd)),
        model: either(opt(context.model), state.model),
        effort: either(opt(context.effort), state.effort),
        ..state
    }
}

/// What is known of a review after an event: the first that completes it is kept.
pub open spec fn after_event(state: FileView, event: EventMessagePayload) -> FileView {
    if opt(event.event_type) == Some("task_complete"@) && state.completion is None {
        let outcome = review_outcome(opt(event.last_agent_message), event.result);
        FileView {
            completion: Some(
                ReviewView {
                    review_id: match either(state.review_id, opt(event.turn_id)) {
                        Some(id) => id,
                        None => UNKNOWN_REVIEW@,
                    },
                    cwd: state.cwd,
                    model: state.model,
                    effort: state.effort,
                    findings: outcome.0,
                    explanation: outcome.1,
                },
            ),
            ..state
        }
    } else {
        state
    }
}

/// What is known of a file after one of its lines.
pub open spec fn after_record(state: FileView, record: SessionRecord) -> FileView {
    match record.payload {
        None => state,
        Some(payload) => if record.record_type@ == "session_meta"@ {
            match payload.meta {
                Some(meta) => after_meta(state, meta),
                None => state,
            }
        } else if record.record_type@ == "turn_context"@ && state.is_review {
            match payload.context {
                Some(context) => after_context(state, context),
                None => state,
            }
        } else if record.record_type@ == "event_msg"@ && state.is_review {
            match payload.event {
                Some(event) => after_event(state, event),
                None => state,
            }
        } else {
            state
        },
    }
}

/// Takes in the description of a session.
fn apply_meta(state: &mut SessionFileState, meta: SessionMetaPayload)
    ensures
        final(state)@ == after_meta(old(state)@, meta),
{
    let is_review = match &meta.source {
        Some(source) => is_given(&source.subagent, "review"),
        None => false,
    };
    if is_review {
        state.is_review = true;
        state.review_id = meta.id;
        state.parent_session_id = first_of(meta.session_id, meta.parent_thread_id);
        state.cwd = meta.cwd;
    }
}

/// Takes in the description of a turn.
fn apply_context(state: &mut SessionFileState, context: TurnContextPayload)
    ensures
        final(state)@ == after_context(old(state)@, context),
{
    if state.cwd.is_none() {
        state.cwd = context.cwd;
    }
    if context.model.is_some() {
        state.model = context.model;
    }
    if context.effort.is_some() {
        state.effort = context.effort;
    }
}

/// Takes in an event.
fn apply_event(state: &mut SessionFileState, event: EventMessagePayload)
    ensures
        final(state)@ == after_event(old(state)@, event),
{
    if !is_given(&event.event_type, "task_complete") || state.completion.is_some() {
        return ;
    }
    let review_id = match first_of(copy_opt(&state.review_id), event.turn_id) {
        Some(id) => id,
        None => UNKNOWN_REVIEW.to_owned(),
    };
    let (findings, explanation) = summarize_review(
        as_deref(&event.last_agent_message),
        event.result,
    );
    state.completion =
    Some(
        ReviewSummary {
            review_id,
            cwd: copy_opt(&state.cwd),
            model: copy_opt(&state.model),
            effort: copy_opt(&state.effort),
            findings,
            explanation,
        },
    );
}

/// Takes in one line of a file.
pub fn apply_record(state: &mut SessionFileState, record: SessionRecord)
    ensures
        final(state)@ == after_record(old(state)@, record),
{
    let payload = match record.payload {
        Some(payload) => payload,
        None => {
            return ;
        },
    };
    let kind = record.record_type.as_str();
    if same_text(kind, "session_meta") {
        if let Some(meta) = payload.meta {
            apply_meta(state, meta);
        }
    } else if same_text(kind, "turn_context") && state.is_review {
        if let Some(context) = payload.context {
            apply_context(state, context);
        }
    } else if same_text(kind, "event_msg") && state.is_review {
        if let Some(event) = payload.event {
            apply_event(state, event);
        }
    }
}

/// What is known of a file after some of its lines.
pub open spec fn after_records(state: FileView, records: Seq<SessionRecord>) -> FileView
    decreases records.len(),
{
    if records.len() == 0 {
        state
    } else {
        after_record(after_records(state, records.drop_last()), records.last())
    }
}

/// Takes in some lines of a file.
pub fn apply_records(state: &mut SessionFileState, records: Vec<SessionRecord>)
    ensures
        final(state)@ == after_records(old(state)@, records@),
{
    let ghost first = state@;
    let ghost all = records@;
    for record in it: records
        invariant
            it.seq() == all,
            state@ == after_records(first, all.take(it.index())),
    {
        proof {
            assert(all.take(it.index() + 1).drop_last() =~= all.take(it.index()));
        }
        apply_record(state, record);
    }
    proof {
        assert(all.take(all.len() as int) == all);
    }
}

/// Some files with what is known of each.
pub type Files = Seq<(Seq<char>, FileView)>;

/// Whether files stand in the order of their names, each once.
pub open spec fn in_order(files: Files) -> bool {
    forall|i: int, j: int|
        0 <= i < j < files.len() ==> before(#[trigger] files[i].0, #[trigger] files[j].0)
}

/// How many files at the front come before a name.
pub open spec fn rank(files: Files, name: Seq<char>) -> nat
    decreases files.len(),
{
    if files.len() == 0 || !before(files[0].0, name) {
        0
    } else {
        1 + rank(files.drop_first(), name)
    }
}

/// What is known of a file.
pub open spec fn lookup(files: Files, name: Seq<char>) -> Option<FileView> {
    let i = rank(files, name) as int;
    if i < files.len() && files[i].0 == name {
        Some(files[i].1)
    } else {
        None
    }
}

/// The files with something else known of one of them.
pub open spec fn recorded(files: Files, name: Seq<char>, state: FileView) -> Files {
    let i = rank(files, name) as int;
    if i < files.len() && files[i].0 == name {
        files.update(i, (name, state))
    } else {
        files.insert(i, (name, state))
    }
}

/// Whether an identifier tells a review from others.
pub open spec fn identifies(review_id: Seq<char>) -> bool {
    review_id != UNKNOWN_REVIEW@
}

/// A complete review with the name of a file that holds it.
pub type Found = (Seq<char>, ReviewView);

/// Whether two reviews are one: they have the same identifier, and where that does not tell a
/// review from others they are in the same file.
pub open spec fn same_review(left: Found, right: Found) -> bool {
    left.1.review_id == right.1.review_id && (identifies(left.1.review_id) || left.0 == right.0)
}

/// Whether a file holds a review.
pub open spec fn holds(file: (Seq<char>, FileView), review: Found) -> bool {
    file.1.completion matches Some(summary) && same_review((file.0, summary), review)
}

/// What is known of a file once a review is notified.
pub open spec fn file_marked(file: (Seq<char>, FileView), review: Found) -> (Seq<char>, FileView) {
    if holds(file, review) {
        (file.0, FileView { notified: true, ..file.1 })
    } else {
        file
    }
}

/// The files once a review is notified.
pub open spec fn marked(files: Files, review: Found) -> Files {
    files.map_values(|file: (Seq<char>, FileView)| file_marked(file, review))
}

/// Whether some file holds a review.
pub open spec fn any_holds(files: Files, review: Found) -> bool {
    exists|i: int| 0 <= i < files.len() && #[trigger] holds(files[i], review)
}

/// Whether a file holds a review and it is notified.
pub open spec fn reports(file: (Seq<char>, FileView), review: Found) -> bool {
    holds(file, review) && file.1.notified
}

/// Whether a review is notified, whichever file holds it.
pub open spec fn reported(files: Files, review: Found) -> bool {
    exists|i: int| 0 <= i < files.len() && #[trigger] reports(files[i], review)
}

/// Whether the review in a file is to be notified: it is complete, and no file has it notified.
pub open spec fn is_due(files: Files, i: int) -> bool {
    files[i].1.completion matches Some(summary) && !reported(files, (files[i].0, summary))
}

/// The first review to be notified of the files from an index on.
pub open spec fn due_from(files: Files, i: int) -> Option<Found>
    decreases files.len() - i,
{
    if i < 0 || i >= files.len() {
        None
    } else if is_due(files, i) {
        Some((files[i].0, files[i].1.completion->0))
    } else {
        due_from(files, i + 1)
    }
}

/// Whether a review is among some.
pub open spec fn listed(reviews: Seq<Found>, review: Found) -> bool {
    exists|i: int| 0 <= i < reviews.len() && #[trigger] same_review(reviews[i], review)
}

/// The reviews to be notified of the first files, in their order and none twice.
pub open spec fn due_among(files: Files, n: int) -> Seq<Found>
    decreases n,
{
    if n <= 0 {
        Seq::empty()
    } else {
        let rest = due_among(files, n - 1);
        let found = (files[n - 1].0, files[n - 1].1.completion->0);
        if is_due(files, n - 1) && !listed(rest, found) {
            rest.push(found)
        } else {
            rest
        }
    }
}

/// The reviews to be notified, in the order of their files and none twice.
pub open spec fn due_reviews(files: Files) -> Seq<Found> {
    due_among(files, files.len() as int)
}

/// A review to be notified, with the name of the file that it was found in.
#[derive(Debug, PartialEq, Eq)]
pub struct PendingReview {
    pub file: String,
    pub summary: ReviewSummary,
}

impl View for PendingReview {
    type V = Found;

    open spec fn view(&self) -> Found {
        (self.file@, self.summary@)
    }
}

/// What some reviews came to.
pub open spec fn summaries(reviews: Seq<Found>) -> Seq<ReviewView> {
    reviews.map_values(|review: Found| review.1)
}

/// The views of some reviews with their files.
pub open spec fn pending_views(reviews: Seq<PendingReview>) -> Seq<Found> {
    reviews.map_values(|review: PendingReview| review@)
}

/// What is known of all session files.
pub struct WatcherState {
    files: Vec<(String, SessionFileState)>,
}

/// The views of some files.
pub open spec fn file_views(files: Seq<(String, SessionFileState)>) -> Files {
    files.map_values(|file: (String, SessionFileState)| (file.0@, file.1@))
}

impl View for WatcherState {
    type V = Files;

    closed spec fn view(&self) -> Files {
        file_views(self.files@)
    }
}

/// The rank is that of the first file that does not come before the name.
proof fn lemma_rank(files: Files, name: Seq<char>)
    ensures
        rank(files, name) <= files.len(),
        forall|i: int| 0 <= i < rank(files, name) ==> before(#[trigger] files[i].0, name),
        rank(files, name) < files.len() ==> !before(files[rank(files, name) as int].0, name),
    decreases files.len(),
{
    if files.len() > 0 && before(files[0].0, name) {
        let rest = files.drop_first();
        lemma_rank(rest, name);
        assert forall|i: int| 0 <= i < rank(files, name) implies before(
            #[trigger] files[i].0,
            name,
        ) by {
            if i > 0 {
                assert(files[i] == rest[i - 1]);
            }
        }
    }
}

/// A rank is known by what stands in front of it and at it.
proof fn lemma_rank_is(files: Files, name: Seq<char>, n: int)
    requires
        0 <= n <= files.len(),
        forall|i: int| 0 <= i < n ==> before(#[trigger] files[i].0, name),
        n < files.len() ==> !before(files[n].0, name),
    ensures
        rank(files, name) == n,
{
    lemma_rank(files, name);
    let r = rank(files, name) as int;
    if r < n {
        assert(before(files[r].0, name));
    } else if n < r {
        assert(before(files[n].0, name));
    }
}

/// In files that are in order, a name is found wherever it stands.
pub proof fn lemma_lookup(files: Files, i: int)
    requires
        in_order(files),
        0 <= i < files.len(),
    ensures
        rank(files, files[i].0) == i,
        lookup(files, files[i].0) == Some(files[i].1),
{
    lemma_before_irreflexive(files[i].0);
    lemma_rank_is(files, files[i].0, i);
}

/// What is found under a name stands there.
proof fn lemma_found(files: Files, name: Seq<char>) -> (i: int)
    requires
        lookup(files, name) is Some,
    ensures
        0 <= i < files.len(),
        files[i] == (name, lookup(files, name)->0),
{
    let i = rank(files, name) as int;
    i
}

/// Recording keeps files in order.
pub proof fn law_recording_keeps_order(files: Files, name: Seq<char>, state: FileView)
    requires
        in_order(files),
    ensures
        in_order(recorded(files, name, state)),
{
    let r = rank(files, name) as int;
    let after = recorded(files, name, state);
    lemma_rank(files, name);
    assert forall|i: int, j: int| 0 <= i < j < after.len() implies before(
        #[trigger] after[i].0,
        #[trigger] after[j].0,
    ) by {
        if r < files.len() && files[r].0 == name {
            assert(after[i].0 == files[i].0);
            assert(after[j].0 == files[j].0);
        } else {
            let left = if i < r {
                i
            } else {
                i - 1
            };
            let right = if j < r {
                j
            } else {
                j - 1
            };
            if i == r {
                assert(before(name, files[r].0)) by {
                    lemma_before_total(name, files[r].0);
                }
                assert(after[j] == files[right]);
                if right > r {
                    assert(before(files[r].0, files[right].0));
                    lemma_before_transitive(name, files[r].0, files[right].0);
                }
            } else if j == r {
                assert(after[i] == files[i]);
            } else {
                assert(after[i] == files[left]);
                assert(after[j] == files[right]);
            }
        }
    }
}

/// What was recorded of a file is found, and what is known of any other is as it was.
pub proof fn law_recorded_is_found(
    files: Files,
    name: Seq<char>,
    state: FileView,
    other: Seq<char>,
)
    requires
        in_order(files),
    ensures
        lookup(recorded(files, name, state), other) == if other == name {
            Some(state)
        } else {
            lookup(files, other)
        },
{
    let r = rank(files, name) as int;
    let after = recorded(files, name, state);
    lemma_rank(files, name);
    law_recording_keeps_order(files, name, state);
    assert(after[r] == (name, state));
    lemma_lookup(after, r);
    if other != name {
        let replaced = r < files.len() && files[r].0 == name;
        if lookup(files, other) is Some {
            let i = lemma_found(files, other);
            let at = if replaced || i < r {
                i
            } else {
                i + 1
            };
            assert(after[at] == files[i]);
            lemma_lookup(after, at);
            lemma_lookup(files, i);
        } else if lookup(after, other) is Some {
            let at = lemma_found(after, other);
            let i = if replaced || at < r {
                at
            } else {
                at - 1
            };
            assert(files[i] == after[at]);
            lemma_lookup(files, i);
        }
    }
}

/// The files that are known once each of some files is recorded in turn.
pub open spec fn restored(files: Files) -> Files
    decreases files.len(),
{
    if files.len() == 0 {
        Seq::empty()
    } else {
        recorded(restored(files.drop_last()), files.last().0, files.last().1)
    }
}

impl WatcherState {
    /// The files are in order.
    #[verifier::type_invariant]
    spec fn ordered(&self) -> bool {
        in_order(file_views(self.files@))
    }

    /// Nothing is known of any file.
    pub fn new() -> (state: Self)
        ensures
            state@ == Seq::<(Seq<char>, FileView)>::empty(),
    {
        let state = WatcherState { files: Vec::new() };
        proof {
            assert(state@ =~= Seq::empty());
        }
        state
    }

    /// Some files with what is known of each, of two with one name the later.
    pub fn from_files(files: Vec<(String, SessionFileState)>) -> (state: Self)
        ensures
            state@ == restored(file_views(files@)),
    {
        let ghost all = file_views(files@);
        let mut state = WatcherState::new();
        for file in it: files
            invariant
                it.seq() == files@,
                all == file_views(files@),
                state@ == restored(all.take(it.index())),
        {
            proof {
                assert(all.take(it.index() + 1).drop_last() =~= all.take(it.index()));
                assert(all[it.index()] == (file.0@, file.1@));
            }
            let (name, known) = file;
            state.insert(name.as_str(), known);
        }
        proof {
            assert(all.take(all.len() as int) == all);
        }
        state
    }

    /// The files in order, with what is known of each.
    pub fn files(&self) -> (files: &Vec<(String, SessionFileState)>)
        ensures
            file_views(files@) == self@,
            in_order(self@),
    {
        proof {
            use_type_invariant(self);
        }
        &self.files
    }

    /// Finds the place of a name.
    fn place(&self, name: &str) -> (i: usize)
        ensures
            i == rank(self@, name@),
            i <= self.files@.len(),
    {
        let ghost all = self@;
        let mut i: usize = 0;
        while i < self.files.len() && comes_before(self.files[i].0.as_str(), name)
            invariant
                i <= self.files.len(),
                all == file_views(self.files@),
                forall|k: int| 0 <= k < i ==> before(#[trigger] all[k].0, name@),
            decreases self.files.len() - i,
        {
            proof {
                assert(all[i as int].0 == self.files@[i as int].0@);
            }
            i = i + 1;
        }
        proof {
            if i < self.files.len() {
                assert(all[i as int].0 == self.files@[i as int].0@);
            }
            lemma_rank_is(all, name@, i as int);
        }
        i
    }

    /// Looks up what is known of a file.
    pub fn get(&self, name: &str) -> (result: Option<&SessionFileState>)
        ensures
            match result {
                Some(state) => lookup(self@, name@) == Some(state@),
                None => lookup(self@, name@) is None,
            },
    {
        let i = self.place(name);
        if i < self.files.len() && same_text(self.files[i].0.as_str(), name) {
            proof {
                assert(self@[i as int] == (self.files@[i as int].0@, self.files@[i as int].1@));
            }
            Some(&self.files[i].1)
        } else {
            proof {
                if i < self.files.len() {
                    assert(self@[i as int].0 == self.files@[i as int].0@);
                }
            }
            None
        }
    }

    /// Records what is known of a file.
    pub fn insert(&mut self, name: &str, state: SessionFileState)
        ensures
            final(self)@ == recorded(old(self)@, name@, state@),
    {
        let ghost known = self@;
        let ghost added = (name@, state@);
        let i = self.place(name);
        proof {
            use_type_invariant(&*self);
            law_recording_keeps_order(known, name@, state@);
        }
        let mut files: Vec<(String, SessionFileState)> = Vec::new();
        std::mem::swap(&mut files, &mut self.files);
        if i < files.len() && same_text(files[i].0.as_str(), name) {
            proof {
                assert(known[i as int].0 == files@[i as int].0@);
            }
            files.set(i, (name.to_owned(), state));
            proof {
                assert(file_views(files@) =~= known.update(i as int, added));
            }
        } else {
            proof {
                if i < files.len() {
                    assert(known[i as int].0 == files@[i as int].0@);
                }
            }
            files.insert(i, (name.to_owned(), state));
            proof {
                assert(file_views(files@) =~= known.insert(i as int, added));
            }
        }
        self.files = files;
    }

    /// Whether the review in a file is a given one.
    fn holds_at(&self, i: usize, review: &PendingReview) -> (result: bool)
        requires
            i < self@.len(),
        ensures
            result == holds(self@[i as int], review@),
    {
        proof {
            assert(self@[i as int] == (self.files@[i as int].0@, self.files@[i as int].1@));
        }
        match &self.files[i].1.completion {
            Some(summary) => is_same_review(self.files[i].0.as_str(), summary, review),
            None => false,
        }
    }

    /// Whether a review is notified, whichever file holds it.
    fn is_reported(&self, review: &PendingReview) -> (result: bool)
        ensures
            result == reported(self@, review@),
    {
        let ghost all = self@;
        let mut i: usize = 0;
        while i < self.files.len()
            invariant
                i <= self.files.len(),
                all == self@,
                all.len() == self.files@.len(),
                forall|k: int| 0 <= k < i ==> !#[trigger] reports(all[k], review@),
            decreases self.files.len() - i,
        {
            proof {
                assert(all[i as int].1 == self.files@[i as int].1@);
            }
            if self.files[i].1.notified && self.holds_at(i, review) {
                proof {
                    assert(reports(all[i as int], review@));
                }
                return true;
            }
            i = i + 1;
        }
        false
    }

    /// The review in a file, where it is to be notified.
    fn due_at(&self, i: usize) -> (result: Option<PendingReview>)
        requires
            i < self@.len(),
        ensures
            match result {
                Some(review) => is_due(self@, i as int) && review@ == (
                    self@[i as int].0,
                    self@[i as int].1.completion->0,
                ),
                None => !is_due(self@, i as int),
            },
    {
        proof {
            assert(self@[i as int] == (self.files@[i as int].0@, self.files@[i as int].1@));
        }
        match &self.files[i].1.completion {
            Some(summary) => {
                let review = PendingReview {
                    file: self.files[i].0.clone(),
                    summary: summary.clone(),
                };
                if self.is_reported(&review) {
                    None
                } else {
                    Some(review)
                }
            },
            None => None,
        }
    }

    /// Marks a review as notified in every file that holds it, and says whether one does.
    fn mark(&mut self, review: &PendingReview) -> (found: bool)
        ensures
            final(self)@ == marked(old(self)@, review@),
            found == any_holds(old(self)@, review@),
    {
        let ghost all = self@;
        let mut found = false;
        let mut files: Vec<(String, SessionFileState)> = Vec::new();
        proof {
            use_type_invariant(&*self);
            law_marking_keeps_order(all, review@);
        }
        std::mem::swap(&mut files, &mut self.files);
        let mut i: usize = 0;
        while i < files.len()
            invariant
                i <= files.len(),
                files@.len() == all.len(),
                forall|k: int|
                    0 <= k < all.len() ==> #[trigger] file_views(files@)[k] == if k < i {
                        file_marked(all[k], review@)
                    } else {
                        all[k]
                    },
                found == any_holds(all.take(i as int), review@),
            decreases all.len() - i,
        {
            let ghost earlier = files@;
            proof {
                assert(file_views(earlier)[i as int] == all[i as int]);
                lemma_any_holds_next(all, i as int, review@);
            }
            let matches = match &files[i].1.completion {
                Some(summary) => is_same_review(files[i].0.as_str(), summary, review),
                None => false,
            };
            if matches {
                let mut state = files[i].1.clone();
                state.notified = true;
                let name = files[i].0.clone();
                files.set(i, (name, state));
                found = true;
            }
            proof {
                assert forall|k: int| 0 <= k < all.len() implies #[trigger] file_views(
                    files@,
                )[k] == if k < i + 1 {
                    file_marked(all[k], review@)
                } else {
                    all[k]
                } by {
                    assert(file_views(earlier)[k] == if k < i {
                        file_marked(all[k], review@)
                    } else {
                        all[k]
                    });
                    if k != i {
                        assert(file_views(files@)[k] == file_views(earlier)[k]);
                    }
                }
            }
            i = i + 1;
        }
        proof {
            assert(all.take(all.len() as int) == all);
            assert(file_views(files@) =~= marked(all, review@));
        }
        self.files = files;
        found
    }
}

/// Whether the review in a file is a given one.
fn is_same_review(name: &str, summary: &ReviewSummary, review: &PendingReview) -> (result: bool)
    ensures
        result == same_review((name@, summary@), review@),
{
    let review_id = summary.review_id.as_str();
    same_text(review_id, review.summary.review_id.as_str()) && (!same_text(
        review_id,
        UNKNOWN_REVIEW,
    ) || same_text(name, review.file.as_str()))
}

/// Notifying a review keeps files in order.
pub proof fn law_marking_keeps_order(files: Files, review: Found)
    requires
        in_order(files),
    ensures
        in_order(marked(files, review)),
{
    let after = marked(files, review);
    assert forall|i: int, j: int| 0 <= i < j < after.len() implies before(
        #[trigger] after[i].0,
        #[trigger] after[j].0,
    ) by {
        assert(after[i].0 == files[i].0);
        assert(after[j].0 == files[j].0);
    }
}

/// Where to read on in a file of a given length.
pub open spec fn resumed_at(offset: u64, length: u64) -> u64 {
    if offset > length {
        0
    } else {
        offset
    }
}

/// Where to read on in a file of a given length: where it was left, or at its start once it
/// has become shorter.
pub fn resume_offset(offset: u64, length: u64) -> (result: u64)
    ensures
        result == resumed_at(offset, length),
        result == if offset > length {
            0
        } else {
            offset
        },
{
    if offset > length {
        0
    } else {
        offset
    }
}

/// The sum of two numbers, where 64 bits hold it.
pub open spec fn capped_sum(left: u64, right: nat) -> u64 {
    if left + right <= u64::MAX {
        (left + right) as u64
    } else {
        u64::MAX
    }
}

/// Where a file was left that was read from `start` on: past its last complete line.
pub open spec fn offset_after_read(start: u64, bytes: Seq<u8>) -> u64 {
    capped_sum(start, complete_bytes(bytes))
}

/// Adds two numbers.
fn add_capped(left: u64, right: usize) -> (result: u64)
    ensures
        result == capped_sum(left, right as nat),
{
    if right as u64 <= u64::MAX - left {
        left + right as u64
    } else {
        u64::MAX
    }
}

/// Finds where a file was left.
pub fn next_file_offset(start: u64, bytes: &[u8]) -> (result: u64)
    ensures
        result == offset_after_read(start, bytes@),
{
    add_capped(start, complete_length(bytes))
}

/// What is known of a file, or that it has not been read.
pub open spec fn known_or_unread(files: Files, name: Seq<char>) -> FileView {
    match lookup(files, name) {
        Some(state) => state,
        None => unread(),
    }
}

/// Whether a complete review is to be passed over in silence.
pub open spec fn silenced(state: FileView, suppress: bool) -> bool {
    suppress && state.completion is Some && !state.notified
}

/// What is known of a file after a read.
pub open spec fn file_after(
    state: FileView,
    start: u64,
    bytes: Seq<u8>,
    records: Seq<SessionRecord>,
    suppress: bool,
) -> FileView {
    let read = after_records(state, records);
    FileView {
        offset: offset_after_read(start, bytes),
        notified: read.notified || silenced(read, suppress),
        ..read
    }
}

/// What a watcher knows, and whether it has learnt something since it was last saved.
pub struct WatcherView {
    pub files: Files,
    pub dirty: bool,
}

impl WatcherView {
    /// What is known after a read of a file.
    pub open spec fn scanned(
        self,
        name: Seq<char>,
        start: u64,
        bytes: Seq<u8>,
        records: Seq<SessionRecord>,
        suppress: bool,
    ) -> WatcherView {
        let state = known_or_unread(self.files, name);
        let after = file_after(state, start, bytes, records, suppress);
        WatcherView {
            files: recorded(self.files, name, after),
            dirty: self.dirty || after.offset != state.offset || silenced(
                after_records(state, records),
                suppress,
            ),
        }
    }

    /// What is known after a review is notified.
    pub open spec fn notified(self, review: Found) -> WatcherView {
        WatcherView {
            files: marked(self.files, review),
            dirty: self.dirty || any_holds(self.files, review),
        }
    }
}

/// Watches session files.
pub struct ReviewWatcher {
    state: WatcherState,
    dirty: bool,
}

impl View for ReviewWatcher {
    type V = WatcherView;

    closed spec fn view(&self) -> WatcherView {
        WatcherView { files: self.state@, dirty: self.dirty }
    }
}

impl ReviewWatcher {
    /// Watches on from a saved state.
    pub fn new(state: WatcherState) -> (watcher: Self)
        ensures
            watcher@ == (WatcherView { files: state@, dirty: false }),
    {
        ReviewWatcher { state, dirty: false }
    }

    /// What is known of the files.
    pub fn state(&self) -> (state: &WatcherState)
        ensures
            state@ == self@.files,
            in_order(self@.files),
    {
        proof {
            use_type_invariant(&self.state);
        }
        &self.state
    }

    /// Whether there is something to save.
    pub fn is_dirty(&self) -> (dirty: bool)
        ensures
            dirty == self@.dirty,
    {
        self.dirty
    }

    /// Takes note that the state was saved.
    pub fn mark_saved(&mut self)
        ensures
            final(self)@ == (WatcherView { files: old(self)@.files, dirty: false }),
    {
        self.dirty = false;
    }

    /// Where a file was left.
    pub fn offset(&self, name: &str) -> (offset: u64)
        ensures
            offset == known_or_unread(self@.files, name@).offset,
    {
        match self.state.get(name) {
            Some(state) => state.offset,
            None => 0,
        }
    }

    /// Takes in what was read of a file: the bytes from `start` on, and the lines in them that
    /// are complete and are records.
    pub fn scan_file(
        &mut self,
        name: &str,
        start: u64,
        bytes: &[u8],
        records: Vec<SessionRecord>,
        suppress_notifications: bool,
    )
        ensures
            final(self)@ == old(self)@.scanned(
                name@,
                start,
                bytes@,
                records@,
                suppress_notifications,
            ),
    {
        let mut file_state = match self.state.get(name) {
            Some(state) => state.clone(),
            None => SessionFileState::default(),
        };
        let previous_offset: u64 = file_state.offset;
        apply_records(&mut file_state, records);
        let new_offset: u64 = next_file_offset(start, bytes);
        if previous_offset != new_offset {
            self.dirty = true;
        }
        file_state.offset = new_offset;
        if suppress_notifications && file_state.completion.is_some() && !file_state.notified {
            file_state.notified = true;
            self.dirty = true;
        }
        self.state.insert(name, file_state);
    }

    /// What the reviews to be notified came to, none of them twice.
    pub fn pending(&self) -> (result: Vec<ReviewSummary>)
        ensures
            review_views(result@) == summaries(due_reviews(self@.files)),
    {
        let reviews = self.pending_reviews();
        let ghost all = due_reviews(self@.files);
        let mut result: Vec<ReviewSummary> = Vec::new();
        let mut i: usize = 0;
        while i < reviews.len()
            invariant
                i <= reviews.len(),
                i == result.len(),
                all == pending_views(reviews@),
                forall|k: int| 0 <= k < i ==> (#[trigger] result@[k])@ == all[k].1,
            decreases reviews.len() - i,
        {
            proof {
                assert(all[i as int] == reviews@[i as int]@);
            }
            result.push(reviews[i].summary.clone());
            i = i + 1;
        }
        proof {
            assert(review_views(result@) =~= summaries(all));
        }
        result
    }

    /// The reviews to be notified, with their files and none twice.
    fn pending_reviews(&self) -> (result: Vec<PendingReview>)
        ensures
            pending_views(result@) == due_reviews(self@.files),
    {
        let ghost all = self.state@;
        let mut result: Vec<PendingReview> = Vec::new();
        let mut i: usize = 0;
        proof {
            assert(pending_views(result@) =~= Seq::<Found>::empty());
        }
        while i < self.state.files.len()
            invariant
                i <= self.state.files.len(),
                all == self.state@,
                all.len() == self.state.files@.len(),
                pending_views(result@) == due_among(all, i as int),
            decreases self.state.files.len() - i,
        {
            if let Some(review) = self.state.due_at(i) {
                if !is_listed(&result, &review) {
                    let ghost earlier = result@;
                    let ghost added = review@;
                    result.push(review);
                    proof {
                        assert(pending_views(result@) =~= pending_views(earlier).push(added));
                    }
                }
            }
            i = i + 1;
        }
        result
    }

    /// The review to be notified next.
    pub fn next_pending(&self) -> (result: Option<PendingReview>)
        ensures
            match result {
                Some(review) => due_from(self@.files, 0) == Some(review@),
                None => due_from(self@.files, 0) is None,
            },
    {
        let ghost all = self.state@;
        let mut i: usize = 0;
        while i < self.state.files.len()
            invariant
                i <= self.state.files.len(),
                all == self.state@,
                all.len() == self.state.files@.len(),
                due_from(all, 0) == due_from(all, i as int),
            decreases self.state.files.len() - i,
        {
            if let Some(review) = self.state.due_at(i) {
                return Some(review);
            }
            i = i + 1;
        }
        None
    }

    /// Takes note that a review was notified.
    pub fn mark_notified(&mut self, review: &PendingReview)
        ensures
            final(self)@ == old(self)@.notified(review@),
    {
        let found = self.state.mark(review);
        if found {
            self.dirty = true;
        }
    }

    /// Takes in how the notification of a review went: it counts as notified once it is sent,
    /// and a failure ends the sending for now.
    pub fn after_send(&mut self, review: &PendingReview, sent: Result<(), TelegramError>) -> (
        result: Result<(), AppError>)
        ensures
            match sent {
                Ok(_) => {
                    &&& final(self)@ == old(self)@.notified(review@)
                    &&& outcome(result) == Ok::<(), AppErrorView>(())
                },
                Err(error) => {
                    &&& final(self)@ == old(self)@
                    &&& outcome(result) == Err::<(), AppErrorView>(delivery_failure(error@))
                },
            },
    {
        match sent {
            Ok(()) => {
                self.mark_notified(review);
                Ok(())
            },
            Err(error) => Err(telegram_failure(&error)),
        }
    }
}

/// Whether a review is among some.
fn is_listed(reviews: &Vec<PendingReview>, review: &PendingReview) -> (result: bool)
    ensures
        result == listed(pending_views(reviews@), review@),
{
    let ghost all = pending_views(reviews@);
    let mut i: usize = 0;
    while i < reviews.len()
        invariant
            i <= reviews.len(),
            all == pending_views(reviews@),
            forall|k: int| 0 <= k < i ==> !#[trigger] same_review(all[k], review@),
        decreases reviews.len() - i,
    {
        proof {
            assert(all[i as int] == reviews@[i as int]@);
        }
        if is_same_review(reviews[i].file.as_str(), &reviews[i].summary, review) {
            proof {
                assert(same_review(all[i as int], review@));
            }
            return true;
        }
        i = i + 1;
    }
    false
}

/// Whether a file among the first holds a review, with one file more.
proof fn lemma_any_holds_next(files: Files, i: int, review: Found)
    requires
        0 <= i < files.len(),
    ensures
        any_holds(files.take(i + 1), review) == (any_holds(files.take(i), review) || holds(
            files[i],
            review,
        )),
{
    let fewer = files.take(i);
    let more = files.take(i + 1);
    if any_holds(fewer, review) {
        let k = choose|k: int| 0 <= k < fewer.len() && #[trigger] holds(fewer[k], review);
        assert(holds(more[k], review));
    }
    if holds(files[i], review) {
        assert(holds(more[i], review));
    }
    if any_holds(more, review) {
        let k = choose|k: int| 0 <= k < more.len() && #[trigger] holds(more[k], review);
        if k < i {
            assert(holds(fewer[k], review));
        }
    }
}

/// The message that notifies a review.
pub open spec fn review_message(summary: ReviewView, config: RuntimeView) -> SendMessageView {
    SendMessageView {
        chat_id: config.chat_id,
        text: truncated(
            review_notification(
                project_of(summary.cwd),
                summary.model,
                summary.effort,
                summary.findings,
                None,
                summary.explanation,
            ),
            config.max_length as nat,
        ),
        disable_notification: config.silent,
    }
}

/// Writes the message that notifies a review.
pub fn review_request(summary: &ReviewSummary, config: &RuntimeConfig) -> (request:
    SendMessageRequest)
    ensures
        request@ == review_message(summary@, config@),
{
    let text = build_review_notification(
        as_deref(&summary.cwd),
        as_deref(&summary.model),
        as_deref(&summary.effort),
        summary.findings,
        as_deref(&summary.explanation),
        config.max_length,
    );
    SendMessageRequest { chat_id: config.chat_id, text, disable_notification: config.silent }
}

/// Whether a file name is that of a session file.
pub open spec fn names_session(name: Seq<char>) -> bool {
    begins(name, "rollout-"@) && ends(name, ".jsonl"@)
}

/// Whether a file name is that of a session file.
pub fn is_session_file_name(name: &str) -> (result: bool)
    ensures
        result == names_session(name@),
        result == (begins(name@, "rollout-"@) && ends(name@, ".jsonl"@)),
{
    starts_with(name, "rollout-") && ends_with(name, ".jsonl")
}

/// The records among some lines.
pub open spec fn decoded(
    lines: Seq<Seq<u8>>,
    decode: spec_fn(Seq<u8>) -> Option<SessionRecord>,
) -> Seq<SessionRecord>
    decreases lines.len(),
{
    if lines.len() == 0 {
        Seq::empty()
    } else {
        let rest = decoded(lines.drop_last(), decode);
        match decode(lines.last()) {
            Some(record) => rest.push(record),
            None => rest,
        }
    }
}

/// The records of two runs of lines are those of the one and then those of the other.
proof fn lemma_decoded_in_parts(
    first: Seq<Seq<u8>>,
    second: Seq<Seq<u8>>,
    decode: spec_fn(Seq<u8>) -> Option<SessionRecord>,
)
    ensures
        decoded(first + second, decode) == decoded(first, decode) + decoded(second, decode),
    decreases second.len(),
{
    if second.len() == 0 {
        assert(first + second =~= first);
        assert(decoded(first, decode) + decoded(second, decode) =~= decoded(first, decode));
    } else {
        lemma_decoded_in_parts(first, second.drop_last(), decode);
        assert((first + second).drop_last() =~= first + second.drop_last());
        assert(decoded(first + second, decode) =~= decoded(first, decode) + decoded(
            second,
            decode,
        ));
    }
}

/// Two runs of records are taken in one after the other.
proof fn lemma_records_in_parts(
    state: FileView,
    first: Seq<SessionRecord>,
    second: Seq<SessionRecord>,
)
    ensures
        after_records(state, first + second) == after_records(after_records(state, first), second),
    decreases second.len(),
{
    if second.len() == 0 {
        assert(first + second =~= first);
    } else {
        lemma_records_in_parts(state, first, second.drop_last());
        assert((first + second).drop_last() =~= first + second.drop_last());
    }
}

/// A file that is read in two parts, the second from where the first left it, is left where
/// one read of the whole leaves it and is known as well, whatever a line is decoded to. That
/// holds wherever the first read starts, so also at the start of a file that became shorter.
pub proof fn law_reading_in_parts(
    state: FileView,
    start: u64,
    first: Seq<u8>,
    second: Seq<u8>,
    decode: spec_fn(Seq<u8>) -> Option<SessionRecord>,
)
    requires
        start + first.len() + second.len() <= u64::MAX,
    ensures
        ({
            let once = file_after(
                state,
                start,
                first + second,
                decoded(lines(first + second), decode),
                false,
            );
            let half = file_after(state, start, first, decoded(lines(first), decode), false);
            let rest = open_line(first) + second;
            let twice = file_after(
                half,
                half.offset,
                rest,
                decoded(lines(rest), decode),
                false,
            );
            &&& half.offset == start + complete_bytes(first)
            &&& once.offset == start + complete_bytes(first + second)
            &&& twice == once
        }),
{
    let rest = open_line(first) + second;
    law_lines_in_two_reads(first, second);
    lemma_complete_and_open(first);
    lemma_complete_and_open(rest);
    lemma_complete_and_open(first + second);
    lemma_decoded_in_parts(lines(first), lines(rest), decode);
    let records = decoded(lines(first), decode);
    let more = decoded(lines(rest), decode);
    lemma_records_in_parts(state, records, more);
    let half = file_after(state, start, first, records, false);
    lemma_offset_is_carried(after_records(state, records), more, half.offset);
    assert(half == (FileView { offset: half.offset, ..after_records(state, records) }));
}

/// Records neither read nor change how far a file was read.
proof fn lemma_offset_is_carried(state: FileView, records: Seq<SessionRecord>, offset: u64)
    ensures
        after_records(FileView { offset, ..state }, records) == (FileView {
            offset,
            ..after_records(state, records)
        }),
    decreases records.len(),
{
    if records.len() > 0 {
        lemma_offset_is_carried(state, records.drop_last(), offset);
    }
}

/// A complete review stays complete as it is, and no record changes whether it is notified.
pub proof fn law_completion_is_kept(state: FileView, records: Seq<SessionRecord>)
    ensures
        state.completion is Some ==> after_records(state, records).completion == state.completion,
        after_records(state, records).notified == state.notified,
    decreases records.len(),
{
    if records.len() > 0 {
        law_completion_is_kept(state, records.drop_last());
    }
}

/// Whether a record describes a session that was started to review.
pub open spec fn opens_review(record: SessionRecord) -> bool {
    &&& record.record_type@ == "session_meta"@
    &&& record.payload matches Some(payload) && (payload.meta matches Some(meta) && reviews(meta))
}

/// A session that was not started to review never counts as a review, whatever completes in
/// it.
pub proof fn law_other_sessions_are_ignored(records: Seq<SessionRecord>)
    requires
        forall|i: int| 0 <= i < records.len() ==> !opens_review(#[trigger] records[i]),
    ensures
        after_records(unread(), records) == unread(),
    decreases records.len(),
{
    if records.len() > 0 {
        let rest = records.drop_last();
        assert forall|i: int| 0 <= i < rest.len() implies !opens_review(#[trigger] rest[i]) by {
            assert(rest[i] == records[i]);
        }
        law_other_sessions_are_ignored(rest);
        assert(!opens_review(records[records.len() - 1]));
    }
}

/// Whether a review is owed: some file holds it complete, and no file has it notified.
pub open spec fn owed(files: Files, review: Found) -> bool {
    any_holds(files, review) && !reported(files, review)
}

/// Whether a review is notified is one question for it and for any that is the same.
proof fn lemma_same_reported(files: Files, left: Found, right: Found)
    requires
        same_review(left, right),
        reported(files, left),
    ensures
        reported(files, right),
{
    let i = choose|i: int| 0 <= i < files.len() && #[trigger] reports(files[i], left);
    assert(reports(files[i], right));
}

/// Whether a review is among some is one question for it and for any that is the same.
proof fn lemma_same_listed(reviews: Seq<Found>, left: Found, right: Found)
    requires
        same_review(left, right),
        listed(reviews, left),
    ensures
        listed(reviews, right),
{
    let i = choose|i: int| 0 <= i < reviews.len() && #[trigger] same_review(reviews[i], left);
    assert(same_review(reviews[i], right));
}

/// A review is among those to be notified of the first files exactly where one of them holds
/// it and it is not notified.
proof fn lemma_due_among(files: Files, n: int, review: Found)
    requires
        0 <= n <= files.len(),
    ensures
        listed(due_among(files, n), review) <==> any_holds(files.take(n), review) && !reported(
            files,
            review,
        ),
    decreases n,
{
    if n == 0 {
        assert(due_among(files, n).len() == 0);
    } else {
        let rest = due_among(files, n - 1);
        let all = due_among(files, n);
        let found = (files[n - 1].0, files[n - 1].1.completion->0);
        lemma_due_among(files, n - 1, review);
        lemma_any_holds_next(files, n - 1, review);
        if listed(rest, review) {
            let k = choose|k: int| 0 <= k < rest.len() && #[trigger] same_review(rest[k], review);
            assert(same_review(all[k], review));
        }
        if holds(files[n - 1], review) && !reported(files, review) {
            if reported(files, found) {
                lemma_same_reported(files, found, review);
            }
            if listed(rest, found) {
                lemma_same_listed(rest, found, review);
            } else {
                assert(same_review(all[rest.len() as int], review));
            }
        }
        if listed(all, review) && !listed(rest, review) {
            let k = choose|k: int| 0 <= k < all.len() && #[trigger] same_review(all[k], review);
            if k < rest.len() {
                assert(same_review(rest[k], review));
            } else if reported(files, review) {
                lemma_same_reported(files, review, found);
            }
        }
    }
}

/// A review is pending exactly where it is owed, whichever and however many files hold it.
pub proof fn law_pending_reviews_are_owed(files: Files, review: Found)
    ensures
        listed(due_reviews(files), review) <==> owed(files, review),
{
    lemma_due_among(files, files.len() as int, review);
    assert(files.take(files.len() as int) == files);
}

/// Of two files in order that have the same name, one is the other.
proof fn lemma_names_differ(files: Files, i: int, j: int)
    requires
        in_order(files),
        0 <= i < files.len(),
        0 <= j < files.len(),
        files[i].0 == files[j].0,
    ensures
        i == j,
{
    lemma_before_irreflexive(files[i].0);
    if i < j {
        assert(before(files[i].0, files[j].0));
    } else if j < i {
        assert(before(files[j].0, files[i].0));
    }
}

/// A review whose identifier does not tell it from others is pending until it is notified
/// itself: no other review, whether it has an identifier or not, stands in for it.
pub proof fn law_unidentified_review_stands_alone(files: Files, i: int)
    requires
        in_order(files),
        0 <= i < files.len(),
        files[i].1.completion matches Some(summary) && !identifies(summary.review_id),
    ensures
        listed(due_reviews(files), (files[i].0, files[i].1.completion->0))
            <==> !files[i].1.notified,
        is_due(files, i) <==> !files[i].1.notified,
{
    let found = (files[i].0, files[i].1.completion->0);
    assert(holds(files[i], found));
    if reported(files, found) {
        let k = choose|k: int| 0 <= k < files.len() && #[trigger] reports(files[k], found);
        lemma_names_differ(files, i, k);
    }
    if files[i].1.notified {
        assert(reports(files[i], found));
    }
    law_pending_reviews_are_owed(files, found);
}

/// A review whose identifier tells it from others is pending exactly where no file that holds
/// a review with that identifier has it notified.
pub proof fn law_identified_review_is_known_by_it(files: Files, i: int)
    requires
        0 <= i < files.len(),
        files[i].1.completion matches Some(summary) && identifies(summary.review_id),
    ensures
        listed(due_reviews(files), (files[i].0, files[i].1.completion->0)) <==> forall|k: int|
            0 <= k < files.len() && (#[trigger] files[k]).1.notified ==> !(
            files[k].1.completion matches Some(other) && other.review_id
                == files[i].1.completion->0.review_id),
        is_due(files, i) <==> listed(
            due_reviews(files),
            (files[i].0, files[i].1.completion->0),
        ),
{
    let found = (files[i].0, files[i].1.completion->0);
    assert(holds(files[i], found));
    if reported(files, found) {
        let k = choose|k: int| 0 <= k < files.len() && #[trigger] reports(files[k], found);
        assert(files[k].1.notified);
    } else {
        assert forall|k: int| 0 <= k < files.len() && (#[trigger] files[k]).1.notified implies !(
        files[k].1.completion matches Some(other) && other.review_id == found.1.review_id) by {
            assert(!reports(files[k], found));
        }
    }
    law_pending_reviews_are_owed(files, found);
}

/// Each review to be notified of the first files is the one that the named file holds.
proof fn lemma_due_is_held(files: Files, n: int, k: int) -> (i: int)
    requires
        0 <= n <= files.len(),
        0 <= k < due_among(files, n).len(),
    ensures
        0 <= i < n,
        is_due(files, i),
        due_among(files, n)[k] == (files[i].0, files[i].1.completion->0),
    decreases n,
{
    let rest = due_among(files, n - 1);
    if k < rest.len() {
        lemma_due_is_held(files, n - 1, k)
    } else {
        n - 1
    }
}

/// Each pending review is the complete review of the file that it names.
pub proof fn law_pending_review_is_of_its_file(files: Files, k: int)
    requires
        0 <= k < due_reviews(files).len(),
    ensures
        exists|i: int|
            0 <= i < files.len() && (#[trigger] files[i]).0 == due_reviews(files)[k].0
                && files[i].1.completion == Some(due_reviews(files)[k].1),
{
    let i = lemma_due_is_held(files, files.len() as int, k);
    assert(files[i].0 == due_reviews(files)[k].0);
}

/// Among the reviews to be notified of the first files no two are the same.
proof fn lemma_due_once(files: Files, n: int, i: int, j: int)
    requires
        0 <= i < j < due_among(files, n).len(),
    ensures
        !same_review(due_among(files, n)[i], due_among(files, n)[j]),
    decreases n,
{
    let rest = due_among(files, n - 1);
    let all = due_among(files, n);
    if j < rest.len() {
        lemma_due_once(files, n - 1, i, j);
    } else {
        assert(all[i] == rest[i]);
        assert(!same_review(rest[i], all[j]));
    }
}

/// No review is pending twice.
pub proof fn law_pending_once(files: Files, i: int, j: int)
    requires
        0 <= i < j < due_reviews(files).len(),
    ensures
        !same_review(due_reviews(files)[i], due_reviews(files)[j]),
{
    lemma_due_once(files, files.len() as int, i, j);
}

/// The first of the reviews to be notified does not depend on how many files are looked at
/// after it.
proof fn lemma_next_is_first(files: Files, i: int)
    requires
        0 <= i <= files.len(),
        due_among(files, i).len() == 0,
    ensures
        due_from(files, i) == if due_reviews(files).len() > 0 {
            Some(due_reviews(files)[0])
        } else {
            None
        },
    decreases files.len() - i,
{
    if i < files.len() {
        if is_due(files, i) {
            assert(due_among(files, i + 1) =~= seq![(files[i].0, files[i].1.completion->0)]);
            lemma_first_stays(files, i + 1, files.len() as int);
        } else {
            lemma_next_is_first(files, i + 1);
        }
    }
}

/// What is first among the reviews of some files is first among those of more files.
proof fn lemma_first_stays(files: Files, n: int, m: int)
    requires
        0 <= n <= m <= files.len(),
        due_among(files, n).len() > 0,
    ensures
        due_among(files, m).len() > 0,
        due_among(files, m)[0] == due_among(files, n)[0],
    decreases m,
{
    if n < m {
        lemma_first_stays(files, n, m - 1);
    }
}

/// The review to be notified next is the first of the pending ones, and there is one where any
/// is pending.
pub proof fn law_next_is_first_pending(files: Files)
    ensures
        due_from(files, 0) == if due_reviews(files).len() > 0 {
            Some(due_reviews(files)[0])
        } else {
            None
        },
{
    lemma_next_is_first(files, 0);
}

/// Marking a review marks it where it is held, and leaves all others as they are.
proof fn lemma_marked(files: Files, review: Found, other: Found)
    ensures
        any_holds(marked(files, review), other) == any_holds(files, other),
        reported(marked(files, review), other) == if same_review(review, other) {
            any_holds(files, other)
        } else {
            reported(files, other)
        },
{
    let after = marked(files, review);
    assert(forall|i: int|
        0 <= i < files.len() ==> #[trigger] after[i] == file_marked(files[i], review));
    assert(forall|i: int|
        0 <= i < files.len() ==> holds(#[trigger] after[i], other) == holds(files[i], other));
    if any_holds(files, other) {
        let i = choose|i: int| 0 <= i < files.len() && #[trigger] holds(files[i], other);
        assert(holds(after[i], other));
        if same_review(review, other) {
            assert(reports(after[i], other));
        }
    }
    if any_holds(after, other) {
        let i = choose|i: int| 0 <= i < after.len() && #[trigger] holds(after[i], other);
        assert(holds(files[i], other));
    }
    if reported(files, other) {
        let i = choose|i: int| 0 <= i < files.len() && #[trigger] reports(files[i], other);
        assert(reports(after[i], other));
        assert(holds(files[i], other));
    }
    if reported(after, other) {
        let i = choose|i: int| 0 <= i < after.len() && #[trigger] reports(after[i], other);
        assert(holds(files[i], other));
        if !same_review(review, other) {
            assert(reports(files[i], other));
        }
    }
}

/// Sending a review settles it, in however many files it is, and leaves every other review
/// pending that was.
pub proof fn law_sending_settles_one_review(watcher: WatcherView, review: Found, other: Found)
    ensures
        listed(due_reviews(watcher.notified(review).files), other) <==> !same_review(review, other)
            && listed(due_reviews(watcher.files), other),
{
    lemma_marked(watcher.files, review, other);
    law_pending_reviews_are_owed(watcher.files, other);
    law_pending_reviews_are_owed(watcher.notified(review).files, other);
}

/// What a watcher goes through.
pub enum WatchStep {
    /// A file is read.
    Read {
        name: Seq<char>,
        start: u64,
        bytes: Seq<u8>,
        records: Seq<SessionRecord>,
        suppress: bool,
    },
    /// A review is notified.
    Sent { review: Found },
    /// The watcher is stopped, its state saved, and started again with what was saved.
    Restarted,
}

impl WatcherView {
    /// What is known after a step.
    pub open spec fn after_step(self, step: WatchStep) -> WatcherView {
        match step {
            WatchStep::Read { name, start, bytes, records, suppress } => self.scanned(
                name,
                start,
                bytes,
                records,
                suppress,
            ),
            WatchStep::Sent { review } => self.notified(review),
            WatchStep::Restarted => WatcherView { files: restored(self.files), dirty: false },
        }
    }

    /// What is known after some steps.
    pub open spec fn after_steps(self, steps: Seq<WatchStep>) -> WatcherView
        decreases steps.len(),
    {
        if steps.len() == 0 {
            self
        } else {
            self.after_steps(steps.drop_last()).after_step(steps.last())
        }
    }

    /// A watcher with no saved state.
    pub open spec fn fresh() -> WatcherView {
        WatcherView { files: Seq::empty(), dirty: false }
    }
}

/// Files that are saved and recorded again are the same files.
pub proof fn law_saved_files_are_restored(files: Files)
    requires
        in_order(files),
    ensures
        restored(files) == files,
    decreases files.len(),
{
    if files.len() == 0 {
        assert(files =~= Seq::empty());
    } else {
        let fewer = files.drop_last();
        let last = files.last();
        assert forall|i: int, j: int| 0 <= i < j < fewer.len() implies before(
            #[trigger] fewer[i].0,
            #[trigger] fewer[j].0,
        ) by {
            assert(fewer[i] == files[i] && fewer[j] == files[j]);
        }
        law_saved_files_are_restored(fewer);
        assert forall|i: int| 0 <= i < fewer.len() implies before(
            #[trigger] fewer[i].0,
            last.0,
        ) by {
            assert(fewer[i] == files[i]);
            assert(before(files[i].0, files[files.len() - 1].0));
        }
        lemma_rank_is(fewer, last.0, fewer.len() as int);
        assert(fewer.insert(fewer.len() as int, last) =~= files);
    }
}

/// Every step keeps files in order.
pub proof fn law_steps_keep_order(watcher: WatcherView, steps: Seq<WatchStep>)
    requires
        in_order(watcher.files),
    ensures
        in_order(watcher.after_steps(steps).files),
    decreases steps.len(),
{
    if steps.len() > 0 {
        let earlier = watcher.after_steps(steps.drop_last());
        law_steps_keep_order(watcher, steps.drop_last());
        match steps.last() {
            WatchStep::Read { name, start, bytes, records, suppress } => {
                let state = known_or_unread(earlier.files, name);
                law_recording_keeps_order(
                    earlier.files,
                    name,
                    file_after(state, start, bytes, records, suppress),
                );
            },
            WatchStep::Sent { review } => {
                law_marking_keeps_order(earlier.files, review);
            },
            WatchStep::Restarted => {
                law_saved_files_are_restored(earlier.files);
            },
        }
    }
}

/// A review that is notified stays so when a file is read.
proof fn lemma_read_keeps_reported(
    watcher: WatcherView,
    name: Seq<char>,
    start: u64,
    bytes: Seq<u8>,
    records: Seq<SessionRecord>,
    suppress: bool,
    review: Found,
)
    requires
        reported(watcher.files, review),
    ensures
        reported(watcher.scanned(name, start, bytes, records, suppress).files, review),
{
    let files = watcher.files;
    let state = known_or_unread(files, name);
    let after = file_after(state, start, bytes, records, suppress);
    let recorded_files = recorded(files, name, after);
    let i = choose|i: int| 0 <= i < files.len() && #[trigger] reports(files[i], review);
    let r = rank(files, name) as int;
    lemma_rank(files, name);
    law_completion_is_kept(state, records);
    let replaced = r < files.len() && files[r].0 == name;
    if replaced && i == r {
        assert(state == files[i].1);
        assert(reports(recorded_files[i], review));
    } else if replaced || i < r {
        assert(recorded_files[i] == files[i]);
        assert(reports(recorded_files[i], review));
    } else {
        assert(recorded_files[i + 1] == files[i]);
        assert(reports(recorded_files[i + 1], review));
    }
}

/// A review that is notified stays so, through any number of reads, sends and restarts.
proof fn lemma_steps_keep_reported(watcher: WatcherView, steps: Seq<WatchStep>, review: Found)
    requires
        in_order(watcher.files),
        reported(watcher.files, review),
    ensures
        reported(watcher.after_steps(steps).files, review),
    decreases steps.len(),
{
    if steps.len() > 0 {
        let earlier = watcher.after_steps(steps.drop_last());
        lemma_steps_keep_reported(watcher, steps.drop_last(), review);
        match steps.last() {
            WatchStep::Read { name, start, bytes, records, suppress } => {
                lemma_read_keeps_reported(earlier, name, start, bytes, records, suppress, review);
            },
            WatchStep::Sent { review: sent } => {
                let i = choose|i: int|
                    0 <= i < earlier.files.len() && #[trigger] reports(earlier.files[i], review);
                assert(holds(earlier.files[i], review));
                lemma_marked(earlier.files, sent, review);
            },
            WatchStep::Restarted => {
                law_steps_keep_order(watcher, steps.drop_last());
                law_saved_files_are_restored(earlier.files);
            },
        }
    }
}

/// A review is notified once: after it was sent, it is not pending again, whatever is read,
/// sent or restarted later, and in whichever file its identifier turns up.
pub proof fn law_review_is_notified_once(
    watcher: WatcherView,
    review: Found,
    later: Seq<WatchStep>,
)
    requires
        in_order(watcher.files),
        listed(due_reviews(watcher.files), review),
    ensures
        !listed(due_reviews(watcher.notified(review).after_steps(later).files), review),
{
    let sent = watcher.notified(review);
    law_pending_reviews_are_owed(watcher.files, review);
    lemma_marked(watcher.files, review, review);
    law_marking_keeps_order(watcher.files, review);
    lemma_steps_keep_reported(sent, later, review);
    law_pending_reviews_are_owed(sent.after_steps(later).files, review);
}

/// Some reviews without a given one.
pub open spec fn without(reviews: Seq<Found>, review: Found) -> Seq<Found>
    decreases reviews.len(),
{
    if reviews.len() == 0 {
        Seq::empty()
    } else {
        let rest = without(reviews.drop_last(), review);
        if same_review(reviews.last(), review) {
            rest
        } else {
            rest.push(reviews.last())
        }
    }
}

/// Taking a review out leaves fewer, where it is there, and leaves all others.
proof fn lemma_without(reviews: Seq<Found>, review: Found, other: Found)
    ensures
        without(reviews, review).len() <= reviews.len(),
        listed(reviews, review) ==> without(reviews, review).len() < reviews.len(),
        listed(without(reviews, review), other) <==> !same_review(review, other) && listed(
            reviews,
            other,
        ),
    decreases reviews.len(),
{
    if reviews.len() > 0 {
        let fewer = reviews.drop_last();
        let rest = without(fewer, review);
        let all = without(reviews, review);
        let last = reviews[reviews.len() - 1];
        lemma_without(fewer, review, other);
        if listed(reviews, review) && !same_review(last, review) {
            let k = choose|k: int|
                0 <= k < reviews.len() && #[trigger] same_review(reviews[k], review);
            assert(same_review(fewer[k], review));
        }
        if listed(all, other) {
            let k = choose|k: int| 0 <= k < all.len() && #[trigger] same_review(all[k], other);
            if k < rest.len() {
                assert(same_review(rest[k], other));
                assert(listed(rest, other));
                let m = choose|m: int|
                    0 <= m < fewer.len() && #[trigger] same_review(fewer[m], other);
                assert(same_review(reviews[m], other));
            } else {
                assert(same_review(last, other));
                assert(same_review(reviews[reviews.len() - 1], other));
            }
        }
        if listed(reviews, other) && !same_review(review, other) {
            let k = choose|k: int|
                0 <= k < reviews.len() && #[trigger] same_review(reviews[k], other);
            if k < fewer.len() {
                assert(same_review(fewer[k], other));
                let m = choose|m: int|
                    0 <= m < rest.len() && #[trigger] same_review(rest[m], other);
                assert(same_review(all[m], other));
            } else {
                assert(same_review(all[rest.len() as int], other));
            }
        }
    }
}

/// Once a review is notified, what is pending of the first files is what was, without it.
proof fn lemma_due_after_send(files: Files, review: Found, n: int)
    requires
        0 <= n <= files.len(),
    ensures
        due_among(marked(files, review), n) == without(due_among(files, n), review),
    decreases n,
{
    if n > 0 {
        let after = marked(files, review);
        let rest = due_among(files, n - 1);
        lemma_due_after_send(files, review, n - 1);
        assert(after[n - 1] == file_marked(files[n - 1], review));
        if let Some(summary) = files[n - 1].1.completion {
            let found = (files[n - 1].0, summary);
            assert(holds(files[n - 1], found));
            lemma_marked(files, review, found);
            lemma_without(rest, review, found);
            if is_due(files, n - 1) && !listed(rest, found) {
                assert(rest.push(found).drop_last() =~= rest);
            }
        }
    }
}

/// Each review that is sent leaves fewer pending, and the others in their order: sending one
/// after the other comes to an end.
pub proof fn law_sending_makes_progress(watcher: WatcherView, review: Found)
    requires
        listed(due_reviews(watcher.files), review),
    ensures
        due_reviews(watcher.notified(review).files) == without(due_reviews(watcher.files), review),
        due_reviews(watcher.notified(review).files).len() < due_reviews(watcher.files).len(),
{
    lemma_due_after_send(watcher.files, review, watcher.files.len() as int);
    lemma_without(due_reviews(watcher.files), review, review);
}

/// Taking the first of some reviews out leaves the rest, where no other is the same.
proof fn lemma_without_first(reviews: Seq<Found>)
    requires
        reviews.len() > 0,
        forall|i: int|
            0 < i < reviews.len() ==> !same_review(#[trigger] reviews[i], reviews[0]),
    ensures
        without(reviews, reviews[0]) == reviews.drop_first(),
    decreases reviews.len(),
{
    let fewer = reviews.drop_last();
    if reviews.len() == 1 {
        assert(without(fewer, reviews[0]) =~= Seq::empty());
        assert(reviews.drop_first() =~= Seq::empty());
    } else {
        assert forall|i: int| 0 < i < fewer.len() implies !same_review(
            #[trigger] fewer[i],
            fewer[0],
        ) by {
            assert(fewer[i] == reviews[i]);
        }
        lemma_without_first(fewer);
        assert(!same_review(reviews[reviews.len() - 1], reviews[0]));
        assert(fewer.drop_first().push(reviews.last()) =~= reviews.drop_first());
    }
}

/// The review that is sent next is the only one that stops being pending: those behind it stay
/// as they are, and the one behind it is next.
pub proof fn law_sending_the_next_leaves_the_rest(watcher: WatcherView)
    requires
        due_reviews(watcher.files).len() > 0,
    ensures
        due_reviews(watcher.notified(due_reviews(watcher.files)[0]).files) == due_reviews(
            watcher.files,
        ).drop_first(),
{
    let all = due_reviews(watcher.files);
    assert forall|i: int| 0 < i < all.len() implies !same_review(#[trigger] all[i], all[0]) by {
        law_pending_once(watcher.files, 0, i);
    }
    lemma_without_first(all);
    lemma_due_after_send(watcher.files, all[0], watcher.files.len() as int);
}

/// Whether no file holds a complete review that is not notified.
pub open spec fn all_settled(files: Files) -> bool {
    forall|i: int|
        0 <= i < files.len() ==> ((#[trigger] files[i]).1.completion is Some
            ==> files[i].1.notified)
}

/// Where every complete review is notified, none is pending.
proof fn lemma_settled_has_none_pending(files: Files, n: int)
    requires
        all_settled(files),
        0 <= n <= files.len(),
    ensures
        due_among(files, n).len() == 0,
    decreases n,
{
    if n > 0 {
        lemma_settled_has_none_pending(files, n - 1);
        if let Some(summary) = files[n - 1].1.completion {
            assert(files[n - 1].1.notified);
            assert(reports(files[n - 1], (files[n - 1].0, summary)));
        }
    }
}

/// Whether a step cannot make a review pending: a read that passes reviews over in silence, a
/// read that finds no new line, a send or a restart.
pub open spec fn is_quiet(step: WatchStep) -> bool {
    step matches WatchStep::Read { records, suppress, .. } ==> suppress || records.len() == 0
}

/// A step that cannot make a review pending keeps every complete review notified.
proof fn lemma_quiet_step(watcher: WatcherView, step: WatchStep)
    requires
        in_order(watcher.files),
        all_settled(watcher.files),
        is_quiet(step),
    ensures
        all_settled(watcher.after_step(step).files),
{
    let files = watcher.files;
    match step {
        WatchStep::Read { name, start, bytes, records, suppress } => {
            let state = known_or_unread(files, name);
            let after = file_after(state, start, bytes, records, suppress);
            let r = rank(files, name) as int;
            let all = recorded(files, name, after);
            lemma_rank(files, name);
            let replaced = r < files.len() && files[r].0 == name;
            assert forall|i: int| 0 <= i < all.len() implies ((
            #[trigger] all[i]).1.completion is Some ==> all[i].1.notified) by {
                if i == r {
                    assert(all[i] == (name, after));
                    if replaced {
                        assert(files[r].1.completion is Some ==> files[r].1.notified);
                    }
                } else if replaced || i < r {
                    assert(all[i] == files[i]);
                } else {
                    assert(all[i] == files[i - 1]);
                }
            }
        },
        WatchStep::Sent { review } => {
            let all = marked(files, review);
            assert forall|i: int| 0 <= i < all.len() implies ((
            #[trigger] all[i]).1.completion is Some ==> all[i].1.notified) by {
                assert(all[i] == file_marked(files[i], review));
                assert(files[i].1.completion is Some ==> files[i].1.notified);
            }
        },
        WatchStep::Restarted => {
            law_saved_files_are_restored(files);
        },
    }
}

/// The first start is silent: of the reviews that a watcher with no saved state finds complete
/// in a scan of all files none is pending, nor is any after a restart with the saved state and
/// later scans that find nothing new.
pub proof fn law_first_start_is_silent(steps: Seq<WatchStep>)
    requires
        forall|i: int| 0 <= i < steps.len() ==> is_quiet(#[trigger] steps[i]),
    ensures
        due_reviews(WatcherView::fresh().after_steps(steps).files).len() == 0,
{
    lemma_quiet_steps(steps);
    let files = WatcherView::fresh().after_steps(steps).files;
    lemma_settled_has_none_pending(files, files.len() as int);
}

/// Steps that cannot make a review pending keep every complete review notified.
proof fn lemma_quiet_steps(steps: Seq<WatchStep>)
    requires
        forall|i: int| 0 <= i < steps.len() ==> is_quiet(#[trigger] steps[i]),
    ensures
        all_settled(WatcherView::fresh().after_steps(steps).files),
    decreases steps.len(),
{
    if steps.len() > 0 {
        let fewer = steps.drop_last();
        assert forall|i: int| 0 <= i < fewer.len() implies is_quiet(#[trigger] fewer[i]) by {
            assert(fewer[i] == steps[i]);
        }
        lemma_quiet_steps(fewer);
        law_steps_keep_order(WatcherView::fresh(), fewer);
        assert(is_quiet(steps[steps.len() - 1]));
        lemma_quiet_step(WatcherView::fresh().after_steps(fewer), steps.last());
    }
}

/// A review that a scan finds complete is pending, unless it is passed over in silence or was
/// notified before: in this file or, where its identifier tells it from others, in another. A
/// review without such an identifier is pending whatever was notified in other files.
pub proof fn law_new_review_is_pending(
    watcher: WatcherView,
    name: Seq<char>,
    start: u64,
    bytes: Seq<u8>,
    records: Seq<SessionRecord>,
)
    requires
        in_order(watcher.files),
        !known_or_unread(watcher.files, name).notified,
        after_records(known_or_unread(watcher.files, name), records).completion matches Some(
            summary,
        ) && (!identifies(summary.review_id) || !reported(watcher.files, (name, summary))),
    ensures
        listed(
            due_reviews(watcher.scanned(name, start, bytes, records, false).files),
            (name, after_records(known_or_unread(watcher.files, name), records).completion->0),
        ),
{
    let files = watcher.files;
    let state = known_or_unread(files, name);
    let after = file_after(state, start, bytes, records, false);
    let all = recorded(files, name, after);
    let found = (name, after.completion->0);
    law_completion_is_kept(state, records);
    law_recording_keeps_order(files, name, after);
    lemma_rank(files, name);
    let r = rank(files, name) as int;
    assert(all[r] == (name, after));
    assert(holds(all[r], found));
    if reported(all, found) {
        let i = choose|i: int| 0 <= i < all.len() && #[trigger] reports(all[i], found);
        let replaced = r < files.len() && files[r].0 == name;
        let at = if replaced || i < r {
            i
        } else {
            i - 1
        };
        if i != r {
            if !identifies(found.1.review_id) {
                lemma_names_differ(all, i, r);
            }
            assert(files[at] == all[i]);
            assert(reports(files[at], found));
        }
    }
    law_pending_reviews_are_owed(all, found);
}

/// Whether a record says that a task is complete.
pub open spec fn tells_completion(record: SessionRecord) -> bool {
    &&& record.record_type@ == "event_msg"@
    &&& record.payload matches Some(payload) && (payload.event matches Some(event) && (
    event.event_type matches Some(kind) && kind@ == "task_complete"@))
}

/// Whether a record says that its session was started to review.
pub open spec fn tells_review(record: SessionRecord) -> bool {
    &&& record.record_type@ == "session_meta"@
    &&& record.payload matches Some(payload) && (payload.meta matches Some(meta) && (
    meta.source matches Some(source) && (source.subagent matches Some(agent) && agent@
        == "review"@)))
}

/// The names of the kinds of records differ.
proof fn lemma_record_types_differ()
    ensures
        "session_meta"@ != "turn_context"@,
        "session_meta"@ != "event_msg"@,
        "turn_context"@ != "event_msg"@,
{
    reveal_strlit("session_meta");
    reveal_strlit("turn_context");
    reveal_strlit("event_msg");
    assert("session_meta"@[0] != "turn_context"@[0]);
    assert("session_meta"@.len() != "event_msg"@.len());
}

/// A review becomes complete by a record that says that a task is complete, in a session that
/// was started to review, where it is not complete yet, and by no other record.
pub proof fn law_only_completion_completes(state: FileView, record: SessionRecord)
    ensures
        state.completion is Some ==> after_record(state, record).completion == state.completion,
        state.completion is None ==> (after_record(state, record).completion is Some
            <==> tells_completion(record) && state.is_review),
        record.record_type@ == "event_msg"@ && !tells_completion(record) ==> after_record(
            state,
            record,
        ) == state,
{
    lemma_record_types_differ();
}

/// Records none of which says that a task is complete complete no review, however many they are
/// and whatever else they say.
pub proof fn law_without_completion_nothing_completes(state: FileView, records: Seq<SessionRecord>)
    requires
        forall|i: int| 0 <= i < records.len() ==> !tells_completion(#[trigger] records[i]),
    ensures
        after_records(state, records).completion == state.completion,
        after_records(unread(), records).completion is None,
    decreases records.len(),
{
    if records.len() > 0 {
        let rest = records.drop_last();
        assert forall|i: int| 0 <= i < rest.len() implies !tells_completion(#[trigger] rest[i]) by {
            assert(rest[i] == records[i]);
        }
        law_without_completion_nothing_completes(state, rest);
        assert(!tells_completion(records[records.len() - 1]));
        law_only_completion_completes(after_records(state, rest), records.last());
        law_only_completion_completes(after_records(unread(), rest), records.last());
    }
}

/// The review of a session becomes complete by the first record that says so after the session
/// was described as one, and stays as that record says.
pub proof fn law_first_completion_counts(
    state: FileView,
    earlier: Seq<SessionRecord>,
    record: SessionRecord,
    later: Seq<SessionRecord>,
)
    requires
        state.completion is None,
        forall|i: int| 0 <= i < earlier.len() ==> !tells_completion(#[trigger] earlier[i]),
        tells_completion(record),
        after_records(state, earlier).is_review,
    ensures
        after_records(state, earlier.push(record) + later).completion is Some,
        after_records(state, earlier.push(record) + later).completion == after_record(
            after_records(state, earlier),
            record,
        ).completion,
{
    law_without_completion_nothing_completes(state, earlier);
    law_only_completion_completes(after_records(state, earlier), record);
    assert(earlier.push(record).drop_last() =~= earlier);
    lemma_records_in_parts(state, earlier.push(record), later);
    law_completion_is_kept(after_records(state, earlier.push(record)), later);
}

/// What a review came to: it is known by the identifier of its session, else by that of its
/// turn, else by a placeholder; its directory, model and effort are those of the session; and
/// its findings and explanation are those of the last message, where that is not blank, read as
/// a review in JSON where it is one, with at most 1000 characters of explanation.
pub proof fn law_completion_holds_the_outcome(
    state: FileView,
    record: SessionRecord,
    event: EventMessagePayload,
)
    requires
        tells_completion(record),
        record.payload->0.event == Some(event),
        state.is_review,
        state.completion is None,
    ensures
        after_record(state, record).completion matches Some(summary) && {
            &&& state.review_id matches Some(id) ==> summary.review_id == id
            &&& state.review_id is None ==> match event.turn_id {
                Some(id) => summary.review_id == id@,
                None => summary.review_id == "unknown-review"@,
            }
            &&& summary.cwd == state.cwd
            &&& summary.model == state.model
            &&& summary.effort == state.effort
            &&& match (event.last_agent_message, event.result) {
                (Some(message), Some(result)) if trimmed(message@).len() > 0 => {
                    &&& summary.findings == result.findings
                    &&& match result.overall_explanation {
                        Some(text) if trimmed(text@).len() > 0 => summary.explanation == Some(
                            truncated(trimmed(text@), 1000),
                        ),
                        _ => summary.explanation is None,
                    }
                },
                (Some(message), None) if trimmed(message@).len() > 0 => {
                    &&& summary.findings is None
                    &&& summary.explanation == Some(truncated(trimmed(message@), 1000))
                },
                _ => summary.findings is None && summary.explanation is None,
            }
        },
        after_record(state, record) == (FileView {
            completion: after_record(state, record).completion,
            ..state
        }),
{
    lemma_record_types_differ();
}

/// A session counts as a review from the record on that says so, which names the review, the
/// session that it belongs to and the directory, and changes nothing else; any other description
/// of a session changes nothing.
pub proof fn law_description_opens_review(state: FileView, record: SessionRecord)
    ensures
        after_record(state, record).is_review <==> state.is_review || tells_review(record),
        record.record_type@ == "session_meta"@ && !tells_review(record) ==> after_record(
            state,
            record,
        ) == state,
        tells_review(record) ==> {
            let meta = record.payload->0.meta->0;
            let after = after_record(state, record);
            &&& after.review_id == opt(meta.id)
            &&& match meta.session_id {
                Some(id) => after.parent_session_id == Some(id@),
                None => after.parent_session_id == opt(meta.parent_thread_id),
            }
            &&& after.cwd == opt(meta.cwd)
            &&& after.model == state.model
            &&& after.effort == state.effort
            &&& after.completion == state.completion
            &&& after.notified == state.notified
            &&& after.offset == state.offset
        },
{
    lemma_record_types_differ();
}

/// A turn of a review says with what model and effort it runs, the latest that says so counts,
/// and its directory counts only where none is known; it changes nothing else, and nothing in a
/// session that is no review.
pub proof fn law_turn_says_how_it_runs(state: FileView, record: SessionRecord)
    requires
        record.record_type@ == "turn_context"@,
    ensures
        match record.payload {
            Some(SessionPayload { context: Some(context), .. }) if state.is_review => {
                let after = after_record(state, record);
                &&& match context.model {
                    Some(model) => after.model == Some(model@),
                    None => after.model == state.model,
                }
                &&& match context.effort {
                    Some(effort) => after.effort == Some(effort@),
                    None => after.effort == state.effort,
                }
                &&& match state.cwd {
                    Some(cwd) => after.cwd == Some(cwd),
                    None => after.cwd == opt(context.cwd),
                }
                &&& after.is_review
                &&& after.review_id == state.review_id
                &&& after.parent_session_id == state.parent_session_id
                &&& after.completion == state.completion
                &&& after.notified == state.notified
                &&& after.offset == state.offset
            },
            _ => after_record(state, record) == state,
        },
{
    lemma_record_types_differ();
}

/// A record of any other kind, or without a payload, changes nothing.
pub proof fn law_other_records_change_nothing(state: FileView, record: SessionRecord)
    requires
        record.payload is None || (record.record_type@ != "session_meta"@ && record.record_type@
            != "turn_context"@ && record.record_type@ != "event_msg"@),
    ensures
        after_record(state, record) == state,
{
}

/// Records are taken in one after the other, each after all those before it.
pub proof fn law_records_in_turn(
    state: FileView,
    earlier: Seq<SessionRecord>,
    record: SessionRecord,
)
    ensures
        after_records(state, Seq::empty()) == state,
        after_records(state, earlier.push(record)) == after_record(
            after_records(state, earlier),
            record,
        ),
{
    assert(earlier.push(record).drop_last() =~= earlier);
}

/// What is known of a file is found wherever it stands among files in order, and is that of a
/// file with nothing known where it stands nowhere.
pub proof fn law_known_file_is_found(files: Files, name: Seq<char>)
    requires
        in_order(files),
    ensures
        match lookup(files, name) {
            Some(state) => exists|i: int|
                0 <= i < files.len() && #[trigger] files[i] == (name, state),
            None => forall|i: int| 0 <= i < files.len() ==> (#[trigger] files[i]).0 != name,
        },
        lookup(files, name) matches Some(state) ==> known_or_unread(files, name) == state,
        lookup(files, name) is None ==> {
            let state = known_or_unread(files, name);
            &&& state.offset == 0
            &&& !state.is_review
            &&& state.review_id is None
            &&& state.parent_session_id is None
            &&& state.cwd is None
            &&& state.model is None
            &&& state.effort is None
            &&& state.completion is None
            &&& !state.notified
        },
{
    if lookup(files, name) is Some {
        let i = lemma_found(files, name);
        assert(files[i] == (name, lookup(files, name)->0));
    } else {
        assert forall|i: int| 0 <= i < files.len() implies (#[trigger] files[i]).0 != name by {
            lemma_lookup(files, i);
        }
    }
}

/// A scan takes the records in, leaves the file behind its last complete line, and counts a
/// complete review as notified only where it is to be passed over or was notified before. There
/// is something to save from then on where the file was left elsewhere or a review was passed
/// over, and what is known of other files stays.
pub proof fn law_scan_takes_in_a_file(
    watcher: WatcherView,
    name: Seq<char>,
    start: u64,
    bytes: Seq<u8>,
    records: Seq<SessionRecord>,
    suppress: bool,
    other: Seq<char>,
)
    requires
        in_order(watcher.files),
        start + bytes.len() <= u64::MAX,
    ensures
        ({
            let known = known_or_unread(watcher.files, name);
            let read = after_records(known, records);
            let after = watcher.scanned(name, start, bytes, records, suppress);
            let passed_over = suppress && read.completion is Some && !known.notified;
            &&& lookup(after.files, name) matches Some(state) && {
                &&& state.offset == start + complete_bytes(bytes)
                &&& state.completion == read.completion
                &&& state.notified == (known.notified || passed_over)
                &&& state.is_review == read.is_review
                &&& state.review_id == read.review_id
                &&& state.parent_session_id == read.parent_session_id
                &&& state.cwd == read.cwd
                &&& state.model == read.model
                &&& state.effort == read.effort
            }
            &&& other != name ==> lookup(after.files, other) == lookup(watcher.files, other)
            &&& after.dirty <==> watcher.dirty || known.offset != start + complete_bytes(bytes)
                || passed_over
        }),
{
    let known = known_or_unread(watcher.files, name);
    let after = file_after(known, start, bytes, records, suppress);
    law_recorded_is_found(watcher.files, name, after, name);
    law_recorded_is_found(watcher.files, name, after, other);
    law_completion_is_kept(known, records);
    lemma_complete_and_open(bytes);
}

/// A file that was read past the last place that 64 bits tell is left at that place.
pub proof fn law_offset_is_counted(start: u64, bytes: Seq<u8>)
    ensures
        offset_after_read(start, bytes) as int == if start + complete_bytes(bytes)
            <= 0xffff_ffff_ffff_ffff {
            start + complete_bytes(bytes)
        } else {
            0xffff_ffff_ffff_ffff
        },
{
}

/// The reviews to be notified of fewer files are the first of those of more files.
proof fn lemma_due_goes_on(files: Files, n: int, m: int)
    requires
        0 <= n <= m <= files.len(),
    ensures
        due_among(files, n).len() <= due_among(files, m).len(),
        forall|k: int|
            0 <= k < due_among(files, n).len() ==> #[trigger] due_among(files, m)[k] == due_among(
                files,
                n,
            )[k],
    decreases m,
{
    if n < m {
        lemma_due_goes_on(files, n, m - 1);
    }
}

/// Whether the review in a file awaits its notification under the name of that file: it is
/// complete and not notified, and where it has an identifier, none with that identifier is
/// notified, nor in an earlier file.
pub open spec fn awaits_notice(files: Files, i: int) -> bool {
    &&& files[i].1.completion is Some
    &&& !files[i].1.notified
    &&& files[i].1.completion->0.review_id == "unknown-review"@ || forall|k: int|
        0 <= k < files.len() && (k < i || (#[trigger] files[k]).1.notified) ==> !(
        files[k].1.completion matches Some(other) && other.review_id
            == files[i].1.completion->0.review_id)
}

/// The pending reviews are exactly those that await their notification: a review without an
/// identifier by itself, a review with one once, for the first file that holds it, and not at
/// all once any file has it notified.
pub proof fn law_pending_reviews_are_told_apart(files: Files, i: int)
    requires
        in_order(files),
        0 <= i < files.len(),
        files[i].1.completion is Some,
    ensures
        due_reviews(files).contains((files[i].0, files[i].1.completion->0)) <==> awaits_notice(
            files,
            i,
        ),
{
    let all = due_reviews(files);
    let found = (files[i].0, files[i].1.completion->0);
    let earlier = due_among(files, i);
    assert(holds(files[i], found));
    lemma_due_goes_on(files, i, files.len() as int);
    lemma_due_goes_on(files, i + 1, files.len() as int);
    lemma_due_among(files, i, found);
    if is_due(files, i) && !listed(earlier, found) {
        assert(due_among(files, i + 1)[earlier.len() as int] == found);
        assert(all[earlier.len() as int] == found);
        assert(all.contains(found));
    }
    if all.contains(found) {
        let k = choose|k: int| 0 <= k < all.len() && all[k] == found;
        let held = lemma_due_is_held(files, files.len() as int, k);
        lemma_names_differ(files, held, i);
        assert(is_due(files, i));
        if listed(earlier, found) {
            let q = choose|q: int|
                0 <= q < earlier.len() && #[trigger] same_review(earlier[q], found);
            assert(all[q] == earlier[q]);
            if k < earlier.len() {
                let at = lemma_due_is_held(files, i, k);
                assert(earlier[k] == all[k]);
                lemma_names_differ(files, at, i);
            }
            law_pending_once(files, q, k);
        }
    }
    assert(all.contains(found) <==> is_due(files, i) && !listed(earlier, found));
    if awaits_notice(files, i) {
        if reported(files, found) {
            let k = choose|k: int| 0 <= k < files.len() && #[trigger] reports(files[k], found);
            if !identifies(found.1.review_id) {
                lemma_names_differ(files, i, k);
            }
            assert(files[k].1.notified);
        }
        if any_holds(files.take(i), found) {
            let k = choose|k: int|
                0 <= k < files.take(i).len() && #[trigger] holds(files.take(i)[k], found);
            assert(files.take(i)[k] == files[k]);
            if !identifies(found.1.review_id) {
                lemma_names_differ(files, i, k);
            }
        }
    } else {
        if files[i].1.notified {
            assert(reports(files[i], found));
        } else {
            let k = choose|k: int|
                0 <= k < files.len() && (k < i || (#[trigger] files[k]).1.notified) && (
                files[k].1.completion matches Some(other) && other.review_id
                    == found.1.review_id);
            assert(holds(files[k], found));
            if files[k].1.notified {
                assert(reports(files[k], found));
            } else {
                assert(files.take(i)[k] == files[k]);
                assert(holds(files.take(i)[k], found));
            }
        }
    }
}

/// Reviews are pending in the order of the names of their files.
pub proof fn law_pending_in_order_of_names(files: Files, a: int, b: int)
    requires
        in_order(files),
        0 <= a < b < due_reviews(files).len(),
    ensures
        before(due_reviews(files)[a].0, due_reviews(files)[b].0),
{
    lemma_due_in_order(files, files.len() as int, a, b);
}

/// The reviews of the first files are in the order of their names.
proof fn lemma_due_in_order(files: Files, n: int, a: int, b: int)
    requires
        in_order(files),
        0 <= n <= files.len(),
        0 <= a < b < due_among(files, n).len(),
    ensures
        before(due_among(files, n)[a].0, due_among(files, n)[b].0),
    decreases n,
{
    let rest = due_among(files, n - 1);
    if b < rest.len() {
        lemma_due_in_order(files, n - 1, a, b);
    } else {
        let i = lemma_due_is_held(files, n - 1, a);
        assert(due_among(files, n)[a] == rest[a]);
        assert(before(files[i].0, files[n - 1].0));
    }
}

/// Whether a file holds a review with the identifier of another one, and is the same file where
/// that has none.
pub open spec fn is_held_by(file: (Seq<char>, FileView), review: Found) -> bool {
    &&& file.1.completion matches Some(summary) && summary.review_id == review.1.review_id
    &&& review.1.review_id != "unknown-review"@ || file.0 == review.0
}

/// Notifying a review marks every file that holds it, changes nothing else in any file, and is
/// to be saved where there is such a file.
pub proof fn law_notice_marks_the_review(watcher: WatcherView, review: Found, i: int)
    requires
        0 <= i < watcher.files.len(),
    ensures
        ({
            let before = watcher.files[i];
            let after = watcher.notified(review).files[i];
            &&& watcher.notified(review).files.len() == watcher.files.len()
            &&& after.0 == before.0
            &&& after.1 == (FileView { notified: after.1.notified, ..before.1 })
            &&& after.1.notified <==> before.1.notified || is_held_by(before, review)
        }),
        watcher.notified(review).dirty <==> watcher.dirty || exists|k: int|
            0 <= k < watcher.files.len() && is_held_by(#[trigger] watcher.files[k], review),
{
    let files = watcher.files;
    assert(forall|k: int|
        0 <= k < files.len() ==> holds(#[trigger] files[k], review) == is_held_by(
            files[k],
            review,
        ));
    if any_holds(files, review) {
        let k = choose|k: int| 0 <= k < files.len() && #[trigger] holds(files[k], review);
        assert(is_held_by(files[k], review));
    }
}

/// The message for a review goes to the configured chat, silently where that is configured, and
/// says in at most the configured number of characters what the review came to, in the project
/// and with the model and effort that it ran in and with.
pub proof fn law_review_message_says_the_outcome(summary: ReviewView, config: RuntimeView)
    ensures
        review_message(summary, config).chat_id == config.chat_id,
        review_message(summary, config).disable_notification == config.silent,
        review_message(summary, config).text.len() <= config.max_length,
        review_message(summary, config).text == truncated(
            review_notification(
                project_of(summary.cwd),
                summary.model,
                summary.effort,
                summary.findings,
                None,
                summary.explanation,
            ),
            config.max_length as nat,
        ),
{
    law_truncation_bounds(
        review_notification(
            project_of(summary.cwd),
            summary.model,
            summary.effort,
            summary.findings,
            None,
            summary.explanation,
        ),
        config.max_length as nat,
    );
}

/// A file is read on from where it was left as long as it reaches there, and from its start once
/// it does not.
pub proof fn law_shorter_file_is_read_again(offset: u64, length: u64)
    ensures
        offset <= length ==> resumed_at(offset, length) == offset,
        offset > length ==> resumed_at(offset, length) == 0,
        resumed_at(offset, length) <= length,
{
}

/// A session file has any name between `rollout-` and `.jsonl`, and no other file counts.
pub proof fn law_session_files_are_named(name: Seq<char>)
    ensures
        names_session(name) <==> exists|middle: Seq<char>|
            name == #[trigger] ("rollout-"@ + middle + ".jsonl"@),
{
    reveal_strlit("rollout-");
    reveal_strlit(".jsonl");
    let front = "rollout-"@;
    let back = ".jsonl"@;
    assert forall|middle: Seq<char>| name == #[trigger] (front + middle + back) implies
        names_session(name) by {
        assert(name.take(8) =~= front);
        assert(name.skip(name.len() - 6) =~= back);
    }
    if names_session(name) {
        let n = name.len() as int;
        assert(name.skip(n - 6)[0] == '.');
        if n < 14 {
            assert(name.take(8)[n - 6] == front[n - 6]);
            assert(front[n - 6] != '.');
        }
        let middle = name.subrange(8, n - 6);
        assert(name =~= name.take(8) + middle + name.skip(n - 6));
        assert(name == front + middle + back);
    }
}

/// Saved files are restored under their names, of two with one name the later, and in order.
pub proof fn law_restored_files_are_found(
    files: Files,
    name: Seq<char>,
    state: FileView,
    other: Seq<char>,
)
    ensures
        in_order(restored(files)),
        lookup(restored(files.push((name, state))), other) == if other == name {
            Some(state)
        } else {
            lookup(restored(files), other)
        },
        restored(Seq::empty()) == Files::empty(),
    decreases files.len(),
{
    if files.len() > 0 {
        law_restored_files_are_found(files.drop_last(), name, state, other);
        law_recording_keeps_order(
            restored(files.drop_last()),
            files.last().0,
            files.last().1,
        );
    }
    assert(files.push((name, state)).drop_last() =~= files);
    law_recorded_is_found(restored(files), name, state, other);
}

/// What the pending reviews came to is told for each of them, in their order.
pub proof fn law_each_pending_review_is_told(reviews: Seq<Found>, i: int)
    requires
        0 <= i < reviews.len(),
    ensures
        summaries(reviews).len() == reviews.len(),
        summaries(reviews)[i] == reviews[i].1,
{
}

} // verus!
