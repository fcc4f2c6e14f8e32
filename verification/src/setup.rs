//! Interactive setup: which chats wrote to the bot, how long to wait for them, and what is
//! saved in the end.
//!
//! Times are nanoseconds since an origin of the caller's choice.

use crate::config::{BotToken, ConfigFile};
use crate::error::{outcome, AppError, AppErrorView};
use crate::number::{
    decimal, decimal_text, is_digit, lemma_decimal_denotes, parse_usize, parsed_unsigned,
    signed_decimal, signed_decimal_text,
};
use crate::telegram::{
    BotUser, Chat, GetUpdatesRequest, SendMessageRequest, SendMessageView, TelegramError,
    TelegramErrorView, Update,
};
use crate::text::{
    after_prefix, as_deref, ascii_lower, eq_ignore_ascii_case, is_control_char, law_first_position,
    law_no_control_is_left, lowered, opt, opt_str, position, remove_controls, same_text,
    split_at_char, split_once, split_whitespace, strip_prefix, trim, trimmed, without_controls,
    words,
};
use vstd::prelude::*;
use vstd::string::StringExecFns;

verus! {

/// How long setup waits in all.
pub const SETUP_TIMEOUT_NANOS: u128 = 300_000_000_000;

/// How long setup waits for another chat after the last new one.
pub const CHAT_COLLECTION_NANOS: u128 = 2_000_000_000;

/// The nanoseconds in a second.
pub const NANOS_PER_SECOND: u128 = 1_000_000_000;

/// The most seconds for which Telegram is asked to hold a request back.
pub const UPDATE_TIMEOUT_SECONDS: u64 = 15;

/// The seconds after which a request that Telegram holds back has failed.
pub const UPDATE_HTTP_TIMEOUT_SECONDS: u64 = 25;

/// The most events that one request asks for.
pub const UPDATE_LIMIT: u8 = 100;

/// The text of a test notification.
pub const TEST_MESSAGE: &'static str =
    "🧪 Codex Telegram Notify\n\nТестовое уведомление успешно отправлено.";

/// A chat that notifications can go to.
#[derive(Debug, PartialEq, Eq)]
pub struct ChatCandidate {
    pub id: i64,
    pub name: String,
    pub chat_type: String,
}

/// What a `ChatCandidate` holds.
pub struct CandidateView {
    pub id: i64,
    pub name: Seq<char>,
    pub chat_type: Seq<char>,
}

impl View for ChatCandidate {
    type V = CandidateView;

    open spec fn view(&self) -> CandidateView {
        CandidateView { id: self.id, name: self.name@, chat_type: self.chat_type@ }
    }
}

impl Clone for ChatCandidate {
    fn clone(&self) -> (candidate: Self)
        ensures
            candidate@ == self@,
    {
        ChatCandidate {
            id: self.id,
            name: self.name.clone(),
            chat_type: self.chat_type.clone(),
        }
    }
}

/// The views of some candidates.
pub open spec fn candidate_views(candidates: Seq<ChatCandidate>) -> Seq<CandidateView> {
    candidates.map_values(|candidate: ChatCandidate| candidate@)
}

/// The view of an optional candidate.
pub open spec fn candidate_view(candidate: Option<ChatCandidate>) -> Option<CandidateView> {
    match candidate {
        Some(candidate) => Some(candidate@),
        None => None,
    }
}

/// The token that a person typed, unless it is blank.
pub open spec fn typed_token(input: Seq<char>) -> Result<Seq<char>, AppErrorView> {
    if trimmed(input).len() == 0 {
        Err(AppErrorView::Config("Telegram bot token cannot be empty"@))
    } else {
        Ok(trimmed(input))
    }
}

/// Reads the token that a person typed.
pub fn read_token(input: &str) -> (result: Result<BotToken, AppError>)
    ensures
        match result {
            Ok(token) => typed_token(input@) == Ok::<Seq<char>, AppErrorView>(token@),
            Err(error) => typed_token(input@) == Err::<Seq<char>, AppErrorView>(error@),
        },
{
    let token = trim(input);
    if token.is_empty() {
        Err(AppError::Config("Telegram bot token cannot be empty".to_owned()))
    } else {
        Ok(BotToken::new(token.to_owned()))
    }
}

/// How a failed request ends setup.
pub open spec fn setup_failure(error: TelegramErrorView) -> AppErrorView {
    if error.is_authentication_error() {
        AppErrorView::Telegram(
            "Telegram отклонил bot token. Проверьте токен, полученный у BotFather."@,
        )
    } else {
        AppErrorView::Telegram(error.user_message())
    }
}

/// Turns a failed request into the failure that ends setup.
pub fn setup_api_error(error: TelegramError) -> (result: AppError)
    ensures
        result@ == setup_failure(error@),
{
    if error.is_authentication_error() {
        AppError::Telegram(
            "Telegram отклонил bot token. Проверьте токен, полученный у BotFather.".to_owned(),
        )
    } else {
        AppError::Telegram(error.user_message())
    }
}

/// How setup ends where the person at the terminal gives up.
pub open spec fn cancellation() -> AppErrorView {
    AppErrorView::Cancelled("Setup cancelled"@)
}

/// The failure that ends setup where the person at the terminal gives up.
pub fn setup_cancelled() -> (error: AppError)
    ensures
        error@ == cancellation(),
{
    AppError::Cancelled("Setup cancelled".to_owned())
}

/// Takes out of a text what a terminal would obey.
pub fn clean_terminal_text(value: &str) -> (result: String)
    ensures
        result@ == without_controls(value@),
{
    remove_controls(value)
}

/// Whether an optional text is there and not empty.
pub open spec fn present(text: Option<Seq<char>>) -> bool {
    text matches Some(text) && text.len() > 0
}

/// How a bot is named: by its user name, else by its own name.
pub open spec fn bot_name(bot: BotUser) -> Seq<char> {
    if present(opt(bot.username)) {
        "@"@ + without_controls(opt(bot.username)->0)
    } else if present(opt(bot.last_name)) {
        without_controls(bot.first_name@ + " "@ + opt(bot.last_name)->0)
    } else {
        without_controls(bot.first_name@)
    }
}

/// Names a bot.
pub fn bot_display_name(bot: &BotUser) -> (result: String)
    ensures
        result@ == bot_name(*bot),
{
    if let Some(username) = &bot.username {
        if !username.as_str().is_empty() {
            let mut name = "@".to_owned();
            name.append(clean_terminal_text(username.as_str()).as_str());
            return name;
        }
    }
    let mut name = bot.first_name.clone();
    if let Some(last_name) = &bot.last_name {
        if !last_name.as_str().is_empty() {
            name.append(" ");
            name.append(last_name.as_str());
        }
    }
    clean_terminal_text(name.as_str())
}

/// A user name with an at sign, else a number.
pub open spec fn handle_or_id(username: Option<Seq<char>>, id: i64) -> Seq<char> {
    match username {
        Some(username) => "@"@ + username,
        None => signed_decimal(id as int),
    }
}

/// Writes a user name with an at sign, else a number.
fn write_handle_or_id(username: Option<&str>, id: i64) -> (result: String)
    ensures
        result@ == handle_or_id(opt_str(username), id),
{
    match username {
        Some(username) => {
            let mut name = "@".to_owned();
            name.append(username);
            name
        },
        None => signed_decimal_text(id),
    }
}

/// The first and last name of a person, as far as there are any.
pub open spec fn full_name(first: Option<Seq<char>>, last: Option<Seq<char>>) -> Seq<char> {
    let first = match first {
        Some(first) => first,
        None => Seq::empty(),
    };
    if !present(last) {
        first
    } else if first.len() == 0 {
        last->0
    } else {
        first + " "@ + last->0
    }
}

/// Writes the first and last name of a person.
fn write_full_name(first: Option<&str>, last: Option<&str>) -> (result: String)
    ensures
        result@ == full_name(opt_str(first), opt_str(last)),
{
    let mut name = match first {
        Some(first) => first.to_owned(),
        None => String::new(),
    };
    if let Some(last) = last {
        if !last.is_empty() {
            if name.as_str().is_empty() {
                return last.to_owned();
            }
            name.append(" ");
            name.append(last);
        }
    }
    name
}

/// How a chat is named: a private one by the person, any other by its title, and either by
/// its user name or number where that is missing.
pub open spec fn chat_name(chat: Chat) -> Seq<char> {
    let fallback = handle_or_id(opt(chat.username), chat.id);
    let name = if chat.chat_type@ == "private"@ {
        let person = full_name(opt(chat.first_name), opt(chat.last_name));
        if person.len() == 0 {
            fallback
        } else {
            person
        }
    } else {
        match opt(chat.title) {
            Some(title) => title,
            None => fallback,
        }
    };
    without_controls(name)
}

/// Names a chat.
pub fn chat_display_name(chat: &Chat) -> (result: String)
    ensures
        result@ == chat_name(*chat),
{
    let name = if same_text(chat.chat_type.as_str(), "private") {
        let person = write_full_name(as_deref(&chat.first_name), as_deref(&chat.last_name));
        if person.as_str().is_empty() {
            write_handle_or_id(as_deref(&chat.username), chat.id)
        } else {
            person
        }
    } else {
        match &chat.title {
            Some(title) => title.clone(),
            None => write_handle_or_id(as_deref(&chat.username), chat.id),
        }
    };
    clean_terminal_text(name.as_str())
}

/// Whether a text is the command `/start`, said to no bot in particular or to this one.
pub open spec fn starts_bot(text: Seq<char>, bot_username: Option<Seq<char>>) -> bool {
    if words(text).len() == 0 {
        false
    } else {
        match after_prefix(words(text)[0], "/"@) {
            None => false,
            Some(command) => match split_at_char(command, '@') {
                None => lowered(command) == lowered("start"@),
                Some((name, username)) => {
                    &&& lowered(name) == lowered("start"@)
                    &&& bot_username matches Some(bot) && lowered(username) == lowered(bot)
                },
            },
        }
    }
}

/// Whether a text is the command `/start` for this bot.
pub fn is_start_command(text: &str, bot_username: Option<&str>) -> (result: bool)
    ensures
        result == starts_bot(text@, opt_str(bot_username)),
{
    let parts = split_whitespace(text);
    if parts.len() == 0 {
        return false;
    }
    proof {
        assert(words(text@)[0] == parts@[0]@);
    }
    match strip_prefix(parts[0].as_str(), "/") {
        None => false,
        Some(command) => match split_once(command, '@') {
            None => eq_ignore_ascii_case(command, "start"),
            Some((name, username)) => {
                if !eq_ignore_ascii_case(name, "start") {
                    return false;
                }
                match bot_username {
                    Some(bot) => eq_ignore_ascii_case(username, bot),
                    None => false,
                }
            },
        },
    }
}

/// Whether notifications can go to a kind of chat.
pub open spec fn supported(chat_type: Seq<char>) -> bool {
    chat_type == "private"@ || chat_type == "group"@ || chat_type == "supergroup"@
}

/// The candidate that an event brings.
pub open spec fn candidate_of(update: Update, bot_username: Option<Seq<char>>) -> Option<
    CandidateView,
> {
    match update.message {
        Some(message) => match message.text {
            Some(text) => if starts_bot(text@, bot_username) && supported(
                message.chat.chat_type@,
            ) {
                Some(
                    CandidateView {
                        id: message.chat.id,
                        name: chat_name(message.chat),
                        chat_type: message.chat.chat_type@,
                    },
                )
            } else {
                None
            },
            None => None,
        },
        None => None,
    }
}

/// Finds the candidate that an event brings.
pub fn candidate_from_update(update: &Update, bot_username: Option<&str>) -> (result: Option<
    ChatCandidate,
>)
    ensures
        candidate_view(result) == candidate_of(*update, opt_str(bot_username)),
{
    match &update.message {
        Some(message) => match &message.text {
            Some(text) => {
                if !is_start_command(text.as_str(), bot_username) {
                    return None;
                }
                let kind = message.chat.chat_type.as_str();
                if same_text(kind, "private") || same_text(kind, "group") || same_text(
                    kind,
                    "supergroup",
                ) {
                    Some(
                        ChatCandidate {
                            id: message.chat.id,
                            name: chat_display_name(&message.chat),
                            chat_type: message.chat.chat_type.clone(),
                        },
                    )
                } else {
                    None
                }
            },
            None => None,
        },
        None => None,
    }
}

/// The highest identifier of some events.
pub open spec fn latest(updates: Seq<Update>) -> Option<i64>
    decreases updates.len(),
{
    if updates.len() == 0 {
        None
    } else {
        let last = updates.last().update_id;
        match latest(updates.drop_last()) {
            Some(before) if before > last => Some(before),
            _ => Some(last),
        }
    }
}

/// The number after another, where 64 bits hold it.
pub open spec fn successor(value: i64) -> i64 {
    if value == i64::MAX {
        value
    } else {
        (value + 1) as i64
    }
}

/// The first identifier that is still of interest after some events.
pub open spec fn offset_after(current: Option<i64>, updates: Seq<Update>) -> Option<i64> {
    match (current, latest(updates)) {
        (Some(current), Some(latest)) => if current > successor(latest) {
            Some(current)
        } else {
            Some(successor(latest))
        },
        (Some(current), None) => Some(current),
        (None, Some(latest)) => Some(successor(latest)),
        (None, None) => None,
    }
}

/// Moves past some events.
pub fn next_offset(current: Option<i64>, updates: &Vec<Update>) -> (result: Option<i64>)
    ensures
        result == offset_after(current, updates@),
{
    let mut highest: Option<i64> = None;
    let mut i: usize = 0;
    while i < updates.len()
        invariant
            i <= updates.len(),
            highest == latest(updates@.take(i as int)),
        decreases updates.len() - i,
    {
        proof {
            assert(updates@.take(i + 1).drop_last() =~= updates@.take(i as int));
        }
        let id = updates[i].update_id;
        highest = match highest {
            Some(before) => if before > id {
                Some(before)
            } else {
                Some(id)
            },
            None => Some(id),
        };
        i = i + 1;
    }
    proof {
        assert(updates@.take(updates@.len() as int) == updates@);
    }
    match highest {
        Some(highest) => {
            let after = if highest == i64::MAX {
                highest
            } else {
                highest + 1
            };
            match current {
                Some(current) => if current > after {
                    Some(current)
                } else {
                    Some(after)
                },
                None => Some(after),
            }
        },
        None => current,
    }
}

/// Whether a chat is among some candidates.
pub open spec fn known(candidates: Seq<CandidateView>, id: i64) -> bool {
    exists|i: int| 0 <= i < candidates.len() && #[trigger] candidates[i].id == id
}

/// Some candidates and those that some events bring, each chat once.
pub open spec fn collected(
    candidates: Seq<CandidateView>,
    updates: Seq<Update>,
    bot_username: Option<Seq<char>>,
) -> Seq<CandidateView>
    decreases updates.len(),
{
    if updates.len() == 0 {
        candidates
    } else {
        let before = collected(candidates, updates.drop_last(), bot_username);
        match candidate_of(updates.last(), bot_username) {
            Some(candidate) if !known(before, candidate.id) => before.push(candidate),
            _ => before,
        }
    }
}

/// Whether a chat is among some candidates.
fn is_known(candidates: &Vec<ChatCandidate>, id: i64) -> (result: bool)
    ensures
        result == known(candidate_views(candidates@), id),
{
    let mut i: usize = 0;
    while i < candidates.len()
        invariant
            i <= candidates.len(),
            forall|k: int| 0 <= k < i ==> #[trigger] candidate_views(candidates@)[k].id != id,
        decreases candidates.len() - i,
    {
        if candidates[i].id == id {
            proof {
                assert(candidate_views(candidates@)[i as int].id == id);
            }
            return true;
        }
        i = i + 1;
    }
    false
}

/// Adds the candidates that some events bring, each chat once.
pub fn collect_candidates(
    candidates: &mut Vec<ChatCandidate>,
    updates: &Vec<Update>,
    bot_username: Option<&str>,
)
    ensures
        candidate_views(final(candidates)@) == collected(
            candidate_views(old(candidates)@),
            updates@,
            opt_str(bot_username),
        ),
{
    let ghost first = candidate_views(candidates@);
    let ghost bot = opt_str(bot_username);
    let mut i: usize = 0;
    while i < updates.len()
        invariant
            i <= updates.len(),
            bot == opt_str(bot_username),
            candidate_views(candidates@) == collected(first, updates@.take(i as int), bot),
        decreases updates.len() - i,
    {
        proof {
            assert(updates@.take(i + 1).drop_last() =~= updates@.take(i as int));
        }
        if let Some(candidate) = candidate_from_update(&updates[i], bot_username) {
            if !is_known(candidates, candidate.id) {
                let ghost before = candidates@;
                let ghost added = candidate@;
                candidates.push(candidate);
                proof {
                    assert(candidate_views(candidates@) =~= candidate_views(before).push(added));
                }
            }
        }
        i = i + 1;
    }
    proof {
        assert(updates@.take(updates@.len() as int) == updates@);
    }
}

/// A time after another, no later than the last one there is.
pub open spec fn later(time: u128, span: u128) -> u128 {
    if time <= u128::MAX - span {
        (time + span) as u128
    } else {
        u128::MAX
    }
}

/// How long it is until a time.
pub open spec fn time_until(time: u128, now: u128) -> u128 {
    if now < time {
        (time - now) as u128
    } else {
        0
    }
}

/// Computes a time after another.
fn add_span(time: u128, span: u128) -> (result: u128)
    ensures
        result == later(time, span),
{
    if time <= u128::MAX - span {
        time + span
    } else {
        u128::MAX
    }
}

/// Where the wait for a chat stands.
pub struct SetupWait {
    pub offset: Option<i64>,
    pub candidates: Vec<ChatCandidate>,
    pub deadline: u128,
    pub quiet_deadline: Option<u128>,
}

/// Where the wait for a chat stands, seen from outside.
pub struct SetupWaitView {
    pub offset: Option<i64>,
    pub candidates: Seq<CandidateView>,
    pub deadline: u128,
    pub quiet_deadline: Option<u128>,
}

impl View for SetupWait {
    type V = SetupWaitView;

    open spec fn view(&self) -> SetupWaitView {
        SetupWaitView {
            offset: self.offset,
            candidates: candidate_views(self.candidates@),
            deadline: self.deadline,
            quiet_deadline: self.quiet_deadline,
        }
    }
}

/// What ends the wait for the reply to a request.
pub enum WaitEvent {
    /// The reply, or why there is none.
    Replied(Result<Vec<Update>, TelegramError>),
    /// The deadline came first.
    DeadlinePassed,
    /// The person at the terminal gave up.
    Interrupted,
}

/// A request for events, and how long to wait for its reply.
pub struct Poll {
    pub timeout_seconds: u64,
    pub wait_nanos: u128,
}

impl SetupWaitView {
    /// The wait as it begins after a look at the events that came before.
    pub open spec fn begun(baseline: Seq<Update>, now: u128) -> SetupWaitView {
        SetupWaitView {
            offset: offset_after(None, baseline),
            candidates: Seq::empty(),
            deadline: later(now, SETUP_TIMEOUT_NANOS),
            quiet_deadline: None,
        }
    }

    /// How long it is until no other chat is waited for.
    pub open spec fn quiet_nanos(self, now: u128) -> u128 {
        match self.quiet_deadline {
            Some(time) => time_until(time, now),
            None => time_until(later(now, CHAT_COLLECTION_NANOS), now),
        }
    }

    /// The next request, unless the wait is over. Before the first chat it is held back as
    /// long as Telegram and the deadline allow; after it, for a second or two.
    pub open spec fn next_poll(self, now: u128) -> Option<Poll> {
        let left = time_until(self.deadline, now);
        if left == 0 {
            None
        } else if self.candidates.len() == 0 {
            let seconds = left / NANOS_PER_SECOND;
            Some(
                Poll {
                    timeout_seconds: if seconds < 1 {
                        1
                    } else if seconds > UPDATE_TIMEOUT_SECONDS {
                        UPDATE_TIMEOUT_SECONDS
                    } else {
                        seconds as u64
                    },
                    wait_nanos: left,
                },
            )
        } else if self.quiet_nanos(now) == 0 {
            None
        } else {
            Some(
                Poll {
                    timeout_seconds: if self.quiet_nanos(now) / NANOS_PER_SECOND < 2 {
                        1
                    } else {
                        2
                    },
                    wait_nanos: left,
                },
            )
        }
    }

    /// The wait after some events.
    pub open spec fn received(
        self,
        updates: Seq<Update>,
        bot_username: Option<Seq<char>>,
        now: u128,
    ) -> SetupWaitView {
        let candidates = collected(self.candidates, updates, bot_username);
        SetupWaitView {
            offset: offset_after(self.offset, updates),
            candidates,
            deadline: self.deadline,
            quiet_deadline: if candidates.len() > self.candidates.len() {
                Some(later(now, CHAT_COLLECTION_NANOS))
            } else {
                self.quiet_deadline
            },
        }
    }

    /// What the wait comes to: the chats that were found, or that there are none.
    pub open spec fn outcome(self) -> Result<Seq<CandidateView>, AppErrorView> {
        if self.candidates.len() == 0 {
            Err(AppErrorView::Cancelled("No /start message received within 5 minutes"@))
        } else {
            Ok(self.candidates)
        }
    }

    /// Whether a chat was found and no other is waited for.
    pub open spec fn settled(self, now: u128) -> bool {
        self.candidates.len() > 0 && (self.quiet_deadline matches Some(time) && now >= time)
    }
}

/// Collecting candidates loses none.
proof fn lemma_collected_grows(
    candidates: Seq<CandidateView>,
    updates: Seq<Update>,
    bot_username: Option<Seq<char>>,
)
    ensures
        candidates.len() <= collected(candidates, updates, bot_username).len(),
        collected(candidates, updates, bot_username).take(candidates.len() as int) == candidates,
    decreases updates.len(),
{
    if updates.len() == 0 {
        assert(candidates.take(candidates.len() as int) == candidates);
    } else {
        lemma_collected_grows(candidates, updates.drop_last(), bot_username);
        let before = collected(candidates, updates.drop_last(), bot_username);
        let after = collected(candidates, updates, bot_username);
        assert(after.take(candidates.len() as int) =~= before.take(candidates.len() as int));
    }
}

impl SetupWait {
    /// Begins the wait after a look at the events that came before.
    pub fn begin(baseline: &Vec<Update>, now: u128) -> (wait: Self)
        ensures
            wait@ == SetupWaitView::begun(baseline@, now),
    {
        let candidates: Vec<ChatCandidate> = Vec::new();
        proof {
            assert(candidate_views(candidates@) =~= Seq::empty());
        }
        SetupWait {
            offset: next_offset(None, baseline),
            candidates,
            deadline: add_span(now, SETUP_TIMEOUT_NANOS),
            quiet_deadline: None,
        }
    }

    /// Decides on the next request.
    pub fn next_poll(&self, now: u128) -> (result: Option<Poll>)
        ensures
            result == self@.next_poll(now),
    {
        if now >= self.deadline {
            return None;
        }
        let left: u128 = self.deadline - now;
        if self.candidates.len() == 0 {
            let seconds: u128 = left / NANOS_PER_SECOND;
            let timeout_seconds: u64 = if seconds < 1 {
                1
            } else if seconds > UPDATE_TIMEOUT_SECONDS as u128 {
                UPDATE_TIMEOUT_SECONDS
            } else {
                seconds as u64
            };
            return Some(Poll { timeout_seconds, wait_nanos: left });
        }
        let quiet_end: u128 = match self.quiet_deadline {
            Some(time) => time,
            None => add_span(now, CHAT_COLLECTION_NANOS),
        };
        if now >= quiet_end {
            return None;
        }
        let timeout_seconds: u64 = if (quiet_end - now) / NANOS_PER_SECOND < 2 {
            1
        } else {
            2
        };
        Some(Poll { timeout_seconds, wait_nanos: left })
    }

    /// The request for the next events.
    pub fn request(&self, poll: &Poll) -> (request: GetUpdatesRequest)
        ensures
            request == (GetUpdatesRequest {
                offset: self.offset,
                limit: Some(UPDATE_LIMIT),
                timeout: Some(poll.timeout_seconds),
            }),
            request.limit == Some(100u8),
    {
        GetUpdatesRequest {
            offset: self.offset,
            limit: Some(UPDATE_LIMIT),
            timeout: Some(poll.timeout_seconds),
        }
    }

    /// Takes in some events, and says whether the wait is over.
    pub fn receive(&mut self, updates: &Vec<Update>, bot_username: Option<&str>, now: u128) -> (done:
        bool)
        ensures
            final(self)@ == old(self)@.received(updates@, opt_str(bot_username), now),
            done == final(self)@.settled(now),
    {
        let before: usize = self.candidates.len();
        self.offset = next_offset(self.offset, updates);
        collect_candidates(&mut self.candidates, updates, bot_username);
        if self.candidates.len() > before {
            self.quiet_deadline = Some(add_span(now, CHAT_COLLECTION_NANOS));
        }
        match self.quiet_deadline {
            Some(time) => self.candidates.len() > 0 && now >= time,
            None => false,
        }
    }

    /// Takes in what ended the wait for a reply, and says whether the whole wait is over.
    pub fn after_event(&mut self, event: WaitEvent, bot_username: Option<&str>, now: u128) -> (
    result: Result<bool, AppError>)
        ensures
            match event {
                WaitEvent::Replied(Ok(updates)) => {
                    &&& final(self)@ == old(self)@.received(updates@, opt_str(bot_username), now)
                    &&& outcome(result) == Ok::<bool, AppErrorView>(final(self)@.settled(now))
                },
                WaitEvent::Replied(Err(error)) => {
                    &&& final(self)@ == old(self)@
                    &&& outcome(result) == Err::<bool, AppErrorView>(setup_failure(error@))
                },
                WaitEvent::DeadlinePassed => {
                    &&& final(self)@ == old(self)@
                    &&& outcome(result) == Ok::<bool, AppErrorView>(true)
                },
                WaitEvent::Interrupted => {
                    &&& final(self)@ == old(self)@
                    &&& outcome(result) == Err::<bool, AppErrorView>(cancellation())
                },
            },
    {
        match event {
            WaitEvent::Replied(Ok(updates)) => Ok(self.receive(&updates, bot_username, now)),
            WaitEvent::Replied(Err(error)) => Err(setup_api_error(error)),
            WaitEvent::DeadlinePassed => Ok(true),
            WaitEvent::Interrupted => Err(setup_cancelled()),
        }
    }

    /// The candidates that were found, where there are any.
    pub fn finish(self) -> (result: Result<Vec<ChatCandidate>, AppError>)
        ensures
            match result {
                Ok(candidates) => self@.outcome() == Ok::<Seq<CandidateView>, AppErrorView>(
                    candidate_views(candidates@),
                ),
                Err(error) => self@.outcome() == Err::<Seq<CandidateView>, AppErrorView>(error@),
            },
            match result {
                Ok(candidates) => self@.candidates.len() > 0 && candidate_views(candidates@)
                    == self@.candidates,
                Err(error) => self@.candidates.len() == 0 && error@ == AppErrorView::Cancelled(
                    "No /start message received within 5 minutes"@,
                ),
            },
    {
        if self.candidates.len() == 0 {
            Err(AppError::Cancelled("No /start message received within 5 minutes".to_owned()))
        } else {
            Ok(self.candidates)
        }
    }
}

/// The request for the events that came before setup began.
pub fn baseline_request() -> (request: GetUpdatesRequest)
    ensures
        request == (GetUpdatesRequest {
            offset: Some(-1i64),
            limit: Some(UPDATE_LIMIT),
            timeout: Some(0),
        }),
        request.limit == Some(100u8),
{
    GetUpdatesRequest { offset: Some(-1), limit: Some(UPDATE_LIMIT), timeout: Some(0) }
}

/// A line of the list that a person chooses from.
pub open spec fn menu_line(number: nat, candidate: CandidateView) -> Seq<char> {
    decimal(number) + ". "@ + candidate.name + " — "@ + candidate.chat_type + " — "@
        + signed_decimal(candidate.id as int)
}

/// Writes a line of the list that a person chooses from.
pub fn candidate_line(number: usize, candidate: &ChatCandidate) -> (result: String)
    ensures
        result@ == menu_line(number as nat, candidate@),
{
    let mut line = decimal_text(number as u64);
    line.append(". ");
    line.append(candidate.name.as_str());
    line.append(" — ");
    line.append(candidate.chat_type.as_str());
    line.append(" — ");
    line.append(signed_decimal_text(candidate.id).as_str());
    line
}

/// The candidate that a typed line chooses: the number that it holds, counted from one.
pub open spec fn choice(candidates: Seq<CandidateView>, line: Seq<char>) -> Option<CandidateView> {
    match parsed_unsigned(trimmed(line), usize::MAX as nat) {
        Some(number) => if 1 <= number <= candidates.len() {
            Some(candidates[number - 1])
        } else {
            None
        },
        None => None,
    }
}

/// Finds the candidate that a typed line chooses.
pub fn choose_candidate(candidates: &Vec<ChatCandidate>, line: &str) -> (result: Option<
    ChatCandidate,
>)
    ensures
        candidate_view(result) == choice(candidate_views(candidates@), line@),
{
    match parse_usize(trim(line)) {
        Some(number) => {
            if 1 <= number && number <= candidates.len() {
                proof {
                    assert(candidate_views(candidates@)[number - 1] == candidates@[number - 1]@);
                }
                Some(candidates[number - 1].clone())
            } else {
                None
            }
        },
        None => None,
    }
}

/// The candidate that needs no choice.
pub open spec fn without_choice(candidates: Seq<CandidateView>) -> Option<CandidateView> {
    if candidates.len() == 1 {
        Some(candidates[0])
    } else {
        None
    }
}

/// The candidate that needs no choice: the only one.
pub fn sole_candidate(candidates: &Vec<ChatCandidate>) -> (result: Option<ChatCandidate>)
    ensures
        candidate_view(result) == without_choice(candidate_views(candidates@)),
        candidate_view(result) == if candidates@.len() == 1 {
            Some(candidates@[0]@)
        } else {
            None
        },
{
    if candidates.len() == 1 {
        Some(candidates[0].clone())
    } else {
        None
    }
}

/// Takes in a typed line, or that there are no more: the candidate that it chooses, or that
/// the question is to be asked again.
pub fn after_line(candidates: &Vec<ChatCandidate>, line: Option<&str>) -> (result: Result<
    Option<ChatCandidate>,
    AppError,
>)
    ensures
        match (line, result) {
            (Some(line), Ok(chosen)) => candidate_view(chosen) == choice(
                candidate_views(candidates@),
                line@,
            ),
            (None, Err(error)) => error@ == cancellation(),
            _ => false,
        },
{
    match line {
        Some(line) => Ok(choose_candidate(candidates, line)),
        None => Err(setup_cancelled()),
    }
}

/// How long to wait for a typed line.
pub open spec fn left_for_line(deadline: u128, now: u128) -> Result<u128, AppErrorView> {
    if now < deadline {
        Ok((deadline - now) as u128)
    } else {
        Err(cancellation())
    }
}

/// How long to wait for a typed line, unless the deadline has passed.
pub fn line_wait(deadline: u128, now: u128) -> (result: Result<u128, AppError>)
    ensures
        outcome(result) == left_for_line(deadline, now),
        outcome(result) == if time_until(deadline, now) == 0 {
            Err(cancellation())
        } else {
            Ok::<u128, AppErrorView>(time_until(deadline, now))
        },
{
    if now < deadline {
        Ok(deadline - now)
    } else {
        Err(setup_cancelled())
    }
}

/// The test notification for a chat.
pub fn test_request(chat_id: i64, silent: bool) -> (request: SendMessageRequest)
    ensures
        request@ == (SendMessageView {
            chat_id,
            text: TEST_MESSAGE@,
            disable_notification: silent,
        }),
        request.text@ == "🧪 Codex Telegram Notify\n\nТестовое уведомление успешно отправлено."@,
{
    SendMessageRequest { chat_id, text: TEST_MESSAGE.to_owned(), disable_notification: silent }
}

/// The last stage of setup: a test notification, and what is saved once it is sent.
pub struct SetupTest {
    token: BotToken,
    chat_id: i64,
    previous: ConfigFile,
}

impl SetupTest {
    /// The bot that is set up.
    pub closed spec fn token(self) -> Seq<char> {
        self.token@
    }

    /// The chat that is set up.
    pub closed spec fn chat_id(self) -> i64 {
        self.chat_id
    }

    /// The configuration that was saved before.
    pub closed spec fn previous(self) -> ConfigFile {
        self.previous
    }

    /// Whether a configuration is the previous one with the bot and chat that are set up.
    pub open spec fn leads_to(self, saved: ConfigFile) -> bool {
        &&& opt(saved.bot_token) == Some(self.token())
        &&& saved.chat_id == Some(self.chat_id())
        &&& saved == (ConfigFile {
            bot_token: saved.bot_token,
            chat_id: saved.chat_id,
            ..self.previous()
        })
    }

    /// Prepares the test of a chosen chat.
    pub fn new(token: BotToken, chosen: &ChatCandidate, previous: ConfigFile) -> (test: Self)
        ensures
            test.token() == token@,
            test.chat_id() == chosen.id,
            test.previous() == previous,
    {
        SetupTest { token, chat_id: chosen.id, previous }
    }

    /// The test notification.
    pub fn request(&self) -> (request: SendMessageRequest)
        ensures
            request@ == (SendMessageView {
                chat_id: self.chat_id(),
                text: TEST_MESSAGE@,
                disable_notification: self.previous().silent,
            }),
    {
        test_request(self.chat_id, self.previous.silent)
    }

    /// The configuration to save, once the test notification is sent.
    pub fn after_send(self, sent: Result<(), TelegramError>) -> (result: Result<
        ConfigFile,
        AppError,
    >)
        ensures
            match (sent, result) {
                (Ok(_), Ok(saved)) => self.leads_to(saved),
                (Err(error), Err(failure)) => failure@ == setup_failure(error@),
                _ => false,
            },
    {
        match sent {
            Ok(()) => Ok(
                ConfigFile {
                    bot_token: Some(self.token.as_str().to_owned()),
                    chat_id: Some(self.chat_id),
                    enabled: self.previous.enabled,
                    max_length: self.previous.max_length,
                    timeout_seconds: self.previous.timeout_seconds,
                    silent: self.previous.silent,
                    always_success: self.previous.always_success,
                },
            ),
            Err(error) => Err(setup_api_error(error)),
        }
    }
}

/// No event has a higher identifier than the latest.
proof fn lemma_latest_is_highest(updates: Seq<Update>, i: int)
    requires
        0 <= i < updates.len(),
    ensures
        latest(updates) matches Some(id) && updates[i].update_id <= id,
    decreases updates.len(),
{
    if i < updates.len() - 1 {
        lemma_latest_is_highest(updates.drop_last(), i);
    }
}

/// The offset never goes back, and lies past every event that was seen, but for one with the
/// highest identifier that there is.
pub proof fn law_offset_passes_updates(current: Option<i64>, updates: Seq<Update>, i: int)
    requires
        0 <= i < updates.len(),
    ensures
        offset_after(current, updates) matches Some(offset) && {
            &&& offset > updates[i].update_id || offset == i64::MAX
            &&& current matches Some(current) ==> current <= offset
        },
{
    lemma_latest_is_highest(updates, i);
}

/// The first request of the wait asks for nothing that came before it, and no chat counts
/// that wrote before it.
pub proof fn law_wait_ignores_baseline(baseline: Seq<Update>, now: u128, i: int)
    requires
        0 <= i < baseline.len(),
    ensures
        SetupWaitView::begun(baseline, now).candidates.len() == 0,
        SetupWaitView::begun(baseline, now).offset matches Some(offset) && (offset
            > baseline[i].update_id || offset == i64::MAX),
{
    law_offset_passes_updates(None, baseline, i);
}

/// Whether no chat is among some candidates twice.
pub open spec fn distinct(candidates: Seq<CandidateView>) -> bool {
    forall|i: int, j: int|
        0 <= i < j < candidates.len() ==> #[trigger] candidates[i].id != #[trigger] candidates[j].id
}

/// Events add no chat twice, and leave the candidates that are there where they are.
pub proof fn law_candidates_stay_distinct(
    candidates: Seq<CandidateView>,
    updates: Seq<Update>,
    bot_username: Option<Seq<char>>,
)
    requires
        distinct(candidates),
    ensures
        distinct(collected(candidates, updates, bot_username)),
        candidates.len() <= collected(candidates, updates, bot_username).len(),
        collected(candidates, updates, bot_username).take(candidates.len() as int) == candidates,
    decreases updates.len(),
{
    lemma_collected_grows(candidates, updates, bot_username);
    if updates.len() > 0 {
        law_candidates_stay_distinct(candidates, updates.drop_last(), bot_username);
        let before = collected(candidates, updates.drop_last(), bot_username);
        let after = collected(candidates, updates, bot_username);
        assert forall|i: int, j: int| 0 <= i < j < after.len() implies #[trigger] after[i].id
            != #[trigger] after[j].id by {
            assert(after[i] == before[i]);
            if j == before.len() {
                assert(before[i].id != after[j].id);
            } else {
                assert(after[j] == before[j]);
            }
        }
    }
}

/// A candidate is a chat of a supported kind, and its name has nothing in it that a terminal
/// would obey.
pub proof fn law_candidate_is_presentable(update: Update, bot_username: Option<Seq<char>>)
    ensures
        candidate_of(update, bot_username) matches Some(candidate) ==> {
            &&& supported(candidate.chat_type)
            &&& forall|i: int|
                0 <= i < candidate.name.len() ==> !is_control_char(#[trigger] candidate.name[i])
        },
{
    if let Some(message) = update.message {
        let chat = message.chat;
        let fallback = handle_or_id(opt(chat.username), chat.id);
        let person = full_name(opt(chat.first_name), opt(chat.last_name));
        law_no_control_is_left(fallback);
        law_no_control_is_left(person);
        if let Some(title) = opt(chat.title) {
            law_no_control_is_left(title);
        }
    }
}

/// What a person chooses is one of the candidates, each of them can be chosen by its number,
/// and any other number chooses none.
pub proof fn law_choice_is_a_candidate(candidates: Seq<CandidateView>, line: Seq<char>, number: nat)
    requires
        candidates.len() <= usize::MAX,
    ensures
        choice(candidates, line) matches Some(chosen) ==> candidates.contains(chosen),
        choice(candidates, decimal(number)) == if 1 <= number <= candidates.len() {
            Some(candidates[number - 1])
        } else {
            None
        },
{
    if let Some(typed) = parsed_unsigned(trimmed(line), usize::MAX as nat) {
        if 1 <= typed <= candidates.len() {
            assert(candidates.contains(candidates[typed - 1]));
        }
    }
    lemma_decimal_is_trimmed(number);
    lemma_decimal_denotes(number);
    assert(is_digit(decimal(number)[0]));
}

/// A number has no white space at its ends.
proof fn lemma_decimal_is_trimmed(value: nat)
    ensures
        trimmed(decimal(value)) == decimal(value),
{
    let digits = decimal(value);
    lemma_decimal_denotes(value);
    assert(is_digit(digits[0]));
    assert(is_digit(digits[digits.len() - 1]));
}

/// A wait ends within its time: a request is only made before the deadline, and its reply is
/// not waited for beyond it.
pub proof fn law_wait_is_bounded(wait: SetupWaitView, now: u128)
    ensures
        wait.next_poll(now) matches Some(poll) ==> {
            &&& now < wait.deadline
            &&& now + poll.wait_nanos == wait.deadline
            &&& 1 <= poll.timeout_seconds <= UPDATE_TIMEOUT_SECONDS
        },
{
}

/// The deadline lies five minutes after the start, and no event moves it.
pub proof fn law_deadline_is_fixed(
    baseline: Seq<Update>,
    start: u128,
    wait: SetupWaitView,
    updates: Seq<Update>,
    bot_username: Option<Seq<char>>,
    now: u128,
)
    ensures
        SetupWaitView::begun(baseline, start).deadline <= start + SETUP_TIMEOUT_NANOS,
        wait.received(updates, bot_username, now).deadline == wait.deadline,
{
}

/// Collecting loses no chat: every candidate that was there stays, and a chat that any of the
/// events brings is among the candidates afterwards, whether or not there were some before.
pub proof fn law_every_chat_is_collected(
    candidates: Seq<CandidateView>,
    updates: Seq<Update>,
    bot_username: Option<Seq<char>>,
    i: int,
)
    requires
        0 <= i < updates.len(),
    ensures
        candidate_of(updates[i], bot_username) matches Some(candidate) ==> exists|k: int|
            0 <= k < collected(candidates, updates, bot_username).len() && #[trigger] collected(
                candidates,
                updates,
                bot_username,
            )[k].id == candidate.id,
    decreases updates.len(),
{
    if let Some(candidate) = candidate_of(updates[i], bot_username) {
        let fewer = updates.drop_last();
        let before = collected(candidates, fewer, bot_username);
        let after = collected(candidates, updates, bot_username);
        if i < updates.len() - 1 {
            law_every_chat_is_collected(candidates, fewer, bot_username, i);
            assert(fewer[i] == updates[i]);
            let k = choose|k: int| 0 <= k < before.len() && #[trigger] before[k].id == candidate.id;
            assert(after[k].id == candidate.id);
        } else if known(before, candidate.id) {
            let k = choose|k: int| 0 <= k < before.len() && #[trigger] before[k].id == candidate.id;
            assert(after[k].id == candidate.id);
        } else {
            assert(after[before.len() as int].id == candidate.id);
        }
    }
}

/// Collecting makes no chat up: a candidate that was not there before is what one of the events
/// brings, and the first of them that brings the chat.
pub proof fn law_only_chats_of_events_are_collected(
    candidates: Seq<CandidateView>,
    updates: Seq<Update>,
    bot_username: Option<Seq<char>>,
    k: int,
)
    requires
        candidates.len() <= k < collected(candidates, updates, bot_username).len(),
    ensures
        exists|i: int|
            0 <= i < updates.len() && candidate_of(#[trigger] updates[i], bot_username) == Some(
                collected(candidates, updates, bot_username)[k],
            ) && (forall|j: int|
                0 <= j < i ==> !(candidate_of(#[trigger] updates[j], bot_username) matches Some(
                    other,
                ) && other.id == collected(candidates, updates, bot_username)[k].id)),
    decreases updates.len(),
{
    let fewer = updates.drop_last();
    let before = collected(candidates, fewer, bot_username);
    let after = collected(candidates, updates, bot_username);
    assert(updates.len() > 0);
    if k < before.len() {
        law_only_chats_of_events_are_collected(candidates, fewer, bot_username, k);
        let i = choose|i: int|
            0 <= i < fewer.len() && candidate_of(#[trigger] fewer[i], bot_username) == Some(
                before[k],
            ) && (forall|j: int|
                0 <= j < i ==> !(candidate_of(#[trigger] fewer[j], bot_username) matches Some(
                    other,
                ) && other.id == before[k].id));
        assert(updates[i] == fewer[i]);
        assert(forall|j: int| 0 <= j < i ==> #[trigger] updates[j] == fewer[j]);
    } else {
        let i = updates.len() - 1;
        assert(candidate_of(updates[i], bot_username) == Some(after[k]));
        assert forall|j: int| 0 <= j < i implies !(candidate_of(
            #[trigger] updates[j],
            bot_username,
        ) matches Some(other) && other.id == after[k].id) by {
            assert(updates[j] == fewer[j]);
            law_every_chat_is_collected(candidates, fewer, bot_username, j);
            if let Some(other) = candidate_of(fewer[j], bot_username) {
                let q = choose|q: int| 0 <= q < before.len() && #[trigger] before[q].id == other.id;
                assert(before[q].id == other.id);
            }
        }
    }
}

/// Collecting from two replies, one after the other, is collecting from both in one: a later
/// reply adds to what an earlier one brought.
pub proof fn law_replies_add_up(
    candidates: Seq<CandidateView>,
    first: Seq<Update>,
    second: Seq<Update>,
    bot_username: Option<Seq<char>>,
)
    ensures
        collected(candidates, first + second, bot_username) == collected(
            collected(candidates, first, bot_username),
            second,
            bot_username,
        ),
    decreases second.len(),
{
    if second.len() == 0 {
        assert(first + second =~= first);
    } else {
        law_replies_add_up(candidates, first, second.drop_last(), bot_username);
        assert((first + second).drop_last() =~= first + second.drop_last());
    }
}

/// An event brings a chat exactly where it is a message that starts the bot, in a private chat, a
/// group or a supergroup; the chat comes with its own number, kind and name.
pub proof fn law_start_brings_its_chat(update: Update, bot_username: Option<Seq<char>>)
    ensures
        match update.message {
            Some(message) if message.text is Some && starts_bot(
                message.text->0@,
                bot_username,
            ) && (message.chat.chat_type@ == "private"@ || message.chat.chat_type@ == "group"@
                || message.chat.chat_type@ == "supergroup"@) => candidate_of(
                update,
                bot_username,
            ) == Some(
                CandidateView {
                    id: message.chat.id,
                    name: chat_name(message.chat),
                    chat_type: message.chat.chat_type@,
                },
            ),
            _ => candidate_of(update, bot_username) is None,
        },
{
}

/// The characters of lower case texts in one.
proof fn lemma_lowered_sum(left: Seq<char>, right: Seq<char>)
    ensures
        lowered(left + right) == lowered(left) + lowered(right),
{
    assert(lowered(left + right) =~= lowered(left) + lowered(right));
}

/// No capital letter has a slash or an at sign as its lower case.
proof fn lemma_lower_sign(c: char)
    ensures
        ascii_lower(c) == '/' <==> c == '/',
        ascii_lower(c) == '@' <==> c == '@',
{
}

/// A message starts the bot exactly where its first word is `/start`, or `/start@` and the name
/// of this bot, in any letter case.
pub proof fn law_start_command_is_recognised(text: Seq<char>, bot_username: Option<Seq<char>>)
    ensures
        starts_bot(text, bot_username) <==> words(text).len() > 0 && (lowered(words(text)[0])
            == "/start"@ || (bot_username matches Some(bot) && lowered(words(text)[0]) == "/start@"@
            + lowered(bot))),
{
    reveal_strlit("/");
    reveal_strlit("start");
    reveal_strlit("/start");
    reveal_strlit("/start@");
    assert("/"@ =~= seq!['/']);
    let start = "start"@;
    assert(lowered(start) =~= start);
    assert("/start"@ =~= seq!['/'] + start);
    assert("/start@"@ =~= seq!['/'] + start + seq!['@']);
    if words(text).len() > 0 {
        let word = words(text)[0];
        let low = lowered(word);
        if word.len() > 0 {
            lemma_lower_sign(word[0]);
            assert(low[0] == ascii_lower(word[0]));
        }
        if after_prefix(word, "/"@) is None {
            if low == "/start"@ {
                assert(low[0] == '/');
                assert(word.take(1) =~= "/"@);
            }
            if let Some(bot) = bot_username {
                if low == "/start@"@ + lowered(bot) {
                    assert(low.len() == word.len());
                    assert(low.len() == "/start@"@.len() + lowered(bot).len());
                    assert(low[0] == "/start@"@[0]);
                    assert(word.take(1) =~= "/"@);
                }
            }
        } else {
            let command = word.skip(1);
            assert(word =~= "/"@ + command);
            lemma_lowered_sum("/"@, command);
            lemma_lower_sign('/');
            assert(lowered("/"@) =~= "/"@);
            assert(low == "/"@ + lowered(command));
            assert(low.skip(1) =~= lowered(command));
            assert("/start"@.skip(1) =~= start);
            law_first_position(command, '@');
            match position(command, '@') {
                None => {
                    if low == "/start"@ {
                        assert(lowered(command) == start);
                    }
                    if lowered(command) == start {
                        assert(low =~= "/start"@);
                    }
                    if let Some(bot) = bot_username {
                        if low == "/start@"@ + lowered(bot) {
                            assert(low[6] == '@');
                            lemma_lower_sign(command[5]);
                            assert(low[6] == ascii_lower(command[5]));
                        }
                    }
                },
                Some(n) => {
                    let name = command.take(n as int);
                    let username = command.skip(n as int + 1);
                    assert(command =~= name + seq!['@'] + username);
                    lemma_lowered_sum(name + seq!['@'], username);
                    lemma_lowered_sum(name, seq!['@']);
                    lemma_lower_sign('@');
                    assert(lowered(seq!['@']) =~= seq!['@']);
                    assert(low =~= "/"@ + lowered(name) + seq!['@'] + lowered(username));
                    if low == "/start"@ {
                        lemma_lower_sign(command[n as int]);
                        assert(low[n as int + 1] == '@');
                        assert("/start"@[n as int + 1] != '@');
                    }
                    if let Some(bot) = bot_username {
                        if low == "/start@"@ + lowered(bot) {
                            assert(low[6] == '@');
                            lemma_lower_sign(command[5]);
                            assert(low[6] == ascii_lower(command[5]));
                            assert(command[5] == '@');
                            assert(n <= 5);
                            assert(low[n as int + 1] == ascii_lower(command[n as int]));
                            lemma_lower_sign(command[n as int]);
                            assert("/start@"@[n as int + 1] == '@');
                            assert(n == 5);
                            assert(lowered(name) =~= start) by {
                                assert forall|k: int| 0 <= k < 5 implies lowered(name)[k]
                                    == start[k] by {
                                    assert(low[k + 1] == lowered(name)[k]);
                                    assert(("/start@"@ + lowered(bot))[k + 1] == start[k]);
                                }
                            }
                            assert(lowered(username) =~= lowered(bot)) by {
                                assert(low.skip(7) =~= lowered(username));
                                assert(("/start@"@ + lowered(bot)).skip(7) =~= lowered(bot));
                            }
                        }
                        if lowered(name) == start && lowered(username) == lowered(bot) {
                            assert(low =~= "/start@"@ + lowered(bot));
                        }
                    }
                },
            }
        }
    }
}

/// A private chat is named by the first and last name of the person, as far as there are any, any
/// other chat by its title; where these are missing, by the user name behind an at sign, else by
/// its number. Control characters are left out.
pub proof fn law_chat_is_named(chat: Chat)
    ensures
        ({
            let fallback = match chat.username {
                Some(username) => "@"@ + username@,
                None => signed_decimal(chat.id as int),
            };
            let name = if chat.chat_type@ == "private"@ {
                match (chat.first_name, chat.last_name) {
                    (Some(first), Some(last)) if first@.len() > 0 && last@.len() > 0 => first@
                        + " "@ + last@,
                    (Some(first), _) if first@.len() > 0 => first@,
                    (_, Some(last)) if last@.len() > 0 => last@,
                    _ => fallback,
                }
            } else if chat.title is Some {
                chat.title->0@
            } else {
                fallback
            };
            chat_name(chat) == without_controls(name)
        }),
{
    reveal_strlit(" ");
    if let Some(first) = chat.first_name {
        if let Some(last) = chat.last_name {
            assert((first@ + " "@ + last@).len() > 0);
        }
    }
}

/// A bot is named by its user name behind an at sign, else by its first and last name, without
/// control characters.
pub proof fn law_bot_is_named(bot: BotUser)
    ensures
        match bot.username {
            Some(username) if username@.len() > 0 => bot_name(bot) == "@"@ + without_controls(
                username@,
            ),
            _ => match bot.last_name {
                Some(last) if last@.len() > 0 => bot_name(bot) == without_controls(
                    bot.first_name@ + " "@ + last@,
                ),
                _ => bot_name(bot) == without_controls(bot.first_name@),
            },
        },
{
}

/// The offset is where it was, or right behind one of the events, whichever is furthest: it lies
/// past all of them and skips none that may still come.
pub proof fn law_offset_skips_nothing(current: Option<i64>, updates: Seq<Update>)
    ensures
        updates.len() == 0 ==> offset_after(current, updates) == current,
        updates.len() > 0 ==> (offset_after(current, updates) matches Some(offset) && (current
            == Some(offset) || exists|i: int|
            0 <= i < updates.len() && (offset == (#[trigger] updates[i]).update_id + 1 || (offset
                == updates[i].update_id && offset == 0x7fff_ffff_ffff_ffff)))),
{
    if updates.len() > 0 {
        let i = lemma_latest_is_there(updates);
        assert(updates[i].update_id == latest(updates)->0);
        lemma_latest_is_highest(updates, i);
    }
}

/// The latest identifier is that of one of the events.
proof fn lemma_latest_is_there(updates: Seq<Update>) -> (i: int)
    requires
        updates.len() > 0,
    ensures
        0 <= i < updates.len(),
        latest(updates) == Some(updates[i].update_id),
    decreases updates.len(),
{
    let fewer = updates.drop_last();
    if fewer.len() > 0 {
        let i = lemma_latest_is_there(fewer);
        if fewer[i].update_id > updates.last().update_id {
            i
        } else {
            updates.len() - 1
        }
    } else {
        assert(latest(fewer) is None);
        updates.len() - 1
    }
}

/// The wait begins with no chat and five minutes to go.
pub proof fn law_wait_begins(baseline: Seq<Update>, now: u128)
    requires
        now + 300_000_000_000 <= u128::MAX,
    ensures
        ({
            let wait = SetupWaitView::begun(baseline, now);
            &&& wait.deadline == now + 300_000_000_000
            &&& wait.candidates.len() == 0
            &&& wait.quiet_deadline is None
            &&& wait.offset == offset_after(None, baseline)
            &&& !wait.settled(now)
        }),
{
}

/// A reply adds the chats that it brings and moves past its events. Each that brings a new chat
/// gives others two more seconds, and the wait is over once these have passed with no other.
pub proof fn law_reply_is_received(
    wait: SetupWaitView,
    updates: Seq<Update>,
    bot_username: Option<Seq<char>>,
    now: u128,
)
    requires
        now + 2_000_000_000 <= u128::MAX,
    ensures
        ({
            let after = wait.received(updates, bot_username, now);
            &&& after.candidates == collected(wait.candidates, updates, bot_username)
            &&& after.offset == offset_after(wait.offset, updates)
            &&& after.deadline == wait.deadline
            &&& after.candidates.len() > wait.candidates.len() ==> after.quiet_deadline == Some(
                (now + 2_000_000_000) as u128,
            ) && !after.settled(now)
            &&& after.candidates.len() <= wait.candidates.len() ==> after.quiet_deadline
                == wait.quiet_deadline
            &&& after.settled(now) <==> after.candidates.len() > 0 && after.quiet_deadline is Some
                && after.quiet_deadline->0 <= now
        }),
{
    lemma_collected_grows(wait.candidates, updates, bot_username);
}

/// A request is made as long as there is time: before the first chat until the deadline, held
/// back for the seconds that are left, from 1 to 15 of them; after it until the two seconds for
/// others have passed, and then held back for 1 second, or for 2 where that many are left.
pub proof fn law_requests_fill_the_time(wait: SetupWaitView, now: u128)
    requires
        now + 2_000_000_000 <= u128::MAX,
    ensures
        wait.next_poll(now) is Some <==> now < wait.deadline && (wait.candidates.len() == 0
            || wait.quiet_deadline is None || now < wait.quiet_deadline->0),
        wait.next_poll(now) matches Some(poll) ==> {
            let left = wait.deadline - now;
            &&& poll.wait_nanos == left
            &&& wait.candidates.len() == 0 ==> {
                &&& left < 2_000_000_000 ==> poll.timeout_seconds == 1
                &&& left >= 15_000_000_000 ==> poll.timeout_seconds == 15
                &&& 1_000_000_000 <= left < 16_000_000_000 ==> poll.timeout_seconds
                    * 1_000_000_000 <= left && left < (poll.timeout_seconds + 1) * 1_000_000_000
            }
            &&& wait.candidates.len() > 0 ==> {
                let quiet = match wait.quiet_deadline {
                    Some(time) => time - now,
                    None => 2_000_000_000,
                };
                poll.timeout_seconds == if quiet >= 2_000_000_000 {
                    2u64
                } else {
                    1u64
                }
            }
        },
{
}

/// A line of the list shows the number to choose by, the name, the kind and the number of the
/// chat.
pub proof fn law_line_shows_the_chat(number: nat, candidate: CandidateView)
    ensures
        menu_line(number, candidate) == decimal(number) + ". "@ + candidate.name + " — "@
            + candidate.chat_type + " — "@ + signed_decimal(candidate.id as int),
{
}

/// A typed line chooses by the number that it is, whatever white space stands around it and
/// counted from one, and chooses nothing where it is no number of the list.
pub proof fn law_line_chooses_by_number(candidates: Seq<CandidateView>, line: Seq<char>)
    requires
        candidates.len() <= usize::MAX,
    ensures
        match parsed_unsigned(trimmed(line), usize::MAX as nat) {
            Some(number) if 0 < number && number < candidates.len() + 1 => choice(candidates, line)
                == Some(candidates[number - 1]),
            _ => choice(candidates, line) is None,
        },
{
}

/// A typed token is taken without the white space around it, and refused only where there is
/// nothing else.
pub proof fn law_blank_token_is_refused(input: Seq<char>)
    ensures
        typed_token(input) is Err <==> trimmed(input) == Seq::<char>::empty(),
        typed_token(input) matches Ok(token) ==> token == trimmed(input),
        typed_token(input) matches Err(error) ==> error == AppErrorView::Config(
            "Telegram bot token cannot be empty"@,
        ),
{
    if trimmed(input).len() == 0 {
        assert(trimmed(input) =~= Seq::empty());
    }
}

/// A token that Telegram did not accept ends setup with advice on the token; any other failure of
/// a request ends it with that failure in words.
pub proof fn law_setup_names_the_failure(error: TelegramErrorView)
    ensures
        (error matches TelegramErrorView::Api { code: Some(code), .. } && code == 401)
            ==> setup_failure(error) == AppErrorView::Telegram(
            "Telegram отклонил bot token. Проверьте токен, полученный у BotFather."@,
        ),
        !(error matches TelegramErrorView::Api { code: Some(code), .. } && code == 401)
            ==> setup_failure(error) == AppErrorView::Telegram(error.user_message()),
{
}

/// What setup saves is the new bot and chat; every other setting is as it was saved before.
pub proof fn law_setup_saves_bot_and_chat(test: SetupTest, saved: ConfigFile)
    requires
        test.leads_to(saved),
    ensures
        saved.bot_token matches Some(token) && token@ == test.token(),
        saved.chat_id == Some(test.chat_id()),
        saved.enabled == test.previous().enabled,
        saved.max_length == test.previous().max_length,
        saved.timeout_seconds == test.previous().timeout_seconds,
        saved.silent == test.previous().silent,
        saved.always_success == test.previous().always_success,
{
}

/// A chat is taken without asking only where it is the only one: with two or more there is a
/// choice to make.
pub proof fn law_only_one_chat_needs_no_choice(
    chat: CandidateView,
    other: CandidateView,
    more: Seq<CandidateView>,
)
    ensures
        without_choice(seq![chat]) == Some(chat),
        without_choice(seq![chat, other] + more) is None,
        without_choice(Seq::empty()) is None,
{
}

/// A line is waited for until the deadline and not beyond it; after it setup is cancelled.
pub proof fn law_line_is_awaited_until_deadline(deadline: u128, now: u128)
    ensures
        left_for_line(deadline, now) matches Ok(nanos) ==> nanos > 0 && now + nanos == deadline,
        left_for_line(deadline, now) is Err <==> deadline <= now,
        left_for_line(deadline, now) matches Err(error) ==> error == AppErrorView::Cancelled(
            "Setup cancelled"@,
        ),
{
}

/// A wait comes to all the chats that it found, in the order in which they came, and fails only
/// where there are none.
pub proof fn law_wait_gives_all_chats(wait: SetupWaitView)
    ensures
        wait.candidates.len() > 0 ==> wait.outcome() == Ok::<Seq<CandidateView>, AppErrorView>(
            wait.candidates,
        ),
        wait.candidates.len() == 0 ==> wait.outcome() == Err::<Seq<CandidateView>, _>(
            AppErrorView::Cancelled("No /start message received within 5 minutes"@),
        ),
{
}

} // verus!
