//! Requests to the Telegram bot API and what their outcomes mean.

use crate::config::BotToken;
use crate::number::{signed_decimal, signed_decimal_text};
use crate::text::{
    chars_of, is_control_char, join, joined, law_first_occurrence_is_replaced,
    law_no_control_is_left, law_replaced_part_is_gone, lemma_joined_allowed, lemma_trimmed_length,
    lemma_words_allowed, occurs, remove_controls, replace, replaced, split_whitespace, straddles,
    trim, trimmed, without_controls, words,
};
use vstd::prelude::*;
use vstd::string::StringExecFns;
use vstd::string::StrSliceExecFns;

verus! {

/// The nanoseconds to wait before a request is sent again.
pub const RETRY_DELAY_NANOS: u128 = 100_000_000;

/// The most characters of a description that are shown.
pub const MAX_DESCRIPTION_LENGTH: usize = 200;

/// A request that failed.
#[derive(Debug)]
pub enum TelegramError {
    Api { code: Option<i64>, description: String },
    Network,
    Timeout,
    InvalidResponse,
}

/// What a failed request says.
pub enum TelegramErrorView {
    Api { code: Option<i64>, description: Seq<char> },
    Network,
    Timeout,
    InvalidResponse,
}

impl View for TelegramError {
    type V = TelegramErrorView;

    open spec fn view(&self) -> TelegramErrorView {
        match self {
            TelegramError::Api { code, description } => TelegramErrorView::Api {
                code: *code,
                description: description@,
            },
            TelegramError::Network => TelegramErrorView::Network,
            TelegramError::Timeout => TelegramErrorView::Timeout,
            TelegramError::InvalidResponse => TelegramErrorView::InvalidResponse,
        }
    }
}

impl TelegramErrorView {
    /// The failure in words.
    pub open spec fn user_message(self) -> Seq<char> {
        match self {
            TelegramErrorView::Api { code: Some(code), description } => "Telegram API error ("@
                + signed_decimal(code as int) + "): "@ + sanitized(description),
            TelegramErrorView::Api { code: None, description } => "Telegram API error: "@
                + sanitized(description),
            TelegramErrorView::Network => "network error while contacting Telegram"@,
            TelegramErrorView::Timeout => "request to Telegram timed out"@,
            TelegramErrorView::InvalidResponse => "Telegram returned an invalid response"@,
        }
    }

    /// Whether Telegram did not accept the token.
    pub open spec fn is_authentication_error(self) -> bool {
        self matches TelegramErrorView::Api { code: Some(code), .. } && code == 401
    }
}

impl TelegramError {
    /// Puts the failure in words.
    pub fn user_message(&self) -> (message: String)
        ensures
            message@ == self@.user_message(),
    {
        match self {
            TelegramError::Api { code, description } => {
                let description = sanitize_error_text(description.as_str());
                match code {
                    Some(code) => {
                        let mut message = "Telegram API error (".to_owned();
                        message.append(signed_decimal_text(*code).as_str());
                        message.append("): ");
                        message.append(description.as_str());
                        message
                    },
                    None => {
                        let mut message = "Telegram API error: ".to_owned();
                        message.append(description.as_str());
                        message
                    },
                }
            },
            TelegramError::Network => "network error while contacting Telegram".to_owned(),
            TelegramError::Timeout => "request to Telegram timed out".to_owned(),
            TelegramError::InvalidResponse => "Telegram returned an invalid response".to_owned(),
        }
    }

    /// Whether Telegram did not accept the token.
    pub fn is_authentication_error(&self) -> (result: bool)
        ensures
            result == self@.is_authentication_error(),
    {
        match self {
            TelegramError::Api { code: Some(code), description: _ } => *code == 401,
            _ => false,
        }
    }
}

/// A bot.
#[derive(Debug, Clone)]
pub struct BotUser {
    pub id: i64,
    pub is_bot: bool,
    pub first_name: String,
    pub last_name: Option<String>,
    pub username: Option<String>,
}

/// One event that a bot receives.
#[derive(Debug, Clone)]
pub struct Update {
    pub update_id: i64,
    pub message: Option<Message>,
}

/// A message in a chat.
#[derive(Debug, Clone)]
pub struct Message {
    pub chat: Chat,
    pub text: Option<String>,
}

/// A chat.
#[derive(Debug, Clone)]
pub struct Chat {
    pub id: i64,
    pub chat_type: String,
    pub title: Option<String>,
    pub username: Option<String>,
    pub first_name: Option<String>,
    pub last_name: Option<String>,
}

/// Asks for the events that a bot has received.
#[derive(Debug, Clone)]
pub struct GetUpdatesRequest {
    pub offset: Option<i64>,
    pub limit: Option<u8>,
    pub timeout: Option<u64>,
}

/// Asks to send a message.
#[derive(Debug, Clone)]
pub struct SendMessageRequest {
    pub chat_id: i64,
    pub text: String,
    pub disable_notification: bool,
}

/// What a `SendMessageRequest` holds.
pub struct SendMessageView {
    pub chat_id: i64,
    pub text: Seq<char>,
    pub disable_notification: bool,
}

impl View for SendMessageRequest {
    type V = SendMessageView;

    open spec fn view(&self) -> SendMessageView {
        SendMessageView {
            chat_id: self.chat_id,
            text: self.text@,
            disable_notification: self.disable_notification,
        }
    }
}

/// The envelope of every reply.
pub struct ApiResponse<T> {
    pub ok: bool,
    pub result: Option<T>,
    pub description: Option<String>,
    pub error_code: Option<i64>,
}

/// The first characters of a text.
pub open spec fn first_chars(s: Seq<char>, count: nat) -> Seq<char> {
    if s.len() <= count {
        s
    } else {
        s.take(count as int)
    }
}

/// A description from outside made fit to show: one line of bounded length, never blank.
pub open spec fn sanitized(value: Seq<char>) -> Seq<char> {
    let line = first_chars(
        joined(words(without_controls(value)), " "@),
        MAX_DESCRIPTION_LENGTH as nat,
    );
    if trimmed(line).len() == 0 {
        "request rejected"@
    } else {
        line
    }
}

/// Makes a description from outside fit to show.
pub fn sanitize_error_text(value: &str) -> (result: String)
    ensures
        result@ == sanitized(value@),
{
    let visible = remove_controls(value);
    let parts = split_whitespace(visible.as_str());
    let line = join(&parts, " ");
    let length = line.as_str().unicode_len();
    let cut: &str = if length <= MAX_DESCRIPTION_LENGTH {
        line.as_str()
    } else {
        line.as_str().substring_char(0, MAX_DESCRIPTION_LENGTH)
    };
    proof {
        assert(cut@ =~= first_chars(line@, MAX_DESCRIPTION_LENGTH as nat));
    }
    if trim(cut).is_empty() {
        "request rejected".to_owned()
    } else {
        cut.to_owned()
    }
}

/// A text with each occurrence of a secret hidden.
pub open spec fn redacted(value: Seq<char>, secret: Seq<char>) -> Seq<char> {
    replaced(value, secret, "[REDACTED]"@)
}

/// Hides each occurrence of a secret.
pub fn redact_secret(value: &str, secret: &str) -> (result: String)
    ensures
        result@ == redacted(value@, secret@),
{
    if secret.is_empty() {
        value.to_owned()
    } else {
        replace(value, secret, "[REDACTED]")
    }
}

/// A text without the slashes at its end.
pub open spec fn without_slashes(s: Seq<char>) -> Seq<char>
    decreases s.len(),
{
    if s.len() > 0 && s.last() == '/' {
        without_slashes(s.drop_last())
    } else {
        s
    }
}

/// The address of a method of the bot API.
pub open spec fn endpoint_of(base_url: Seq<char>, token: Seq<char>, method: Seq<char>) -> Seq<
    char,
> {
    without_slashes(base_url) + "/bot"@ + token + "/"@ + method
}

/// Writes the address of a method of the bot API.
pub fn endpoint(base_url: &str, token: &BotToken, method: &str) -> (result: String)
    ensures
        result@ == endpoint_of(base_url@, token@, method@),
{
    let chars = chars_of(base_url);
    let mut end: usize = chars.len();
    proof {
        assert(chars@.take(end as int) == chars@);
    }
    while end > 0 && chars[end - 1] == '/'
        invariant
            end <= chars.len(),
            without_slashes(chars@) == without_slashes(chars@.take(end as int)),
        decreases end,
    {
        proof {
            assert(chars@.take(end as int).drop_last() == chars@.take(end - 1));
        }
        end = end - 1;
    }
    let base = base_url.substring_char(0, end);
    proof {
        assert(base@ =~= chars@.take(end as int));
    }
    let mut result = base.to_owned();
    result.append("/bot");
    result.append(token.as_str());
    result.append("/");
    result.append(method);
    result
}

/// The error code that an HTTP status stands for, where it is no success.
pub open spec fn code_of_status(status: u16) -> Option<i64> {
    if 200 <= status < 300 {
        None
    } else {
        Some(status as i64)
    }
}

/// Reads an HTTP status as an error code.
pub fn status_code(status: u16) -> (result: Option<i64>)
    ensures
        result == code_of_status(status),
{
    if 200 <= status && status < 300 {
        None
    } else {
        Some(status as i64)
    }
}

/// What a reply means: its result, or why there is none.
pub open spec fn reply_meaning<T>(
    parsed: Option<ApiResponse<T>>,
    status: u16,
    token: Seq<char>,
) -> Result<T, TelegramErrorView> {
    match parsed {
        None => Err(TelegramErrorView::InvalidResponse),
        Some(reply) => if reply.ok {
            match reply.result {
                Some(result) => Ok(result),
                None => Err(TelegramErrorView::InvalidResponse),
            }
        } else {
            Err(
                TelegramErrorView::Api {
                    code: match reply.error_code {
                        Some(code) => Some(code),
                        None => code_of_status(status),
                    },
                    description: redacted(
                        match reply.description {
                            Some(description) => description@,
                            None => "request rejected"@,
                        },
                        token,
                    ),
                },
            )
        },
    }
}

/// Reads a reply that was parsed, or could not be.
pub fn read_response<T>(parsed: Option<ApiResponse<T>>, status: u16, token: &BotToken) -> (result:
    Result<T, TelegramError>)
    ensures
        match result {
            Ok(value) => reply_meaning(parsed, status, token@) == Ok::<T, TelegramErrorView>(value),
            Err(error) => reply_meaning(parsed, status, token@) == Err::<T, TelegramErrorView>(
                error@,
            ),
        },
{
    match parsed {
        None => Err(TelegramError::InvalidResponse),
        Some(reply) => {
            if reply.ok {
                match reply.result {
                    Some(result) => Ok(result),
                    None => Err(TelegramError::InvalidResponse),
                }
            } else {
                let code = match reply.error_code {
                    Some(code) => Some(code),
                    None => status_code(status),
                };
                let description = match reply.description {
                    Some(description) => description,
                    None => "request rejected".to_owned(),
                };
                Err(
                    TelegramError::Api {
                        code,
                        description: redact_secret(description.as_str(), token.as_str()),
                    },
                )
            }
        },
    }
}

/// What is known of a request that could not be sent.
#[derive(Debug, Clone, Copy)]
pub struct TransportError {
    pub timeout: bool,
    pub connect: bool,
    pub request: bool,
}

impl TransportError {
    /// Whether sending again may help.
    pub open spec fn retryable(self) -> bool {
        self.timeout || self.connect || self.request
    }
}

/// Whether sending again may help.
pub fn is_retryable_transport(error: &TransportError) -> (result: bool)
    ensures
        result == error.retryable(),
{
    error.timeout || error.connect || error.request
}

/// What happens while a request is under way.
#[derive(Debug, Clone, Copy)]
pub enum PostEvent {
    /// The request is about to be sent.
    Ready,
    /// The request could not be sent.
    SendFailed(TransportError),
    /// The reply did not start in time.
    SendTimedOut,
    /// The body of the reply could not be read.
    BodyFailed,
    /// The body of the reply did not end in time.
    BodyTimedOut,
    /// A whole reply with an HTTP status is there.
    Received { status: u16 },
}

/// What to do next about a request.
#[derive(Debug)]
pub enum PostStep {
    Send,
    RetryAfterDelay,
    ReadReply,
    Fail(TelegramError),
}

/// What is to be done next, seen from outside.
pub enum PostStepView {
    Send,
    RetryAfterDelay,
    ReadReply,
    Fail(TelegramErrorView),
}

impl View for PostStep {
    type V = PostStepView;

    open spec fn view(&self) -> PostStepView {
        match self {
            PostStep::Send => PostStepView::Send,
            PostStep::RetryAfterDelay => PostStepView::RetryAfterDelay,
            PostStep::ReadReply => PostStepView::ReadReply,
            PostStep::Fail(error) => PostStepView::Fail(error@),
        }
    }
}

/// Whether there is an attempt left and more time than the delay before it.
pub open spec fn may_retry(retry_used: bool, remaining_nanos: u128) -> bool {
    !retry_used && remaining_nanos > RETRY_DELAY_NANOS
}

/// What an event leads to, with the time that is left until the deadline.
pub open spec fn step_after(
    retry_used: bool,
    event: PostEvent,
    remaining_nanos: u128,
) -> PostStepView {
    match event {
        PostEvent::Ready => if remaining_nanos == 0 {
            PostStepView::Fail(TelegramErrorView::Timeout)
        } else {
            PostStepView::Send
        },
        PostEvent::SendFailed(error) => if error.retryable() && may_retry(
            retry_used,
            remaining_nanos,
        ) {
            PostStepView::RetryAfterDelay
        } else if error.timeout {
            PostStepView::Fail(TelegramErrorView::Timeout)
        } else {
            PostStepView::Fail(TelegramErrorView::Network)
        },
        PostEvent::SendTimedOut => PostStepView::Fail(TelegramErrorView::Timeout),
        PostEvent::BodyFailed => if may_retry(retry_used, remaining_nanos) {
            PostStepView::RetryAfterDelay
        } else {
            PostStepView::Fail(TelegramErrorView::Network)
        },
        PostEvent::BodyTimedOut => PostStepView::Fail(TelegramErrorView::Timeout),
        PostEvent::Received { status } => if 500 <= status < 600 && may_retry(
            retry_used,
            remaining_nanos,
        ) {
            PostStepView::RetryAfterDelay
        } else {
            PostStepView::ReadReply
        },
    }
}

/// Whether the one retry is used up once an event was met.
pub open spec fn retry_used_after(retry_used: bool, event: PostEvent, remaining_nanos: u128) -> bool {
    retry_used || step_after(retry_used, event, remaining_nanos) is RetryAfterDelay
}

/// Decides what to do next about a request. Comes with whether the one retry is used up from
/// then on.
pub fn post_step(retry_used: bool, event: PostEvent, remaining_nanos: u128) -> (result: (
    bool,
    PostStep,
))
    ensures
        result.0 == retry_used_after(retry_used, event, remaining_nanos),
        result.1@ == step_after(retry_used, event, remaining_nanos),
{
    let may_retry = !retry_used && remaining_nanos > RETRY_DELAY_NANOS;
    let step = match event {
        PostEvent::Ready => if remaining_nanos == 0 {
            PostStep::Fail(TelegramError::Timeout)
        } else {
            PostStep::Send
        },
        PostEvent::SendFailed(error) => if is_retryable_transport(&error) && may_retry {
            PostStep::RetryAfterDelay
        } else if error.timeout {
            PostStep::Fail(TelegramError::Timeout)
        } else {
            PostStep::Fail(TelegramError::Network)
        },
        PostEvent::SendTimedOut => PostStep::Fail(TelegramError::Timeout),
        PostEvent::BodyFailed => if may_retry {
            PostStep::RetryAfterDelay
        } else {
            PostStep::Fail(TelegramError::Network)
        },
        PostEvent::BodyTimedOut => PostStep::Fail(TelegramError::Timeout),
        PostEvent::Received { status } => if 500 <= status && status < 600 && may_retry {
            PostStep::RetryAfterDelay
        } else {
            PostStep::ReadReply
        },
    };
    let used = match &step {
        PostStep::RetryAfterDelay => true,
        _ => retry_used,
    };
    (used, step)
}

/// A sanitized description is not empty, not too long, and free of control characters.
pub proof fn law_sanitized_is_presentable(value: Seq<char>)
    ensures
        1 <= sanitized(value).len() <= MAX_DESCRIPTION_LENGTH,
        forall|i: int|
            0 <= i < sanitized(value).len() ==> !is_control_char(#[trigger] sanitized(value)[i]),
{
    let visible = without_controls(value);
    let line = joined(words(visible), " "@);
    let allowed = |c: char| !is_control_char(c);
    reveal_strlit(" ");
    reveal_strlit("request rejected");
    law_no_control_is_left(value);
    lemma_words_allowed(visible, allowed);
    lemma_joined_allowed(words(visible), " "@, allowed);
    lemma_trimmed_length(first_chars(line, MAX_DESCRIPTION_LENGTH as nat));
    assert("request rejected"@.len() == 16);
    assert forall|i: int| 0 <= i < sanitized(value).len() implies !is_control_char(
        #[trigger] sanitized(value)[i],
    ) by {
        if trimmed(first_chars(line, MAX_DESCRIPTION_LENGTH as nat)).len() > 0 {
            assert(sanitized(value)[i] == line[i]);
            assert(allowed(line[i]));
        }
    }
}

/// The events that a request met, each with the time that was left.
pub type Run = Seq<(PostEvent, u128)>;

/// Whether the one retry is used up after a run.
pub open spec fn retry_used_in(run: Run) -> bool
    decreases run.len(),
{
    if run.len() == 0 {
        false
    } else {
        retry_used_after(retry_used_in(run.drop_last()), run.last().0, run.last().1)
    }
}

/// What the last event of a run leads to.
pub open spec fn last_step(run: Run) -> PostStepView {
    step_after(retry_used_in(run.drop_last()), run.last().0, run.last().1)
}

/// Whether a run can come about: it begins ready to send, what is sent meets an outcome, after
/// a delay it is ready to send again, and nothing follows a reply that is read or a failure.
pub open spec fn possible(run: Run) -> bool
    decreases run.len(),
{
    if run.len() == 0 {
        true
    } else if run.len() == 1 {
        run[0].0 is Ready
    } else {
        let earlier = run.drop_last();
        &&& possible(earlier)
        &&& match last_step(earlier) {
            PostStepView::Send => run.last().0 !is Ready,
            PostStepView::RetryAfterDelay => run.last().0 is Ready,
            _ => false,
        }
    }
}

/// How often a request is sent in a run.
pub open spec fn sends(run: Run) -> nat
    decreases run.len(),
{
    if run.len() == 0 {
        0
    } else {
        let earlier = sends(run.drop_last());
        if last_step(run) is Send {
            earlier + 1
        } else {
            earlier
        }
    }
}

/// Whatever events it meets, a request is sent at most twice, and a second time only after the
/// one retry.
pub proof fn law_one_retry(run: Run)
    requires
        possible(run),
    ensures
        sends(run) <= 2,
        sends(run) == 2 ==> retry_used_in(run),
        run.len() > 0 && last_step(run) is RetryAfterDelay ==> sends(run) <= 1,
    decreases run.len(),
{
    if run.len() == 1 {
        assert(run.drop_last() =~= Seq::empty());
        assert(!retry_used_in(run.drop_last()));
        assert(sends(run.drop_last()) == 0);
    } else if run.len() > 1 {
        law_one_retry(run.drop_last());
    }
}

/// A secret that cannot lie across its replacement does not occur in a redacted text.
pub proof fn law_redaction_removes_secret(value: Seq<char>, secret: Seq<char>)
    requires
        secret.len() > 0,
        !straddles(secret, "[REDACTED]"@),
    ensures
        !occurs(redacted(value, secret), secret),
{
    reveal_strlit("[REDACTED]");
    assert("[REDACTED]"@.len() == 10);
    law_replaced_part_is_gone(value, secret, "[REDACTED]"@);
}

/// The failure that a rejected request is reported with does not hold the token, where the
/// token cannot lie across its replacement.
pub proof fn law_rejection_hides_token<T>(reply: ApiResponse<T>, status: u16, token: Seq<char>)
    requires
        token.len() > 0,
        !straddles(token, "[REDACTED]"@),
    ensures
        reply_meaning(Some(reply), status, token) matches Err(
            TelegramErrorView::Api { description, .. },
        ) ==> !occurs(description, token),
{
    law_redaction_removes_secret(
        match reply.description {
            Some(description) => description@,
            None => "request rejected"@,
        },
        token,
    );
}

/// A description is shown as its words with one space between each two, cut after 200
/// characters, and as a rejection where nothing is left to show.
pub proof fn law_description_is_shown_as_words(value: Seq<char>)
    ensures
        ({
            let line = joined(words(without_controls(value)), " "@);
            let cut = if line.len() > 200 {
                line.take(200)
            } else {
                line
            };
            sanitized(value) == if trimmed(cut).len() > 0 {
                cut
            } else {
                "request rejected"@
            }
        }),
{
}

/// A failure is told by its kind, and one that Telegram described by its code, where there is
/// one, and the description.
pub proof fn law_failure_is_told(code: i64, description: Seq<char>)
    ensures
        (TelegramErrorView::Api { code: Some(code), description }).user_message()
            == "Telegram API error ("@ + signed_decimal(code as int) + "): "@ + sanitized(
            description,
        ),
        (TelegramErrorView::Api { code: None, description }).user_message()
            == "Telegram API error: "@ + sanitized(description),
        TelegramErrorView::Network.user_message() == "network error while contacting Telegram"@,
        TelegramErrorView::Timeout.user_message() == "request to Telegram timed out"@,
        TelegramErrorView::InvalidResponse.user_message()
            == "Telegram returned an invalid response"@,
{
}

/// Only the code 401 means that the token was not accepted.
pub proof fn law_code_tells_bad_token(error: TelegramErrorView)
    ensures
        error.is_authentication_error() <==> (match error {
            TelegramErrorView::Api { code, .. } => code == Some(401i64),
            _ => false,
        }),
{
}

/// A method is addressed behind the base, the word `bot` and the token; slashes at the end of the
/// base do not count.
pub proof fn law_method_is_addressed(
    base_url: Seq<char>,
    slashes: nat,
    token: Seq<char>,
    method: Seq<char>,
)
    requires
        base_url.len() == 0 || base_url.last() != '/',
    ensures
        endpoint_of(base_url + Seq::new(slashes, |i: int| '/'), token, method) == base_url
            + "/bot"@ + token + "/"@ + method,
{
    lemma_slashes_are_left_out(base_url, slashes);
}

/// Slashes at the end are left out.
proof fn lemma_slashes_are_left_out(base: Seq<char>, slashes: nat)
    requires
        base.len() == 0 || base.last() != '/',
    ensures
        without_slashes(base + Seq::new(slashes, |i: int| '/')) == base,
    decreases slashes,
{
    let whole = base + Seq::new(slashes, |i: int| '/');
    if slashes == 0 {
        assert(whole =~= base);
    } else {
        let fewer = (slashes - 1) as nat;
        assert(whole.drop_last() =~= base + Seq::new(fewer, |i: int| '/'));
        lemma_slashes_are_left_out(base, fewer);
    }
}

/// An HTTP status from 200 to 299 is no failure; any other is the code of one.
pub proof fn law_status_is_a_code(status: u16)
    ensures
        code_of_status(status) is None <==> 200 <= status <= 299,
        code_of_status(status) matches Some(code) ==> code == status,
{
}

/// A reply means its result where it is marked as good and has one; a bad one means its own code,
/// else that of the HTTP status, and its description without the token; all else is no valid
/// reply.
pub proof fn law_reply_means_what_it_says<T>(reply: ApiResponse<T>, status: u16, token: Seq<char>)
    ensures
        reply_meaning::<T>(None, status, token) == Err::<T, _>(TelegramErrorView::InvalidResponse),
        reply.ok && reply.result is Some ==> reply_meaning(Some(reply), status, token) == Ok::<
            T,
            TelegramErrorView,
        >(reply.result->0),
        reply.ok && reply.result is None ==> reply_meaning(Some(reply), status, token) == Err::<
            T,
            _,
        >(TelegramErrorView::InvalidResponse),
        !reply.ok ==> (reply_meaning(Some(reply), status, token) matches Err(
            TelegramErrorView::Api { code, description },
        ) && {
            &&& reply.error_code is Some ==> code == reply.error_code
            &&& reply.error_code is None ==> code == code_of_status(status)
            &&& description == match reply.description {
                Some(text) => replaced(text@, token, "[REDACTED]"@),
                None => replaced("request rejected"@, token, "[REDACTED]"@),
            }
        }),
{
}

/// A secret is hidden wherever it first occurs, and then in what follows; a text without it, and
/// any text where the secret is empty, stays as it is.
pub proof fn law_secret_is_hidden(front: Seq<char>, secret: Seq<char>, back: Seq<char>)
    requires
        forall|i: int|
            0 <= i < front.len() ==> (#[trigger] (front + secret + back).skip(i)).take(
                secret.len() as int,
            ) != secret,
    ensures
        secret.len() > 0 ==> redacted(front + secret + back, secret) == front + "[REDACTED]"@
            + redacted(back, secret),
        secret.len() == 0 ==> redacted(front, secret) == front,
{
    if secret.len() > 0 {
        law_first_occurrence_is_replaced(front, secret, back, "[REDACTED]"@);
    }
}

/// A request is sent while there is time; one that is not answered fails; one that met a failure
/// of the connection, a reply cut short or a failure of the server is sent once more where it was
/// not yet and more than a tenth of a second is left, and else fails or is read as it is.
pub proof fn law_request_goes_its_way(retry_used: bool, event: PostEvent, remaining_nanos: u128)
    ensures
        ({
            let step = step_after(retry_used, event, remaining_nanos);
            let again = !retry_used && remaining_nanos > 100_000_000;
            match event {
                PostEvent::Ready => {
                    &&& remaining_nanos > 0 ==> step == PostStepView::Send
                    &&& remaining_nanos == 0 ==> step == PostStepView::Fail(
                        TelegramErrorView::Timeout,
                    )
                },
                PostEvent::SendTimedOut => step == PostStepView::Fail(TelegramErrorView::Timeout),
                PostEvent::BodyTimedOut => step == PostStepView::Fail(TelegramErrorView::Timeout),
                PostEvent::BodyFailed => {
                    &&& again ==> step == PostStepView::RetryAfterDelay
                    &&& !again ==> step == PostStepView::Fail(TelegramErrorView::Network)
                },
                PostEvent::SendFailed(error) => {
                    let helps = error.timeout || error.connect || error.request;
                    &&& helps && again ==> step == PostStepView::RetryAfterDelay
                    &&& !(helps && again) && error.timeout ==> step == PostStepView::Fail(
                        TelegramErrorView::Timeout,
                    )
                    &&& !(helps && again) && !error.timeout ==> step == PostStepView::Fail(
                        TelegramErrorView::Network,
                    )
                },
                PostEvent::Received { status } => {
                    let server = 500 <= status && status <= 599;
                    &&& server && again ==> step == PostStepView::RetryAfterDelay
                    &&& !(server && again) ==> step == PostStepView::ReadReply
                },
            }
        }),
        retry_used_after(retry_used, event, remaining_nanos) <==> retry_used || step_after(
            retry_used,
            event,
            remaining_nanos,
        ) is RetryAfterDelay,
{
}

} // verus!
