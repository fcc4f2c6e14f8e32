use vstd::prelude::*;

verus! {

/// A failure that ends a command.
#[derive(Debug)]
pub enum AppError {
    Config(String),
    Payload(String),
    Telegram(String),
    Cancelled(String),
}

/// What a failure says.
pub enum AppErrorView {
    Config(Seq<char>),
    Payload(Seq<char>),
    Telegram(Seq<char>),
    Cancelled(Seq<char>),
}

impl View for AppError {
    type V = AppErrorView;

    open spec fn view(&self) -> AppErrorView {
        match self {
            AppError::Config(message) => AppErrorView::Config(message@),
            AppError::Payload(message) => AppErrorView::Payload(message@),
            AppError::Telegram(message) => AppErrorView::Telegram(message@),
            AppError::Cancelled(message) => AppErrorView::Cancelled(message@),
        }
    }
}

/// A result with the view of its failure.
pub open spec fn outcome<T>(result: Result<T, AppError>) -> Result<T, AppErrorView> {
    match result {
        Ok(value) => Ok(value),
        Err(error) => Err(error@),
    }
}

impl AppErrorView {
    /// The message for the person at the terminal.
    pub open spec fn message(self) -> Seq<char> {
        match self {
            AppErrorView::Config(message) => message,
            AppErrorView::Payload(message) => message,
            AppErrorView::Telegram(message) => message,
            AppErrorView::Cancelled(message) => message,
        }
    }

    /// The process exit status that reports this failure.
    pub open spec fn exit_status(self) -> i32 {
        match self {
            AppErrorView::Config(_) | AppErrorView::Cancelled(_) => 1,
            AppErrorView::Payload(_) => 2,
            AppErrorView::Telegram(_) => 3,
        }
    }
}

impl AppError {
    /// The message for the person at the terminal.
    pub fn message(&self) -> (message: &str)
        ensures
            message@ == self@.message(),
    {
        match self {
            AppError::Config(message) => message.as_str(),
            AppError::Payload(message) => message.as_str(),
            AppError::Telegram(message) => message.as_str(),
            AppError::Cancelled(message) => message.as_str(),
        }
    }

    /// The process exit status that reports this failure.
    pub fn exit_code(&self) -> (code: i32)
        ensures
            code == self@.exit_status(),
            code == match *self {
                AppError::Config(_) | AppError::Cancelled(_) => 1i32,
                AppError::Payload(_) => 2i32,
                AppError::Telegram(_) => 3i32,
            },
    {
        match self {
            AppError::Config(_) | AppError::Cancelled(_) => 1,
            AppError::Payload(_) => 2,
            AppError::Telegram(_) => 3,
        }
    }
}

/// A failure is told in its own words, whatever it is about.
pub proof fn law_failure_speaks_for_itself(words: Seq<char>)
    ensures
        AppErrorView::Config(words).message() == words,
        AppErrorView::Payload(words).message() == words,
        AppErrorView::Telegram(words).message() == words,
        AppErrorView::Cancelled(words).message() == words,
{
}

/// No failure ends a process as success does, and the status tells a payload that cannot be read
/// by 2, a failure to send by 3, and all else by 1.
pub proof fn law_status_tells_the_failure(error: AppErrorView)
    ensures
        1 <= error.exit_status() <= 3,
        error.exit_status() == 2 <==> error is Payload,
        error.exit_status() == 3 <==> error is Telegram,
{
}

} // verus!
