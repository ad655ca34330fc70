//! How the loggers answer an error: a failure is retried twice, after a
//! pause, before it is given up; any log that is no error restores the two
//! tries.

use vstd::prelude::*;

verus! {

/// What a logger asks of the process that met an error.
#[derive(Debug, Clone, Copy, PartialEq, Eq)]
pub enum ErrorResponse {
    /// Try again.
    Retry,
    /// Give up at once.
    Panic,
    /// End the program in good order.
    Crash,
    /// Ask the user what to do.
    AskUser,
}

/// The kinds of logs.
#[derive(Debug, Clone, Copy, PartialEq, Eq)]
pub enum LogType {
    Log,
    Warning,
    Inconvenience,
    Failure,
    Fatal,
    Result,
}

/// The number of times that a failure is retried.
pub const RETRIES: u8 = 2;

/// The pause before a failure is retried, in milliseconds.
pub const RETRY_PAUSE: u64 = 800;

/// The answer to an error with `retry_count` tries left, and the tries that
/// are left after it: the user is asked where that is allowed; else the
/// failure is retried where that is allowed and a try is left; else the
/// program ends.
pub open spec fn respond(retry_count: u8, may_ask: bool, may_retry: bool) -> (ErrorResponse, u8) {
    if may_ask {
        (ErrorResponse::AskUser, retry_count)
    } else if may_retry && retry_count > 0 {
        (ErrorResponse::Retry, (retry_count - 1) as u8)
    } else {
        (ErrorResponse::Crash, retry_count)
    }
}

/// Whether a log of this kind may be logged as an error.
pub open spec fn is_error(log_type: LogType) -> bool {
    log_type is Failure || log_type is Fatal
}

/// Whether a log of this kind may be logged as vital.
pub open spec fn is_vital(log_type: LogType) -> bool {
    log_type is Inconvenience || log_type is Warning || log_type is Result || log_type is Log
}

/// Whether a log of this kind may be logged as an error.
pub fn error_kind(log_type: LogType) -> (r: bool)
    ensures
        r == is_error(log_type),
{
    match log_type {
        LogType::Failure | LogType::Fatal => true,
        _ => false,
    }
}

/// Whether a log of this kind may be logged as vital.
pub fn vital_kind(log_type: LogType) -> (r: bool)
    ensures
        r == is_vital(log_type),
{
    match log_type {
        LogType::Inconvenience | LogType::Warning | LogType::Result | LogType::Log => true,
        _ => false,
    }
}

/// The answer to an error with `retry_count` tries left.
fn answer(retry_count: &mut u8, may_ask: bool, may_retry: bool) -> (r: ErrorResponse)
    ensures
        (r, *final(retry_count)) == respond(*old(retry_count), may_ask, may_retry),
{
    if may_ask {
        return ErrorResponse::AskUser;
    }
    if may_retry && *retry_count > 0 {
        *retry_count = *retry_count - 1;
        return ErrorResponse::Retry;
    }
    ErrorResponse::Crash
}

/// The logger that shows every log.
#[derive(Debug, PartialEq, Eq)]
pub struct Verbose {
    pub retry_count: u8,
}

/// The logger that shows errors and vital logs only.
#[derive(Debug, PartialEq, Eq)]
pub struct Quiet {
    pub retry_count: u8,
}

impl Verbose {
    /// A logger with all its tries.
    pub fn new() -> (r: Verbose)
        ensures
            r.retry_count == RETRIES,
    {
        Verbose { retry_count: RETRIES }
    }

    /// Another logger of this kind, with all its tries.
    pub fn hollow(&self) -> (r: Verbose)
        ensures
            r.retry_count == RETRIES,
    {
        Verbose::new()
    }

    /// A log that is no error: the logger has all its tries again.
    pub fn verbose(&mut self)
        ensures
            final(self).retry_count == RETRIES,
    {
        self.retry_count = RETRIES;
    }

    /// The answer to an error, for which asking the user or a retry may be
    /// allowed.
    pub fn error(&mut self, may_ask: bool, may_retry: bool) -> (r: ErrorResponse)
        ensures
            (r, final(self).retry_count) == respond(old(self).retry_count, may_ask, may_retry),
    {
        answer(&mut self.retry_count, may_ask, may_retry)
    }
}

impl Quiet {
    /// A logger with all its tries.
    pub fn new() -> (r: Quiet)
        ensures
            r.retry_count == RETRIES,
    {
        Quiet { retry_count: RETRIES }
    }

    /// Another logger of this kind, with all its tries.
    pub fn hollow(&self) -> (r: Quiet)
        ensures
            r.retry_count == RETRIES,
    {
        Quiet::new()
    }

    /// A log that is no error: the logger has all its tries again.
    pub fn verbose(&mut self)
        ensures
            final(self).retry_count == RETRIES,
    {
        self.retry_count = RETRIES;
    }

    /// The answer to an error, for which asking the user or a retry may be
    /// allowed.
    pub fn error(&mut self, may_ask: bool, may_retry: bool) -> (r: ErrorResponse)
        ensures
            (r, final(self).retry_count) == respond(old(self).retry_count, may_ask, may_retry),
    {
        answer(&mut self.retry_count, may_ask, may_retry)
    }
}

/// The logger that is verbose or quiet, as it was made.
#[derive(Debug, PartialEq, Eq)]
pub struct DynamicLogger {
    pub verbose: Option<Verbose>,
    pub quiet: Option<Quiet>,
}

impl DynamicLogger {
    /// The logger is of one kind.
    pub open spec fn well_formed(&self) -> bool {
        self.verbose is Some != self.quiet is Some
    }

    /// The tries that the logger has left.
    pub open spec fn retry_count(&self) -> u8 {
        match self.verbose {
            Some(x) => x.retry_count,
            None => self.quiet->0.retry_count,
        }
    }

    /// A logger with all its tries: a verbose one if `verbose`, else a quiet
    /// one.
    pub fn new(verbose: bool) -> (r: DynamicLogger)
        ensures
            r.well_formed(),
            r.verbose is Some == verbose,
            r.retry_count() == RETRIES,
    {
        if verbose {
            DynamicLogger { verbose: Some(Verbose::new()), quiet: None }
        } else {
            DynamicLogger { verbose: None, quiet: Some(Quiet::new()) }
        }
    }

    /// Another logger of this kind, with all its tries.
    pub fn hollow(&self) -> (r: DynamicLogger)
        requires
            self.well_formed(),
        ensures
            r.well_formed(),
            r.verbose is Some == self.verbose is Some,
            r.retry_count() == RETRIES,
    {
        DynamicLogger::new(self.verbose.is_some())
    }

    /// Whether the logger shows the logs that are neither errors nor vital.
    pub fn shows_all(&self) -> (r: bool)
        ensures
            r == self.verbose is Some,
    {
        self.verbose.is_some()
    }

    /// A log that is no error: the logger has all its tries again.
    pub fn verbose(&mut self)
        requires
            old(self).well_formed(),
        ensures
            final(self).well_formed(),
            final(self).verbose is Some == old(self).verbose is Some,
            final(self).retry_count() == RETRIES,
    {
        *self = DynamicLogger::new(self.verbose.is_some());
    }

    /// The answer to an error, for which asking the user or a retry may be
    /// allowed.
    pub fn error(&mut self, may_ask: bool, may_retry: bool) -> (r: ErrorResponse)
        requires
            old(self).well_formed(),
        ensures
            final(self).well_formed(),
            final(self).verbose is Some == old(self).verbose is Some,
            (r, final(self).retry_count()) == respond(old(self).retry_count(), may_ask, may_retry),
    {
        let mut count: u8 = match (&self.verbose, &self.quiet) {
            (Some(x), _) => x.retry_count,
            (None, Some(x)) => x.retry_count,
            (None, None) => 0,
        };
        let r = answer(&mut count, may_ask, may_retry);
        if self.verbose.is_some() {
            self.verbose = Some(Verbose { retry_count: count });
        } else {
            self.quiet = Some(Quiet { retry_count: count });
        }
        r
    }
}

/// A failure that persists is retried twice and given up the third time.
pub proof fn lemma_retries_are_bounded()
    ensures
        respond(RETRIES, false, true).0 == ErrorResponse::Retry,
        respond(respond(RETRIES, false, true).1, false, true).0 == ErrorResponse::Retry,
        respond(
            respond(respond(RETRIES, false, true).1, false, true).1,
            false,
            true,
        ).0 == ErrorResponse::Crash,
{
}

/// However many tries are left, a failure is retried at most as often as
/// there are tries: after `n` retries in a row, `n` tries less are left.
pub open spec fn tries_after(retry_count: u8, n: nat) -> u8
    decreases n,
{
    if n == 0 {
        retry_count
    } else {
        respond(tries_after(retry_count, (n - 1) as nat), false, true).1
    }
}

/// After as many failures in a row as there were tries, the next failure
/// ends the program.
pub proof fn lemma_tries_run_out(retry_count: u8, n: nat)
    requires
        n >= retry_count,
    ensures
        tries_after(retry_count, n) == 0,
        respond(tries_after(retry_count, n), false, true).0 == ErrorResponse::Crash,
    decreases n,
{
    if n > 0 {
        if n - 1 >= retry_count {
            lemma_tries_run_out(retry_count, (n - 1) as nat);
        } else {
            lemma_tries_count(retry_count, (n - 1) as nat);
        }
    }
}

/// While tries are left, each failure in a row takes one.
proof fn lemma_tries_count(retry_count: u8, n: nat)
    requires
        n <= retry_count,
    ensures
        tries_after(retry_count, n) == retry_count - n,
    decreases n,
{
    if n > 0 {
        lemma_tries_count(retry_count, (n - 1) as nat);
    }
}

} // verus!
