//! How the tool talks to BGG: its pacing, and what each answer to a
//! request means. BGG answers 202 while it prepares a collection; the
//! request is then repeated after a pause, up to a limit.

use crate::error::Error;
use crate::text::{push_str, string_of};
use vstd::prelude::*;

verus! {

/// The pacing of requests.
#[derive(Debug, Clone, Copy, PartialEq, Eq, Structural)]
pub struct ClientTiming {
    /// The least time between two requests, in milliseconds.
    pub rate_floor_ms: u64,
    /// The pause before repeating a queued request, in milliseconds.
    pub queue_retry_delay_ms: u64,
    /// How many queued answers to accept before giving up.
    pub max_queue_retries: u32,
}

impl ClientTiming {
    /// The pacing BGG asks of API clients: five seconds between requests,
    /// twelve seconds between polls of a queued request, 25 polls at most.
    pub fn standard() -> (t: ClientTiming)
        ensures
            t == (ClientTiming { rate_floor_ms: 5000, queue_retry_delay_ms: 12000, max_queue_retries: 25 }),
    {
        ClientTiming { rate_floor_ms: 5000, queue_retry_delay_ms: 12000, max_queue_retries: 25 }
    }

    /// The same limits without the waiting, for tests against a local server.
    pub fn with_fast_timing(self) -> (t: ClientTiming)
        ensures
            t == (ClientTiming { rate_floor_ms: 0, queue_retry_delay_ms: 10, ..self }),
    {
        ClientTiming { rate_floor_ms: 0, queue_retry_delay_ms: 10, ..self }
    }
}

/// How long to wait before the next request, given the time since the last.
pub fn rate_floor_wait(elapsed_ms: u128, floor_ms: u128) -> (w: u128)
    ensures
        w == if elapsed_ms < floor_ms {
            floor_ms - elapsed_ms
        } else {
            0
        },
{
    if elapsed_ms < floor_ms {
        floor_ms - elapsed_ms
    } else {
        0
    }
}

/// What to do with an answer.
#[derive(Debug)]
pub enum Answer {
    /// 200: the body is the result.
    ReadBody,
    /// 202: wait and ask again.
    Wait,
    /// Stop with this error.
    Stop(Error),
    /// Any other status: read the body and report the status with it.
    Unexpected,
}

/// What an answer with `status` means after `attempts` queued answers, and
/// the count of queued answers after it.
pub open spec fn answer_of(status: u16, attempts: u32, max_retries: u32) -> (Answer, u32) {
    if status == 200 {
        (Answer::ReadBody, attempts)
    } else if status == 202 {
        if attempts + 1 >= max_retries {
            (Answer::Stop(Error::QueueTimeout { attempts: (attempts + 1) as u32 }), (attempts + 1) as u32)
        } else {
            (Answer::Wait, (attempts + 1) as u32)
        }
    } else if status == 401 {
        (Answer::Stop(Error::AuthRequired), attempts)
    } else if status == 429 {
        (Answer::Stop(Error::RateLimited), attempts)
    } else {
        (Answer::Unexpected, attempts)
    }
}

/// What an answer with `status` means after `attempts` queued answers:
/// 200 gives the body; 202 counts one more queued answer and waits, or
/// gives up once the limit is reached; 401 asks for a login; 429 is the rate
/// limit; anything else is reported with its body.
pub fn answer(status: u16, attempts: u32, max_retries: u32) -> (r: (Answer, u32))
    requires
        attempts < u32::MAX,
    ensures
        r == answer_of(status, attempts, max_retries),
{
    if status == 200 {
        (Answer::ReadBody, attempts)
    } else if status == 202 {
        let a = attempts + 1;
        if a >= max_retries {
            (Answer::Stop(Error::QueueTimeout { attempts: a }), a)
        } else {
            (Answer::Wait, a)
        }
    } else if status == 401 {
        (Answer::Stop(Error::AuthRequired), attempts)
    } else if status == 429 {
        (Answer::Stop(Error::RateLimited), attempts)
    } else {
        (Answer::Unexpected, attempts)
    }
}

/// The error for an unexpected status, with the status as shown and the body.
pub fn unexpected_status(status_text: &str, body: &str) -> (e: Error)
    ensures
        e matches Error::Parse(m) && m@ == "unexpected status "@ + status_text@ + ": "@ + body@,
{
    let mut out: Vec<char> = Vec::new();
    push_str(&mut out, "unexpected status ");
    push_str(&mut out, status_text);
    push_str(&mut out, ": ");
    push_str(&mut out, body);
    Error::Parse(string_of(&out))
}

/// The answer to the `n`-th request in a run where BGG queues every
/// request, and the count of queued answers after it (the first request is
/// number 1; before it nothing has been counted).
pub open spec fn queued_run(n: nat, max_retries: u32) -> (Answer, u32)
    decreases n,
{
    if n == 0 {
        (Answer::Wait, 0)
    } else {
        answer_of(202, queued_run((n - 1) as nat, max_retries).1, max_retries)
    }
}

/// When BGG keeps queueing, the client waits after each of the first
/// `max_retries - 1` answers and gives up on answer number `max_retries`,
/// reporting that many attempts: it asks exactly `max_retries` times.
pub proof fn lemma_queued_run_gives_up(n: nat, max_retries: u32)
    requires
        1 <= n <= max_retries,
    ensures
        n < max_retries ==> queued_run(n, max_retries) == (Answer::Wait, n as u32),
        n == max_retries ==> queued_run(n, max_retries) == (
            Answer::Stop(Error::QueueTimeout { attempts: max_retries }),
            max_retries,
        ),
    decreases n,
{
    let prev = queued_run((n - 1) as nat, max_retries);
    if n > 1 {
        lemma_queued_run_gives_up((n - 1) as nat, max_retries);
        assert(prev.1 == (n - 1) as u32);
    } else {
        assert(prev.1 == 0);
    }
    assert(queued_run(n, max_retries) == answer_of(202, prev.1, max_retries));
}

} // verus!
