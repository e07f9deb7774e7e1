//! Decisions round an HTTP exchange: retries, delays, media types and size limits.

use crate::models::driver::{ModelError, ModelFault};
use crate::models::types::{ModelStreamEvent, StreamEventView};
use crate::outcome;
use crate::text;
use vstd::prelude::*;

verus! {

/// Largest response, in bytes.
pub const MAX_RESPONSE_BYTES: usize = 16777216;

/// Retries after the first attempt.
pub const MAX_RETRIES: u32 = 3;

/// Shortest delay before a retry, in nanoseconds.
pub const MIN_RETRY_DELAY: u128 = 250000000;

/// Longest delay before a retry, in nanoseconds.
pub const MAX_RETRY_DELAY: u128 = 60000000000;

/// First delay after a reply that reports a rate limit, in nanoseconds.
pub const RATE_LIMIT_RETRY_DELAY: u128 = 15000000000;

/// Nanoseconds of a second.
pub const NANOS_PER_SECOND: u128 = 1000000000;

/// Seconds from the Unix epoch to the date that `httpdate::parse_http_date` reads.
pub uninterp spec fn http_date_seconds(s: Seq<char>) -> Option<u64>;

/// Reads a date with `httpdate::parse_http_date` and counts its seconds from the
/// Unix epoch, before which it reads none. Named here is only that the result goes
/// by the text alone.
#[verifier::external_body]
fn parse_http_date(s: &str) -> (r: Option<u64>)
    ensures
        r == http_date_seconds(s@),
{
    let date = httpdate::parse_http_date(s).ok()?;
    date.duration_since(std::time::UNIX_EPOCH).ok().map(|elapsed| elapsed.as_secs())
}

/// The delay that a `Retry-After` header asks for, in nanoseconds: a number of
/// seconds, or a date that is not past.
pub open spec fn retry_after_spec(value: Seq<char>, date: Option<u64>, now: u128) -> Option<u128> {
    match text::parse_number(text::trim_spec(value), u64::MAX as nat) {
        Some(seconds) => Some((seconds * 1000000000) as u128),
        None => match date {
            Some(seconds) => if seconds * 1000000000 >= now {
                Some((seconds * 1000000000 - now) as u128)
            } else {
                None
            },
            None => None,
        },
    }
}

/// The delay that a `Retry-After` header asks for, given the date that it holds.
pub fn retry_after(value: &str, date: Option<u64>, now: u128) -> (r: Option<u128>)
    ensures
        r == retry_after_spec(value@, date, now),
{
    match text::parse_u64(text::trim(value).as_str()) {
        Some(seconds) => Some(seconds as u128 * NANOS_PER_SECOND),
        None => match date {
            Some(seconds) => {
                let at: u128 = seconds as u128 * NANOS_PER_SECOND;
                if at >= now {
                    Some(at - now)
                } else {
                    None
                }
            },
            None => None,
        },
    }
}

/// The delay that a `Retry-After` header asks for, in nanoseconds. The time is
/// counted in nanoseconds from the Unix epoch.
pub fn parse_retry_after(value: Option<&str>, now: u128) -> (r: Option<u128>)
    ensures
        r == (match value {
            Some(v) => retry_after_spec(v@, http_date_seconds(v@), now),
            None => None::<u128>,
        }),
{
    match value {
        Some(v) => retry_after(v, parse_http_date(v), now),
        None => None,
    }
}

/// Two to the power `n`.
pub open spec fn power_of_two(n: nat) -> nat
    decreases n,
{
    if n == 0 {
        1
    } else {
        2 * power_of_two((n - 1) as nat)
    }
}

/// `n`, or the largest number of 32 bits if `n` is larger.
pub open spec fn capped(n: nat) -> nat {
    if n > u32::MAX {
        u32::MAX as nat
    } else {
        n
    }
}

/// `n` within the limits of a delay.
pub open spec fn clamped(n: nat) -> nat {
    if n < MIN_RETRY_DELAY {
        MIN_RETRY_DELAY as nat
    } else if n > MAX_RETRY_DELAY {
        MAX_RETRY_DELAY as nat
    } else {
        n
    }
}

/// The delay before attempt `attempt`: what the server asks for, else a first delay
/// that doubles with each attempt; always within the limits.
pub open spec fn retry_delay_spec(status: u16, attempt: u32, server: Option<u128>) -> nat {
    let first: nat = if status == 429 {
        RATE_LIMIT_RETRY_DELAY as nat
    } else {
        MIN_RETRY_DELAY as nat
    };
    let doublings: nat = if attempt == 0 {
        0
    } else {
        (attempt - 1) as nat
    };
    match server {
        Some(d) => clamped(d as nat),
        None => clamped(first * capped(power_of_two(doublings))),
    }
}

proof fn lemma_power_of_two(n: nat)
    ensures
        power_of_two(n) >= 1,
        n >= 32 ==> power_of_two(n) >= 4294967296,
    decreases n,
{
    if n > 0 {
        lemma_power_of_two((n - 1) as nat);
        if n == 32 {
            reveal_with_fuel(power_of_two, 33);
        }
    }
}

/// The delay before attempt `attempt`, in nanoseconds.
pub fn retry_delay(status: u16, attempt: u32, server: Option<u128>) -> (r: u128)
    ensures
        r == retry_delay_spec(status, attempt, server),
{
    let wanted: u128 = match server {
        Some(d) => d,
        None => {
            let first: u128 = if status == 429 {
                RATE_LIMIT_RETRY_DELAY
            } else {
                MIN_RETRY_DELAY
            };
            let doublings: u32 = attempt.saturating_sub(1);
            let mut factor: u64 = 1;
            let mut i: u32 = 0;
            while i < doublings && i < 32
                invariant
                    i <= doublings,
                    i <= 32,
                    factor == power_of_two(i as nat),
                    factor <= 4294967296,
                    i < 32 ==> factor <= 2147483648,
                decreases 32 - i,
            {
                factor = factor * 2;
                i += 1;
                proof {
                    reveal_with_fuel(power_of_two, 33);
                }
            }
            proof {
                lemma_power_of_two(doublings as nat);
                lemma_power_of_two(i as nat);
            }
            let limited: u128 = if factor > 4294967295 {
                4294967295
            } else {
                factor as u128
            };
            assert(capped(power_of_two(doublings as nat)) == limited);
            assert(first * limited <= 15000000000 * 4294967295) by (nonlinear_arith)
                requires
                    first <= 15000000000,
                    limited <= 4294967295,
            ;
            assert(0 <= first * limited) by (nonlinear_arith);
            first * limited
        },
    };
    if wanted < MIN_RETRY_DELAY {
        MIN_RETRY_DELAY
    } else if wanted > MAX_RETRY_DELAY {
        MAX_RETRY_DELAY
    } else {
        wanted
    }
}

/// Every delay lies between the shortest and the longest one, whatever the server
/// asks for.
pub proof fn law_delays_are_bounded(status: u16, attempt: u32, server: Option<u128>)
    ensures
        MIN_RETRY_DELAY <= retry_delay_spec(status, attempt, server) <= MAX_RETRY_DELAY,
{
}

/// What to do after a reply.
#[derive(Clone, Copy, Debug, PartialEq, Eq, Structural)]
pub enum ExchangeStep {
    /// The reply is a success: read it.
    Accept,
    /// Wait for the delay, in nanoseconds, and send the request again.
    Retry { attempt: u32, delay: u128 },
    /// Report the reply as the provider's refusal.
    Refuse,
}

/// Whether a reply with this status may be repeated.
pub open spec fn may_retry(status: u16, retries_timeouts: bool) -> bool {
    status == 429 || retries_timeouts && status == 408 || 500 <= status <= 599
}

/// What to do after a reply with this status to attempt number `attempt`.
pub open spec fn exchange_spec(
    status: u16,
    attempt: u32,
    server: Option<u128>,
    retries_timeouts: bool,
) -> ExchangeStep {
    if 200 <= status <= 299 {
        ExchangeStep::Accept
    } else if may_retry(status, retries_timeouts) && attempt < MAX_RETRIES {
        ExchangeStep::Retry {
            attempt: (attempt + 1) as u32,
            delay: retry_delay_spec(status, (attempt + 1) as u32, server) as u128,
        }
    } else {
        ExchangeStep::Refuse
    }
}

/// Decides what to do after a reply. `attempt` counts the retries so far.
pub fn next_step(status: u16, attempt: u32, server: Option<u128>, retries_timeouts: bool) -> (r:
    ExchangeStep)
    ensures
        r == exchange_spec(status, attempt, server, retries_timeouts),
{
    if 200 <= status && status <= 299 {
        return ExchangeStep::Accept;
    }
    let retryable = status == 429 || (retries_timeouts && status == 408) || (500 <= status && status
        <= 599);
    if retryable && attempt < MAX_RETRIES {
        ExchangeStep::Retry {
            attempt: attempt + 1,
            delay: retry_delay(status, attempt + 1, server),
        }
    } else {
        ExchangeStep::Refuse
    }
}

/// A request is sent at most four times.
pub proof fn law_retries_end(
    status: u16,
    attempt: u32,
    server: Option<u128>,
    retries_timeouts: bool,
)
    ensures
        exchange_spec(status, attempt, server, retries_timeouts) matches ExchangeStep::Retry {
            attempt: next,
            ..
        } ==> next == attempt + 1 && next <= MAX_RETRIES,
{
}

/// Whether a `Content-Type` header announces an event stream.
pub open spec fn is_event_stream(content_type: Option<Seq<char>>) -> bool {
    match content_type {
        Some(v) => text::same_ignoring_case_spec(
            text::trim_spec(text::split_char(v, ';')[0]),
            "text/event-stream"@,
        ),
        None => false,
    }
}

/// Requires a `Content-Type` header to announce an event stream; else the reply is
/// malformed, in the given words.
pub fn require_event_stream(content_type: Option<&str>, refusal: &str) -> (r: Result<
    (),
    ModelError,
>)
    ensures
        outcome::of(r) == (if is_event_stream(content_type.deep_view()) {
            Ok::<(), ModelFault>(())
        } else {
            Err(ModelFault::MalformedResponse(refusal@))
        }),
{
    let valid = match content_type {
        Some(v) => {
            let parts = text::split(v, ';');
            proof {
                text::lemma_split_nonempty(v@, text::is_char(';'));
                assert(text::views(parts@).len() == parts@.len());
                assert(text::views(parts@)[0] == parts@[0]@);
            }
            text::same_ignoring_case(
                text::trim(parts[0].as_str()).as_str(),
                "text/event-stream",
            )
        },
        None => false,
    };
    if valid {
        Ok(())
    } else {
        Err(ModelError::malformed(refusal))
    }
}

/// Whether a declared length is within the limit.
pub fn check_declared_length(length: Option<u64>, limit: usize) -> (r: Result<(), ModelError>)
    ensures
        outcome::of(r) == (match length {
            Some(n) => if n > limit {
                Err::<(), ModelFault>(ModelFault::ResponseTooLarge { limit })
            } else {
                Ok(())
            },
            None => Ok(()),
        }),
{
    match length {
        Some(n) => if n > limit as u64 {
            Err(ModelError::ResponseTooLarge { limit })
        } else {
            Ok(())
        },
        None => Ok(()),
    }
}

/// Appends a chunk to a response's bytes, within the limit.
pub fn read_bounded(bytes: &mut Vec<u8>, chunk: &[u8], limit: usize) -> (r: Result<
    (),
    ModelError,
>)
    ensures
        old(bytes)@.len() + chunk@.len() <= limit ==> r is Ok && final(bytes)@ == old(bytes)@
            + chunk@,
        old(bytes)@.len() + chunk@.len() > limit ==> final(bytes)@ == old(bytes)@ && outcome::of(r)
            == Err::<(), ModelFault>(ModelFault::ResponseTooLarge { limit }),
{
    if bytes.len().saturating_add(chunk.len()) > limit {
        return Err(ModelError::ResponseTooLarge { limit });
    }
    if chunk.len() > limit - bytes.len() {
        return Err(ModelError::ResponseTooLarge { limit });
    }
    bytes.extend_from_slice(chunk);
    assert(bytes@ =~= old(bytes)@ + chunk@);
    Ok(())
}

/// How much of a stream has arrived, and how long its first byte took.
#[derive(Debug)]
pub struct StreamMeter {
    wire_bytes: usize,
    first_byte_ms: Option<u64>,
}

/// A [`StreamMeter`]'s counters.
pub struct MeterView {
    pub wire_bytes: nat,
    pub first_byte_ms: Option<u64>,
}

impl DeepView for StreamMeter {
    type V = MeterView;

    closed spec fn deep_view(&self) -> MeterView {
        MeterView { wire_bytes: self.wire_bytes as nat, first_byte_ms: self.first_byte_ms }
    }
}

impl MeterView {
    /// Nothing has arrived.
    pub open spec fn fresh() -> MeterView {
        MeterView { wire_bytes: 0, first_byte_ms: None }
    }

    /// The milliseconds to the first byte, or zero if none arrived.
    pub open spec fn latency(self) -> u64 {
        match self.first_byte_ms {
            Some(ms) => ms,
            None => 0,
        }
    }
}

/// The counters after a chunk within the limit.
pub open spec fn admitted(m: MeterView, length: nat, elapsed_ms: u64) -> MeterView {
    MeterView {
        wire_bytes: m.wire_bytes + length,
        first_byte_ms: match m.first_byte_ms {
            Some(ms) => Some(ms),
            None => Some(elapsed_ms),
        },
    }
}

/// The event that tells that a response began, which the chunks up to the first
/// byte bring.
pub open spec fn start_events(
    m: MeterView,
    length: nat,
    elapsed_ms: u64,
    request_id: Option<Seq<char>>,
) -> Seq<StreamEventView> {
    if m.wire_bytes == 0 {
        seq![
            StreamEventView::ResponseStarted {
                provider_request_id: request_id,
                time_to_first_byte_ms: admitted(m, length, elapsed_ms).latency(),
            },
        ]
    } else {
        Seq::empty()
    }
}

impl StreamMeter {
    /// A meter of a stream that has not begun.
    pub fn new() -> (r: StreamMeter)
        ensures
            r.deep_view() == MeterView::fresh(),
    {
        StreamMeter { wire_bytes: 0, first_byte_ms: None }
    }

    /// The milliseconds to the first byte, or zero if none arrived.
    pub fn latency(&self) -> (r: u64)
        ensures
            r == self.deep_view().latency(),
    {
        match self.first_byte_ms {
            Some(ms) => ms,
            None => 0,
        }
    }

    /// Counts a chunk of the given length that arrived after the given time, and
    /// logs the beginning of the response.
    pub fn count_chunk(
        &mut self,
        length: usize,
        elapsed_ms: u64,
        request_id: &Option<String>,
        log: &mut Vec<ModelStreamEvent>,
    ) -> (r: Result<(), ModelError>)
        ensures
            ({
                let m = old(self).deep_view();
                if m.wire_bytes + length > MAX_RESPONSE_BYTES {
                    &&& outcome::of(r) == Err::<(), ModelFault>(
                        ModelFault::ResponseTooLarge { limit: MAX_RESPONSE_BYTES },
                    )
                    &&& final(log).deep_view() == old(log).deep_view()
                    &&& final(self).deep_view().wire_bytes > MAX_RESPONSE_BYTES
                    &&& final(self).deep_view().first_byte_ms == m.first_byte_ms
                } else {
                    &&& r is Ok
                    &&& final(self).deep_view() == admitted(m, length as nat, elapsed_ms)
                    &&& final(log).deep_view() == old(log).deep_view() + start_events(
                        m,
                        length as nat,
                        elapsed_ms,
                        request_id.deep_view(),
                    )
                }
            }),
    {
        let first = self.wire_bytes == 0;
        self.wire_bytes = self.wire_bytes.saturating_add(length);
        if self.wire_bytes > MAX_RESPONSE_BYTES {
            return Err(ModelError::ResponseTooLarge { limit: MAX_RESPONSE_BYTES });
        }
        if self.first_byte_ms.is_none() {
            self.first_byte_ms = Some(elapsed_ms);
        }
        let ghost before = log.deep_view();
        if first {
            log.push(
                ModelStreamEvent::ResponseStarted {
                    provider_request_id: request_id.clone(),
                    time_to_first_byte_ms: self.latency(),
                },
            );
        }
        assert(log.deep_view() =~= before + start_events(
            old(self).deep_view(),
            length as nat,
            elapsed_ms,
            request_id.deep_view(),
        ));
        Ok(())
    }
}

} // verus!
