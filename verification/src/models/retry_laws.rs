//! Laws of retries: when a request is sent again, and after which delay.

use crate::models::transport;
use crate::text;
use crate::tools::patch_text_laws;
use vstd::prelude::*;

verus! {

/// A reply is read if it reports success. A request is sent again, at most three times,
/// if the provider is too busy, has failed itself, or, where that may be repeated, has
/// timed out. Any other reply is a refusal.
pub proof fn law_only_passing_faults_are_retried(
    status: u16,
    attempt: u32,
    server: Option<u128>,
    retries_timeouts: bool,
)
    ensures
        ({
            let step = transport::exchange_spec(status, attempt, server, retries_timeouts);
            &&& step is Accept <==> 200 <= status < 300
            &&& step is Retry <==> attempt < 3 && (status == 429 || 500 <= status < 600 || (status
                == 408 && retries_timeouts))
        }),
{
}

/// What the server asks for counts, within a quarter of a second and a minute.
pub proof fn law_servers_are_heeded(status: u16, attempt: u32, wanted: u128)
    ensures
        250_000_000 <= wanted <= 60_000_000_000 ==> transport::retry_delay_spec(
            status,
            attempt,
            Some(wanted),
        ) == wanted,
        wanted < 250_000_000 ==> transport::retry_delay_spec(status, attempt, Some(wanted))
            == 250_000_000,
        wanted > 60_000_000_000 ==> transport::retry_delay_spec(status, attempt, Some(wanted))
            == 60_000_000_000,
{
}

/// Where the server asks for nothing, the first delay is a quarter of a second, or fifteen
/// seconds if the provider is too busy, and each further delay is twice the one before, up
/// to a minute.
pub proof fn law_delays_double(status: u16, attempt: u32)
    requires
        1 <= attempt < 3,
    ensures
        transport::retry_delay_spec(status, 1, None) == (if status == 429 {
            15_000_000_000nat
        } else {
            250_000_000nat
        }),
        ({
            let delay = transport::retry_delay_spec(status, attempt, None);
            let next = transport::retry_delay_spec(status, (attempt + 1) as u32, None);
            next == (if 2 * delay <= 60_000_000_000 {
                2 * delay
            } else {
                60_000_000_000nat
            })
        }),
{
    reveal_with_fuel(transport::power_of_two, 4);
    let first: nat = if status == 429 {
        15_000_000_000
    } else {
        250_000_000
    };
    let a = transport::capped(transport::power_of_two(0));
    let b = transport::capped(transport::power_of_two(1));
    let c = transport::capped(transport::power_of_two(2));
    assert(a == 1 && b == 2 && c == 4);
    assert(first * a == first) by (nonlinear_arith)
        requires
            a == 1,
    ;
    assert(first * b == 2 * first) by (nonlinear_arith)
        requires
            b == 2,
    ;
    assert(first * c == 4 * first) by (nonlinear_arith)
        requires
            c == 4,
    ;
    assert(attempt == 1 || attempt == 2);
}

/// A header that asks for a number of seconds is read as that delay, and one that names a
/// date as the time that is left until then.
pub proof fn law_wanted_delays_are_read(n: u64, value: Seq<char>, date: u64, now: u128)
    requires
        text::parse_number(text::trim_spec(value), u64::MAX as nat) is None,
    ensures
        transport::retry_after_spec(text::decimal(n as nat), Some(date), now) == Some(
            (n * 1_000_000_000) as u128,
        ),
        date * 1_000_000_000 >= now ==> (transport::retry_after_spec(
            value,
            Some(date),
            now,
        ) matches Some(left) && now + left == date * 1_000_000_000),
        date * 1_000_000_000 < now ==> transport::retry_after_spec(value, Some(date), now) is None,
        transport::retry_after_spec(value, None, now) is None,
{
    let s = text::decimal(n as nat);
    patch_text_laws::law_decimal_is_read_back(n as nat);
    assert('0' <= s[0] <= '9');
    assert('0' <= s[s.len() - 1] <= '9');
    assert(text::trim_start_spec(s) == s);
    assert(text::trim_end_spec(s) == s);
    assert(s[0] != '+');
}

} // verus!
