//! The backend's real-time event stream: where it is subscribed, how long to
//! wait before reconnecting, and which envelopes carry frames.
//!
//! The stream at `/api/events.mux` is a WebSocket; the server sends
//! `server-request` envelopes whose payload is a frame. The subscription
//! stays up for good, reconnecting with a doubling pause capped at fifteen
//! seconds.
use vstd::prelude::*;

use crate::text::{chars_of, is_prefix, starts_with, string_of, suffix_from, text_eq, extend_all};
use vstd::arithmetic::power2::{lemma2_to64, lemma_pow2_adds, lemma_pow2_pos, pow2};

verus! {

/// The WebSocket address of the event stream of the backend at `base`:
/// `http://` becomes `ws://`, `https://` becomes `wss://`, and the path
/// `/api/events.mux` is appended.
pub open spec fn events_url_of(base: Seq<char>) -> Seq<char> {
    if is_prefix("http://"@, base) {
        "ws://"@ + base.skip(7) + "/api/events.mux"@
    } else if is_prefix("https://"@, base) {
        "wss://"@ + base.skip(8) + "/api/events.mux"@
    } else {
        base + "/api/events.mux"@
    }
}

/// The WebSocket address of the event stream of the backend at `base_url`.
pub fn events_url(base_url: &str) -> (r: String)
    ensures
        r@ == events_url_of(base_url@),
{
    proof {
        reveal_strlit("http://");
        reveal_strlit("https://");
    }
    let v = chars_of(base_url);
    let http = chars_of("http://");
    let https = chars_of("https://");
    let path = chars_of("/api/events.mux");
    let mut out: Vec<char>;
    if starts_with(v.as_slice(), http.as_slice()) {
        out = chars_of("ws://");
        let rest = suffix_from(v.as_slice(), 7);
        extend_all(&mut out, rest.as_slice());
    } else if starts_with(v.as_slice(), https.as_slice()) {
        out = chars_of("wss://");
        let rest = suffix_from(v.as_slice(), 8);
        extend_all(&mut out, rest.as_slice());
    } else {
        out = v;
    }
    extend_all(&mut out, path.as_slice());
    string_of(out.as_slice())
}

/// The longest pause between reconnection attempts, in milliseconds.
pub open spec fn max_backoff_ms() -> u64 {
    15000
}

/// The first pause before reconnecting, in milliseconds.
pub fn initial_backoff_ms() -> (r: u64)
    ensures
        r == 500,
{
    500
}

/// The pause after `current_ms`: twice as long, but at most fifteen
/// seconds.
pub open spec fn next_backoff(current_ms: u64) -> u64 {
    if 2 * current_ms <= max_backoff_ms() {
        (2 * current_ms) as u64
    } else {
        max_backoff_ms()
    }
}

/// The pause before the next reconnection attempt, after a pause of
/// `current_ms` milliseconds: doubled, capped at fifteen seconds.
pub fn next_backoff_ms(current_ms: u64) -> (r: u64)
    ensures
        r == next_backoff(current_ms),
{
    if current_ms <= 7500 {
        current_ms * 2
    } else {
        15000
    }
}

/// The pause before attempt `n` (counting from zero) of a subscription
/// that keeps failing.
pub open spec fn backoff_after(n: nat) -> u64
    decreases n,
{
    if n == 0 {
        500
    } else {
        next_backoff(backoff_after((n - 1) as nat))
    }
}

/// Whether an envelope of kind `kind` carries a frame to hand on: only
/// `server-request` envelopes do.
pub fn forwards_envelope(kind: &str) -> (r: bool)
    ensures
        r == (kind@ == "server-request"@),
{
    text_eq(kind, "server-request")
}

/// The reconnection pause never exceeds fifteen seconds and never gets
/// shorter: it doubles from half a second and stays at fifteen seconds from
/// the sixth attempt on.
pub proof fn law_backoff_capped_and_growing(n: nat)
    ensures
        500 <= backoff_after(n) <= max_backoff_ms(),
        backoff_after(n) <= backoff_after(n + 1),
        n >= 5 ==> backoff_after(n) == max_backoff_ms(),
    decreases n,
{
    assert(backoff_after(0) == 500);
    assert(backoff_after(1) == 1000);
    assert(backoff_after(2) == 2000);
    assert(backoff_after(3) == 4000);
    assert(backoff_after(4) == 8000);
    assert(backoff_after(5) == 15000);
    if n > 0 {
        law_backoff_capped_and_growing((n - 1) as nat);
    }
}

/// The pause before attempt `n` in closed form: half a second times `2^n`,
/// at most fifteen seconds.
pub proof fn law_backoff_closed_form(n: nat)
    ensures
        backoff_after(n) == (if 500 * pow2(n) <= max_backoff_ms() {
            500 * pow2(n)
        } else {
            max_backoff_ms() as nat
        }),
    decreases n,
{
    lemma2_to64();
    if n > 0 {
        let m = (n - 1) as nat;
        law_backoff_closed_form(m);
        lemma_pow2_adds(m, 1);
        assert(pow2(n) == pow2(m) * 2);
        lemma_pow2_pos(m);
    }
}

} // verus!
