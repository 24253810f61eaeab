//! The webhook pipeline model: configuration-time URL checking, the
//! dispatcher's delivery counters, the retry decision after each POST
//! attempt, and the bounded randomized backoff. The HTTP calls
//! themselves live outside the library; the decisions live here.

use vstd::prelude::*;
use crate::strings::{str_starts_with, spec_starts_with};

verus! {

/// Names whether `url::Url::parse` accepts a string: its outcome
/// depends on the characters alone.
pub uninterp spec fn url_parse_ok(s: Seq<char>) -> bool;

/// Relies on url::Url::parse: deterministic parsing of a URL string;
/// the error carries the parser's own message.
#[verifier::external_body]
fn parse_url_check(s: &str) -> (r: Result<(), String>)
    ensures
        r is Ok <==> url_parse_ok(s@),
{
    match url::Url::parse(s) {
        Ok(_) => Ok(()),
        Err(e) => Err(format!("{}", e)),
    }
}

/// Checks a webhook URL at configuration time: it must begin with
/// `http://` or `https://` and parse as a URL.
pub fn is_valid_url(url: &str) -> (r: Result<(), String>)
    ensures
        r is Ok <==> ((spec_starts_with(url@, "http://"@) || spec_starts_with(url@, "https://"@))
            && url_parse_ok(url@)),
        !(spec_starts_with(url@, "http://"@) || spec_starts_with(url@, "https://"@)) ==> (
        r matches Err(m) && m@ == "URL must begin with 'http://' or 'https://'."@),
{
    if str_starts_with(url, "http://") || str_starts_with(url, "https://") {
        match parse_url_check(url) {
            Ok(_) => Ok(()),
            Err(m) => Err(m),
        }
    } else {
        Err(String::from_str("URL must begin with 'http://' or 'https://'."))
    }
}

/// The dispatcher's tallies: events taken off the channel and events
/// delivered. A delivery always belongs to a received event.
pub struct WebhookCounters {
    pub events_received: u64,
    pub success_count: u64,
}

impl WebhookCounters {
    /// Deliveries never outnumber receipts.
    pub open spec fn inv(self) -> bool {
        self.success_count <= self.events_received
    }

    /// Fresh counters.
    pub fn new() -> (r: WebhookCounters)
        ensures
            r.inv(),
            r.events_received == 0,
            r.success_count == 0,
    {
        WebhookCounters { events_received: 0, success_count: 0 }
    }

    /// Counts an event taken off the update channel.
    pub fn record_event(&mut self)
        requires
            old(self).inv(),
            old(self).events_received < u64::MAX,
        ensures
            final(self).inv(),
            final(self).events_received == old(self).events_received + 1,
            final(self).success_count == old(self).success_count,
    {
        self.events_received = self.events_received + 1;
    }

    /// Counts a delivery that ended in success: one per received event.
    pub fn record_success(&mut self)
        requires
            old(self).inv(),
            old(self).success_count < old(self).events_received,
        ensures
            final(self).inv(),
            final(self).events_received == old(self).events_received,
            final(self).success_count == old(self).success_count + 1,
    {
        self.success_count = self.success_count + 1;
    }

    /// Whether the terminal report must warn that events were lost.
    pub fn has_undelivered(&self) -> (r: bool)
        ensures
            r == (self.events_received > self.success_count),
    {
        self.events_received > self.success_count
    }

    /// Law: at any point of a dispatch, and so at termination, the
    /// events received are at least the successful deliveries.
    pub proof fn law_received_bounds_successes(self)
        requires
            self.inv(),
        ensures
            self.events_received >= self.success_count,
    {
    }
}

/// What the dispatcher does after one POST attempt.
#[derive(Clone, Copy, PartialEq, Eq, Structural, Debug)]
pub enum DeliveryAction {
    Delivered,
    Retry,
    GiveUp,
}

/// Decides the next step after a POST: any 2xx status is a delivery;
/// anything else retries until the attempt budget is spent.
pub fn delivery_action(status: u16, attempts_made: u32, max_attempts: u32) -> (r: DeliveryAction)
    ensures
        r == (if 200 <= status < 300 {
            DeliveryAction::Delivered
        } else if attempts_made + 1 < max_attempts {
            DeliveryAction::Retry
        } else {
            DeliveryAction::GiveUp
        }),
{
    if 200 <= status && status < 300 {
        DeliveryAction::Delivered
    } else if max_attempts > 0 && attempts_made < max_attempts - 1 {
        DeliveryAction::Retry
    } else {
        DeliveryAction::GiveUp
    }
}

/// The floor of the backoff before a retry, growing with the attempt
/// number but capped inside the first minute.
pub open spec fn spec_backoff_min_ms(attempt: u32) -> int {
    if attempt * 6000 > 54_000 {
        54_000
    } else {
        attempt * 6000
    }
}

/// Draws the delay before the next attempt from the caller-supplied
/// random value: at least the attempt's floor, never over a minute.
pub fn backoff_delay_ms(attempt: u32, rand: u64) -> (r: u64)
    ensures
        spec_backoff_min_ms(attempt) <= r <= 60_000,
{
    let lo: u64 = if (attempt as u64) * 6000 > 54_000 {
        54_000
    } else {
        (attempt as u64) * 6000
    };
    let span: u64 = 60_000 - lo + 1;
    lo + rand % span
}

} // verus!
