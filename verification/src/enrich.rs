//! Enrichment and submission decisions. Enrichment fills an event's external
//! reference from a remote lookup keyed by the event's slug; the decisions —
//! which events to look up, how to read a lookup response, when a reference
//! may be written, which events fall inside the submission horizon — are
//! verified here, while the remote calls themselves live outside the library.

use vstd::prelude::*;
use crate::errors::CalendarError;
use crate::event::spec_extract_slug;
use crate::event::Event;
use crate::event::EventData;
use crate::order::views_of;
use crate::text::contains_pat;
use crate::text::spec_contains_pat;

verus! {

/// What the remote lookup response body denotes: the external identifier at
/// the fixed nested path `entity.event.api_id`, when the body is JSON of that
/// shape. A function of the body text alone.
pub uninterp spec fn api_id_in(body: Seq<char>) -> Option<Seq<char>>;

/// Relies on serde_json (`from_str`, `Value::get`, `Value::as_str`): reads
/// the string at the nested path `entity.event.api_id` of the JSON body, and
/// nothing when the body is not JSON of that shape.
#[verifier::external_body]
fn api_id_from_body(body: &str) -> (r: Option<String>)
    ensures
        r is Some <==> api_id_in(body@) is Some,
        r matches Some(id) ==> id@ == api_id_in(body@)->0,
{
    let value: serde_json::Value = match serde_json::from_str(body) {
        Ok(v) => v,
        Err(_) => {
            return None;
        },
    };
    value.get("entity")
        .and_then(|entity| entity.get("event"))
        .and_then(|event| event.get("api_id"))
        .and_then(|id| id.as_str())
        .map(|id| id.to_string())
}

/// Interprets a remote lookup response: on a success status, the external
/// identifier found at the fixed nested path of the body; any other status,
/// or any other body shape, is a lookup failure.
pub fn interpret_lookup_response(status_ok: bool, body: &str) -> (r: Result<String, CalendarError>)
    ensures
        status_ok && api_id_in(body@) is Some ==> (r matches Ok(id) && id@ == api_id_in(body@)->0),
        status_ok && api_id_in(body@) is None ==> (r matches Err(e) && e is ParseError
            && e.spec_message() == "API ID not found in response"@),
        !status_ok ==> (r matches Err(e) && e is ParseError),
{
    if !status_ok {
        return Err(CalendarError::ParseError(String::from_str("API request failed")));
    }
    match api_id_from_body(body) {
        Some(id) => Ok(id),
        None => Err(CalendarError::ParseError(String::from_str("API ID not found in response"))),
    }
}

/// What the remote submission response body denotes: nothing when the body is
/// not JSON; otherwise the string at the top-level key `calendar_event_id`,
/// when the response carries one. A function of the body text alone.
pub uninterp spec fn calendar_event_id_in(body: Seq<char>) -> Option<Option<Seq<char>>>;

/// Relies on serde_json (`from_str`, `Value::get`, `Value::as_str`): reads
/// the string under the top-level key `calendar_event_id` of the JSON body;
/// the outer level says whether the body parsed as JSON at all.
#[verifier::external_body]
fn calendar_event_id_from_body(body: &str) -> (r: Option<Option<String>>)
    ensures
        r is Some <==> calendar_event_id_in(body@) is Some,
        r matches Some(inner) ==> inner.deep_view() == calendar_event_id_in(body@)->0,
{
    let value: serde_json::Value = match serde_json::from_str(body) {
        Ok(v) => v,
        Err(_) => {
            return None;
        },
    };
    Some(value.get("calendar_event_id").and_then(|id| id.as_str()).map(|id| id.to_string()))
}

/// Interprets a remote submission response: on a success status the body must
/// be JSON, and the remote-side event identifier is the string under its
/// `calendar_event_id` key, which the service may omit. Any other status, or
/// a body that is not JSON, is a submission failure.
pub fn interpret_add_response(status_ok: bool, body: &str) -> (r: Result<
    Option<String>,
    CalendarError,
>)
    ensures
        status_ok && calendar_event_id_in(body@) is Some ==> (r matches Ok(cid)
            && cid.deep_view() == calendar_event_id_in(body@)->0),
        status_ok && calendar_event_id_in(body@) is None ==> (r matches Err(e) && e is ParseError
            && e.spec_message() == "Failed to parse API response"@),
        !status_ok ==> (r matches Err(e) && e is ParseError),
{
    if !status_ok {
        return Err(CalendarError::ParseError(String::from_str("API request failed")));
    }
    match calendar_event_id_from_body(body) {
        Some(cid) => Ok(cid),
        None => Err(CalendarError::ParseError(String::from_str("Failed to parse API response"))),
    }
}

/// What the reconciler does with one event.
pub enum LookupDecision {
    /// The event already carries an external reference; it is never
    /// re-looked-up.
    AlreadyEnriched,
    /// No slug can be derived from the event's URL; the event is skipped.
    NoSlug,
    /// Look the event up remotely, keyed by this slug.
    Lookup(String),
}

/// The reconciler's decision for one event: an event that already carries an
/// external reference is left alone; otherwise its slug keys a remote lookup;
/// an event yielding no slug is skipped.
pub fn enrichment_decision(event: &Event) -> (r: LookupDecision)
    ensures
        event@.api_id is Some <==> r is AlreadyEnriched,
        event@.api_id is None && spec_extract_slug(event@.url) is None <==> r is NoSlug,
        event@.api_id is None && spec_extract_slug(event@.url) is Some ==> (r matches
            LookupDecision::Lookup(slug) && slug@ == spec_extract_slug(event@.url)->0),
{
    if event.api_id.is_some() {
        return LookupDecision::AlreadyEnriched;
    }
    match event.extract_slug() {
        Some(slug) => LookupDecision::Lookup(slug),
        None => LookupDecision::NoSlug,
    }
}

/// Fills an event's external reference: a reference already present is never
/// cleared or replaced; only an event without one takes the new value.
pub fn enrich_with(event: &mut Event, api_id: String)
    ensures
        final(event)@ == (EventData {
            api_id: if old(event)@.api_id is Some {
                old(event)@.api_id
            } else {
                Option::Some(api_id@)
            },
            ..old(event)@
        }),
{
    if event.api_id.is_none() {
        event.api_id = Some(api_id);
    }
    proof {
        assert(event@ =~= (EventData {
            api_id: if old(event)@.api_id is Some {
                old(event)@.api_id
            } else {
                Option::Some(api_id@)
            },
            ..old(event)@
        }));
    }
}

/// Separate success and failure counts accumulated over a batch.
pub struct BatchTally {
    /// Items that succeeded.
    pub success: u64,
    /// Items that failed; the batch itself never aborts on one.
    pub failure: u64,
}

impl BatchTally {
    /// A tally with nothing counted.
    pub fn new() -> (r: BatchTally)
        ensures
            r.success == 0,
            r.failure == 0,
    {
        BatchTally { success: 0, failure: 0 }
    }

    /// Counts one success.
    pub fn record_success(&mut self)
        requires
            old(self).success < u64::MAX,
        ensures
            final(self).success == old(self).success + 1,
            final(self).failure == old(self).failure,
    {
        self.success = self.success + 1;
    }

    /// Counts one failure.
    pub fn record_failure(&mut self)
        requires
            old(self).failure < u64::MAX,
        ensures
            final(self).failure == old(self).failure + 1,
            final(self).success == old(self).success,
    {
        self.failure = self.failure + 1;
    }
}

/// The position of the first event whose URL contains `fragment`, searching
/// from position `i`. Containment is looser than slug equality: a slug that is
/// a substring of another can match the wrong event.
pub open spec fn spec_find_by_url_fragment(
    rows: Seq<EventData>,
    fragment: Seq<char>,
    i: int,
) -> Option<int>
    decreases rows.len() - i,
{
    if i < 0 || i >= rows.len() {
        None
    } else if rows[i].url is Some && spec_contains_pat(rows[i].url->0, fragment) {
        Some(i)
    } else {
        spec_find_by_url_fragment(rows, fragment, i + 1)
    }
}

/// The first event whose URL contains `fragment`, if any.
pub fn find_by_url_fragment(events: &Vec<Event>, fragment: &str) -> (r: Option<usize>)
    ensures
        r is Some <==> spec_find_by_url_fragment(views_of(events@), fragment@, 0) is Some,
        r matches Some(i) ==> i < events@.len() && i as int == spec_find_by_url_fragment(
            views_of(events@),
            fragment@,
            0,
        )->0,
{
    let ghost rows = views_of(events@);
    let n = events.len();
    let mut i: usize = 0;
    while i < n
        invariant
            n == events@.len(),
            i <= n,
            rows == views_of(events@),
            spec_find_by_url_fragment(rows, fragment@, 0) == spec_find_by_url_fragment(
                rows,
                fragment@,
                i as int,
            ),
        decreases n - i,
    {
        proof {
            assert(rows[i as int] == events@[i as int]@);
        }
        let hit = match &events[i].url {
            Some(u) => contains_pat(u.as_str(), fragment),
            None => false,
        };
        if hit {
            return Some(i);
        }
        i = i + 1;
    }
    None
}

/// An event falls inside the forward-looking submission horizon at time `now`
/// iff it carries an external reference and starts after `now` but before
/// `now` plus `horizon_days` days.
pub open spec fn spec_should_submit(e: EventData, now: int, horizon_days: int) -> bool {
    &&& e.api_id is Some
    &&& e.start > now
    &&& e.start < now + horizon_days * 86400
}

/// Whether an event is submitted to the remote service at time `now`, looking
/// `horizon_days` days ahead.
pub fn should_submit(event: &Event, now: i64, horizon_days: u32) -> (r: bool)
    ensures
        r == spec_should_submit(event@, now as int, horizon_days as int),
{
    if event.api_id.is_none() {
        return false;
    }
    if !(event.start > now) {
        return false;
    }
    let horizon_secs: i64 = (horizon_days as i64) * 86400;
    match now.checked_add(horizon_secs) {
        Some(cutoff) => event.start < cutoff,
        None => true,
    }
}

/// The events of `rows` whose start lies in `[now, now + days*86400]`, in
/// order, capped at `limit` entries when `limit` is positive.
pub open spec fn spec_upcoming(rows: Seq<EventData>, now: int, days: int, limit: int) -> Seq<
    EventData,
>
    decreases rows.len(),
{
    if rows.len() == 0 {
        Seq::empty()
    } else {
        let rest = spec_upcoming(rows.drop_last(), now, days, limit);
        let e = rows.last();
        if now <= e.start <= now + days * 86400 && (limit <= 0 || rest.len() < limit) {
            rest.push(e)
        } else {
            rest
        }
    }
}

/// The events starting within the next `days` days from `now`, in their given
/// order, capped at `limit` entries when `limit` is positive.
pub fn filter_upcoming(events: &Vec<Event>, now: i64, days: u32, limit: usize) -> (r: Vec<Event>)
    ensures
        views_of(r@) == spec_upcoming(views_of(events@), now as int, days as int, limit as int),
{
    let n = events.len();
    let mut out: Vec<Event> = Vec::new();
    let mut i: usize = 0;
    proof {
        assert(views_of(events@.take(0)) =~= Seq::<EventData>::empty());
        assert(views_of(out@) =~= spec_upcoming(
            views_of(events@.take(0)),
            now as int,
            days as int,
            limit as int,
        ));
    }
    while i < n
        invariant
            n == events@.len(),
            i <= n,
            out@.len() <= i,
            views_of(out@) == spec_upcoming(
                views_of(events@.take(i as int)),
                now as int,
                days as int,
                limit as int,
            ),
        decreases n - i,
    {
        let e = &events[i];
        let in_window = if e.start >= now {
            let horizon_secs: i64 = (days as i64) * 86400;
            match now.checked_add(horizon_secs) {
                Some(cutoff) => e.start <= cutoff,
                None => true,
            }
        } else {
            false
        };
        if in_window && (limit == 0 || out.len() < limit) {
            out.push(e.clone());
        }
        proof {
            let tv = views_of(events@.take(i as int + 1));
            assert(tv.drop_last() =~= views_of(events@.take(i as int)));
            assert(tv.last() == events@[i as int]@);
            assert(views_of(out@) =~= spec_upcoming(tv, now as int, days as int, limit as int));
        }
        i = i + 1;
    }
    proof {
        assert(events@.take(n as int) =~= events@);
    }
    out
}

} // verus!
