//! Feed parsing and normalization: raw calendar-feed text becomes canonical
//! event records. The block structure of the feed is read by the ical crate
//! behind one trusted boundary; everything after that — property lookup, URL
//! resolution and sanitization, date parsing, the retention filter, identity
//! assignment and ordering — is verified.

use vstd::prelude::*;
use crate::errors::CalendarError;
use crate::event::clone_opt_string;
use crate::event::spec_new_event;
use crate::event::Event;
use crate::event::EventData;
use crate::order::sort_events_by_start;
use crate::order::sorted_by_start;
use crate::order::spec_sort_by_start;
use crate::order::views_of;
use crate::text::find_pat;
use crate::text::find_pat_ci;
use crate::text::first_ci_match_from;
use crate::text::first_match_from;
use crate::text::is_space_char;
use crate::text::remove_char;
use crate::text::remove_char_str;
use crate::text::space_char;
use crate::text::spec_trim;
use crate::text::str_eq;
use crate::text::trim_str;
use crate::time::is_retained;
use crate::time::parse_ical_datetime;
use crate::time::spec_parse_datetime;
use crate::time::spec_retained;

verus! {

/// One named property of a feed component.
pub struct FeedProp {
    /// Property name, as it appears in the feed.
    pub name: String,
    /// Property value, when the feed carries one.
    pub value: Option<String>,
}

/// One sub-event component of a calendar block: its properties, in feed
/// order.
pub struct FeedComponent {
    /// The component's properties.
    pub props: Vec<FeedProp>,
}

impl View for FeedProp {
    type V = (Seq<char>, Option<Seq<char>>);

    open spec fn view(&self) -> (Seq<char>, Option<Seq<char>>) {
        (self.name@, self.value.deep_view())
    }
}

impl View for FeedComponent {
    type V = Seq<(Seq<char>, Option<Seq<char>>)>;

    open spec fn view(&self) -> Seq<(Seq<char>, Option<Seq<char>>)> {
        self.props@.map_values(|p: FeedProp| p@)
    }
}

/// The denotations of a list of feed components.
pub open spec fn components_view(comps: Seq<FeedComponent>) -> Seq<
    Seq<(Seq<char>, Option<Seq<char>>)>,
> {
    comps.map_values(|c: FeedComponent| c@)
}

/// What the ical parser denotes on a feed text: the event components of its
/// calendar blocks in order, or nothing when some block is malformed. The
/// parse is a function of the text alone.
pub uninterp spec fn ical_components(text: Seq<char>) -> Option<
    Seq<Seq<(Seq<char>, Option<Seq<char>>)>>,
>;

/// Relies on ical's `IcalParser`: iterating the parser over the text yields
/// each calendar block's event components with their named properties, and an
/// error on a malformed block, which fails the whole feed.
#[verifier::external_body]
fn parse_feed_components(text: &str) -> (r: Result<Vec<FeedComponent>, String>)
    ensures
        r is Ok <==> ical_components(text@) is Some,
        r matches Ok(comps) ==> components_view(comps@) == ical_components(text@)->0,
{
    let reader = std::io::BufReader::new(text.as_bytes());
    let mut comps: Vec<FeedComponent> = Vec::new();
    for calendar in ical::parser::ical::IcalParser::new(reader) {
        let cal = calendar.map_err(|e| format!("{}", e))?;
        comps.extend(cal.events.into_iter().map(|ev| FeedComponent {
            props: ev.properties.into_iter().map(|p| FeedProp { name: p.name, value: p.value }).collect(),
        }));
    }
    Ok(comps)
}

/// The value of the first property named `name`, searching from position `i`:
/// outer `None` when no such property exists, inner `None` when it has no
/// value.
pub open spec fn find_prop_from(
    props: Seq<(Seq<char>, Option<Seq<char>>)>,
    name: Seq<char>,
    i: int,
) -> Option<Option<Seq<char>>>
    decreases props.len() - i,
{
    if i < 0 || i >= props.len() {
        None
    } else if props[i].0 == name {
        Some(props[i].1)
    } else {
        find_prop_from(props, name, i + 1)
    }
}

/// The value carried by the first property named `name`, if any.
pub open spec fn spec_prop_value(
    props: Seq<(Seq<char>, Option<Seq<char>>)>,
    name: Seq<char>,
) -> Option<Seq<char>> {
    match find_prop_from(props, name, 0) {
        Option::None => Option::None,
        Option::Some(v) => v,
    }
}

/// The value of the first URL-typed property (either known casing), searching
/// from position `i`.
pub open spec fn find_url_prop_from(props: Seq<(Seq<char>, Option<Seq<char>>)>, i: int) -> Option<
    Option<Seq<char>>,
>
    decreases props.len() - i,
{
    if i < 0 || i >= props.len() {
        None
    } else if props[i].0 == "URL"@ || props[i].0 == "url"@ {
        Some(props[i].1)
    } else {
        find_url_prop_from(props, i + 1)
    }
}

/// The value carried by the first URL-typed property, if any.
pub open spec fn spec_url_prop_value(props: Seq<(Seq<char>, Option<Seq<char>>)>) -> Option<
    Seq<char>,
> {
    match find_url_prop_from(props, 0) {
        Option::None => Option::None,
        Option::Some(v) => v,
    }
}

/// `s` truncated at a literal address marker, assumed to introduce a physical
/// address appended after the link: the marker is matched without regard to
/// ASCII case, preferring the form preceded by a blank line, then by a line
/// break, then bare. The kept prefix is trimmed. Without a marker, `s` is
/// unchanged.
pub open spec fn spec_truncate_marker(s: Seq<char>) -> Seq<char> {
    if first_ci_match_from(s, "\n\naddress:"@, 0) is Some {
        spec_trim(s.take(first_ci_match_from(s, "\n\naddress:"@, 0)->0))
    } else if first_ci_match_from(s, "\naddress:"@, 0) is Some {
        spec_trim(s.take(first_ci_match_from(s, "\naddress:"@, 0)->0))
    } else if first_ci_match_from(s, "address:"@, 0) is Some {
        spec_trim(s.take(first_ci_match_from(s, "address:"@, 0)->0))
    } else {
        s
    }
}

/// The tail of URL sanitization: truncate at an address marker, strip
/// newlines, trim.
pub open spec fn spec_sanitize_url_tail(s: Seq<char>) -> Seq<char> {
    spec_trim(remove_char(spec_truncate_marker(s), '\n'))
}

/// Sanitizes a URL taken from a URL-typed property: trimmed, truncated at an
/// address marker, stripped of newlines, trimmed.
pub open spec fn spec_sanitize_url(s: Seq<char>) -> Seq<char> {
    spec_sanitize_url_tail(spec_trim(s))
}

/// The position of the first whitespace character at or after `i`; the length
/// of `s` when there is none.
pub open spec fn first_ws_from(s: Seq<char>, i: int) -> int
    decreases s.len() - i,
{
    if i < 0 || i >= s.len() {
        s.len() as int
    } else if is_space_char(s[i]) {
        i
    } else {
        first_ws_from(s, i + 1)
    }
}

/// A URL found inside free text: the first `http`-prefixed substring, bounded
/// by the next whitespace, then sanitized.
pub open spec fn spec_url_from_description(d: Seq<char>) -> Option<Seq<char>> {
    match first_match_from(d, "http"@, 0) {
        Option::None => Option::None,
        Option::Some(i) => {
            let rest = d.skip(i);
            let u = rest.take(first_ws_from(rest, 0));
            Option::Some(spec_sanitize_url_tail(u))
        },
    }
}

/// The URL resolved for a component: an explicit URL-typed property wins and
/// is sanitized; otherwise the description is searched for an embedded link.
pub open spec fn spec_resolved_url(props: Seq<(Seq<char>, Option<Seq<char>>)>) -> Option<
    Seq<char>,
> {
    match spec_url_prop_value(props) {
        Option::Some(u) => Option::Some(spec_sanitize_url(u)),
        Option::None => match spec_prop_value(props, "DESCRIPTION"@) {
            Option::None => Option::None,
            Option::Some(d) => spec_url_from_description(d),
        },
    }
}

/// Why a feed fails to denote a list of events.
pub enum FeedIssue {
    /// A calendar block is structurally malformed.
    ParseFailed,
    /// A component lacks the mandatory start property.
    MissingStart,
    /// A component lacks the mandatory end property.
    MissingEnd,
    /// A date literal denotes no instant.
    BadTime,
}

/// The calendar error that reports a feed issue.
pub open spec fn error_reflects(issue: FeedIssue, e: CalendarError) -> bool {
    match issue {
        FeedIssue::ParseFailed => e is ParseError,
        FeedIssue::MissingStart => e is ParseError && e.spec_message()
            == "Event missing DTSTART property"@,
        FeedIssue::MissingEnd => e is ParseError && e.spec_message()
            == "Event missing DTEND property"@,
        FeedIssue::BadTime => e is TimeConversionError,
    }
}

/// What one component denotes at time `now`: a canonical event when its dates
/// parse and it is still retained, nothing when it ended too long ago, or the
/// issue that fails the feed. The summary defaults to a fixed placeholder.
pub open spec fn spec_component_event(
    props: Seq<(Seq<char>, Option<Seq<char>>)>,
    now: int,
) -> Result<Option<EventData>, FeedIssue> {
    let summary = match spec_prop_value(props, "SUMMARY"@) {
        Option::Some(v) => v,
        Option::None => "Untitled Event"@,
    };
    let description = spec_prop_value(props, "DESCRIPTION"@);
    let location = spec_prop_value(props, "LOCATION"@);
    let url = spec_resolved_url(props);
    match spec_prop_value(props, "DTSTART"@) {
        Option::None => Result::Err(FeedIssue::MissingStart),
        Option::Some(sv) => match spec_prop_value(props, "DTEND"@) {
            Option::None => Result::Err(FeedIssue::MissingEnd),
            Option::Some(ev) => match spec_parse_datetime(sv) {
                Option::None => Result::Err(FeedIssue::BadTime),
                Option::Some(st) => match spec_parse_datetime(ev) {
                    Option::None => Result::Err(FeedIssue::BadTime),
                    Option::Some(en) => Result::Ok(
                        if spec_retained(en, now) {
                            Option::Some(
                                spec_new_event(summary, description, location, st, en, url),
                            )
                        } else {
                            Option::None
                        },
                    ),
                },
            },
        },
    }
}

/// What a list of components denotes at time `now`: the retained events in
/// feed order, or the first issue encountered.
pub open spec fn spec_feed_events(
    comps: Seq<Seq<(Seq<char>, Option<Seq<char>>)>>,
    now: int,
) -> Result<Seq<EventData>, FeedIssue>
    decreases comps.len(),
{
    if comps.len() == 0 {
        Result::Ok(Seq::empty())
    } else {
        match spec_component_event(comps[0], now) {
            Result::Err(issue) => Result::Err(issue),
            Result::Ok(opt) => match spec_feed_events(comps.skip(1), now) {
                Result::Err(issue) => Result::Err(issue),
                Result::Ok(rest) => Result::Ok(
                    match opt {
                        Option::Some(e) => seq![e] + rest,
                        Option::None => rest,
                    },
                ),
            },
        }
    }
}

/// Every event a feed denotes is still inside the retention window at the
/// time of parsing, and none carries an external reference yet.
pub proof fn lemma_feed_events_fresh(comps: Seq<Seq<(Seq<char>, Option<Seq<char>>)>>, now: int)
    requires
        spec_feed_events(comps, now) is Ok,
    ensures
        forall|k: int|
            0 <= k < spec_feed_events(comps, now)->Ok_0.len() ==> spec_retained(
                #[trigger] spec_feed_events(comps, now)->Ok_0[k].end,
                now,
            ) && spec_feed_events(comps, now)->Ok_0[k].api_id is None,
    decreases comps.len(),
{
    if comps.len() > 0 {
        lemma_feed_events_fresh(comps.skip(1), now);
        let evs = spec_feed_events(comps, now)->Ok_0;
        let rest = spec_feed_events(comps.skip(1), now)->Ok_0;
        assert forall|k: int| 0 <= k < evs.len() implies spec_retained(evs[k].end, now)
            && evs[k].api_id is None by {
            match spec_component_event(comps[0], now)->Ok_0 {
                Option::Some(e) => {
                    if k > 0 {
                        assert(evs[k] == rest[k - 1]);
                    }
                },
                Option::None => {
                    assert(evs[k] == rest[k]);
                },
            }
        }
    }
}

/// What a feed text denotes at time `now`.
pub open spec fn spec_parse_feed(text: Seq<char>, now: int) -> Result<Seq<EventData>, FeedIssue> {
    match ical_components(text) {
        Option::None => Result::Err(FeedIssue::ParseFailed),
        Option::Some(comps) => spec_feed_events(comps, now),
    }
}

/// The value carried by the first property named `name`, if any.
fn find_prop_value(props: &Vec<FeedProp>, name: &str) -> (r: Option<String>)
    ensures
        r.deep_view() == spec_prop_value(props@.map_values(|p: FeedProp| p@), name@),
{
    let ghost pv = props@.map_values(|p: FeedProp| p@);
    let n = props.len();
    let mut i: usize = 0;
    while i < n
        invariant
            n == props@.len(),
            i <= n,
            pv == props@.map_values(|p: FeedProp| p@),
            find_prop_from(pv, name@, 0) == find_prop_from(pv, name@, i as int),
        decreases n - i,
    {
        proof {
            assert(pv[i as int] == props@[i as int]@);
        }
        if str_eq(props[i].name.as_str(), name) {
            return clone_opt_string(&props[i].value);
        }
        i = i + 1;
    }
    None
}

/// The value carried by the first URL-typed property, if any.
fn find_url_prop_value(props: &Vec<FeedProp>) -> (r: Option<String>)
    ensures
        r.deep_view() == spec_url_prop_value(props@.map_values(|p: FeedProp| p@)),
{
    let ghost pv = props@.map_values(|p: FeedProp| p@);
    let n = props.len();
    let mut i: usize = 0;
    while i < n
        invariant
            n == props@.len(),
            i <= n,
            pv == props@.map_values(|p: FeedProp| p@),
            find_url_prop_from(pv, 0) == find_url_prop_from(pv, i as int),
        decreases n - i,
    {
        proof {
            assert(pv[i as int] == props@[i as int]@);
        }
        if str_eq(props[i].name.as_str(), "URL") || str_eq(props[i].name.as_str(), "url") {
            return clone_opt_string(&props[i].value);
        }
        i = i + 1;
    }
    None
}

/// Truncates `s` at an address marker (ASCII-case-insensitive, preferring the
/// forms preceded by blank lines) and trims the kept prefix.
fn truncate_marker(s: &str) -> (r: String)
    ensures
        r@ == spec_truncate_marker(s@),
{
    match find_pat_ci(s, "\n\naddress:") {
        Some(idx) => {
            let kept = s.substring_char(0, idx);
            proof {
                assert(s@.subrange(0, idx as int) =~= s@.take(idx as int));
            }
            trim_str(kept)
        },
        None => match find_pat_ci(s, "\naddress:") {
            Some(idx) => {
                let kept = s.substring_char(0, idx);
                proof {
                    assert(s@.subrange(0, idx as int) =~= s@.take(idx as int));
                }
                trim_str(kept)
            },
            None => match find_pat_ci(s, "address:") {
                Some(idx) => {
                    let kept = s.substring_char(0, idx);
                    proof {
                        assert(s@.subrange(0, idx as int) =~= s@.take(idx as int));
                    }
                    trim_str(kept)
                },
                None => s.to_owned(),
            },
        },
    }
}

/// The sanitization tail shared by both URL sources: marker truncation,
/// newline removal, trimming.
fn sanitize_url_tail(s: &str) -> (r: String)
    ensures
        r@ == spec_sanitize_url_tail(s@),
{
    let truncated = truncate_marker(s);
    let no_newlines = remove_char_str(truncated.as_str(), '\n');
    trim_str(no_newlines.as_str())
}

/// Sanitizes the value of a URL-typed property.
fn sanitize_url(s: &str) -> (r: String)
    ensures
        r@ == spec_sanitize_url(s@),
{
    let trimmed = trim_str(s);
    sanitize_url_tail(trimmed.as_str())
}

/// Extracts a URL embedded in free text: the first `http`-prefixed substring,
/// bounded by the next whitespace, sanitized.
fn url_from_description(d: &str) -> (r: Option<String>)
    ensures
        r.deep_view() == spec_url_from_description(d@),
{
    let n = d.unicode_len();
    match find_pat(d, "http") {
        None => None,
        Some(i) => {
            let rest = d.substring_char(i, n);
            proof {
                assert(d@.subrange(i as int, n as int) =~= d@.skip(i as int));
            }
            let m = rest.unicode_len();
            let mut j: usize = 0;
            while j < m && !space_char(rest.get_char(j))
                invariant
                    m == rest@.len(),
                    j <= m,
                    first_ws_from(rest@, 0) == first_ws_from(rest@, j as int),
                decreases m - j,
            {
                j = j + 1;
            }
            proof {
                assert(first_ws_from(rest@, j as int) == j as int);
            }
            let bounded = rest.substring_char(0, j);
            proof {
                assert(rest@.subrange(0, j as int) =~= rest@.take(j as int));
            }
            Some(sanitize_url_tail(bounded))
        },
    }
}

/// Resolves a component's URL: an explicit URL-typed property, sanitized;
/// otherwise a link found inside the description.
fn resolve_url(props: &Vec<FeedProp>) -> (r: Option<String>)
    ensures
        r.deep_view() == spec_resolved_url(props@.map_values(|p: FeedProp| p@)),
{
    match find_url_prop_value(props) {
        Some(u) => Some(sanitize_url(u.as_str())),
        None => match find_prop_value(props, "DESCRIPTION") {
            Some(d) => url_from_description(d.as_str()),
            None => None,
        },
    }
}

/// Turns one feed component into a canonical event at time `now`: `None` when
/// the event ended before the retention window; an error when a mandatory
/// date property is missing or malformed, which fails the whole feed.
fn component_event(comp: &FeedComponent, now: i64) -> (r: Result<Option<Event>, CalendarError>)
    ensures
        match spec_component_event(comp@, now as int) {
            Result::Ok(opt) => r matches Ok(o) && opt == (match o {
                Option::Some(e) => Option::Some(e@),
                Option::None => Option::None::<EventData>,
            }),
            Result::Err(issue) => r matches Err(e) && error_reflects(issue, e),
        },
{
    let summary = match find_prop_value(&comp.props, "SUMMARY") {
        Some(v) => v,
        None => String::from_str("Untitled Event"),
    };
    let description = find_prop_value(&comp.props, "DESCRIPTION");
    let location = find_prop_value(&comp.props, "LOCATION");
    let url = resolve_url(&comp.props);
    let start_text = match find_prop_value(&comp.props, "DTSTART") {
        Some(v) => v,
        None => {
            return Err(
                CalendarError::ParseError(String::from_str("Event missing DTSTART property")),
            );
        },
    };
    let end_text = match find_prop_value(&comp.props, "DTEND") {
        Some(v) => v,
        None => {
            return Err(
                CalendarError::ParseError(String::from_str("Event missing DTEND property")),
            );
        },
    };
    let start = match parse_ical_datetime(start_text.as_str()) {
        Ok(t) => t,
        Err(e) => {
            return Err(e);
        },
    };
    let end = match parse_ical_datetime(end_text.as_str()) {
        Ok(t) => t,
        Err(e) => {
            return Err(e);
        },
    };
    if is_retained(end, now) {
        Ok(Some(Event::new(summary, description, location, start, end, url)))
    } else {
        Ok(None)
    }
}

/// Parses a feed text into canonical event records at time `now`: each
/// component's properties are extracted and normalized, events that ended
/// before the retention window are dropped, and the result is ordered
/// ascending by start. A malformed block, a missing mandatory date property,
/// or a malformed date literal fails the whole feed.
pub fn parse_feed(text: &str, now: i64) -> (r: Result<Vec<Event>, CalendarError>)
    ensures
        match spec_parse_feed(text@, now as int) {
            Result::Ok(evs) => r matches Ok(v) && views_of(v@) == spec_sort_by_start(evs)
                && views_of(v@).to_multiset() == evs.to_multiset() && sorted_by_start(
                views_of(v@),
            ),
            Result::Err(issue) => r matches Err(e) && error_reflects(issue, e),
        },
{
    let comps = match parse_feed_components(text) {
        Ok(c) => c,
        Err(msg) => {
            return Err(
                CalendarError::ParseError(
                    String::from_str("Failed to parse calendar: ").concat(msg.as_str()),
                ),
            );
        },
    };
    let ghost cv = components_view(comps@);
    let n = comps.len();
    let mut events: Vec<Event> = Vec::new();
    let mut j: usize = 0;
    proof {
        assert(cv.skip(0) =~= cv);
        assert(views_of(events@) =~= Seq::<EventData>::empty());
        assert(spec_feed_events(cv, now as int) == (match spec_feed_events(
            cv.skip(0),
            now as int,
        ) {
            Result::Ok(rest) => Result::<Seq<EventData>, FeedIssue>::Ok(views_of(events@) + rest),
            Result::Err(issue) => Result::<Seq<EventData>, FeedIssue>::Err(issue),
        }));
    }
    while j < n
        invariant
            n == comps@.len(),
            j <= n,
            cv == components_view(comps@),
            spec_parse_feed(text@, now as int) == spec_feed_events(cv, now as int),
            spec_feed_events(cv, now as int) == (match spec_feed_events(
                cv.skip(j as int),
                now as int,
            ) {
                Result::Ok(rest) => Result::<Seq<EventData>, FeedIssue>::Ok(
                    views_of(events@) + rest,
                ),
                Result::Err(issue) => Result::<Seq<EventData>, FeedIssue>::Err(issue),
            }),
        decreases n - j,
    {
        proof {
            assert(cv.skip(j as int)[0] == cv[j as int]);
            assert(cv[j as int] == comps@[j as int]@);
            assert(cv.skip(j as int).skip(1) =~= cv.skip(j as int + 1));
        }
        let outcome = component_event(&comps[j], now);
        match outcome {
            Err(e) => {
                return Err(e);
            },
            Ok(Some(ev)) => {
                let ghost before = events@;
                events.push(ev);
                proof {
                    assert(views_of(events@) =~= views_of(before).push(ev@));
                    assert forall|rest: Seq<EventData>|
                        views_of(before) + (seq![ev@] + rest) =~= views_of(events@) + rest by {}
                }
            },
            Ok(None) => (),
        }
        j = j + 1;
    }
    proof {
        assert(cv.skip(n as int) =~= Seq::<Seq<(Seq<char>, Option<Seq<char>>)>>::empty());
        assert(views_of(events@) + Seq::<EventData>::empty() =~= views_of(events@));
    }
    let sorted = sort_events_by_start(events);
    Ok(sorted)
}

/// Prepares parsed events for storage: each event's URL is cleaned, and an
/// event without one receives the canonical pattern derived from its
/// identifier.
pub fn prepare_for_storage(events: &Vec<Event>) -> (r: Vec<Event>)
    ensures
        r@.len() == events@.len(),
        forall|i: int|
            0 <= i < events@.len() ==> #[trigger] r@[i]@ == crate::event::spec_storage_url_event(
                events@[i]@,
            ),
{
    let n = events.len();
    let mut out: Vec<Event> = Vec::new();
    let mut i: usize = 0;
    while i < n
        invariant
            n == events@.len(),
            i <= n,
            out@.len() == i,
            forall|j: int|
                0 <= j < i ==> #[trigger] out@[j]@ == crate::event::spec_storage_url_event(
                    events@[j]@,
                ),
        decreases n - i,
    {
        out.push(events[i].with_storage_url());
        i = i + 1;
    }
    out
}

} // verus!
