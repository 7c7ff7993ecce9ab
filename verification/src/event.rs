//! The event record and its canonical identity. An event's identifier is a
//! pure function of its content — summary, start instant, and the optional
//! description and location — so re-parsing an unchanged source event always
//! reproduces the same identifier.

use vstd::prelude::*;
use vstd::utf8::encode_utf8;
use vstd::std_specs::hash::DefaultHasherAdditionalSpecFns;
use std::collections::hash_map::DefaultHasher;
use std::hash::Hasher;
use crate::numfmt::dec_i64;
use crate::numfmt::hex_u64;
use crate::numfmt::spec_dec_int;
use crate::numfmt::spec_hex_nat;
use crate::text::after_last_char;
use crate::text::after_last_pat;
use crate::text::clean_str;
use crate::text::contains_pat;
use crate::text::push_char;
use crate::text::spec_clean;
use crate::text::spec_contains_pat;
use crate::text::suffix_after_last_char;
use crate::text::suffix_after_last_pat;

verus! {

/// The mathematical content of an event: what an [`Event`] denotes.
#[verifier::ext_equal]
pub struct EventData {
    pub summary: Seq<char>,
    pub description: Option<Seq<char>>,
    pub location: Option<Seq<char>>,
    pub start: int,
    pub end: int,
    pub url: Option<Seq<char>>,
    pub event_uid: Seq<char>,
    pub api_id: Option<Seq<char>>,
}

/// A canonical event record. Instants are seconds since the Unix epoch, UTC.
#[derive(Debug)]
pub struct Event {
    /// Display title; a fixed placeholder when the source had none.
    pub summary: String,
    /// Optional free text.
    pub description: Option<String>,
    /// Optional free text.
    pub location: Option<String>,
    /// Start instant.
    pub start: i64,
    /// End instant.
    pub end: i64,
    /// Optional canonical link to the event on the source platform.
    pub url: Option<String>,
    /// Canonical identity, derived deterministically from content.
    pub event_uid: String,
    /// External reference obtained from enrichment; never cleared once set.
    pub api_id: Option<String>,
}

impl View for Event {
    type V = EventData;

    open spec fn view(&self) -> EventData {
        EventData {
            summary: self.summary@,
            description: self.description.deep_view(),
            location: self.location.deep_view(),
            start: self.start as int,
            end: self.end as int,
            url: self.url.deep_view(),
            event_uid: self.event_uid@,
            api_id: self.api_id.deep_view(),
        }
    }
}

/// The sequence of byte strings hashed to derive an event's identity: the
/// summary, the decimal rendering of the start instant, then the description
/// and the location when present, each UTF-8 encoded.
pub open spec fn spec_uid_stream(
    summary: Seq<char>,
    start: int,
    description: Option<Seq<char>>,
    location: Option<Seq<char>>,
) -> Seq<Seq<u8>> {
    let base = seq![encode_utf8(summary), encode_utf8(spec_dec_int(start))];
    let with_desc = match description {
        Option::Some(d) => base.push(encode_utf8(d)),
        Option::None => base,
    };
    match location {
        Option::Some(l) => with_desc.push(encode_utf8(l)),
        Option::None => with_desc,
    }
}

/// The summary as it appears inside an identifier: blanks become underscores.
pub open spec fn spec_underscored(s: Seq<char>) -> Seq<char> {
    s.map_values(
        |c: char|
            if c == ' ' {
                '_'
            } else {
                c
            },
    )
}

/// The canonical identifier derived from an event's content:
/// `<summary with blanks underscored>-<start seconds>-<content hash in hex>`.
pub open spec fn spec_event_uid(
    summary: Seq<char>,
    start: int,
    description: Option<Seq<char>>,
    location: Option<Seq<char>>,
) -> Seq<char> {
    let h = DefaultHasher::spec_finish(spec_uid_stream(summary, start, description, location));
    spec_underscored(summary) + seq!['-'] + spec_dec_int(start) + seq!['-'] + spec_hex_nat(
        h as nat,
    )
}

/// The content of a freshly parsed event: every field as given, the
/// identifier derived from the content, and no external reference yet.
pub open spec fn spec_new_event(
    summary: Seq<char>,
    description: Option<Seq<char>>,
    location: Option<Seq<char>>,
    start: int,
    end: int,
    url: Option<Seq<char>>,
) -> EventData {
    EventData {
        summary: summary,
        description: description,
        location: location,
        start: start,
        end: end,
        url: url,
        event_uid: spec_event_uid(summary, start, description, location),
        api_id: Option::None,
    }
}

/// The identifier is deterministic: events with the same summary, start,
/// description and location always receive the same identifier.
pub proof fn lemma_event_uid_deterministic(
    summary_a: Seq<char>,
    start_a: int,
    description_a: Option<Seq<char>>,
    location_a: Option<Seq<char>>,
    summary_b: Seq<char>,
    start_b: int,
    description_b: Option<Seq<char>>,
    location_b: Option<Seq<char>>,
)
    requires
        summary_a == summary_b,
        start_a == start_b,
        description_a == description_b,
        location_a == location_b,
    ensures
        spec_event_uid(summary_a, start_a, description_a, location_a) == spec_event_uid(
            summary_b,
            start_b,
            description_b,
            location_b,
        ),
{
}

pub(crate) fn clone_opt_string(o: &Option<String>) -> (r: Option<String>)
    ensures
        r == *o,
{
    match o {
        Option::Some(s) => Some(s.clone()),
        Option::None => None,
    }
}

/// Replaces every blank with an underscore.
fn underscored(s: &str) -> (r: String)
    ensures
        r@ == spec_underscored(s@),
{
    let n = s.unicode_len();
    let mut out = String::new();
    let mut i: usize = 0;
    proof {
        assert(out@ =~= spec_underscored(s@).take(0));
    }
    while i < n
        invariant
            n == s@.len(),
            i <= n,
            out@ == spec_underscored(s@).take(i as int),
        decreases n - i,
    {
        let c = s.get_char(i);
        if c == ' ' {
            push_char(&mut out, '_');
        } else {
            push_char(&mut out, c);
        }
        proof {
            assert(out@ =~= spec_underscored(s@).take(i as int + 1));
        }
        i = i + 1;
    }
    proof {
        assert(spec_underscored(s@).take(n as int) =~= spec_underscored(s@));
    }
    out
}

impl Event {
    /// Builds a freshly parsed event, deriving its canonical identifier from
    /// the content fields. The same content always yields the same identifier.
    pub fn new(
        summary: String,
        description: Option<String>,
        location: Option<String>,
        start: i64,
        end: i64,
        url: Option<String>,
    ) -> (r: Event)
        ensures
            r@ == spec_new_event(
                summary@,
                description.deep_view(),
                location.deep_view(),
                start as int,
                end as int,
                url.deep_view(),
            ),
    {
        let start_text = dec_i64(start);
        let mut hasher = DefaultHasher::new();
        hasher.write(summary.as_str().as_bytes());
        hasher.write(start_text.as_str().as_bytes());
        match &description {
            Some(d) => hasher.write(d.as_str().as_bytes()),
            None => (),
        }
        match &location {
            Some(l) => hasher.write(l.as_str().as_bytes()),
            None => (),
        }
        let hash = hasher.finish();
        proof {
            assert(hasher@ =~= spec_uid_stream(
                summary@,
                start as int,
                description.deep_view(),
                location.deep_view(),
            ));
        }
        let mut uid = underscored(summary.as_str());
        push_char(&mut uid, '-');
        uid.append(start_text.as_str());
        push_char(&mut uid, '-');
        let hash_text = hex_u64(hash);
        uid.append(hash_text.as_str());
        proof {
            assert(uid@ =~= spec_event_uid(
                summary@,
                start as int,
                description.deep_view(),
                location.deep_view(),
            ));
        }
        Event { summary, description, location, start, end, url, event_uid: uid, api_id: None }
    }

    /// Rebuilds an event from stored fields, keeping its stored identifier
    /// and external reference.
    pub fn with_uid_and_api_id(
        summary: String,
        description: Option<String>,
        location: Option<String>,
        start: i64,
        end: i64,
        url: Option<String>,
        event_uid: String,
        api_id: Option<String>,
    ) -> (r: Event)
        ensures
            r@ == (EventData {
                summary: summary@,
                description: description.deep_view(),
                location: location.deep_view(),
                start: start as int,
                end: end as int,
                url: url.deep_view(),
                event_uid: event_uid@,
                api_id: api_id.deep_view(),
            }),
    {
        Event { summary, description, location, start, end, url, event_uid, api_id }
    }

    /// Cleans a string: removes newline, carriage-return and tab characters,
    /// removes the two-character escape pairs `\n`, `\r`, `\t`, and trims
    /// surrounding whitespace.
    pub fn clean_string(input: &str) -> (r: String)
        ensures
            r@ == spec_clean(input@),
    {
        clean_str(input)
    }

    /// The slug identifying this event on the source platform, extracted from
    /// its URL: the cleaned URL must carry the platform domain; the slug is
    /// the last path segment or, failing that, the segment after the `/e/`
    /// marker. An event with no URL, or with nothing after the final slash
    /// and no usable marker segment, has no slug.
    pub fn extract_slug(&self) -> (r: Option<String>)
        ensures
            r.deep_view() == spec_extract_slug(self@.url),
    {
        match &self.url {
            None => None,
            Some(url) => {
                let clean_url = clean_str(url.as_str());
                if contains_pat(clean_url.as_str(), "lu.ma") {
                    let last = suffix_after_last_char(clean_url.as_str(), '/');
                    if last.as_str().unicode_len() > 0 {
                        Some(clean_str(last.as_str()))
                    } else if contains_pat(clean_url.as_str(), "/e/") {
                        proof {
                            reveal_strlit("/e/");
                        }
                        let marker_segment = suffix_after_last_pat(clean_url.as_str(), "/e/");
                        if marker_segment.as_str().unicode_len() > 0 {
                            Some(clean_str(marker_segment.as_str()))
                        } else {
                            None
                        }
                    } else {
                        None
                    }
                } else {
                    None
                }
            },
        }
    }

    /// The event's length in whole minutes, truncated toward zero.
    pub fn duration_minutes(&self) -> (r: i64)
        requires
            i64::MIN <= self@.end - self@.start <= i64::MAX,
        ensures
            r as int == spec_duration_minutes(self@.start, self@.end),
    {
        if self.end >= self.start {
            (((self.end as i128 - self.start as i128) as u64) / 60) as i64
        } else {
            let diff = (self.start as i128 - self.end as i128) as u64;
            -((diff / 60) as i64)
        }
    }

    /// This event with its URL replaced.
    pub fn with_url(self, url: Option<String>) -> (r: Event)
        ensures
            r@ == (EventData { url: url.deep_view(), ..self@ }),
    {
        Event { url, ..self }
    }

    /// This event as it is handed to storage: an existing URL is cleaned, a
    /// missing one is defaulted to the canonical pattern derived from the
    /// event's identifier. Every other field is untouched.
    pub fn with_storage_url(&self) -> (r: Event)
        ensures
            r@ == spec_storage_url_event(self@),
    {
        let url = match &self.url {
            Some(u) => Some(clean_str(u.as_str())),
            None => Some(self.default_url()),
        };
        Event { url, ..self.clone() }
    }

    /// The canonical URL pattern for this event on the source platform,
    /// derived from its identifier.
    pub fn default_url(&self) -> (r: String)
        ensures
            r@ == spec_default_url(self@.event_uid),
    {
        let mut s = String::from_str("https://lu.ma/e/");
        s.append(self.event_uid.as_str());
        s
    }
}

/// The length of the span from `start` to `end` in whole minutes, truncated
/// toward zero.
pub open spec fn spec_duration_minutes(start: int, end: int) -> int {
    if end >= start {
        (end - start) / 60
    } else {
        -((start - end) / 60)
    }
}

/// The canonical URL pattern derived from an identifier.
pub open spec fn spec_default_url(uid: Seq<char>) -> Seq<char> {
    "https://lu.ma/e/"@ + uid
}

/// An event as it is handed to storage: its URL cleaned, or defaulted to the
/// canonical pattern derived from its identifier when missing.
pub open spec fn spec_storage_url_event(e: EventData) -> EventData {
    EventData {
        url: Option::Some(
            match e.url {
                Option::Some(u) => spec_clean(u),
                Option::None => spec_default_url(e.event_uid),
            },
        ),
        ..e
    }
}

/// The slug denoted by an optional URL: the URL is cleaned, must carry the
/// platform domain `lu.ma`, and yields its last path segment, or the cleaned
/// text after the final `/e/` marker when the URL ends in a slash.
pub open spec fn spec_extract_slug(url: Option<Seq<char>>) -> Option<Seq<char>> {
    match url {
        Option::None => Option::None,
        Option::Some(u0) => {
            let u = spec_clean(u0);
            if spec_contains_pat(u, "lu.ma"@) {
                let last = after_last_char(u, '/');
                if last.len() > 0 {
                    Option::Some(spec_clean(last))
                } else if spec_contains_pat(u, "/e/"@) {
                    let seg = after_last_pat(u, "/e/"@);
                    if seg.len() > 0 {
                        Option::Some(spec_clean(seg))
                    } else {
                        Option::None
                    }
                } else {
                    Option::None
                }
            } else {
                Option::None
            }
        },
    }
}

impl Clone for Event {
    /// An exact copy: the clone denotes the same event.
    fn clone(&self) -> (r: Event)
        ensures
            r == *self,
    {
        Event {
            summary: self.summary.clone(),
            description: clone_opt_string(&self.description),
            location: clone_opt_string(&self.location),
            start: self.start,
            end: self.end,
            url: clone_opt_string(&self.url),
            event_uid: self.event_uid.clone(),
            api_id: clone_opt_string(&self.api_id),
        }
    }
}

impl PartialEq for Event {
    /// Two events are equal iff summary, start and end match — a narrower
    /// notion than identity.
    fn eq(&self, other: &Event) -> (r: bool) {
        self.summary == other.summary && self.start == other.start && self.end == other.end
    }
}

impl vstd::std_specs::cmp::PartialEqSpecImpl for Event {
    open spec fn obeys_eq_spec() -> bool {
        true
    }

    open spec fn eq_spec(&self, other: &Event) -> bool {
        self@.summary == other@.summary && self@.start == other@.start && self@.end == other@.end
    }
}

impl PartialOrd for Event {
    /// Ordering between events is by start instant only.
    fn partial_cmp(&self, other: &Event) -> (r: Option<core::cmp::Ordering>) {
        if self.start < other.start {
            Some(core::cmp::Ordering::Less)
        } else if self.start == other.start {
            Some(core::cmp::Ordering::Equal)
        } else {
            Some(core::cmp::Ordering::Greater)
        }
    }
}

impl vstd::std_specs::cmp::PartialOrdSpecImpl for Event {
    open spec fn obeys_partial_cmp_spec() -> bool {
        true
    }

    open spec fn partial_cmp_spec(&self, other: &Event) -> Option<core::cmp::Ordering> {
        if self@.start < other@.start {
            Option::Some(core::cmp::Ordering::Less)
        } else if self@.start == other@.start {
            Option::Some(core::cmp::Ordering::Equal)
        } else {
            Option::Some(core::cmp::Ordering::Greater)
        }
    }
}

} // verus!
