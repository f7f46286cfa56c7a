//! Official logbook events as the sync logic sees them.
use vstd::prelude::*;
use crate::text::{chars_eq, chars_of};

verus! {

pub open spec fn opt_view(o: Option<String>) -> Option<Seq<char>> {
    match o {
        Some(s) => Some(s@),
        None => None,
    }
}

/// A copy of an optional string.
pub fn copy_opt(o: &Option<String>) -> (r: Option<String>)
    ensures
        opt_view(r) == opt_view(*o),
{
    match o {
        Some(s) => Some(s.clone()),
        None => None,
    }
}

/// Whether two optional strings hold the same text.
pub fn opt_eq(a: &Option<String>, b: &Option<String>) -> (r: bool)
    ensures
        r == (opt_view(*a) == opt_view(*b)),
{
    match (a, b) {
        (Some(x), Some(y)) => x.eq(y),
        (None, None) => true,
        _ => false,
    }
}

/// One entry of a logbook's append-only, hash-chained official log.
///
/// `payload` is the JSON text of the event payload; the sync logic carries it
/// without reading it.
#[derive(Debug)]
pub struct EventEnvelope {
    pub event_id: u128,
    pub event_type: String,
    pub logbook_id: u128,
    pub entity_id: Option<u128>,
    pub previous_hash: Option<String>,
    pub event_hash: String,
    pub timestamp: i64,
    pub author_operator_id: Option<u128>,
    pub station_callsign: String,
    pub operator_callsign: Option<String>,
    pub author_device_id: u128,
    pub source_device_id: u128,
    pub correlation_id: u128,
    pub source_plugin_id: Option<String>,
    pub schema_version: u32,
    pub payload: String,
}

pub struct EventView {
    pub event_id: u128,
    pub event_type: Seq<char>,
    pub logbook_id: u128,
    pub entity_id: Option<u128>,
    pub previous_hash: Option<Seq<char>>,
    pub event_hash: Seq<char>,
    pub timestamp: i64,
    pub author_operator_id: Option<u128>,
    pub station_callsign: Seq<char>,
    pub operator_callsign: Option<Seq<char>>,
    pub author_device_id: u128,
    pub source_device_id: u128,
    pub correlation_id: u128,
    pub source_plugin_id: Option<Seq<char>>,
    pub schema_version: u32,
    pub payload: Seq<char>,
}

impl View for EventEnvelope {
    type V = EventView;

    open spec fn view(&self) -> EventView {
        EventView {
            event_id: self.event_id,
            event_type: self.event_type@,
            logbook_id: self.logbook_id,
            entity_id: self.entity_id,
            previous_hash: opt_view(self.previous_hash),
            event_hash: self.event_hash@,
            timestamp: self.timestamp,
            author_operator_id: self.author_operator_id,
            station_callsign: self.station_callsign@,
            operator_callsign: opt_view(self.operator_callsign),
            author_device_id: self.author_device_id,
            source_device_id: self.source_device_id,
            correlation_id: self.correlation_id,
            source_plugin_id: opt_view(self.source_plugin_id),
            schema_version: self.schema_version,
            payload: self.payload@,
        }
    }
}

pub open spec fn event_views(v: Seq<EventEnvelope>) -> Seq<EventView> {
    v.map_values(|e: EventEnvelope| e@)
}

impl EventEnvelope {
    pub fn copy(&self) -> (r: Self)
        ensures
            r@ == self@,
    {
        EventEnvelope {
            event_id: self.event_id,
            event_type: self.event_type.clone(),
            logbook_id: self.logbook_id,
            entity_id: self.entity_id,
            previous_hash: copy_opt(&self.previous_hash),
            event_hash: self.event_hash.clone(),
            timestamp: self.timestamp,
            author_operator_id: self.author_operator_id,
            station_callsign: self.station_callsign.clone(),
            operator_callsign: copy_opt(&self.operator_callsign),
            author_device_id: self.author_device_id,
            source_device_id: self.source_device_id,
            correlation_id: self.correlation_id,
            source_plugin_id: copy_opt(&self.source_plugin_id),
            schema_version: self.schema_version,
            payload: self.payload.clone(),
        }
    }

    /// Whether two events are identical in every field.
    pub fn same_as(&self, other: &EventEnvelope) -> (r: bool)
        ensures
            r == (self@ == other@),
    {
        self.event_id == other.event_id && self.event_type.eq(&other.event_type)
            && self.logbook_id == other.logbook_id && self.entity_id == other.entity_id && opt_eq(
            &self.previous_hash,
            &other.previous_hash,
        ) && self.event_hash.eq(&other.event_hash) && self.timestamp == other.timestamp
            && self.author_operator_id == other.author_operator_id
            && self.station_callsign.eq(&other.station_callsign) && opt_eq(
            &self.operator_callsign,
            &other.operator_callsign,
        ) && self.author_device_id == other.author_device_id && self.source_device_id
            == other.source_device_id && self.correlation_id == other.correlation_id && opt_eq(
            &self.source_plugin_id,
            &other.source_plugin_id,
        ) && self.schema_version == other.schema_version && self.payload.eq(&other.payload)
    }
}

/// A copy of a list of events.
pub fn copy_events(v: &Vec<EventEnvelope>) -> (r: Vec<EventEnvelope>)
    ensures
        event_views(r@) == event_views(v@),
{
    let mut r: Vec<EventEnvelope> = Vec::new();
    let mut i: usize = 0;
    while i < v.len()
        invariant
            i <= v@.len(),
            r@.len() == i,
            event_views(r@) == event_views(v@).subrange(0, i as int),
        decreases v@.len() - i,
    {
        let e = v[i].copy();
        let ghost before = r@;
        r.push(e);
        proof {
            assert(r@[i as int]@ == v@[i as int]@);
            assert forall|k: int| 0 <= k < i implies r@[k]@ == v@[k]@ by {
                assert(r@[k] == before[k]);
                assert(event_views(before)[k] == event_views(v@).subrange(0, i as int)[k]);
            }
        }
        i = i + 1;
        assert(event_views(r@) =~= event_views(v@).subrange(0, i as int));
    }
    assert(event_views(v@).subrange(0, v@.len() as int) =~= event_views(v@));
    r
}

/// The identity and chain position of an event, without its payload.
#[derive(Debug)]
pub struct EventMetadata {
    pub event_id: u128,
    pub logbook_id: u128,
    pub entity_id: Option<u128>,
    pub previous_hash: Option<String>,
    pub event_hash: String,
    pub timestamp: i64,
    pub event_type: String,
    pub schema_version: u32,
}

pub struct MetadataView {
    pub event_id: u128,
    pub logbook_id: u128,
    pub entity_id: Option<u128>,
    pub previous_hash: Option<Seq<char>>,
    pub event_hash: Seq<char>,
    pub timestamp: i64,
    pub event_type: Seq<char>,
    pub schema_version: u32,
}

impl View for EventMetadata {
    type V = MetadataView;

    open spec fn view(&self) -> MetadataView {
        MetadataView {
            event_id: self.event_id,
            logbook_id: self.logbook_id,
            entity_id: self.entity_id,
            previous_hash: opt_view(self.previous_hash),
            event_hash: self.event_hash@,
            timestamp: self.timestamp,
            event_type: self.event_type@,
            schema_version: self.schema_version,
        }
    }
}

pub open spec fn metadata_of(e: EventView) -> MetadataView {
    MetadataView {
        event_id: e.event_id,
        logbook_id: e.logbook_id,
        entity_id: e.entity_id,
        previous_hash: e.previous_hash,
        event_hash: e.event_hash,
        timestamp: e.timestamp,
        event_type: e.event_type,
        schema_version: e.schema_version,
    }
}

pub open spec fn metadata_views(v: Seq<EventMetadata>) -> Seq<MetadataView> {
    v.map_values(|m: EventMetadata| m@)
}

/// The metadata of an event.
pub fn metadata_for_event(event: &EventEnvelope) -> (r: EventMetadata)
    ensures
        r@ == metadata_of(event@),
{
    EventMetadata {
        event_id: event.event_id,
        logbook_id: event.logbook_id,
        entity_id: event.entity_id,
        previous_hash: copy_opt(&event.previous_hash),
        event_hash: event.event_hash.clone(),
        timestamp: event.timestamp,
        event_type: event.event_type.clone(),
        schema_version: event.schema_version,
    }
}

} // verus!
