//! The event payloads the hosted API builds from a QSO write: required
//! members checked and normalized, defaults filled in, and caller-supplied
//! extra members merged in, except those the event log reserves.
use vstd::prelude::*;
use crate::hosted_api::ApiError;
use crate::text::{str_to_string, trim_seq, upper_ascii_seq};

verus! {

/// Station and operator callsign where a new QSO names none.
pub const DEFAULT_QSO_CALLSIGN: &'static str = "KE8YGW";

/// Body of a QSO create or correct request.
#[derive(Debug)]
pub struct QsoWriteRequest {
    pub logbook_id: u128,
    pub contacted_callsign: Option<String>,
    pub station_callsign: Option<String>,
    pub operator_callsign: Option<String>,
    pub started_at: Option<String>,
    pub mode: Option<String>,
    pub band: Option<String>,
    pub frequency_hz: Option<u64>,
    pub notes: Option<String>,
    /// Extra members, each a name and its JSON value as text.
    pub fields: Vec<(String, String)>,
}

/// A payload member's value.
#[derive(Debug)]
pub enum PayloadValue {
    Text(String),
    Number(u64),
    /// A JSON value given as text, carried through unchanged.
    Json(String),
}

pub enum PayloadValueView {
    Text(Seq<char>),
    Number(u64),
    Json(Seq<char>),
}

impl View for PayloadValue {
    type V = PayloadValueView;

    open spec fn view(&self) -> PayloadValueView {
        match self {
            PayloadValue::Text(t) => PayloadValueView::Text(t@),
            PayloadValue::Number(n) => PayloadValueView::Number(*n),
            PayloadValue::Json(t) => PayloadValueView::Json(t@),
        }
    }
}

/// One member of a JSON payload object.
#[derive(Debug)]
pub struct PayloadMember {
    pub key: String,
    pub value: PayloadValue,
}

pub type PayloadSpec = Seq<(Seq<char>, PayloadValueView)>;

pub open spec fn payload_view(p: Seq<PayloadMember>) -> PayloadSpec {
    p.map_values(|m: PayloadMember| (m.key@, m.value@))
}

pub open spec fn fields_view(f: Seq<(String, String)>) -> Seq<(Seq<char>, Seq<char>)> {
    f.map_values(|x: (String, String)| (x.0@, x.1@))
}

/// Position of the first member named `key`; the length where none is.
pub open spec fn key_pos(b: PayloadSpec, key: Seq<char>) -> int
    decreases b.len(),
{
    if b.len() == 0 {
        0
    } else if b[0].0 == key {
        0
    } else {
        1 + key_pos(b.drop_first(), key)
    }
}

proof fn lemma_key_pos(b: PayloadSpec, key: Seq<char>, i: int)
    requires
        0 <= i <= b.len(),
        forall|k: int| 0 <= k < i ==> (#[trigger] b[k]).0 != key,
        i == b.len() || b[i].0 == key,
    ensures
        key_pos(b, key) == i,
    decreases i,
{
    if i > 0 {
        lemma_key_pos(b.drop_first(), key, i - 1);
    }
}

/// The object with member `key` set to `v`, as `payload[key] = v` does.
pub open spec fn put(b: PayloadSpec, key: Seq<char>, v: PayloadValueView) -> PayloadSpec {
    let p = key_pos(b, key);
    if p < b.len() {
        b.update(p, (key, v))
    } else {
        b.push((key, v))
    }
}

fn put_member(b: &mut Vec<PayloadMember>, key: String, value: PayloadValue)
    ensures
        payload_view(final(b)@) == put(payload_view(old(b)@), key@, value@),
{
    let ghost b0 = payload_view(b@);
    let mut p: usize = 0;
    while p < b.len() && !b[p].key.eq(&key)
        invariant
            p <= b@.len(),
            b0 == payload_view(b@),
            forall|k: int| 0 <= k < p ==> (#[trigger] b0[k]).0 != key@,
        decreases b@.len() - p,
    {
        p = p + 1;
    }
    proof {
        lemma_key_pos(b0, key@, p as int);
    }
    let ghost kv = (key@, value@);
    let m = PayloadMember { key, value };
    if p < b.len() {
        b.set(p, m);
        assert(payload_view(b@) =~= b0.update(p as int, kv));
    } else {
        b.push(m);
        assert(payload_view(b@) =~= b0.push(kv));
    }
}

/// A text member holding more than whitespace, as given.
pub open spec fn non_blank(o: Option<String>) -> Option<Seq<char>> {
    match o {
        Some(t) => if trim_seq(t@).len() > 0 {
            Some(t@)
        } else {
            None
        },
        None => None,
    }
}

fn non_blank_text(o: &Option<String>) -> (r: Option<String>)
    ensures
        crate::events::opt_view(r) == non_blank(*o),
{
    match o {
        Some(t) => {
            let trimmed = crate::text::trim_str(t.as_str());
            if trimmed.unicode_len() > 0 {
                Some(t.clone())
            } else {
                None
            }
        },
        None => None,
    }
}

/// Trimmed and upper-cased, as callsigns and modes are stored.
pub open spec fn shouted(t: Seq<char>) -> Seq<char> {
    upper_ascii_seq(trim_seq(t))
}

fn shout(t: &String) -> (r: String)
    ensures
        r@ == shouted(t@),
{
    let trimmed = crate::text::trim_str(t.as_str());
    crate::text::upper_ascii_str(trimmed.as_str())
}

/// The payload with the optional band, frequency and notes members.
pub open spec fn with_optional_fields(b: PayloadSpec, input: QsoWriteRequest) -> PayloadSpec {
    let b1 = match non_blank(input.band) {
        Some(v) => put(b, "band"@, PayloadValueView::Text(v)),
        None => b,
    };
    let b2 = match input.frequency_hz {
        Some(f) => put(b1, "frequency_hz"@, PayloadValueView::Number(f)),
        None => b1,
    };
    match non_blank(input.notes) {
        Some(v) => put(b2, "notes"@, PayloadValueView::Text(v)),
        None => b2,
    }
}

/// Members the event log sets itself; a caller cannot supply them.
pub open spec fn reserved_key(k: Seq<char>) -> bool {
    k == "qso_id"@ || k == "event_hash"@ || k == "previous_hash"@ || k == "source_device_id"@
}

/// The payload with the caller's extra members, in order, reserved ones skipped.
pub open spec fn with_extra_fields(b: PayloadSpec, fields: Seq<(Seq<char>, Seq<char>)>) -> PayloadSpec
    decreases fields.len(),
{
    if fields.len() == 0 {
        b
    } else {
        let prev = with_extra_fields(b, fields.drop_last());
        let f = fields.last();
        if reserved_key(f.0) {
            prev
        } else {
            put(prev, f.0, PayloadValueView::Json(f.1))
        }
    }
}

fn merge_optional_qso_fields(b: &mut Vec<PayloadMember>, input: &QsoWriteRequest)
    ensures
        payload_view(final(b)@) == with_optional_fields(payload_view(old(b)@), *input),
{
    if let Some(v) = non_blank_text(&input.band) {
        put_member(b, str_to_string("band"), PayloadValue::Text(v));
    }
    if let Some(f) = input.frequency_hz {
        put_member(b, str_to_string("frequency_hz"), PayloadValue::Number(f));
    }
    if let Some(v) = non_blank_text(&input.notes) {
        put_member(b, str_to_string("notes"), PayloadValue::Text(v));
    }
}

fn merge_extra_fields(b: &mut Vec<PayloadMember>, fields: &Vec<(String, String)>)
    ensures
        payload_view(final(b)@) == with_extra_fields(payload_view(old(b)@), fields_view(fields@)),
{
    let ghost start = payload_view(b@);
    let mut i: usize = 0;
    while i < fields.len()
        invariant
            i <= fields@.len(),
            payload_view(b@) == with_extra_fields(start, fields_view(fields@).subrange(0, i as int)),
        decreases fields@.len() - i,
    {
        assert(fields_view(fields@).subrange(0, i + 1).drop_last() =~= fields_view(fields@).subrange(0, i as int));
        let key = &fields[i].0;
        proof {
            reveal_strlit("qso_id");
            reveal_strlit("event_hash");
            reveal_strlit("previous_hash");
            reveal_strlit("source_device_id");
        }
        let reserved = crate::text::str_eq(key.as_str(), "qso_id") || crate::text::str_eq(key.as_str(), "event_hash")
            || crate::text::str_eq(key.as_str(), "previous_hash") || crate::text::str_eq(
            key.as_str(),
            "source_device_id",
        );
        if !reserved {
            put_member(b, key.clone(), PayloadValue::Json(fields[i].1.clone()));
        }
        i = i + 1;
    }
    assert(fields_view(fields@).subrange(0, fields@.len() as int) =~= fields_view(fields@));
}

/// The payload of a QSO create, with `now_text` as the start time where the
/// request gives none; `Err` holds the message of the bad request.
pub open spec fn create_payload(input: QsoWriteRequest, now_text: Seq<char>) -> Result<PayloadSpec, Seq<char>> {
    match non_blank(input.contacted_callsign) {
        None => Err("contacted_callsign is required"@),
        Some(contacted) => match non_blank(input.mode) {
            None => Err("mode is required"@),
            Some(mode) => {
                let base = seq![
                    ("station_callsign"@, PayloadValueView::Text(match crate::events::opt_view(input.station_callsign) {
                        Some(t) => t,
                        None => DEFAULT_QSO_CALLSIGN@,
                    })),
                    ("operator_callsign"@, PayloadValueView::Text(match crate::events::opt_view(input.operator_callsign) {
                        Some(t) => t,
                        None => DEFAULT_QSO_CALLSIGN@,
                    })),
                    ("contacted_callsign"@, PayloadValueView::Text(shouted(contacted))),
                    ("started_at"@, PayloadValueView::Text(match crate::events::opt_view(input.started_at) {
                        Some(t) => t,
                        None => now_text,
                    })),
                    ("mode"@, PayloadValueView::Text(shouted(mode))),
                    ("source"@, PayloadValueView::Text("hosted-api"@)),
                ];
                Ok(with_extra_fields(with_optional_fields(base, input), fields_view(input.fields@)))
            },
        },
    }
}

/// Builds the payload of a QSO create; `now_text` stands for the start
/// time where the request gives none.
pub fn qso_create_payload_at(input: &QsoWriteRequest, now_text: &str) -> (r: Result<Vec<PayloadMember>, ApiError>)
    ensures
        match create_payload(*input, now_text@) {
            Ok(p) => r matches Ok(b) && payload_view(b@) == p,
            Err(m) => r matches Err(ApiError::BadRequest(e)) && e@ == m,
        },
{
    let contacted = match non_blank_text(&input.contacted_callsign) {
        Some(c) => c,
        None => {
            return Err(ApiError::BadRequest(str_to_string("contacted_callsign is required")));
        },
    };
    let mode = match non_blank_text(&input.mode) {
        Some(m) => m,
        None => {
            return Err(ApiError::BadRequest(str_to_string("mode is required")));
        },
    };
    let station = match &input.station_callsign {
        Some(t) => t.clone(),
        None => str_to_string(DEFAULT_QSO_CALLSIGN),
    };
    let operator = match &input.operator_callsign {
        Some(t) => t.clone(),
        None => str_to_string(DEFAULT_QSO_CALLSIGN),
    };
    let started_at = match &input.started_at {
        Some(t) => t.clone(),
        None => str_to_string(now_text),
    };
    let mut b: Vec<PayloadMember> = Vec::new();
    b.push(PayloadMember { key: str_to_string("station_callsign"), value: PayloadValue::Text(station) });
    b.push(PayloadMember { key: str_to_string("operator_callsign"), value: PayloadValue::Text(operator) });
    b.push(PayloadMember { key: str_to_string("contacted_callsign"), value: PayloadValue::Text(shout(&contacted)) });
    b.push(PayloadMember { key: str_to_string("started_at"), value: PayloadValue::Text(started_at) });
    b.push(PayloadMember { key: str_to_string("mode"), value: PayloadValue::Text(shout(&mode)) });
    b.push(PayloadMember { key: str_to_string("source"), value: PayloadValue::Text(str_to_string("hosted-api")) });
    let ghost base = payload_view(b@);
    assert(base =~= seq![
        ("station_callsign"@, PayloadValueView::Text(match crate::events::opt_view(input.station_callsign) {
            Some(t) => t,
            None => DEFAULT_QSO_CALLSIGN@,
        })),
        ("operator_callsign"@, PayloadValueView::Text(match crate::events::opt_view(input.operator_callsign) {
            Some(t) => t,
            None => DEFAULT_QSO_CALLSIGN@,
        })),
        ("contacted_callsign"@, PayloadValueView::Text(shouted(contacted@))),
        ("started_at"@, PayloadValueView::Text(match crate::events::opt_view(input.started_at) {
            Some(t) => t,
            None => now_text@,
        })),
        ("mode"@, PayloadValueView::Text(shouted(mode@))),
        ("source"@, PayloadValueView::Text("hosted-api"@)),
    ]);
    merge_optional_qso_fields(&mut b, input);
    merge_extra_fields(&mut b, &input.fields);
    Ok(b)
}

/// Builds the payload of a QSO create, stamped now where the request gives
/// no start time.
pub fn qso_create_payload(input: &QsoWriteRequest) -> (r: Result<Vec<PayloadMember>, ApiError>)
    ensures
        non_blank(input.contacted_callsign) is None ==> (r matches Err(ApiError::BadRequest(e)) && e@
            == "contacted_callsign is required"@),
        non_blank(input.contacted_callsign) is Some && non_blank(input.mode) is None ==> (r matches Err(
            ApiError::BadRequest(e),
        ) && e@ == "mode is required"@),
        non_blank(input.contacted_callsign) is Some && non_blank(input.mode) is Some ==> (r matches Ok(b)
            && exists|now_text: Seq<char>| create_payload(*input, now_text) == Ok::<PayloadSpec, Seq<char>>(payload_view(b@))),
{
    let now_text = crate::ids::now_rfc3339();
    qso_create_payload_at(input, now_text.as_str())
}

/// The payload of a QSO correction: only the members the request gives.
pub open spec fn patch_payload(input: QsoWriteRequest) -> Result<PayloadSpec, Seq<char>> {
    let b0 = Seq::<(Seq<char>, PayloadValueView)>::empty();
    let b1 = match non_blank(input.contacted_callsign) {
        Some(v) => put(b0, "contacted_callsign"@, PayloadValueView::Text(shouted(v))),
        None => b0,
    };
    let b2 = match non_blank(input.station_callsign) {
        Some(v) => put(b1, "station_callsign"@, PayloadValueView::Text(v)),
        None => b1,
    };
    let b3 = match non_blank(input.operator_callsign) {
        Some(v) => put(b2, "operator_callsign"@, PayloadValueView::Text(v)),
        None => b2,
    };
    let b4 = match non_blank(input.started_at) {
        Some(v) => put(b3, "started_at"@, PayloadValueView::Text(v)),
        None => b3,
    };
    let b5 = match non_blank(input.mode) {
        Some(v) => put(b4, "mode"@, PayloadValueView::Text(shouted(v))),
        None => b4,
    };
    let b = with_extra_fields(with_optional_fields(b5, input), fields_view(input.fields@));
    if b.len() == 0 {
        Err("qso patch payload must not be empty"@)
    } else {
        Ok(b)
    }
}

/// Builds the payload of a QSO correction; a correction that changes
/// nothing is refused.
pub fn qso_patch_payload(input: &QsoWriteRequest) -> (r: Result<Vec<PayloadMember>, ApiError>)
    ensures
        match patch_payload(*input) {
            Ok(p) => r matches Ok(b) && payload_view(b@) == p,
            Err(m) => r matches Err(ApiError::BadRequest(e)) && e@ == m,
        },
{
    let mut b: Vec<PayloadMember> = Vec::new();
    assert(payload_view(b@) =~= Seq::<(Seq<char>, PayloadValueView)>::empty());
    if let Some(v) = non_blank_text(&input.contacted_callsign) {
        put_member(&mut b, str_to_string("contacted_callsign"), PayloadValue::Text(shout(&v)));
    }
    if let Some(v) = non_blank_text(&input.station_callsign) {
        put_member(&mut b, str_to_string("station_callsign"), PayloadValue::Text(v));
    }
    if let Some(v) = non_blank_text(&input.operator_callsign) {
        put_member(&mut b, str_to_string("operator_callsign"), PayloadValue::Text(v));
    }
    if let Some(v) = non_blank_text(&input.started_at) {
        put_member(&mut b, str_to_string("started_at"), PayloadValue::Text(v));
    }
    if let Some(v) = non_blank_text(&input.mode) {
        put_member(&mut b, str_to_string("mode"), PayloadValue::Text(shout(&v)));
    }
    merge_optional_qso_fields(&mut b, input);
    merge_extra_fields(&mut b, &input.fields);
    if b.len() == 0 {
        return Err(ApiError::BadRequest(str_to_string("qso patch payload must not be empty")));
    }
    Ok(b)
}


/// No member of the payload is one the event log reserves.
pub open spec fn free_of_reserved(b: PayloadSpec) -> bool {
    forall|i: int| 0 <= i < b.len() ==> !reserved_key(#[trigger] b[i].0)
}

proof fn lemma_key_pos_nonneg(b: PayloadSpec, key: Seq<char>)
    ensures
        0 <= key_pos(b, key),
    decreases b.len(),
{
    if b.len() > 0 && b[0].0 != key {
        lemma_key_pos_nonneg(b.drop_first(), key);
    }
}

proof fn lemma_put_keeps_free(b: PayloadSpec, key: Seq<char>, v: PayloadValueView)
    requires
        free_of_reserved(b),
        !reserved_key(key),
    ensures
        free_of_reserved(put(b, key, v)),
{
    lemma_key_pos_nonneg(b, key);
    let p = key_pos(b, key);
    let r = put(b, key, v);
    assert forall|i: int| 0 <= i < r.len() implies !reserved_key(#[trigger] r[i].0) by {
        if p < b.len() {
            if i != p {
                assert(r[i] == b[i]);
            }
        } else if i < b.len() {
            assert(r[i] == b[i]);
        }
    }
}

proof fn lemma_extra_fields_keep_free(b: PayloadSpec, fields: Seq<(Seq<char>, Seq<char>)>)
    requires
        free_of_reserved(b),
    ensures
        free_of_reserved(with_extra_fields(b, fields)),
    decreases fields.len(),
{
    if fields.len() > 0 {
        lemma_extra_fields_keep_free(b, fields.drop_last());
        let f = fields.last();
        if !reserved_key(f.0) {
            lemma_put_keeps_free(with_extra_fields(b, fields.drop_last()), f.0, PayloadValueView::Json(f.1));
        }
    }
}

proof fn lemma_plain_keys_not_reserved()
    ensures
        !reserved_key("band"@),
        !reserved_key("frequency_hz"@),
        !reserved_key("notes"@),
        !reserved_key("station_callsign"@),
        !reserved_key("operator_callsign"@),
        !reserved_key("contacted_callsign"@),
        !reserved_key("started_at"@),
        !reserved_key("mode"@),
        !reserved_key("source"@),
{
    reveal_strlit("qso_id");
    reveal_strlit("event_hash");
    reveal_strlit("previous_hash");
    reveal_strlit("source_device_id");
    reveal_strlit("band");
    reveal_strlit("frequency_hz");
    reveal_strlit("notes");
    reveal_strlit("station_callsign");
    reveal_strlit("operator_callsign");
    reveal_strlit("contacted_callsign");
    reveal_strlit("started_at");
    reveal_strlit("mode");
    reveal_strlit("source");
    assert("qso_id"@.len() == 6);
    assert("event_hash"@.len() == 10);
    assert("previous_hash"@.len() == 13);
    assert("source_device_id"@.len() == 16);
    assert("band"@.len() == 4);
    assert("frequency_hz"@.len() == 12);
    assert("notes"@.len() == 5);
    assert("station_callsign"@.len() == 16);
    assert("operator_callsign"@.len() == 17);
    assert("contacted_callsign"@.len() == 18);
    assert("started_at"@.len() == 10);
    assert("mode"@.len() == 4);
    assert("source"@.len() == 6);
    assert("station_callsign"@[1] != "source_device_id"@[1]);
    assert("started_at"@[0] != "event_hash"@[0]);
    assert("source"@[0] != "qso_id"@[0]);
}

proof fn lemma_optional_fields_keep_free(b: PayloadSpec, input: QsoWriteRequest)
    requires
        free_of_reserved(b),
    ensures
        free_of_reserved(with_optional_fields(b, input)),
{
    lemma_plain_keys_not_reserved();
    let b1 = match non_blank(input.band) {
        Some(v) => put(b, "band"@, PayloadValueView::Text(v)),
        None => b,
    };
    if let Some(v) = non_blank(input.band) {
        lemma_put_keeps_free(b, "band"@, PayloadValueView::Text(v));
    }
    let b2 = match input.frequency_hz {
        Some(f) => put(b1, "frequency_hz"@, PayloadValueView::Number(f)),
        None => b1,
    };
    if let Some(f) = input.frequency_hz {
        lemma_put_keeps_free(b1, "frequency_hz"@, PayloadValueView::Number(f));
    }
    if let Some(v) = non_blank(input.notes) {
        lemma_put_keeps_free(b2, "notes"@, PayloadValueView::Text(v));
    }
}

/// A QSO payload never carries a member the event log sets itself
/// (`qso_id`, `event_hash`, `previous_hash`, `source_device_id`), whatever
/// extra members the caller supplies.
pub proof fn law_payload_never_carries_reserved_members(input: QsoWriteRequest, now_text: Seq<char>)
    ensures
        create_payload(input, now_text) matches Ok(p) ==> free_of_reserved(p),
        patch_payload(input) matches Ok(p) ==> free_of_reserved(p),
{
    lemma_plain_keys_not_reserved();
    if let (Some(contacted), Some(mode)) = (non_blank(input.contacted_callsign), non_blank(input.mode)) {
        let base = seq![
            ("station_callsign"@, PayloadValueView::Text(match crate::events::opt_view(input.station_callsign) {
                Some(t) => t,
                None => DEFAULT_QSO_CALLSIGN@,
            })),
            ("operator_callsign"@, PayloadValueView::Text(match crate::events::opt_view(input.operator_callsign) {
                Some(t) => t,
                None => DEFAULT_QSO_CALLSIGN@,
            })),
            ("contacted_callsign"@, PayloadValueView::Text(shouted(contacted))),
            ("started_at"@, PayloadValueView::Text(match crate::events::opt_view(input.started_at) {
                Some(t) => t,
                None => now_text,
            })),
            ("mode"@, PayloadValueView::Text(shouted(mode))),
            ("source"@, PayloadValueView::Text("hosted-api"@)),
        ];
        assert(free_of_reserved(base));
        lemma_optional_fields_keep_free(base, input);
        lemma_extra_fields_keep_free(with_optional_fields(base, input), fields_view(input.fields@));
    }
    let b0 = Seq::<(Seq<char>, PayloadValueView)>::empty();
    let b1 = match non_blank(input.contacted_callsign) {
        Some(v) => put(b0, "contacted_callsign"@, PayloadValueView::Text(shouted(v))),
        None => b0,
    };
    if let Some(v) = non_blank(input.contacted_callsign) {
        lemma_put_keeps_free(b0, "contacted_callsign"@, PayloadValueView::Text(shouted(v)));
    }
    let b2 = match non_blank(input.station_callsign) {
        Some(v) => put(b1, "station_callsign"@, PayloadValueView::Text(v)),
        None => b1,
    };
    if let Some(v) = non_blank(input.station_callsign) {
        lemma_put_keeps_free(b1, "station_callsign"@, PayloadValueView::Text(v));
    }
    let b3 = match non_blank(input.operator_callsign) {
        Some(v) => put(b2, "operator_callsign"@, PayloadValueView::Text(v)),
        None => b2,
    };
    if let Some(v) = non_blank(input.operator_callsign) {
        lemma_put_keeps_free(b2, "operator_callsign"@, PayloadValueView::Text(v));
    }
    let b4 = match non_blank(input.started_at) {
        Some(v) => put(b3, "started_at"@, PayloadValueView::Text(v)),
        None => b3,
    };
    if let Some(v) = non_blank(input.started_at) {
        lemma_put_keeps_free(b3, "started_at"@, PayloadValueView::Text(v));
    }
    let b5 = match non_blank(input.mode) {
        Some(v) => put(b4, "mode"@, PayloadValueView::Text(shouted(v))),
        None => b4,
    };
    if let Some(v) = non_blank(input.mode) {
        lemma_put_keeps_free(b4, "mode"@, PayloadValueView::Text(shouted(v)));
    }
    lemma_optional_fields_keep_free(b5, input);
    lemma_extra_fields_keep_free(with_optional_fields(b5, input), fields_view(input.fields@));
}

} // verus!
