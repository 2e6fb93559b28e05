//! The event data model: what a classified frame carries, and the closed
//! taxonomy of named event kinds with a catch-all.

use vstd::prelude::*;

verus! {

use crate::headers::HeaderMap;
use crate::strutil::str_eq;

/// The fields that an event parsed from a JSON body holds, as named by
/// `json_flat_fields`: every key of the object, each with its value when
/// that value was a JSON string and with nothing when it was any other kind
/// of JSON value.
pub uninterp spec fn json_flat_fields(s: Seq<char>) -> Option<Seq<(Seq<char>, Option<Seq<char>>)>>;

/// Relies on serde_json::from_str::<Value>: whether `s` parses as a JSON
/// object, and which fields that object holds, depend on `s` alone.  Yields
/// the object's fields in their stored order, a string value kept, any other
/// value blanked; `None` when `s` is not a JSON object.
#[verifier::external_body]
fn parse_json_fields(s: &str) -> (r: Option<Vec<(String, Option<String>)>>)
    ensures
        r.deep_view() == json_flat_fields(s@),
{
    match serde_json::from_str::<serde_json::Value>(s) {
        Ok(serde_json::Value::Object(map)) => Some(
            map.into_iter().map(
                |kv: (String, serde_json::Value)|
                    match kv.1 {
                        serde_json::Value::String(t) => (kv.0, Some(t)),
                        _ => (kv.0, None),
                    },
            ).collect(),
        ),
        _ => None,
    }
}

/// The mapping that a field list denotes: each string-valued field binds its
/// key, later fields winning on a repeated key; other fields bind nothing.
pub open spec fn spec_body_map(fields: Seq<(Seq<char>, Option<Seq<char>>)>) -> Map<
    Seq<char>,
    Seq<char>,
>
    decreases fields.len(),
{
    if fields.len() == 0 {
        Map::empty()
    } else {
        let m = spec_body_map(fields.drop_last());
        if fields.last().1 is Some {
            m.insert(fields.last().0, fields.last().1->Some_0)
        } else {
            m
        }
    }
}

/// What an event carries, at the specification level.
pub struct SpecEventData {
    pub headers: Map<Seq<char>, Seq<char>>,
    pub raw_body: Option<Seq<char>>,
    pub body: Option<Map<Seq<char>, Seq<char>>>,
}

/// What one classified frame carries: the protocol-level headers, the raw
/// body text when it was not a flat JSON object, and the parsed key/value
/// body when it was.
#[derive(Clone, Debug)]
pub struct EventData {
    pub headers: HeaderMap,
    pub raw_body: Option<String>,
    pub body: Option<HeaderMap>,
}

impl View for EventData {
    type V = SpecEventData;

    open spec fn view(&self) -> SpecEventData {
        SpecEventData {
            headers: self.headers@,
            raw_body: match self.raw_body {
                Some(t) => Some(t@),
                None => None,
            },
            body: match self.body {
                Some(b) => Some(b@),
                None => None,
            },
        }
    }
}

/// The event that a frame with headers `headers` and raw body `raw`
/// denotes: the body is parsed as a flat JSON object when possible, and the
/// raw text is retained exactly when it is not.
pub open spec fn spec_event_data(headers: Map<Seq<char>, Seq<char>>, raw: Option<Seq<char>>) -> SpecEventData {
    match raw {
        None => SpecEventData { headers, raw_body: None, body: None },
        Some(text) => match json_flat_fields(text) {
            None => SpecEventData { headers, raw_body: Some(text), body: None },
            Some(fields) => SpecEventData {
                headers,
                raw_body: None,
                body: Some(spec_body_map(fields)),
            },
        },
    }
}

impl EventData {
    /// Builds the event carried by a frame: when the body is a flat JSON
    /// object its string-valued fields become the parsed body mapping and
    /// the raw text is dropped; otherwise the raw text is retained.
    pub fn new(headers: HeaderMap, raw_body: Option<String>) -> (r: EventData)
        ensures
            r@ == spec_event_data(
                headers@,
                match raw_body {
                    Some(t) => Some(t@),
                    None => None,
                },
            ),
    {
        let raw = match raw_body {
            None => {
                return EventData { headers, raw_body: None, body: None };
            },
            Some(raw) => raw,
        };
        let fields = match parse_json_fields(raw.as_str()) {
            None => {
                return EventData { headers, raw_body: Some(raw), body: None };
            },
            Some(fields) => fields,
        };
        let mut map = HeaderMap::new();
        let n = fields.len();
        let mut i: usize = 0;
        proof {
            assert(fields.deep_view().take(0) =~= Seq::<(Seq<char>, Option<Seq<char>>)>::empty());
            assert(fields.deep_view().len() == fields@.len());
        }
        while i < n
            invariant
                i <= n == fields@.len(),
                fields.deep_view().len() == n,
                map@ == spec_body_map(fields.deep_view().take(i as int)),
            decreases n - i,
        {
            proof {
                assert(fields.deep_view()[i as int] == fields@[i as int].deep_view());
                assert(fields.deep_view().take(i + 1).drop_last() =~= fields.deep_view().take(
                    i as int,
                ));
                assert(fields.deep_view().take(i + 1).last() == fields.deep_view()[i as int]);
            }
            let pair = &fields[i];
            match &pair.1 {
                Some(v) => {
                    map.insert(pair.0.clone(), v.clone());
                },
                None => {},
            }
            i = i + 1;
        }
        proof {
            assert(fields.deep_view().take(n as int) =~= fields.deep_view());
        }
        EventData { headers, raw_body: None, body: Some(map) }
    }

    /// The value of the protocol-level header `key`, if present.
    pub fn get_header(&self, key: &str) -> (r: Option<String>)
        ensures
            match r {
                Some(v) => self@.headers.contains_key(key@) && v@ == self@.headers[key@],
                None => !self@.headers.contains_key(key@),
            },
    {
        match self.headers.get(key) {
            Some(v) => Some(v.clone()),
            None => None,
        }
    }

    /// The job correlation identifier of the event, if it carries one.
    pub fn get_job_uuid(&self) -> (r: Option<String>)
        ensures
            match r {
                Some(v) => self@.headers.contains_key("Job-UUID"@) && v@ == self@.headers[
                    "Job-UUID"@
                ],
                None => !self@.headers.contains_key("Job-UUID"@),
            },
    {
        self.get_header("Job-UUID")
    }

    /// The parsed key/value body, when the body was a flat JSON object.
    pub fn get_body(&self) -> (r: Option<&HeaderMap>)
        ensures
            match r {
                Some(m) => self@.body == Some(m@),
                None => self@.body is None,
            },
    {
        self.body.as_ref()
    }

    /// The value of the body field `key`, if the parsed body has it.
    pub fn get_body_by_key(&self, key: &str) -> (r: Option<String>)
        ensures
            match r {
                Some(v) => self@.body is Some && self@.body->Some_0.contains_key(key@) && v@
                    == self@.body->Some_0[key@],
                None => self@.body is None || !self@.body->Some_0.contains_key(key@),
            },
    {
        match self.get_body() {
            Some(m) => match m.get(key) {
                Some(v) => Some(v.clone()),
                None => None,
            },
            None => None,
        }
    }

    /// The name under which the event is classified, if the body names one.
    pub fn get_event_name(&self) -> (r: Option<String>)
        ensures
            match r {
                Some(v) => spec_event_name(self@) == Some(v@),
                None => spec_event_name(self@) is None,
            },
    {
        self.get_body_by_key("Event-Name")
    }

    /// The call identifier of the channel the event concerns, if any.
    pub fn get_channel_call_uuid(&self) -> (r: Option<String>)
        ensures
            match r {
                Some(v) => self@.body is Some && self@.body->Some_0.contains_key(
                    "Channel-Call-UUID"@,
                ) && v@ == self@.body->Some_0["Channel-Call-UUID"@],
                None => self@.body is None || !self@.body->Some_0.contains_key(
                    "Channel-Call-UUID"@,
                ),
            },
    {
        self.get_body_by_key("Channel-Call-UUID")
    }

    /// The channel variable `key`: the body field named `variable_<key>`.
    pub fn get_var(&self, key: &str) -> (r: Option<String>)
        ensures
            match r {
                Some(v) => self@.body is Some && self@.body->Some_0.contains_key(
                    "variable_"@ + key@,
                ) && v@ == self@.body->Some_0["variable_"@ + key@],
                None => self@.body is None || !self@.body->Some_0.contains_key(
                    "variable_"@ + key@,
                ),
            },
    {
        let full = String::from_str("variable_").concat(key);
        self.get_body_by_key(full.as_str())
    }
}

/// The `Event-Name` field of an event's parsed body, if it has one.
pub open spec fn spec_event_name(d: SpecEventData) -> Option<Seq<char>> {
    match d.body {
        None => None,
        Some(b) => if b.contains_key("Event-Name"@) {
            Some(b["Event-Name"@])
        } else {
            None
        },
    }
}


/// The closed taxonomy of event kinds, keyed by the body's `Event-Name`
/// field.  A name outside the taxonomy classifies as `Unknown`, which
/// carries the same data: the taxonomy loses nothing.
#[derive(Clone, Debug)]
pub enum Event {
    Api(EventData),
    Heartbeat(EventData),
    RecvRtcpMessage(EventData),
    ChannelCreate(EventData),
    ChannelOriginate(EventData),
    ChannelState(EventData),
    ChannelProgress(EventData),
    ChannelCallState(EventData),
    CallUpdate(EventData),
    ChannelExecute(EventData),
    ChannelPark(EventData),
    ChannelUnpark(EventData),
    PrivateCommand(EventData),
    PresenceIn(EventData),
    ChannelExecuteComplete(EventData),
    ChannelHangup(EventData),
    ChannelHangupComplete(EventData),
    ChannelOutgoing(EventData),
    ChannelAnswer(EventData),
    ChannelDestroy(EventData),
    ChannelBridge(EventData),
    RecordStart(EventData),
    MediaBugStart(EventData),
    MediaBugStop(EventData),
    PlaybackStart(EventData),
    PlaybackStop(EventData),
    ChannelUnbridge(EventData),
    DetectedSpeech(EventData),
    Codec(EventData),
    RecvInfo(EventData),
    Dtmf(EventData),
    DtmfSend(EventData),
    SendDtmf(EventData),
    DelSchedule(EventData),
    ReSchedule(EventData),
    AddSchedule(EventData),
    ChannelProgressMedia(EventData),
    RecordStop(EventData),
    Custom(EventData),
    RingAsr(EventData),
    ReloadXml(EventData),
    ChannelHold(EventData),
    ChannelUnhold(EventData),
    Confirmed(EventData),
    ConferenceSendPresence(EventData),
    BackgroundJob(EventData),
    Unknown(EventData),
}

/// The case under which an event with name `n` is classified.
pub open spec fn spec_classify(d: EventData) -> Event {
    let n = spec_event_name(d@);
    if n == Some("API"@) {
        Event::Api(d)
    } else if n == Some("HEARTBEAT"@) {
        Event::Heartbeat(d)
    } else if n == Some("RECV_RTCP_MESSAGE"@) {
        Event::RecvRtcpMessage(d)
    } else if n == Some("CHANNEL_CREATE"@) {
        Event::ChannelCreate(d)
    } else if n == Some("CHANNEL_ORIGINATE"@) {
        Event::ChannelOriginate(d)
    } else if n == Some("CHANNEL_STATE"@) {
        Event::ChannelState(d)
    } else if n == Some("CHANNEL_PROGRESS"@) {
        Event::ChannelProgress(d)
    } else if n == Some("CHANNEL_CALLSTATE"@) {
        Event::ChannelCallState(d)
    } else if n == Some("CALL_UPDATE"@) {
        Event::CallUpdate(d)
    } else if n == Some("CHANNEL_EXECUTE"@) {
        Event::ChannelExecute(d)
    } else if n == Some("CHANNEL_PARK"@) {
        Event::ChannelPark(d)
    } else if n == Some("CHANNEL_UNPARK"@) {
        Event::ChannelUnpark(d)
    } else if n == Some("PRIVATE_COMMAND"@) {
        Event::PrivateCommand(d)
    } else if n == Some("PRESENCE_IN"@) {
        Event::PresenceIn(d)
    } else if n == Some("CHANNEL_EXECUTE_COMPLETE"@) {
        Event::ChannelExecuteComplete(d)
    } else if n == Some("CHANNEL_HANGUP"@) {
        Event::ChannelHangup(d)
    } else if n == Some("CHANNEL_HANGUP_COMPLETE"@) {
        Event::ChannelHangupComplete(d)
    } else if n == Some("CHANNEL_OUTGOING"@) {
        Event::ChannelOutgoing(d)
    } else if n == Some("CHANNEL_ANSWER"@) {
        Event::ChannelAnswer(d)
    } else if n == Some("CHANNEL_DESTROY"@) {
        Event::ChannelDestroy(d)
    } else if n == Some("CHANNEL_BRIDGE"@) {
        Event::ChannelBridge(d)
    } else if n == Some("RECORD_START"@) {
        Event::RecordStart(d)
    } else if n == Some("MEDIA_BUG_START"@) {
        Event::MediaBugStart(d)
    } else if n == Some("MEDIA_BUG_STOP"@) {
        Event::MediaBugStop(d)
    } else if n == Some("PLAYBACK_START"@) {
        Event::PlaybackStart(d)
    } else if n == Some("PLAYBACK_STOP"@) {
        Event::PlaybackStop(d)
    } else if n == Some("CHANNEL_UNBRIDGE"@) {
        Event::ChannelUnbridge(d)
    } else if n == Some("DETECTED_SPEECH"@) {
        Event::DetectedSpeech(d)
    } else if n == Some("CODEC"@) {
        Event::Codec(d)
    } else if n == Some("RECV_INFO"@) {
        Event::RecvInfo(d)
    } else if n == Some("DTMF"@) {
        Event::Dtmf(d)
    } else if n == Some("DTMF_SEND"@) {
        Event::DtmfSend(d)
    } else if n == Some("SEND_DTMF"@) {
        Event::SendDtmf(d)
    } else if n == Some("DEL_SCHEDULE"@) {
        Event::DelSchedule(d)
    } else if n == Some("RE_SCHEDULE"@) {
        Event::ReSchedule(d)
    } else if n == Some("ADD_SCHEDULE"@) {
        Event::AddSchedule(d)
    } else if n == Some("CHANNEL_PROGRESS_MEDIA"@) {
        Event::ChannelProgressMedia(d)
    } else if n == Some("RECORD_STOP"@) {
        Event::RecordStop(d)
    } else if n == Some("CUSTOM"@) {
        Event::Custom(d)
    } else if n == Some("RING_ASR"@) {
        Event::RingAsr(d)
    } else if n == Some("RELOADXML"@) {
        Event::ReloadXml(d)
    } else if n == Some("CHANNEL_HOLD"@) {
        Event::ChannelHold(d)
    } else if n == Some("CHANNEL_UNHOLD"@) {
        Event::ChannelUnhold(d)
    } else if n == Some("CONFIRMED"@) {
        Event::Confirmed(d)
    } else if n == Some("CONFERENCE_SEND_PRESENCE"@) {
        Event::ConferenceSendPresence(d)
    } else if n == Some("BACKGROUND_JOB"@) {
        Event::BackgroundJob(d)
    } else {
        Event::Unknown(d)
    }
}

impl Event {
    /// The data that the event carries, whatever its case.
    pub open spec fn spec_data(&self) -> EventData {
        match self {
            Event::Api(d)
            | Event::Heartbeat(d)
            | Event::RecvRtcpMessage(d)
            | Event::ChannelCreate(d)
            | Event::ChannelOriginate(d)
            | Event::ChannelState(d)
            | Event::ChannelProgress(d)
            | Event::ChannelCallState(d)
            | Event::CallUpdate(d)
            | Event::ChannelExecute(d)
            | Event::ChannelPark(d)
            | Event::ChannelUnpark(d)
            | Event::PrivateCommand(d)
            | Event::PresenceIn(d)
            | Event::ChannelExecuteComplete(d)
            | Event::ChannelHangup(d)
            | Event::ChannelHangupComplete(d)
            | Event::ChannelOutgoing(d)
            | Event::ChannelAnswer(d)
            | Event::ChannelDestroy(d)
            | Event::ChannelBridge(d)
            | Event::RecordStart(d)
            | Event::MediaBugStart(d)
            | Event::MediaBugStop(d)
            | Event::PlaybackStart(d)
            | Event::PlaybackStop(d)
            | Event::ChannelUnbridge(d)
            | Event::DetectedSpeech(d)
            | Event::Codec(d)
            | Event::RecvInfo(d)
            | Event::Dtmf(d)
            | Event::DtmfSend(d)
            | Event::SendDtmf(d)
            | Event::DelSchedule(d)
            | Event::ReSchedule(d)
            | Event::AddSchedule(d)
            | Event::ChannelProgressMedia(d)
            | Event::RecordStop(d)
            | Event::Custom(d)
            | Event::RingAsr(d)
            | Event::ReloadXml(d)
            | Event::ChannelHold(d)
            | Event::ChannelUnhold(d)
            | Event::Confirmed(d)
            | Event::ConferenceSendPresence(d)
            | Event::BackgroundJob(d)
            | Event::Unknown(d) => *d,
        }
    }

    /// The data that the event carries, whatever its case.
    pub fn data(&self) -> (r: &EventData)
        ensures
            *r == self.spec_data(),
    {
        match self {
            Event::Api(d)
            | Event::Heartbeat(d)
            | Event::RecvRtcpMessage(d)
            | Event::ChannelCreate(d)
            | Event::ChannelOriginate(d)
            | Event::ChannelState(d)
            | Event::ChannelProgress(d)
            | Event::ChannelCallState(d)
            | Event::CallUpdate(d)
            | Event::ChannelExecute(d)
            | Event::ChannelPark(d)
            | Event::ChannelUnpark(d)
            | Event::PrivateCommand(d)
            | Event::PresenceIn(d)
            | Event::ChannelExecuteComplete(d)
            | Event::ChannelHangup(d)
            | Event::ChannelHangupComplete(d)
            | Event::ChannelOutgoing(d)
            | Event::ChannelAnswer(d)
            | Event::ChannelDestroy(d)
            | Event::ChannelBridge(d)
            | Event::RecordStart(d)
            | Event::MediaBugStart(d)
            | Event::MediaBugStop(d)
            | Event::PlaybackStart(d)
            | Event::PlaybackStop(d)
            | Event::ChannelUnbridge(d)
            | Event::DetectedSpeech(d)
            | Event::Codec(d)
            | Event::RecvInfo(d)
            | Event::Dtmf(d)
            | Event::DtmfSend(d)
            | Event::SendDtmf(d)
            | Event::DelSchedule(d)
            | Event::ReSchedule(d)
            | Event::AddSchedule(d)
            | Event::ChannelProgressMedia(d)
            | Event::RecordStop(d)
            | Event::Custom(d)
            | Event::RingAsr(d)
            | Event::ReloadXml(d)
            | Event::ChannelHold(d)
            | Event::ChannelUnhold(d)
            | Event::Confirmed(d)
            | Event::ConferenceSendPresence(d)
            | Event::BackgroundJob(d)
            | Event::Unknown(d) => d,
        }
    }
}

/// Classification wraps the data it was given, untouched: no case loses
/// anything.
pub proof fn lemma_classify_data(d: EventData)
    ensures
        spec_classify(d).spec_data() == d,
{
}

impl From<EventData> for Event {
    /// Classifies an event under its `Event-Name`.
    fn from(value: EventData) -> (r: Event) {
        let name = match value.get_event_name() {
            Some(name) => name,
            None => {
                return Event::Unknown(value);
            },
        };
        if str_eq(name.as_str(), "API") {
            Event::Api(value)
        } else if str_eq(name.as_str(), "HEARTBEAT") {
            Event::Heartbeat(value)
        } else if str_eq(name.as_str(), "RECV_RTCP_MESSAGE") {
            Event::RecvRtcpMessage(value)
        } else if str_eq(name.as_str(), "CHANNEL_CREATE") {
            Event::ChannelCreate(value)
        } else if str_eq(name.as_str(), "CHANNEL_ORIGINATE") {
            Event::ChannelOriginate(value)
        } else if str_eq(name.as_str(), "CHANNEL_STATE") {
            Event::ChannelState(value)
        } else if str_eq(name.as_str(), "CHANNEL_PROGRESS") {
            Event::ChannelProgress(value)
        } else if str_eq(name.as_str(), "CHANNEL_CALLSTATE") {
            Event::ChannelCallState(value)
        } else if str_eq(name.as_str(), "CALL_UPDATE") {
            Event::CallUpdate(value)
        } else if str_eq(name.as_str(), "CHANNEL_EXECUTE") {
            Event::ChannelExecute(value)
        } else if str_eq(name.as_str(), "CHANNEL_PARK") {
            Event::ChannelPark(value)
        } else if str_eq(name.as_str(), "CHANNEL_UNPARK") {
            Event::ChannelUnpark(value)
        } else if str_eq(name.as_str(), "PRIVATE_COMMAND") {
            Event::PrivateCommand(value)
        } else if str_eq(name.as_str(), "PRESENCE_IN") {
            Event::PresenceIn(value)
        } else if str_eq(name.as_str(), "CHANNEL_EXECUTE_COMPLETE") {
            Event::ChannelExecuteComplete(value)
        } else if str_eq(name.as_str(), "CHANNEL_HANGUP") {
            Event::ChannelHangup(value)
        } else if str_eq(name.as_str(), "CHANNEL_HANGUP_COMPLETE") {
            Event::ChannelHangupComplete(value)
        } else if str_eq(name.as_str(), "CHANNEL_OUTGOING") {
            Event::ChannelOutgoing(value)
        } else if str_eq(name.as_str(), "CHANNEL_ANSWER") {
            Event::ChannelAnswer(value)
        } else if str_eq(name.as_str(), "CHANNEL_DESTROY") {
            Event::ChannelDestroy(value)
        } else if str_eq(name.as_str(), "CHANNEL_BRIDGE") {
            Event::ChannelBridge(value)
        } else if str_eq(name.as_str(), "RECORD_START") {
            Event::RecordStart(value)
        } else if str_eq(name.as_str(), "MEDIA_BUG_START") {
            Event::MediaBugStart(value)
        } else if str_eq(name.as_str(), "MEDIA_BUG_STOP") {
            Event::MediaBugStop(value)
        } else if str_eq(name.as_str(), "PLAYBACK_START") {
            Event::PlaybackStart(value)
        } else if str_eq(name.as_str(), "PLAYBACK_STOP") {
            Event::PlaybackStop(value)
        } else if str_eq(name.as_str(), "CHANNEL_UNBRIDGE") {
            Event::ChannelUnbridge(value)
        } else if str_eq(name.as_str(), "DETECTED_SPEECH") {
            Event::DetectedSpeech(value)
        } else if str_eq(name.as_str(), "CODEC") {
            Event::Codec(value)
        } else if str_eq(name.as_str(), "RECV_INFO") {
            Event::RecvInfo(value)
        } else if str_eq(name.as_str(), "DTMF") {
            Event::Dtmf(value)
        } else if str_eq(name.as_str(), "DTMF_SEND") {
            Event::DtmfSend(value)
        } else if str_eq(name.as_str(), "SEND_DTMF") {
            Event::SendDtmf(value)
        } else if str_eq(name.as_str(), "DEL_SCHEDULE") {
            Event::DelSchedule(value)
        } else if str_eq(name.as_str(), "RE_SCHEDULE") {
            Event::ReSchedule(value)
        } else if str_eq(name.as_str(), "ADD_SCHEDULE") {
            Event::AddSchedule(value)
        } else if str_eq(name.as_str(), "CHANNEL_PROGRESS_MEDIA") {
            Event::ChannelProgressMedia(value)
        } else if str_eq(name.as_str(), "RECORD_STOP") {
            Event::RecordStop(value)
        } else if str_eq(name.as_str(), "CUSTOM") {
            Event::Custom(value)
        } else if str_eq(name.as_str(), "RING_ASR") {
            Event::RingAsr(value)
        } else if str_eq(name.as_str(), "RELOADXML") {
            Event::ReloadXml(value)
        } else if str_eq(name.as_str(), "CHANNEL_HOLD") {
            Event::ChannelHold(value)
        } else if str_eq(name.as_str(), "CHANNEL_UNHOLD") {
            Event::ChannelUnhold(value)
        } else if str_eq(name.as_str(), "CONFIRMED") {
            Event::Confirmed(value)
        } else if str_eq(name.as_str(), "CONFERENCE_SEND_PRESENCE") {
            Event::ConferenceSendPresence(value)
        } else if str_eq(name.as_str(), "BACKGROUND_JOB") {
            Event::BackgroundJob(value)
        } else {
            Event::Unknown(value)
        }
    }
}

impl vstd::std_specs::convert::FromSpecImpl<EventData> for Event {
    open spec fn obeys_from_spec() -> bool {
        true
    }

    open spec fn from_spec(t: EventData) -> Event {
        spec_classify(t)
    }
}

} // verus!
