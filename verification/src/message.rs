//! The record of one message as it stands in a recording: a line of JSON with
//! the fields `time`, `qos`, `retain`, `topic` and `msg_b64`, the last holding
//! the payload in base64.

use crate::json::{field_of, json_parse, parse_json, JsonNumber, JsonValue};
use vstd::prelude::*;
use vstd::utf8::{decode_utf8, encode_utf8, valid_utf8};

verus! {

/// The text that `base64::encode` returns for `bytes`.
pub uninterp spec fn base64_text(bytes: Seq<u8>) -> Seq<char>;

/// The bytes that `base64::decode` returns for `text`, or `None` where it
/// reports an error.
pub uninterp spec fn base64_bytes(text: Seq<char>) -> Option<Seq<u8>>;

/// `base64::encode`: the standard alphabet with padding. Its result depends
/// on the bytes alone, takes four bytes for every three bytes of input or
/// part thereof, and `base64::decode` gives the input back from it. It
/// panics where the text would be too long to allocate, which the bound on
/// the input rules out.
#[verifier::external_body]
fn base64_encode(bytes: &[u8]) -> (text: String)
    requires
        (bytes@.len() / 3 + 1) * 4 <= isize::MAX,
    ensures
        text@ == base64_text(bytes@),
        encode_utf8(text@).len() == (bytes@.len() + 2) / 3 * 4,
        base64_bytes(text@) == Some(bytes@),
{
    base64::encode(bytes)
}

/// `base64::decode`: the standard alphabet with padding. Its result depends
/// on the text alone. It panics where its sums over the length of the text
/// overflow or its buffer would be too long to allocate, which the bound on
/// the input rules out.
#[verifier::external_body]
fn base64_decode(text: &str) -> (bytes: Option<Vec<u8>>)
    requires
        encode_utf8(text@).len() <= isize::MAX,
    ensures
        match bytes {
            Some(b) => base64_bytes(text@) == Some(b@),
            None => base64_bytes(text@) is None,
        },
{
    match base64::decode(text) {
        Ok(bytes) => Some(bytes),
        Err(_) => None,
    }
}

/// `String::from_utf8`: the text that the bytes encode, or `None` where they
/// are not UTF-8.
#[verifier::external_body]
pub(crate) fn utf8_text(bytes: Vec<u8>) -> (text: Option<String>)
    ensures
        match text {
            Some(t) => valid_utf8(bytes@) && t@ == decode_utf8(bytes@),
            None => !valid_utf8(bytes@),
        },
{
    match String::from_utf8(bytes) {
        Ok(text) => Some(text),
        Err(_) => None,
    }
}

/// The payload that the text of a record's `msg_b64` stands for: what base64
/// decoding gives, and nothing for a text of more than `isize::MAX` bytes.
pub open spec fn payload_of(text: Seq<char>) -> Option<Seq<u8>> {
    if encode_utf8(text).len() > isize::MAX {
        None
    } else {
        base64_bytes(text)
    }
}

/// Writes a payload as the text of a record's `msg_b64`. Decoding that text
/// gives the payload back, byte for byte.
pub fn encode_payload(payload: &[u8]) -> (text: String)
    requires
        (payload@.len() / 3 + 1) * 4 <= isize::MAX,
    ensures
        text@ == base64_text(payload@),
        payload_of(text@) == Some(payload@),
{
    base64_encode(payload)
}

/// Reads the payload back from the text of a record's `msg_b64`; `None`
/// where the text is not base64.
pub fn decode_payload(text: &str) -> (payload: Option<Vec<u8>>)
    ensures
        match payload {
            Some(p) => payload_of(text@) == Some(p@),
            None => payload_of(text@) is None,
        },
{
    if text.as_bytes().len() > isize::MAX as usize {
        None
    } else {
        base64_decode(text)
    }
}

/// The level of service that a stored level stands for: 0, 1 and 2 stand for
/// themselves, every other number for 0.
pub open spec fn spec_effective_qos(qos: u8) -> u8 {
    if qos <= 2 {
        qos
    } else {
        0
    }
}

/// The level of service that a stored level stands for.
#[verifier::when_used_as_spec(spec_effective_qos)]
pub fn effective_qos(qos: u8) -> (level: u8)
    ensures
        level == spec_effective_qos(qos),
{
    if qos <= 2 {
        qos
    } else {
        0
    }
}

/// One recorded message.
#[derive(Debug)]
pub struct MqttMessage {
    /// Seconds since the epoch at which the message was captured.
    pub time: JsonNumber,
    pub qos: u8,
    pub retain: bool,
    pub topic: String,
    /// The payload in base64.
    pub msg_b64: String,
}

/// A recorded message as plain values.
pub struct MessageView {
    pub time: JsonNumber,
    pub qos: u8,
    pub retain: bool,
    pub topic: Seq<char>,
    pub msg_b64: Seq<char>,
}

impl View for MqttMessage {
    type V = MessageView;

    open spec fn view(&self) -> MessageView {
        MessageView {
            time: self.time,
            qos: self.qos,
            retain: self.retain,
            topic: self.topic@,
            msg_b64: self.msg_b64@,
        }
    }
}

/// The record that a JSON value holds: an object with a number `time`, a
/// whole number `qos` from 0 to 255, a boolean `retain` and the strings
/// `topic` and `msg_b64`. Other fields are ignored. `None` for any other value.
pub open spec fn record_of(value: JsonValue) -> Option<MessageView> {
    match (
        field_of(value, "time"@),
        field_of(value, "qos"@),
        field_of(value, "retain"@),
        field_of(value, "topic"@),
        field_of(value, "msg_b64"@),
    ) {
        (
            Some(JsonValue::Number(time)),
            Some(JsonValue::Number(qos)),
            Some(JsonValue::Bool(retain)),
            Some(JsonValue::String(topic)),
            Some(JsonValue::String(payload)),
        ) => match qos.unsigned {
            Some(level) => if level <= 255 {
                Some(MessageView { time, qos: level as u8, retain, topic: topic@, msg_b64: payload@ })
            } else {
                None
            },
            None => None,
        },
        _ => None,
    }
}

/// The record that a line of a recording holds, or `None` where the line is
/// not JSON or holds no record.
pub open spec fn record_of_line(line: Seq<char>) -> Option<MessageView> {
    match json_parse(line) {
        Some(value) => record_of(value),
        None => None,
    }
}

impl MqttMessage {
    /// The record of a message that was captured at `time`: its payload is
    /// kept in base64, from which `payload` gives it back.
    pub fn new(time: JsonNumber, qos: u8, retain: bool, topic: String, payload: &[u8]) -> (record: MqttMessage)
        requires
            (payload@.len() / 3 + 1) * 4 <= isize::MAX,
        ensures
            record@ == (MessageView { time, qos, retain, topic: topic@, msg_b64: base64_text(payload@) }),
            payload_of(record.msg_b64@) == Some(payload@),
    {
        MqttMessage { time, qos, retain, topic, msg_b64: encode_payload(payload) }
    }

    /// Reads a record out of a parsed line.
    pub fn from_value(value: &JsonValue) -> (record: Option<MqttMessage>)
        ensures
            match record {
                Some(r) => record_of(*value) == Some(r@),
                None => record_of(*value) is None,
            },
    {
        let time = match value.field("time") {
            Some(JsonValue::Number(n)) => *n,
            _ => { return None; },
        };
        let qos = match value.field("qos") {
            Some(JsonValue::Number(n)) => match n.unsigned {
                Some(level) => if level <= 255 {
                    level as u8
                } else {
                    return None;
                },
                None => { return None; },
            },
            _ => { return None; },
        };
        let retain = match value.field("retain") {
            Some(JsonValue::Bool(b)) => *b,
            _ => { return None; },
        };
        let topic = match value.field("topic") {
            Some(JsonValue::String(s)) => s.clone(),
            _ => { return None; },
        };
        let msg_b64 = match value.field("msg_b64") {
            Some(JsonValue::String(s)) => s.clone(),
            _ => { return None; },
        };
        Some(MqttMessage { time, qos, retain, topic, msg_b64 })
    }

    /// Reads the record that a line of a recording holds.
    pub fn from_line(line: &str) -> (record: Option<MqttMessage>)
        ensures
            match record {
                Some(r) => record_of_line(line@) == Some(r@),
                None => record_of_line(line@) is None,
            },
    {
        match parse_json(line) {
            Some(value) => MqttMessage::from_value(&value),
            None => None,
        }
    }

    /// The payload of the message, or `None` where `msg_b64` is not base64.
    pub fn payload(&self) -> (payload: Option<Vec<u8>>)
        ensures
            match payload {
                Some(p) => payload_of(self.msg_b64@) == Some(p@),
                None => payload_of(self.msg_b64@) is None,
            },
    {
        decode_payload(self.msg_b64.as_str())
    }
}

} // verus!
