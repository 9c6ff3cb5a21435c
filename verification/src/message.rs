//! The message decoder: frame body bytes to one structured message.
//!
//! A `Message` is an opaque parsed JSON value together with the text it
//! was parsed from; its view is that text. What the value holds is named
//! as functions of the text alone — serde_json computes the same fields
//! from the same text on every machine — and the trusted accessors here
//! promise exactly those named results, so everything above this module
//! is verified against the message's actual content.

use vstd::prelude::*;
use vstd::utf8::decode_utf8;
use vstd::utf8::valid_utf8;

use crate::json::json_wf;
use crate::json::string_from_bytes;

verus! {

/// Why a frame body failed to decode. Either way the frame is dropped and
/// the server proceeds to the next one.
#[derive(Clone, Copy, Debug, PartialEq, Eq, Structural)]
pub enum DecodeError {
    /// The body bytes are not valid UTF-8 text.
    Encoding,
    /// The text is not one well-formed JSON value.
    Syntax,
}

/// The shape of one field of the message, with its plain value where the
/// logic reads one: a JSON string or an integer fitting 64 signed bits
/// comes out as its value, an object only as its presence, and any other
/// shape — wrong-typed fields, numbers too big, arrays — as `Other`.
#[derive(Debug)]
pub enum FieldProbe {
    Missing,
    Text(String),
    Integer(i64),
    Object,
    Other,
}

/// The model of a probed field.
pub ghost enum FieldModel {
    Missing,
    Text(Seq<char>),
    Integer(i64),
    Object,
    Other,
}

impl View for FieldProbe {
    type V = FieldModel;

    open spec fn view(&self) -> FieldModel {
        match self {
            FieldProbe::Missing => FieldModel::Missing,
            FieldProbe::Text(s) => FieldModel::Text(s@),
            FieldProbe::Integer(i) => FieldModel::Integer(*i),
            FieldProbe::Object => FieldModel::Object,
            FieldProbe::Other => FieldModel::Other,
        }
    }
}

/// The named shape of a top-level field of the JSON value this text
/// parses to: a function of the text and the key alone.
pub uninterp spec fn root_field_of(text: Seq<char>, key: Seq<char>) -> FieldModel;

/// The named shape of a field of the `params` object, likewise.
pub uninterp spec fn params_field_of(text: Seq<char>, key: Seq<char>) -> FieldModel;

/// The named shape of a field of `params.clientInfo`, likewise.
pub uninterp spec fn client_info_field_of(text: Seq<char>, key: Seq<char>) -> FieldModel;

/// The message's `method` field: its characters when it is present and a
/// string, nothing otherwise.
pub open spec fn method_of(text: Seq<char>) -> Option<Seq<char>> {
    match root_field_of(text, "method"@) {
        FieldModel::Text(m) => Some(m),
        _ => None,
    }
}

/// An optional string viewed as the characters it holds.
pub open spec fn opt_text_view(r: Option<String>) -> Option<Seq<char>> {
    match r {
        Some(s) => Some(s@),
        None => None,
    }
}

/// The decoded structured value carried by a frame's body, alongside the
/// text it came from; that text is the message's model, and only `parse`
/// can pair the two.
pub struct Message {
    json: serde_json::Value,
    text: String,
}

impl View for Message {
    type V = Seq<char>;

    closed spec fn view(&self) -> Seq<char> {
        self.text@
    }
}

impl Message {
    /// Relies on serde_json::from_str for Value: it accepts the whole
    /// text as one JSON value exactly when `json_wf` says so, and the
    /// message it yields is the message of exactly this text.
    #[verifier::external_body]
    pub fn parse(text: &str) -> (r: Result<Message, DecodeError>)
        ensures
            r is Ok <==> json_wf(text@),
            r matches Ok(m) ==> m@ == text@,
            r matches Err(e) ==> e == DecodeError::Syntax,
    {
        match serde_json::from_str::<serde_json::Value>(text) {
            Ok(v) => Ok(Message { json: v, text: text.to_owned() }),
            Err(_) => Err(DecodeError::Syntax),
        }
    }

    /// Relies on Value::get, and on the Value variants String, Number
    /// (via Number::as_i64) and Object: probe one top-level field of the
    /// parsed value. The result is a function of the message's text.
    #[verifier::external_body]
    pub fn root_field(&self, key: &str) -> (r: FieldProbe)
        ensures
            r@ == root_field_of(self@, key@),
    {
        match self.json.get(key) {
            None => FieldProbe::Missing,
            Some(serde_json::Value::String(s)) => FieldProbe::Text(s.clone()),
            Some(serde_json::Value::Number(n)) => match n.as_i64() {
                Some(i) => FieldProbe::Integer(i),
                None => FieldProbe::Other,
            },
            Some(serde_json::Value::Object(_)) => FieldProbe::Object,
            Some(_) => FieldProbe::Other,
        }
    }

    /// Relies on Value::get and the same Value variants: probe one field
    /// of the `params` object.
    #[verifier::external_body]
    pub fn params_field(&self, key: &str) -> (r: FieldProbe)
        ensures
            r@ == params_field_of(self@, key@),
    {
        let pv = match self.json.get("params") { Some(p) => p.get(key), None => None };
        match pv {
            None => FieldProbe::Missing,
            Some(serde_json::Value::String(s)) => FieldProbe::Text(s.clone()),
            Some(serde_json::Value::Number(n)) => match n.as_i64() {
                Some(i) => FieldProbe::Integer(i),
                None => FieldProbe::Other,
            },
            Some(serde_json::Value::Object(_)) => FieldProbe::Object,
            Some(_) => FieldProbe::Other,
        }
    }

    /// Relies on Value::get and the same Value variants: probe one field
    /// of `params.clientInfo`.
    #[verifier::external_body]
    pub fn client_info_field(&self, key: &str) -> (r: FieldProbe)
        ensures
            r@ == client_info_field_of(self@, key@),
    {
        let pc = match self.json.get("params") { Some(p) => p.get("clientInfo"), None => None };
        let cv = match pc { Some(c) => c.get(key), None => None };
        match cv {
            None => FieldProbe::Missing,
            Some(serde_json::Value::String(s)) => FieldProbe::Text(s.clone()),
            Some(serde_json::Value::Number(n)) => match n.as_i64() {
                Some(i) => FieldProbe::Integer(i),
                None => FieldProbe::Other,
            },
            Some(serde_json::Value::Object(_)) => FieldProbe::Object,
            Some(_) => FieldProbe::Other,
        }
    }

    /// The message's `method` field, exactly when it is present and a
    /// string.
    pub fn method(&self) -> (r: Option<String>)
        ensures
            opt_text_view(r) == method_of(self@),
    {
        match self.root_field("method") {
            FieldProbe::Text(m) => Some(m),
            _ => None,
        }
    }

    /// Decode a frame body: the bytes must be UTF-8 text spelling one
    /// well-formed JSON value; each failure names what was wrong, and a
    /// decoded message is the message of exactly that text.
    pub fn decode(body: Vec<u8>) -> (r: Result<Message, DecodeError>)
        ensures
            r is Ok <==> valid_utf8(body@) && json_wf(decode_utf8(body@)),
            r matches Ok(m) ==> m@ == decode_utf8(body@),
            !valid_utf8(body@) ==> (r matches Err(e) && e == DecodeError::Encoding),
            valid_utf8(body@) && !json_wf(decode_utf8(body@)) ==> (r matches Err(e) && e
                == DecodeError::Syntax),
    {
        match string_from_bytes(body) {
            None => Err(DecodeError::Encoding),
            Some(text) => Message::parse(text.as_str()),
        }
    }
}

} // verus!
