//! The dispatcher: from a decoded message to an outcome, and from an
//! outcome to exactly one sink record.
//!
//! The registry of known methods is exact-string lookup, populated at
//! startup. What the opaque JSON value yielded — the method field, the
//! payload check — enters the decision core as plain values, and from
//! there the outcome and the record it owes the sink are total functions.

use vstd::prelude::*;
use vstd::string::StringExecFns;

use crate::json::json_wf;
use crate::message::method_of;
use crate::message::DecodeError;
use crate::message::Message;
use crate::requests::initialize_fits;
use crate::requests::InitializeRequest;
use crate::sink::Logger;
use crate::sink::RecordModel;
use crate::sink::Severity;

verus! {

/// What dispatching one message came to. This is what the server would
/// answer from, and what each report to the sink is keyed on.
#[derive(Debug)]
pub enum DispatchOutcome {
    /// The method is registered and its payload decoded; the typed
    /// payload went to the method's handler.
    Handled(String),
    /// The method names nothing registered in this build.
    Unimplemented(String),
    /// The message has no string `method` field.
    Unrecognized,
    /// The body bytes never became a message.
    DecodeFailed(DecodeError),
    /// The method is registered but `params` does not fit its payload
    /// shape. The request is abandoned; the server continues.
    PayloadMismatch,
}

/// The model of an outcome, method names as character sequences.
pub ghost enum OutcomeModel {
    Handled(Seq<char>),
    Unimplemented(Seq<char>),
    Unrecognized,
    DecodeFailed(DecodeError),
    PayloadMismatch,
}

impl View for DispatchOutcome {
    type V = OutcomeModel;

    open spec fn view(&self) -> OutcomeModel {
        match self {
            DispatchOutcome::Handled(m) => OutcomeModel::Handled(m@),
            DispatchOutcome::Unimplemented(m) => OutcomeModel::Unimplemented(m@),
            DispatchOutcome::Unrecognized => OutcomeModel::Unrecognized,
            DispatchOutcome::DecodeFailed(e) => OutcomeModel::DecodeFailed(*e),
            DispatchOutcome::PayloadMismatch => OutcomeModel::PayloadMismatch,
        }
    }
}

/// The record every outcome owes the sink: progress is reported plainly,
/// anything that dropped a request is reported as a failure.
pub open spec fn report_of(o: OutcomeModel) -> RecordModel {
    match o {
        OutcomeModel::Handled(m) => RecordModel {
            severity: Severity::Info,
            text: "Request type "@ + m + " received"@,
        },
        OutcomeModel::Unimplemented(m) => RecordModel {
            severity: Severity::Info,
            text: "Request type "@ + m + " is not yet implemented"@,
        },
        OutcomeModel::Unrecognized => RecordModel {
            severity: Severity::Error,
            text: "Request type could not be recognized"@,
        },
        OutcomeModel::DecodeFailed(e) => match e {
            DecodeError::Encoding => RecordModel {
                severity: Severity::Error,
                text: "Error in parsing request from bytes to string"@,
            },
            DecodeError::Syntax => RecordModel {
                severity: Severity::Error,
                text: "Error in parsing the request to json"@,
            },
        },
        OutcomeModel::PayloadMismatch => RecordModel {
            severity: Severity::Error,
            text: "Error in decoding the request params"@,
        },
    }
}

/// Append to the sink exactly the record the outcome owes it.
pub fn report(o: &DispatchOutcome, sink: &mut Logger)
    ensures
        final(sink)@ =~= old(sink)@.push(report_of(o@)),
{
    match o {
        DispatchOutcome::Handled(m) => {
            let mut t: String = "Request type ".to_owned();
            t.append(m.as_str());
            t.append(" received");
            let _ = sink.append(Severity::Info, t);
        },
        DispatchOutcome::Unimplemented(m) => {
            let mut t: String = "Request type ".to_owned();
            t.append(m.as_str());
            t.append(" is not yet implemented");
            let _ = sink.append(Severity::Info, t);
        },
        DispatchOutcome::Unrecognized => {
            sink.error("Request type could not be recognized");
        },
        DispatchOutcome::DecodeFailed(e) => match e {
            DecodeError::Encoding => {
                sink.error("Error in parsing request from bytes to string");
            },
            DecodeError::Syntax => {
                sink.error("Error in parsing the request to json");
            },
        },
        DispatchOutcome::PayloadMismatch => {
            sink.error("Error in decoding the request params");
        },
    }
}

/// The outcome once the method field and the payload check are known:
/// no method, no dispatch; an unregistered method is merely
/// unimplemented; a registered one is handled exactly when its payload
/// fit.
pub open spec fn decision(method: Option<Seq<char>>, registered: bool, payload_ok: bool) -> OutcomeModel {
    match method {
        None => OutcomeModel::Unrecognized,
        Some(m) => if !registered {
            OutcomeModel::Unimplemented(m)
        } else if payload_ok {
            OutcomeModel::Handled(m)
        } else {
            OutcomeModel::PayloadMismatch
        },
    }
}

/// The decision core, a total function of its plain inputs.
pub fn decide(method: Option<String>, registered: bool, payload_ok: bool) -> (o: DispatchOutcome)
    ensures
        o@ == decision(
            match method {
                Some(m) => Some(m@),
                None => None,
            },
            registered,
            payload_ok,
        ),
{
    match method {
        None => DispatchOutcome::Unrecognized,
        Some(m) => if !registered {
            DispatchOutcome::Unimplemented(m)
        } else if payload_ok {
            DispatchOutcome::Handled(m)
        } else {
            DispatchOutcome::PayloadMismatch
        },
    }
}

/// Whether a method's payload fits its declared shape. Only
/// `initialize` declares one in this build; any other method constrains
/// its payload not at all.
pub open spec fn payload_fits(method: Seq<char>, text: Seq<char>) -> bool {
    if method == "initialize"@ {
        initialize_fits(text)
    } else {
        true
    }
}

/// The outcome a well-formed message owes, from its text alone:
/// Unrecognized exactly when it has no string `method` field;
/// Unimplemented exactly when the method is not registered;
/// PayloadMismatch exactly when it is registered and its payload does
/// not fit; Handled otherwise.
pub open spec fn dispatch_outcome(reg: Seq<Seq<char>>, text: Seq<char>) -> OutcomeModel {
    match method_of(text) {
        None => OutcomeModel::Unrecognized,
        Some(m) => if !reg.contains(m) {
            OutcomeModel::Unimplemented(m)
        } else if payload_fits(m, text) {
            OutcomeModel::Handled(m)
        } else {
            OutcomeModel::PayloadMismatch
        },
    }
}

/// The registry of known methods: exact-string lookup, populated at
/// startup. Its model is the sequence of registered names.
pub struct Dispatcher {
    methods: Vec<String>,
}

impl View for Dispatcher {
    type V = Seq<Seq<char>>;

    closed spec fn view(&self) -> Seq<Seq<char>> {
        self.methods@.map_values(|m: String| m@)
    }
}

impl Dispatcher {
    /// A registry with nothing registered yet.
    pub fn new() -> (d: Self)
        ensures
            d@ =~= Seq::<Seq<char>>::empty(),
    {
        Dispatcher { methods: Vec::new() }
    }

    /// Register one method name.
    pub fn register(&mut self, method: String)
        ensures
            final(self)@ =~= old(self)@.push(method@),
    {
        self.methods.push(method);
    }

    /// Whether a method name is registered: exact string match.
    pub fn is_registered(&self, method: &str) -> (r: bool)
        ensures
            r == self@.contains(method@),
    {
        let key: String = method.to_owned();
        let mut i: usize = 0;
        while i < self.methods.len()
            invariant
                i <= self.methods@.len(),
                key@ == method@,
                forall|j: int| 0 <= j < i ==> self@[j] != method@,
            decreases self.methods@.len() - i,
        {
            if self.methods[i] == key {
                assert(self@[i as int] == method@);
                return true;
            }
            i = i + 1;
        }
        false
    }

    /// Dispatch one decoded message: find its method, check its payload
    /// shape, and report the outcome. Exactly one record reaches the
    /// sink, the one the outcome owes, and the outcome is exactly what
    /// the message's text and this registry dictate.
    pub fn dispatch(&self, msg: &Message, sink: &mut Logger) -> (o: DispatchOutcome)
        ensures
            final(sink)@ =~= old(sink)@.push(report_of(o@)),
            o@ == dispatch_outcome(self@, msg@),
    {
        let method = msg.method();
        let o = match method {
            None => decide(None, false, false),
            Some(m) => {
                if self.is_registered(m.as_str()) {
                    let init_name: String = "initialize".to_owned();
                    let payload_ok = if m == init_name {
                        InitializeRequest::from_params(msg).is_ok()
                    } else {
                        true
                    };
                    decide(Some(m), true, payload_ok)
                } else {
                    decide(Some(m), false, true)
                }
            },
        };
        report(&o, sink);
        o
    }
}

/// One request task's state: the raw text it owns for its lifetime.
pub struct RequestHandler {
    request_raw: String,
}

impl RequestHandler {
    /// Take ownership of one raw request text.
    pub fn new(request_str: String) -> (h: Self)
        ensures
            h@ == request_str@,
    {
        RequestHandler { request_raw: request_str }
    }

    /// The raw text the handler owns.
    pub closed spec fn view(&self) -> Seq<char> {
        self.request_raw@
    }

    /// Decode the raw text and dispatch it, reporting exactly one record.
    /// Text that is not one well-formed JSON value fails as a syntax
    /// error, and only such text does; well-formed text gets exactly the
    /// outcome its content dictates; an encoding failure cannot happen
    /// here, the text is already characters.
    pub fn handle(self, dispatcher: &Dispatcher, sink: &mut Logger) -> (o: DispatchOutcome)
        ensures
            final(sink)@ =~= old(sink)@.push(report_of(o@)),
            (o@ == OutcomeModel::DecodeFailed(DecodeError::Syntax)) <==> !json_wf(self@),
            json_wf(self@) ==> o@ == dispatch_outcome(dispatcher@, self@),
            o@ != OutcomeModel::DecodeFailed(DecodeError::Encoding),
    {
        match Message::parse(self.request_raw.as_str()) {
            Err(e) => {
                let o = DispatchOutcome::DecodeFailed(e);
                report(&o, sink);
                o
            },
            Ok(msg) => dispatcher.dispatch(&msg, sink),
        }
    }
}

} // verus!
