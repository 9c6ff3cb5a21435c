//! Typed request payloads, decoded field by field from the message.
//! Clients populate these fields inconsistently, so every field is
//! optional: absence is never an error, a present field of the wrong
//! type always is — and the contract says exactly that, over the named
//! fields of the message's text.

use vstd::prelude::*;

use crate::message::client_info_field_of;
use crate::message::opt_text_view;
use crate::message::params_field_of;
use crate::message::root_field_of;
use crate::message::FieldModel;
use crate::message::FieldProbe;
use crate::message::Message;

verus! {

/// The client's self-description inside an `initialize` payload: a name,
/// and possibly a version.
#[derive(Debug, Clone)]
pub struct ClientInfo {
    pub name: String,
    pub version: Option<String>,
}

/// The model of a client description.
pub ghost struct ClientInfoModel {
    pub name: Seq<char>,
    pub version: Option<Seq<char>>,
}

impl View for ClientInfo {
    type V = ClientInfoModel;

    open spec fn view(&self) -> ClientInfoModel {
        ClientInfoModel { name: self.name@, version: opt_text_view(self.version) }
    }
}

/// The `initialize` request's payload. Every field may be absent.
#[derive(Debug, Clone)]
pub struct InitializeRequest {
    pub process_id: Option<i64>,
    pub client_info: Option<ClientInfo>,
    pub locale: Option<String>,
    pub root_path: Option<String>,
    pub root_uri: Option<String>,
}

/// The model of an initialize payload.
pub ghost struct PayloadModel {
    pub process_id: Option<i64>,
    pub client_info: Option<ClientInfoModel>,
    pub locale: Option<Seq<char>>,
    pub root_path: Option<Seq<char>>,
    pub root_uri: Option<Seq<char>>,
}

impl View for InitializeRequest {
    type V = PayloadModel;

    open spec fn view(&self) -> PayloadModel {
        PayloadModel {
            process_id: self.process_id,
            client_info: match self.client_info {
                Some(ci) => Some(ci@),
                None => None,
            },
            locale: opt_text_view(self.locale),
            root_path: opt_text_view(self.root_path),
            root_uri: opt_text_view(self.root_uri),
        }
    }
}

/// An optional string field fits when it is absent or a string.
pub open spec fn opt_text_fits(f: FieldModel) -> bool {
    f is Missing || f is Text
}

/// The characters an optional string field holds, if any.
pub open spec fn opt_text_of(f: FieldModel) -> Option<Seq<char>> {
    match f {
        FieldModel::Text(s) => Some(s),
        _ => None,
    }
}

/// Whether the message's `clientInfo` fits its shape: absent, or an
/// object with a string `name` and at most a string `version`.
pub open spec fn client_info_fits(text: Seq<char>) -> bool {
    match params_field_of(text, "clientInfo"@) {
        FieldModel::Missing => true,
        FieldModel::Object => client_info_field_of(text, "name"@) is Text && opt_text_fits(
            client_info_field_of(text, "version"@),
        ),
        _ => false,
    }
}

/// Whether the message's `params` fits the initialize shape: present and
/// an object, each known field absent or of its declared type; unknown
/// fields are tolerated.
pub open spec fn initialize_fits(text: Seq<char>) -> bool {
    &&& root_field_of(text, "params"@) is Object
    &&& (params_field_of(text, "processId"@) is Missing || params_field_of(
        text,
        "processId"@,
    ) is Integer)
    &&& client_info_fits(text)
    &&& opt_text_fits(params_field_of(text, "locale"@))
    &&& opt_text_fits(params_field_of(text, "rootPath"@))
    &&& opt_text_fits(params_field_of(text, "rootUri"@))
}

/// The decoded client description, when `clientInfo` is an object.
pub open spec fn client_info_of(text: Seq<char>) -> Option<ClientInfoModel> {
    match params_field_of(text, "clientInfo"@) {
        FieldModel::Object => Some(
            ClientInfoModel {
                name: match client_info_field_of(text, "name"@) {
                    FieldModel::Text(s) => s,
                    _ => Seq::empty(),
                },
                version: opt_text_of(client_info_field_of(text, "version"@)),
            },
        ),
        _ => None,
    }
}

/// The payload the message's `params` decodes to, field by named field.
pub open spec fn initialize_payload_of(text: Seq<char>) -> PayloadModel {
    PayloadModel {
        process_id: match params_field_of(text, "processId"@) {
            FieldModel::Integer(i) => Some(i),
            _ => None,
        },
        client_info: client_info_of(text),
        locale: opt_text_of(params_field_of(text, "locale"@)),
        root_path: opt_text_of(params_field_of(text, "rootPath"@)),
        root_uri: opt_text_of(params_field_of(text, "rootUri"@)),
    }
}

impl InitializeRequest {
    /// Decode the message's `params` into the initialize shape: it
    /// succeeds exactly when the shape fits, and then every field equals
    /// the message's named field — present ones with their values,
    /// absent ones empty.
    pub fn from_params(msg: &Message) -> (r: Result<InitializeRequest, ()>)
        ensures
            r is Ok <==> initialize_fits(msg@),
            r matches Ok(p) ==> p@ == initialize_payload_of(msg@),
    {
        match msg.root_field("params") {
            FieldProbe::Object => {},
            _ => {
                return Err(());
            },
        }
        let process_id = match msg.params_field("processId") {
            FieldProbe::Missing => None,
            FieldProbe::Integer(i) => Some(i),
            _ => {
                return Err(());
            },
        };
        let client_info = match msg.params_field("clientInfo") {
            FieldProbe::Missing => None,
            FieldProbe::Object => {
                let name = match msg.client_info_field("name") {
                    FieldProbe::Text(s) => s,
                    _ => {
                        return Err(());
                    },
                };
                let version = match msg.client_info_field("version") {
                    FieldProbe::Missing => None,
                    FieldProbe::Text(s) => Some(s),
                    _ => {
                        return Err(());
                    },
                };
                Some(ClientInfo { name, version })
            },
            _ => {
                return Err(());
            },
        };
        let locale = match msg.params_field("locale") {
            FieldProbe::Missing => None,
            FieldProbe::Text(s) => Some(s),
            _ => {
                return Err(());
            },
        };
        let root_path = match msg.params_field("rootPath") {
            FieldProbe::Missing => None,
            FieldProbe::Text(s) => Some(s),
            _ => {
                return Err(());
            },
        };
        let root_uri = match msg.params_field("rootUri") {
            FieldProbe::Missing => None,
            FieldProbe::Text(s) => Some(s),
            _ => {
                return Err(());
            },
        };
        Ok(InitializeRequest { process_id, client_info, locale, root_path, root_uri })
    }
}

} // verus!
