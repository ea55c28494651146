//! Configuration data, as handed to the library once at startup by the
//! collaborator that loads and deserializes the configuration file. All of
//! it is plain data; the compiled form lives in the mapping module.

use vstd::prelude::*;
use crate::value::ValueType;

verus! {

/// Credentials for the message source.
#[derive(Clone, Debug)]
pub enum MqttAuth {
    UserPass { username: String, password: String },
    Certificate { cert_file: String, private_key_file: String },
}

/// Connection settings for the message source.
#[derive(Clone, Debug)]
pub struct MqttConfig {
    pub host: String,
    pub port: u16,
    pub client_id: String,
    pub auth: Option<MqttAuth>,
    pub ca_file: Option<String>,
    pub connect_timeout: Option<core::time::Duration>,
    pub keep_alive: Option<core::time::Duration>,
}

/// Credentials for a datastore.
#[derive(Clone, Debug)]
pub struct UserAuth {
    pub username: String,
    pub password: String,
}

/// One configured datastore destination.
#[derive(Clone, Debug)]
pub enum Database {
    Influxdb { url: String, auth: Option<UserAuth>, db_name: String, measurement: String },
}

/// One configured tag value: a declared scalar kind and its raw text,
/// which for the text kind may hold back-references.
#[derive(Clone, Debug)]
pub struct TagValue {
    pub value_type: ValueType,
    pub value: String,
}

/// Mathematical model of a configured tag value.
#[verifier::ext_equal]
pub struct TagValueCfgModel {
    pub value_type: ValueType,
    pub value: Seq<char>,
}

impl View for TagValue {
    type V = TagValueCfgModel;

    open spec fn view(&self) -> TagValueCfgModel {
        TagValueCfgModel { value_type: self.value_type, value: self.value@ }
    }
}

impl DeepView for TagValue {
    type V = TagValueCfgModel;

    open spec fn deep_view(&self) -> TagValueCfgModel {
        self.view()
    }
}

/// How a rule reads its payload: absent means raw text; otherwise a
/// structured document with a value path and an optional timestamp path.
#[derive(Clone, Debug)]
pub enum Payload {
    Json { value_field_path: String, timestamp_field_path: Option<String> },
}

/// Mathematical model of a configured payload directive.
#[verifier::ext_equal]
pub enum PayloadCfgModel {
    Json { value_field_path: Seq<char>, timestamp_field_path: Option<Seq<char>> },
}

impl View for Payload {
    type V = PayloadCfgModel;

    open spec fn view(&self) -> PayloadCfgModel {
        match self {
            Payload::Json { value_field_path, timestamp_field_path } => PayloadCfgModel::Json {
                value_field_path: value_field_path@,
                timestamp_field_path: timestamp_field_path.deep_view(),
            },
        }
    }
}

impl DeepView for Payload {
    type V = PayloadCfgModel;

    open spec fn deep_view(&self) -> PayloadCfgModel {
        self.view()
    }
}

/// One configured rule, before compilation.
#[derive(Clone, Debug)]
pub struct Mapping {
    pub topic: String,
    pub payload: Option<Payload>,
    pub field_name: String,
    pub value_type: ValueType,
    pub tags: Vec<(String, TagValue)>,
}

/// Mathematical model of a configured rule.
#[verifier::ext_equal]
pub struct MappingCfgModel {
    pub topic: Seq<char>,
    pub payload: Option<PayloadCfgModel>,
    pub field_name: Seq<char>,
    pub value_type: ValueType,
    pub tags: Seq<(Seq<char>, TagValueCfgModel)>,
}

impl View for Mapping {
    type V = MappingCfgModel;

    open spec fn view(&self) -> MappingCfgModel {
        MappingCfgModel {
            topic: self.topic@,
            payload: self.payload.deep_view(),
            field_name: self.field_name@,
            value_type: self.value_type,
            tags: self.tags.deep_view(),
        }
    }
}

impl DeepView for Mapping {
    type V = MappingCfgModel;

    open spec fn deep_view(&self) -> MappingCfgModel {
        self.view()
    }
}

} // verus!
