//! JSON values that the language server sends.

use vstd::prelude::*;

verus! {

/// `serde_json::Value`: a JSON value received from the client and sent back unread.
#[verifier::external_type_specification]
#[verifier::external_body]
pub struct ExValue(serde_json::Value);

/// A JSON value to send.
pub enum Json {
    Null,
    Bool(bool),
    Int(i64),
    UInt(u64),
    Str(String),
    Array(Vec<Json>),
    Object(Vec<(String, Json)>),
    /// A value received from the client, sent back as it came.
    Received(serde_json::Value),
}

/// The mathematical form of a JSON value.
#[verifier::ext_equal]
pub enum JsonV {
    Null,
    Bool(bool),
    Num(int),
    Str(Seq<char>),
    Array(Seq<JsonV>),
    Object(Seq<(Seq<char>, JsonV)>),
    Received(serde_json::Value),
}

impl Json {
    pub open spec fn view(self) -> JsonV
        decreases self,
    {
        match self {
            Json::Null => JsonV::Null,
            Json::Bool(b) => JsonV::Bool(b),
            Json::Int(i) => JsonV::Num(i as int),
            Json::UInt(u) => JsonV::Num(u as int),
            Json::Str(s) => JsonV::Str(s@),
            Json::Array(items) => JsonV::Array(Json::view_items(items@)),
            Json::Object(fields) => JsonV::Object(Json::view_fields(fields@)),
            Json::Received(v) => JsonV::Received(v),
        }
    }

    /// The views of a sequence of values.
    pub open spec fn view_items(items: Seq<Json>) -> Seq<JsonV>
        decreases items,
    {
        if items.len() == 0 {
            Seq::empty()
        } else {
            Json::view_items(items.drop_last()).push(items.last().view())
        }
    }

    /// The views of a sequence of named values.
    pub open spec fn view_fields(fields: Seq<(String, Json)>) -> Seq<(Seq<char>, JsonV)>
        decreases fields,
    {
        if fields.len() == 0 {
            Seq::empty()
        } else {
            Json::view_fields(fields.drop_last()).push((fields.last().0@, fields.last().1.view()))
        }
    }
}

} // verus!
