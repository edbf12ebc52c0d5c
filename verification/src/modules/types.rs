//! Values of the RESP wire protocol.
use vstd::prelude::*;

verus! {

/// A value read off the wire.
#[derive(Debug, PartialEq)]
pub enum RedisDeserializationTypes {
    SimpleString(String),
    ErrorMessage(String),
    Integer(i64),
    BulkString(String),
    Array(Box<Vec<RedisDeserializationTypes>>),
}

/// The mathematical content of a [`RedisDeserializationTypes`].
pub enum RespValue {
    SimpleString(Seq<char>),
    ErrorMessage(Seq<char>),
    Integer(int),
    BulkString(Seq<char>),
    Array(Seq<RespValue>),
}

impl RedisDeserializationTypes {
    pub open spec fn model(self) -> RespValue
        decreases self,
    {
        match self {
            RedisDeserializationTypes::SimpleString(s) => RespValue::SimpleString(s@),
            RedisDeserializationTypes::ErrorMessage(s) => RespValue::ErrorMessage(s@),
            RedisDeserializationTypes::Integer(n) => RespValue::Integer(n as int),
            RedisDeserializationTypes::BulkString(s) => RespValue::BulkString(s@),
            RedisDeserializationTypes::Array(items) => RespValue::Array(
                Seq::new(
                    items@.len(),
                    |i: int|
                        if 0 <= i < items@.len() {
                            items@[i].model()
                        } else {
                            RespValue::Integer(0)
                        },
                ),
            ),
        }
    }
}

pub open spec fn models(v: Seq<RedisDeserializationTypes>) -> Seq<RespValue> {
    Seq::new(v.len(), |i: int| v[i].model())
}

pub open spec fn opt_model(v: Option<RedisDeserializationTypes>) -> Option<RespValue> {
    match v {
        Some(t) => Some(t.model()),
        None => None,
    }
}

} // verus!
