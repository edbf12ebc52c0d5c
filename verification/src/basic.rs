//! RESP readers with a coarser value type: simple strings, error messages
//! and bulk strings all become `Types::String`.
//! They accept, refuse and consume what the readers of
//! `modules::deserialize` do, except that an array refuses an element that
//! starts with a character that marks no value.
use vstd::prelude::*;

use crate::modules::deserialize::{
    deserialize_bulk_string as read_bulk, deserialize_flat_command as read_flat, read_array,
    read_array_aborts, spec_array, spec_bulk, spec_flat, Outcome,
};
use crate::modules::types::{models, RedisDeserializationTypes, RespValue};

verus! {

/// A value read off the wire.
#[derive(Debug, PartialEq)]
pub enum Types {
    String(String),
    Number(i64),
    Array(Box<Vec<Types>>),
}

/// The mathematical content of a [`Types`].
pub enum BasicValue {
    Str(Seq<char>),
    Number(int),
    Array(Seq<BasicValue>),
}

impl Types {
    pub open spec fn model(self) -> BasicValue
        decreases self,
    {
        match self {
            Types::String(s) => BasicValue::Str(s@),
            Types::Number(n) => BasicValue::Number(n as int),
            Types::Array(items) => BasicValue::Array(
                Seq::new(
                    items@.len(),
                    |i: int|
                        if 0 <= i < items@.len() {
                            items@[i].model()
                        } else {
                            BasicValue::Number(0)
                        },
                ),
            ),
        }
    }
}

pub open spec fn basic_models(v: Seq<Types>) -> Seq<BasicValue> {
    Seq::new(v.len(), |i: int| v[i].model())
}

/// Forgets which kind of string a value was.
pub open spec fn forget(v: RespValue) -> BasicValue
    decreases v,
{
    match v {
        RespValue::SimpleString(s) => BasicValue::Str(s),
        RespValue::ErrorMessage(s) => BasicValue::Str(s),
        RespValue::BulkString(s) => BasicValue::Str(s),
        RespValue::Integer(n) => BasicValue::Number(n),
        RespValue::Array(items) => BasicValue::Array(
            Seq::new(
                items.len(),
                |i: int|
                    if 0 <= i < items.len() {
                        forget(items[i])
                    } else {
                        BasicValue::Number(0)
                    },
            ),
        ),
    }
}

pub open spec fn forget_all(vs: Seq<RespValue>) -> Seq<BasicValue> {
    Seq::new(vs.len(), |i: int| forget(vs[i]))
}

/// What [`deserialize_flat_command`] does with an input.
pub open spec fn spec_basic_flat(s: Seq<char>) -> Outcome<BasicValue> {
    match spec_flat(s) {
        Outcome::Aborts => Outcome::Aborts,
        Outcome::Parsed(v, r) => Outcome::Parsed(forget(v), r),
    }
}

/// What [`deserialize_bulk_string`] does with an input.
pub open spec fn spec_basic_bulk(s: Seq<char>) -> Outcome<Option<Seq<char>>> {
    match spec_bulk(s) {
        Outcome::Aborts => Outcome::Aborts,
        Outcome::Parsed(Some(RespValue::BulkString(t)), r) => Outcome::Parsed(Some(t), r),
        Outcome::Parsed(_, r) => Outcome::Parsed(None, r),
    }
}

/// What [`deserialize_array`] does with an input.
pub open spec fn spec_basic_array(s: Seq<char>) -> Outcome<Option<Seq<BasicValue>>> {
    match spec_array(s, true) {
        Outcome::Aborts => Outcome::Aborts,
        Outcome::Parsed(Some(items), r) => Outcome::Parsed(Some(forget_all(items)), r),
        Outcome::Parsed(None, r) => Outcome::Parsed(None, r),
    }
}

fn to_types(t: &RedisDeserializationTypes) -> (r: Types)
    ensures
        r.model() == forget(t.model()),
    decreases t,
{
    match t {
        RedisDeserializationTypes::SimpleString(s) => Types::String(s.clone()),
        RedisDeserializationTypes::ErrorMessage(s) => Types::String(s.clone()),
        RedisDeserializationTypes::BulkString(s) => Types::String(s.clone()),
        RedisDeserializationTypes::Integer(n) => Types::Number(*n),
        RedisDeserializationTypes::Array(items) => {
            let mut out: Vec<Types> = Vec::new();
            let mut i: usize = 0;
            while i < items.len()
                invariant
                    i <= items.len(),
                    *t == RedisDeserializationTypes::Array(*items),
                    out@.len() == i,
                    basic_models(out@) == forget_all(models(items@)).take(i as int),
                decreases items.len() - i,
            {
                proof {
                    assert(decreases_to!(*t => (*t)->Array_0));
                    assert(decreases_to!((*t)->Array_0 => (*t)->Array_0@));
                    assert(decreases_to!((*t)->Array_0@ => (*t)->Array_0@[i as int]));
                }
                let x = to_types(&items[i]);
                let ghost before = out@;
                out.push(x);
                assert forall|k: int| 0 <= k < i + 1 implies #[trigger] basic_models(out@)[k] == forget_all(models(items@))[k] by {
                    if k < i {
                        assert(out@[k] == before[k]);
                        assert(basic_models(before)[k] == forget_all(models(items@)).take(i as int)[k]);
                    }
                }
                assert(basic_models(out@) =~= forget_all(models(items@)).take(i + 1));
                i = i + 1;
            }
            assert(forget_all(models(items@)).take(items.len() as int) =~= forget_all(models(items@)));
            let r = Types::Array(Box::new(out));
            proof {
                if let BasicValue::Array(a) = r.model() {
                    if let BasicValue::Array(b) = forget(t.model()) {
                        if let RespValue::Array(ms) = t.model() {
                            assert(ms =~= models(items@));
                        }
                        assert forall|k: int| 0 <= k < a.len() implies a[k] == b[k] by {
                            assert(a[k] == basic_models(out@)[k]);
                        }
                        assert(a =~= b);
                    }
                }
            }
            r
        },
    }
}

fn to_types_vec(items: &Vec<RedisDeserializationTypes>) -> (out: Vec<Types>)
    ensures
        basic_models(out@) == forget_all(models(items@)),
{
    let mut out: Vec<Types> = Vec::new();
    let mut i: usize = 0;
    while i < items.len()
        invariant
            i <= items.len(),
            out@.len() == i,
            basic_models(out@) == forget_all(models(items@)).take(i as int),
        decreases items.len() - i,
    {
        let x = to_types(&items[i]);
        let ghost before = out@;
        out.push(x);
        assert forall|k: int| 0 <= k < i + 1 implies #[trigger] basic_models(out@)[k] == forget_all(models(items@))[k] by {
            if k < i {
                assert(out@[k] == before[k]);
                assert(basic_models(before)[k] == forget_all(models(items@)).take(i as int)[k]);
            }
        }
        assert(basic_models(out@) =~= forget_all(models(items@)).take(i + 1));
        i = i + 1;
    }
    assert(forget_all(models(items@)).take(items.len() as int) =~= forget_all(models(items@)));
    out
}

/// Reads a flat value (`+text`, `-text` or `:integer` and a line break) off
/// the front of `command`, leaving the rest of it in `command`.
pub fn deserialize_flat_command(command: &mut &str) -> (r: Types)
    requires
        !(spec_basic_flat(old(command)@) is Aborts),
    ensures
        spec_basic_flat(old(command)@) == Outcome::Parsed(r.model(), final(command)@),
{
    let t = read_flat(command);
    to_types(&t)
}

/// Reads a bulk string off the front of `command`; `None` for the null
/// bulk string. The rest stays in `command`.
pub fn deserialize_bulk_string(command: &mut &str) -> (r: Option<String>)
    requires
        !(spec_basic_bulk(old(command)@) is Aborts),
    ensures
        spec_basic_bulk(old(command)@) == Outcome::Parsed(
            match r {
                Some(s) => Some(s@),
                None => None,
            },
            final(command)@,
        ),
{
    match read_bulk(command) {
        Some(RedisDeserializationTypes::BulkString(s)) => Some(s),
        _ => None,
    }
}

/// Reads an array off the front of `command`; `None` for the null array.
/// The rest stays in `command`.
pub fn deserialize_array(command: &mut &str) -> (r: Option<Vec<Types>>)
    requires
        !(spec_basic_array(old(command)@) is Aborts),
    ensures
        spec_basic_array(old(command)@) == Outcome::Parsed(
            match r {
                Some(v) => Some(basic_models(v@)),
                None => None,
            },
            final(command)@,
        ),
{
    match read_array(command, true) {
        Some(items) => Some(to_types_vec(&items)),
        None => None,
    }
}

/// Whether [`deserialize_array`] refuses `command` (aborts on it), as it
/// does on an element that starts with a character that marks no value.
pub fn array_refused(command: &str) -> (b: bool)
    ensures
        b == (spec_basic_array(command@) is Aborts),
{
    read_array_aborts(command, true)
}

} // verus!
