//! Executing commands against the store.
//!
//! A command is an array whose first element is a bulk string naming it;
//! the reply is a line of text. `spec_execute` says, for every command,
//! store and instant, what the reply is and what the store becomes, or that
//! the command aborts (an expiry value that is no integer or out of range,
//! an increment past the integer range, a count past `i32`).
use vstd::prelude::*;

use crate::modules::clock::{add_millis, add_seconds, from_timestamp, millis_later, now, seconds_later, utc_in_range, Instant};
use crate::modules::store::{spec_get, spec_set_list, CellModel, Redis, RedisCell};
use crate::modules::string_array::ArrayPlacement;
use crate::modules::types::{models, RedisDeserializationTypes, RespValue};
use crate::text::{chars_of, decimal, decimal_chars, extend_chars, parse_i64, parse_integer_at, string_of};

verus! {

pub type StoreMap = Map<Seq<char>, CellModel>;

/// What executing a command does: it aborts, or it replies and leaves the
/// store in a new state.
pub enum Execution {
    Aborts,
    Done(Seq<char>, Map<Seq<char>, CellModel>),
}

pub open spec fn invalid_reply() -> Seq<char> {
    "-Invalid Command\r\n"@
}

pub open spec fn ok_reply() -> Seq<char> {
    "+OK\r\n"@
}

pub open spec fn crlf() -> Seq<char> {
    "\r\n"@
}

/// `+text\r\n`
pub open spec fn plus_line(text: Seq<char>) -> Seq<char> {
    "+"@ + text + crlf()
}

/// `-text\r\n`
pub open spec fn minus_line(text: Seq<char>) -> Seq<char> {
    "-"@ + text + crlf()
}

pub open spec fn config_reply() -> Seq<char> {
    "*2\r\n$4\r\nsave\r\n$23\r\n3600 1 300 100 60 10000\r\n*2\r\n$10\r\nappendonly\r\n$2\r\nno\r\n"@
}

pub open spec fn is_bulk(v: RespValue) -> bool {
    v is BulkString
}

pub open spec fn bulk_text(v: RespValue) -> Seq<char> {
    match v {
        RespValue::BulkString(s) => s,
        _ => seq![],
    }
}

/// Rust's `/` on integers: the quotient rounded toward zero.
pub open spec fn trunc_div(n: int, d: int) -> int {
    if n >= 0 {
        n / d
    } else {
        -((-n) / d)
    }
}

/// When a key set with the option `cfg value` expires.
pub enum Expiry {
    Aborts,
    UnknownOption,
    At(Instant),
}

pub open spec fn spec_expiry(cfg: Seq<char>, value: Seq<char>, now: Instant) -> Expiry {
    if cfg == "EX"@ {
        match parse_i64(value) {
            None => Expiry::Aborts,
            Some(n) => match seconds_later(now, n as i64) {
                Some(e) => Expiry::At(e),
                None => Expiry::Aborts,
            },
        }
    } else if cfg == "PX"@ {
        match parse_i64(value) {
            None => Expiry::Aborts,
            Some(n) => match millis_later(now, n as i64) {
                Some(e) => Expiry::At(e),
                None => Expiry::Aborts,
            },
        }
    } else if cfg == "EAXT"@ {
        match parse_i64(value) {
            None => Expiry::Aborts,
            Some(n) => if utc_in_range(n) {
                Expiry::At(Instant { secs: n as i64, nanos: 0 })
            } else {
                Expiry::Aborts
            },
        }
    } else if cfg == "PXAT"@ {
        match parse_i64(value) {
            None => Expiry::Aborts,
            Some(n) => {
                let s = trunc_div(n, 1000);
                if utc_in_range(s) {
                    Expiry::At(Instant { secs: s as i64, nanos: 0 })
                } else {
                    Expiry::Aborts
                }
            },
        }
    } else {
        Expiry::UnknownOption
    }
}

/// `SET key value [option value]`
pub open spec fn spec_set_command(args: Seq<RespValue>, m: StoreMap, now: Instant) -> Execution {
    if args.len() >= 2 && is_bulk(args[0]) && is_bulk(args[1]) {
        let key = bulk_text(args[0]);
        let value = bulk_text(args[1]);
        if args.len() == 2 {
            Execution::Done(ok_reply(), m.insert(key, CellModel { value, expiry: None }))
        } else if args.len() == 4 && is_bulk(args[2]) && is_bulk(args[3]) {
            match spec_expiry(bulk_text(args[2]), bulk_text(args[3]), now) {
                Expiry::Aborts => Execution::Aborts,
                Expiry::UnknownOption => Execution::Done(invalid_reply(), m),
                Expiry::At(e) => Execution::Done(ok_reply(), m.insert(key, CellModel { value, expiry: Some(e) })),
            }
        } else {
            Execution::Done(invalid_reply(), m)
        }
    } else {
        Execution::Done(invalid_reply(), m)
    }
}

/// Reading the keys among `args` one after the other, `n` of them found
/// so far: how many are there in all (`None` once the count passes
/// `i32::MAX`) and the store after the reads.
pub open spec fn spec_exist(args: Seq<RespValue>, m: StoreMap, now: Instant, n: int) -> Option<(int, StoreMap)>
    decreases args.len(),
{
    if args.len() == 0 {
        Some((n, m))
    } else if is_bulk(args[0]) {
        let (g, m1) = spec_get(m, bulk_text(args[0]), now);
        if g is Some {
            if n + 1 > i32::MAX {
                None
            } else {
                spec_exist(args.skip(1), m1, now, n + 1)
            }
        } else {
            spec_exist(args.skip(1), m1, now, n)
        }
    } else {
        spec_exist(args.skip(1), m, now, n)
    }
}

/// Deleting the keys among `args` one after the other, `n` of them found so
/// far: how many were there in all (`None` once the count passes
/// `i32::MAX`) and the store after it.
pub open spec fn spec_del(args: Seq<RespValue>, m: StoreMap, n: int) -> Option<(int, StoreMap)>
    decreases args.len(),
{
    if args.len() == 0 {
        Some((n, m))
    } else if is_bulk(args[0]) {
        let k = bulk_text(args[0]);
        if m.contains_key(k) {
            if n + 1 > i32::MAX {
                None
            } else {
                spec_del(args.skip(1), m.remove(k), n + 1)
            }
        } else {
            spec_del(args.skip(1), m, n)
        }
    } else {
        spec_del(args.skip(1), m, n)
    }
}

/// Adding `delta` to the integer under `key` (a missing key becomes `0`):
/// `Some((true, _))` on success, `Some((false, _))` when the value is no
/// integer, `None` when the sum leaves the range of `i64`.
pub open spec fn spec_arith(m: StoreMap, key: Seq<char>, delta: int, now: Instant) -> Option<(bool, StoreMap)> {
    let (g, m1) = spec_get(m, key, now);
    match g {
        Some(c) => match parse_i64(c.value) {
            Some(n) => if n + delta < i64::MIN || n + delta > i64::MAX {
                None
            } else {
                Some((true, m1.insert(key, CellModel { value: decimal(n + delta), expiry: c.expiry })))
            },
            None => Some((false, m1)),
        },
        None => Some((true, m1.insert(key, CellModel { value: decimal(0), expiry: None }))),
    }
}

/// Adding `values` one after the other at one end of the list under `key`,
/// `last` being the count after the previous one; stops at the first error.
pub open spec fn spec_push_all(
    key: Seq<char>,
    values: Seq<RespValue>,
    placement: ArrayPlacement,
    m: StoreMap,
    now: Instant,
    last: u32,
) -> (Result<u32, Seq<char>>, StoreMap)
    decreases values.len(),
{
    if values.len() == 0 {
        (Ok(last), m)
    } else {
        let (r, m1) = spec_set_list(m, key, bulk_text(values[0]), placement, now);
        match r {
            Err(e) => (Err(e), m1),
            Ok(n) => spec_push_all(key, values.skip(1), placement, m1, now, n),
        }
    }
}

pub open spec fn all_bulk(vs: Seq<RespValue>) -> bool {
    forall|i: int| 0 <= i < vs.len() ==> is_bulk(#[trigger] vs[i])
}

/// `GET key`
pub open spec fn spec_get_command(args: Seq<RespValue>, m: StoreMap, now: Instant) -> Execution {
    if args.len() == 1 && is_bulk(args[0]) {
        let (g, m1) = spec_get(m, bulk_text(args[0]), now);
        match g {
            Some(cell) => Execution::Done(plus_line(cell.value), m1),
            None => Execution::Done("+NONE\r\n"@, m1),
        }
    } else {
        Execution::Done(invalid_reply(), m)
    }
}

/// The command named `c` with arguments `args`.
pub open spec fn spec_dispatch(c: Seq<char>, args: Seq<RespValue>, m: StoreMap, now: Instant) -> Execution {
    if c == "PING"@ {
        Execution::Done("+PONG\r\n"@, m)
    } else if c == "ECHO"@ {
        if args.len() == 1 && is_bulk(args[0]) {
            Execution::Done(plus_line(bulk_text(args[0])), m)
        } else {
            Execution::Done(invalid_reply(), m)
        }
    } else if c == "SET"@ {
        spec_set_command(args, m, now)
    } else if c == "GET"@ {
        spec_get_command(args, m, now)
    } else if c == "EXIST"@ {
        match spec_exist(args, m, now, 0) {
            None => Execution::Aborts,
            Some((n, m1)) => Execution::Done(plus_line(decimal(n)), m1),
        }
    } else if c == "DEL"@ {
        match spec_del(args, m, 0) {
            None => Execution::Aborts,
            Some((n, m1)) => Execution::Done(plus_line(decimal(n)), m1),
        }
    } else if c == "INCR"@ || c == "DECR"@ {
        if args.len() == 1 && is_bulk(args[0]) {
            match spec_arith(m, bulk_text(args[0]), if c == "INCR"@ { 1 } else { -1 }, now) {
                None => Execution::Aborts,
                Some((true, m1)) => Execution::Done(ok_reply(), m1),
                Some((false, m1)) => Execution::Done("-Invalid operation on string\r\n"@, m1),
            }
        } else {
            Execution::Done(invalid_reply(), m)
        }
    } else if c == "LPUSH"@ || c == "RPUSH"@ {
        if args.len() >= 1 && is_bulk(args[0]) && all_bulk(args.skip(1)) {
            let placement = if c == "LPUSH"@ { ArrayPlacement::LEFT } else { ArrayPlacement::RIGHT };
            let (r, m1) = spec_push_all(bulk_text(args[0]), args.skip(1), placement, m, now, 0);
            match r {
                Ok(n) => Execution::Done(plus_line(decimal(n as int)), m1),
                Err(e) => Execution::Done(minus_line(e), m1),
            }
        } else {
            Execution::Done(invalid_reply(), m)
        }
    } else if c == "CONFIG"@ {
        Execution::Done(config_reply(), m)
    } else {
        Execution::Done(invalid_reply(), m)
    }
}

/// Executing `cmd` on the store `m` at the instant `now`.
pub open spec fn spec_execute(cmd: RespValue, m: StoreMap, now: Instant) -> Execution {
    match cmd {
        RespValue::Array(a) => if a.len() >= 1 && is_bulk(a[0]) {
            spec_dispatch(bulk_text(a[0]), a.skip(1), m, now)
        } else {
            Execution::Done(invalid_reply(), m)
        },
        _ => Execution::Done(invalid_reply(), m),
    }
}

// ---------------------------------------------------------------------------
// Replies
// ---------------------------------------------------------------------------

fn text_is(s: &String, lit: &str) -> (b: bool)
    ensures
        b == (s@ == lit@),
{
    *s == String::from_str(lit)
}

fn plus_reply(text: &Vec<char>) -> (s: String)
    ensures
        s@ == plus_line(text@),
{
    let mut out = chars_of("+");
    extend_chars(&mut out, text);
    let end = chars_of("\r\n");
    extend_chars(&mut out, &end);
    string_of(&out)
}

fn minus_reply(text: &Vec<char>) -> (s: String)
    ensures
        s@ == minus_line(text@),
{
    let mut out = chars_of("-");
    extend_chars(&mut out, text);
    let end = chars_of("\r\n");
    extend_chars(&mut out, &end);
    string_of(&out)
}

fn invalid() -> (s: String)
    ensures
        s@ == invalid_reply(),
{
    String::from_str("-Invalid Command\r\n")
}


/// `r` is the executable image of `e`, with the store left as `after`.
pub open spec fn runs_as(e: Execution, r: Option<String>, after: StoreMap) -> bool {
    match e {
        Execution::Aborts => r is None,
        Execution::Done(reply, m) => r matches Some(s) && s@ == reply && after == m,
    }
}

pub open spec fn args_of(items: Seq<RedisDeserializationTypes>) -> Seq<RespValue> {
    models(items).skip(1)
}

/// When the key set with option `cfg value` expires: `None` where the
/// command aborts, `Some(None)` for an unknown option.
fn expiry_for(cfg: &String, val: &String, now: Instant) -> (r: Option<Option<Instant>>)
    ensures
        match spec_expiry(cfg@, val@, now) {
            Expiry::Aborts => r is None,
            Expiry::UnknownOption => r == Some(None::<Instant>),
            Expiry::At(e) => r == Some(Some(e)),
        },
{
    let v = chars_of(val.as_str());
    assert(v@.subrange(0, v.len() as int) =~= val@);
    let is_ex = text_is(cfg, "EX");
    let is_px = text_is(cfg, "PX");
    let is_eaxt = text_is(cfg, "EAXT");
    let is_pxat = text_is(cfg, "PXAT");
    if !(is_ex || is_px || is_eaxt || is_pxat) {
        return Some(None);
    }
    let n = match parse_integer_at(&v, 0, v.len(), true, i64::MIN as i128, i64::MAX as i128) {
        Some(n) => n as i64,
        None => return None,
    };
    if is_ex {
        match add_seconds(now, n) {
            Some(e) => Some(Some(e)),
            None => None,
        }
    } else if is_px {
        match add_millis(now, n) {
            Some(e) => Some(Some(e)),
            None => None,
        }
    } else {
        let secs: i64 = if is_eaxt {
            n
        } else if n >= 0 {
            n / 1000
        } else {
            let m = (0 - (n as i128)) / 1000;
            (0 - m) as i64
        };
        match from_timestamp(secs) {
            Some(e) => Some(Some(e)),
            None => None,
        }
    }
}

fn exec_set(items: &Vec<RedisDeserializationTypes>, redis: &mut Redis, now: Instant) -> (r: Option<String>)
    requires
        old(redis).wf(),
        items.len() >= 1,
    ensures
        final(redis).wf(),
        runs_as(spec_set_command(args_of(items@), old(redis)@, now), r, final(redis)@),
{
    let ghost args = args_of(items@);
    let n = items.len();
    if n < 3 {
        return Some(invalid());
    }
    assert(args[0] == items@[1].model() && args[1] == items@[2].model());
    let key = match &items[1] {
        RedisDeserializationTypes::BulkString(k) => k,
        _ => return Some(invalid()),
    };
    let value = match &items[2] {
        RedisDeserializationTypes::BulkString(v) => v,
        _ => return Some(invalid()),
    };
    if n == 3 {
        redis.set(key.clone(), RedisCell { value: value.clone(), expiry: None });
        return Some(String::from_str("+OK\r\n"));
    }
    if n != 5 {
        return Some(invalid());
    }
    assert(args[2] == items@[3].model() && args[3] == items@[4].model());
    let cfg = match &items[3] {
        RedisDeserializationTypes::BulkString(c) => c,
        _ => return Some(invalid()),
    };
    let val = match &items[4] {
        RedisDeserializationTypes::BulkString(v) => v,
        _ => return Some(invalid()),
    };
    match expiry_for(cfg, val, now) {
        None => None,
        Some(None) => Some(invalid()),
        Some(Some(e)) => {
            redis.set(key.clone(), RedisCell { value: value.clone(), expiry: Some(e) });
            Some(String::from_str("+OK\r\n"))
        },
    }
}

fn exec_get(items: &Vec<RedisDeserializationTypes>, redis: &mut Redis, now: Instant) -> (r: String)
    requires
        old(redis).wf(),
        items.len() >= 1,
    ensures
        final(redis).wf(),
        runs_as(spec_get_command(args_of(items@), old(redis)@, now), Some(r), final(redis)@),
{
    let ghost args = args_of(items@);
    if items.len() != 2 {
        return invalid();
    }
    assert(args[0] == items@[1].model());
    let key = match &items[1] {
        RedisDeserializationTypes::BulkString(k) => k,
        _ => return invalid(),
    };
    match redis.get_at(key.as_str(), now) {
        Some(cell) => {
            let v = chars_of(cell.value.as_str());
            plus_reply(&v)
        },
        None => String::from_str("+NONE\r\n"),
    }
}

#[verifier::loop_isolation(false)]
fn exec_exist(items: &Vec<RedisDeserializationTypes>, redis: &mut Redis, now: Instant) -> (r: Option<String>)
    requires
        old(redis).wf(),
        items.len() >= 1,
    ensures
        final(redis).wf(),
        runs_as(
            match spec_exist(args_of(items@), old(redis)@, now, 0) {
                None => Execution::Aborts,
                Some((n, m1)) => Execution::Done(plus_line(decimal(n)), m1),
            },
            r,
            final(redis)@,
        ),
{
    let ghost args = args_of(items@);
    let mut count: i32 = 0;
    let mut i: usize = 1;
    assert(args.skip(0) =~= args);
    while i < items.len()
        invariant
            1 <= i <= items.len(),
            redis.wf(),
            args == args_of(items@),
            spec_exist(args, old(redis)@, now, 0) == spec_exist(args.skip(i - 1), redis@, now, count as int),
        decreases items.len() - i,
    {
        let ghost rest = args.skip(i - 1);
        assert(rest.skip(1) =~= args.skip(i as int));
        assert(rest[0] == items@[i as int].model());
        match &items[i] {
            RedisDeserializationTypes::BulkString(k) => {
                let found = redis.get_at(k.as_str(), now).is_some();
                if found {
                    if count == i32::MAX {
                        return None;
                    }
                    count = count + 1;
                }
            },
            _ => {},
        }
        i = i + 1;
    }
    assert(args.skip(items.len() - 1).len() == 0);
    let digits = decimal_chars(count as i128);
    Some(plus_reply(&digits))
}

#[verifier::loop_isolation(false)]
fn exec_del(items: &Vec<RedisDeserializationTypes>, redis: &mut Redis) -> (r: Option<String>)
    requires
        old(redis).wf(),
        items.len() >= 1,
    ensures
        final(redis).wf(),
        runs_as(
            match spec_del(args_of(items@), old(redis)@, 0) {
                None => Execution::Aborts,
                Some((n, m1)) => Execution::Done(plus_line(decimal(n)), m1),
            },
            r,
            final(redis)@,
        ),
{
    let ghost args = args_of(items@);
    let mut count: i32 = 0;
    let mut i: usize = 1;
    assert(args.skip(0) =~= args);
    while i < items.len()
        invariant
            1 <= i <= items.len(),
            redis.wf(),
            args == args_of(items@),
            spec_del(args, old(redis)@, 0) == spec_del(args.skip(i - 1), redis@, count as int),
        decreases items.len() - i,
    {
        let ghost rest = args.skip(i - 1);
        let ghost before = redis@;
        assert(rest.skip(1) =~= args.skip(i as int));
        assert(rest[0] == items@[i as int].model());
        match &items[i] {
            RedisDeserializationTypes::BulkString(k) => {
                let removed = redis.delete(k.as_str()).is_some();
                if removed {
                    if count == i32::MAX {
                        return None;
                    }
                    count = count + 1;
                } else {
                    assert(redis@ =~= before);
                }
            },
            _ => {},
        }
        i = i + 1;
    }
    assert(args.skip(items.len() - 1).len() == 0);
    let digits = decimal_chars(count as i128);
    Some(plus_reply(&digits))
}


// ---------------------------------------------------------------------------
// Arithmetic on a stored integer
// ---------------------------------------------------------------------------

/// `f` may be applied to the integer that `key` holds at `now`, if any.
pub open spec fn arith_callable<F: Fn(i64) -> i64>(m: StoreMap, key: Seq<char>, now: Instant, f: F) -> bool {
    match spec_get(m, key, now).0 {
        Some(c) => match parse_i64(c.value) {
            Some(n) => call_requires(f, (n as i64,)),
            None => true,
        },
        None => true,
    }
}

/// What [`arithmetic_command_at`] does: replaces the integer `n` under
/// `key` by some result of `f(n)`, keeping the expiry; sets a missing key
/// to `default`; fails, leaving the store as the read left it, where the
/// value is no integer or there is no default.
pub open spec fn arith_result<F: Fn(i64) -> i64>(
    m: StoreMap,
    key: Seq<char>,
    now: Instant,
    f: F,
    default: Option<i64>,
    r: Result<(), ()>,
    after: StoreMap,
) -> bool {
    let (g, m1) = spec_get(m, key, now);
    match g {
        Some(c) => match parse_i64(c.value) {
            Some(n) => r is Ok && exists|v: i64|
                call_ensures(f, (n as i64,), v) && after == m1.insert(key, CellModel { value: decimal(v as int), expiry: c.expiry }),
            None => r is Err && after == m1,
        },
        None => match default {
            Some(d) => r is Ok && after == m1.insert(key, CellModel { value: decimal(d as int), expiry: None }),
            None => r is Err && after == m1,
        },
    }
}

/// Applies `f` to the integer kept under `key` (read at `now`), keeping its
/// expiry; a missing key is set to `default` without expiry. Fails where
/// the value is no integer, or the key is missing and there is no default.
pub fn arithmetic_command_at<F: Fn(i64) -> i64>(redis: &mut Redis, key: &str, f: F, default: Option<i64>, now: Instant) -> (r: Result<(), ()>)
    requires
        old(redis).wf(),
        arith_callable(old(redis)@, key@, now, f),
    ensures
        final(redis).wf(),
        arith_result(old(redis)@, key@, now, f, default, r, final(redis)@),
{
    let value = match redis.get_at(key, now) {
        Some(cell) => {
            let v = chars_of(cell.value.as_str());
            assert(v@.subrange(0, v.len() as int) =~= cell.value@);
            match parse_integer_at(&v, 0, v.len(), true, i64::MIN as i128, i64::MAX as i128) {
                Some(number) => {
                    let res = f(number as i64);
                    let digits = decimal_chars(res as i128);
                    Some(RedisCell { value: string_of(&digits), expiry: cell.expiry })
                },
                None => None,
            }
        },
        None => match default {
            Some(d) => {
                let digits = decimal_chars(d as i128);
                Some(RedisCell { value: string_of(&digits), expiry: None })
            },
            None => None,
        },
    };
    match value {
        Some(value) => {
            redis.set(String::from_str(key), value);
            Ok(())
        },
        None => Err(()),
    }
}

/// [`arithmetic_command_at`] at the instant the clock shows; `f` need only
/// accept the integer that the key may hold, whatever that instant is.
pub fn arithmetic_command<F: Fn(i64) -> i64>(redis: &mut Redis, key: &str, f: F, default: Option<i64>) -> (r: Result<(), ()>)
    requires
        old(redis).wf(),
        forall|t: Instant| #[trigger] arith_callable(old(redis)@, key@, t, f),
    ensures
        final(redis).wf(),
        exists|t: Instant| arith_result(old(redis)@, key@, t, f, default, r, final(redis)@),
{
    let t = now();
    arithmetic_command_at(redis, key, f, default, t)
}

fn exec_arith(items: &Vec<RedisDeserializationTypes>, redis: &mut Redis, now: Instant, incr: bool) -> (r: Option<String>)
    requires
        old(redis).wf(),
        items.len() >= 1,
    ensures
        final(redis).wf(),
        runs_as(
            if args_of(items@).len() == 1 && is_bulk(args_of(items@)[0]) {
                match spec_arith(old(redis)@, bulk_text(args_of(items@)[0]), if incr { 1 } else { -1 }, now) {
                    None => Execution::Aborts,
                    Some((true, m1)) => Execution::Done(ok_reply(), m1),
                    Some((false, m1)) => Execution::Done("-Invalid operation on string\r\n"@, m1),
                }
            } else {
                Execution::Done(invalid_reply(), old(redis)@)
            },
            r,
            final(redis)@,
        ),
{
    let ghost args = args_of(items@);
    if items.len() != 2 {
        return Some(invalid());
    }
    assert(args[0] == items@[1].model());
    let key = match &items[1] {
        RedisDeserializationTypes::BulkString(k) => k,
        _ => return Some(invalid()),
    };
    // the sum must stay within `i64`
    match redis.lookup_at(key.as_str(), now) {
        Some(cell) => {
            let v = chars_of(cell.value.as_str());
            assert(v@.subrange(0, v.len() as int) =~= cell.value@);
            match parse_integer_at(&v, 0, v.len(), true, i64::MIN as i128, i64::MAX as i128) {
                Some(n) => {
                    if (incr && n == i64::MAX as i128) || (!incr && n == i64::MIN as i128) {
                        return None;
                    }
                },
                None => {},
            }
        },
        None => {},
    }
    let res = if incr {
        let step = |x: i64| -> (y: i64)
            requires
                x < i64::MAX,
            ensures
                y == x + 1,
        {
            x + 1
        };
        arithmetic_command_at(redis, key.as_str(), step, Some(0), now)
    } else {
        let step = |x: i64| -> (y: i64)
            requires
                x > i64::MIN,
            ensures
                y == x - 1,
        {
            x - 1
        };
        arithmetic_command_at(redis, key.as_str(), step, Some(0), now)
    };
    match res {
        Ok(_) => Some(String::from_str("+OK\r\n")),
        Err(_) => Some(String::from_str("-Invalid operation on string\r\n")),
    }
}


// ---------------------------------------------------------------------------
// Lists
// ---------------------------------------------------------------------------

#[verifier::loop_isolation(false)]
fn exec_push(items: &Vec<RedisDeserializationTypes>, redis: &mut Redis, now: Instant, placement: ArrayPlacement) -> (r: String)
    requires
        old(redis).wf(),
        items.len() >= 1,
    ensures
        final(redis).wf(),
        runs_as(
            if args_of(items@).len() >= 1 && is_bulk(args_of(items@)[0]) && all_bulk(args_of(items@).skip(1)) {
                let (res, m1) = spec_push_all(bulk_text(args_of(items@)[0]), args_of(items@).skip(1), placement, old(redis)@, now, 0);
                match res {
                    Ok(n) => Execution::Done(plus_line(decimal(n as int)), m1),
                    Err(e) => Execution::Done(minus_line(e), m1),
                }
            } else {
                Execution::Done(invalid_reply(), old(redis)@)
            },
            Some(r),
            final(redis)@,
        ),
{
    let ghost args = args_of(items@);
    let n = items.len();
    if n < 2 {
        return invalid();
    }
    assert(args[0] == items@[1].model());
    let key = match &items[1] {
        RedisDeserializationTypes::BulkString(k) => k,
        _ => return invalid(),
    };
    let ghost values = args.skip(1);
    let mut j: usize = 2;
    while j < n
        invariant
            2 <= j <= n == items.len(),
            forall|k: int| 0 <= k < j - 2 ==> is_bulk(#[trigger] values[k]),
        decreases n - j,
    {
        assert(values[j - 2] == items@[j as int].model());
        match &items[j] {
            RedisDeserializationTypes::BulkString(_) => {},
            _ => {
                assert(!is_bulk(values[j - 2]));
                return invalid();
            },
        }
        j = j + 1;
    }
    assert(all_bulk(values));
    let mut last: u32 = 0;
    let mut i: usize = 2;
    assert(values.skip(0) =~= values);
    while i < n
        invariant
            2 <= i <= n == items.len(),
            redis.wf(),
            all_bulk(values),
            spec_push_all(key@, values, placement, old(redis)@, now, 0) == spec_push_all(key@, values.skip(i - 2), placement, redis@, now, last),
        decreases n - i,
    {
        let ghost rest = values.skip(i - 2);
        assert(rest.skip(1) =~= values.skip(i - 1));
        assert(rest[0] == items@[i as int].model());
        let value = match &items[i] {
            RedisDeserializationTypes::BulkString(v) => v,
            _ => {
                assert(is_bulk(values[i - 2]));
                return invalid();
            },
        };
        match redis.set_list_at(key.clone(), value.clone(), placement, now) {
            Ok(len) => {
                last = len;
            },
            Err(e) => {
                let t = chars_of(e.as_str());
                return minus_reply(&t);
            },
        }
        i = i + 1;
    }
    assert(values.skip(n - 2).len() == 0);
    let digits = decimal_chars(last as i128);
    plus_reply(&digits)
}

// ---------------------------------------------------------------------------
// Commands
// ---------------------------------------------------------------------------

fn dispatch(items: &Vec<RedisDeserializationTypes>, c: &String, redis: &mut Redis, now: Instant) -> (r: Option<String>)
    requires
        old(redis).wf(),
        items.len() >= 1,
    ensures
        final(redis).wf(),
        runs_as(spec_dispatch(c@, args_of(items@), old(redis)@, now), r, final(redis)@),
{
    if text_is(c, "PING") {
        Some(String::from_str("+PONG\r\n"))
    } else if text_is(c, "ECHO") {
        let ghost args = args_of(items@);
        if items.len() == 2 {
            assert(args[0] == items@[1].model());
            match &items[1] {
                RedisDeserializationTypes::BulkString(echo) => {
                    let t = chars_of(echo.as_str());
                    Some(plus_reply(&t))
                },
                _ => Some(invalid()),
            }
        } else {
            Some(invalid())
        }
    } else if text_is(c, "SET") {
        exec_set(items, redis, now)
    } else if text_is(c, "GET") {
        Some(exec_get(items, redis, now))
    } else if text_is(c, "EXIST") {
        exec_exist(items, redis, now)
    } else if text_is(c, "DEL") {
        exec_del(items, redis)
    } else if text_is(c, "INCR") {
        exec_arith(items, redis, now, true)
    } else if text_is(c, "DECR") {
        exec_arith(items, redis, now, false)
    } else if text_is(c, "LPUSH") {
        Some(exec_push(items, redis, now, ArrayPlacement::LEFT))
    } else if text_is(c, "RPUSH") {
        Some(exec_push(items, redis, now, ArrayPlacement::RIGHT))
    } else if text_is(c, "CONFIG") {
        Some(String::from_str("*2\r\n$4\r\nsave\r\n$23\r\n3600 1 300 100 60 10000\r\n*2\r\n$10\r\nappendonly\r\n$2\r\nno\r\n"))
    } else {
        Some(invalid())
    }
}

/// Executes `command` at the instant `now`: the reply, or `None` exactly
/// where the command aborts (then the store is in no particular state).
pub fn run_command(command: &RedisDeserializationTypes, redis: &mut Redis, now: Instant) -> (r: Option<String>)
    requires
        old(redis).wf(),
    ensures
        final(redis).wf(),
        runs_as(spec_execute(command.model(), old(redis)@, now), r, final(redis)@),
{
    match command {
        RedisDeserializationTypes::Array(items) => {
            proof {
                if let RespValue::Array(ms) = command.model() {
                    assert(ms =~= models(items@));
                }
            }
            if items.len() == 0 {
                return Some(invalid());
            }
            assert(models(items@)[0] == items@[0].model());
            match &items[0] {
                RedisDeserializationTypes::BulkString(c) => dispatch(items, c, redis, now),
                _ => Some(invalid()),
            }
        },
        _ => Some(invalid()),
    }
}

/// Executes `command` on the store at the instant `now` and returns the
/// reply.
pub fn execute_command_at(command: &RedisDeserializationTypes, redis: &mut Redis, now: Instant) -> (r: String)
    requires
        old(redis).wf(),
        !(spec_execute(command.model(), old(redis)@, now) is Aborts),
    ensures
        final(redis).wf(),
        spec_execute(command.model(), old(redis)@, now) == Execution::Done(r@, final(redis)@),
{
    match run_command(command, redis, now) {
        Some(reply) => reply,
        None => {
            proof {
                assert(false);
            }
            invalid()
        },
    }
}

/// Executes `command` on the store at the instant the clock shows and
/// returns the reply; `None` where the command aborts at that instant (the
/// store is then in no particular state).
pub fn execute_command(command: &RedisDeserializationTypes, redis: &mut Redis) -> (r: Option<String>)
    requires
        old(redis).wf(),
    ensures
        final(redis).wf(),
        exists|t: Instant| runs_as(spec_execute(command.model(), old(redis)@, t), r, final(redis)@),
{
    let t = now();
    run_command(command, redis, t)
}

} // verus!
