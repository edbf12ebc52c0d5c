//! What holds of the store and its commands across calls: a read gives back
//! what a write wrote, a write leaves the other keys alone, a deleted key is
//! gone, and list values grow at the end that is asked for.
use vstd::prelude::*;

use crate::modules::clock::{instant_lt, seconds_later, utc_in_range, Instant};
use crate::modules::commands::{ok_reply, plus_line, spec_execute, Execution, StoreMap};
use crate::modules::regex::{all_elem, all_ws, array_pattern, body_ok, lead_ok, split_commas, tail_ok, lemma_split_commas_nonempty};
use crate::modules::store::{expired_at, spec_get, spec_set_list, CellModel};
use crate::modules::string_array::{elements, join, list_text, nonempty, placed, spec_insert_on_array, ArrayPlacement};
use crate::modules::types::RespValue;
use crate::text::{decimal, lemma_parse_decimal};

verus! {

/// The command made of the given words, each a bulk string.
pub open spec fn command(words: Seq<Seq<char>>) -> RespValue {
    RespValue::Array(Seq::new(words.len(), |i: int| RespValue::BulkString(words[i])))
}

/// A read of a key just written finds the cell written, unless it has
/// already expired, in which case it finds nothing and the key is gone.
pub proof fn law_get_after_set(m: StoreMap, k: Seq<char>, c: CellModel, now: Instant)
    ensures
        spec_get(m.insert(k, c), k, now) == (if expired_at(c, now) {
            (None, m.insert(k, c).remove(k))
        } else {
            (Some(c), m.insert(k, c))
        }),
{
}

/// A write to one key leaves what a read of any other key finds as it was.
pub proof fn law_set_leaves_other_keys(m: StoreMap, k: Seq<char>, c: CellModel, other: Seq<char>, now: Instant)
    requires
        other != k,
    ensures
        spec_get(m.insert(k, c), other, now).0 == spec_get(m, other, now).0,
{
}

/// A read of a deleted key finds nothing.
pub proof fn law_get_after_delete(m: StoreMap, k: Seq<char>, now: Instant)
    ensures
        spec_get(m.remove(k), k, now).0 is None,
        spec_get(m.remove(k), k, now).1 == m.remove(k),
{
}

/// `SET key value` answers `+OK`, and a later `GET key`, at any instant,
/// answers `+value` and leaves the store as it is.
pub proof fn law_set_then_get(m: StoreMap, key: Seq<char>, value: Seq<char>, now: Instant, later: Instant)
    ensures
        ({
            let after = m.insert(key, CellModel { value, expiry: None });
            &&& spec_execute(command(seq!["SET"@, key, value]), m, now) == Execution::Done(ok_reply(), after)
            &&& spec_execute(command(seq!["GET"@, key]), after, later) == Execution::Done(plus_line(value), after)
        }),
{
    reveal_strlit("SET");
    reveal_strlit("GET");
    reveal_strlit("PING");
    reveal_strlit("ECHO");
    let after = m.insert(key, CellModel { value, expiry: None });
    let set = command(seq!["SET"@, key, value]);
    let get = command(seq!["GET"@, key]);
    if let RespValue::Array(a) = set {
        assert(a[0] == RespValue::BulkString("SET"@));
        assert(a.skip(1) =~= seq![RespValue::BulkString(key), RespValue::BulkString(value)]);
        assert("SET"@.len() == 3 && "PING"@.len() == 4 && "ECHO"@.len() == 4);
        assert(spec_execute(set, m, now) == crate::modules::commands::spec_set_command(a.skip(1), m, now));
    }
    if let RespValue::Array(a) = get {
        assert(a[0] == RespValue::BulkString("GET"@));
        assert(a.skip(1) =~= seq![RespValue::BulkString(key)]);
        assert("GET"@.len() == 3 && "PING"@.len() == 4 && "ECHO"@.len() == 4);
        assert("GET"@[0] == 'G' && "SET"@[0] == 'S');
        assert(spec_get(after, key, later) == (Some(CellModel { value, expiry: None }), after));
        assert(spec_execute(get, after, later) == crate::modules::commands::spec_get_command(a.skip(1), after, later));
    }
}

/// `SET key n` for an integer `n` below the largest `i64`, then `INCR key`:
/// the second answers `+OK` and the key then holds `n + 1`, as `GET` shows.
pub proof fn law_incr_after_set(m: StoreMap, key: Seq<char>, n: int, now: Instant, later: Instant)
    requires
        i64::MIN <= n < i64::MAX,
    ensures
        ({
            let after_set = m.insert(key, CellModel { value: decimal(n), expiry: None });
            let after_incr = after_set.insert(key, CellModel { value: decimal(n + 1), expiry: None });
            &&& spec_execute(command(seq!["SET"@, key, decimal(n)]), m, now) == Execution::Done(ok_reply(), after_set)
            &&& spec_execute(command(seq!["INCR"@, key]), after_set, later) == Execution::Done(ok_reply(), after_incr)
            &&& spec_execute(command(seq!["GET"@, key]), after_incr, later) == Execution::Done(plus_line(decimal(n + 1)), after_incr)
        }),
{
    let after_set = m.insert(key, CellModel { value: decimal(n), expiry: None });
    let after_incr = after_set.insert(key, CellModel { value: decimal(n + 1), expiry: None });
    law_set_then_get(m, key, decimal(n), now, later);
    law_set_then_get(after_set, key, decimal(n + 1), later, later);
    reveal_strlit("SET");
    reveal_strlit("GET");
    reveal_strlit("PING");
    reveal_strlit("ECHO");
    reveal_strlit("EXIST");
    reveal_strlit("DEL");
    reveal_strlit("INCR");
    lemma_parse_decimal(n, true, i64::MIN as int, i64::MAX as int);
    let incr = command(seq!["INCR"@, key]);
    if let RespValue::Array(a) = incr {
        assert(a[0] == RespValue::BulkString("INCR"@));
        assert(a.skip(1) =~= seq![RespValue::BulkString(key)]);
        assert("INCR"@.len() == 4 && "SET"@.len() == 3 && "GET"@.len() == 3);
        assert("EXIST"@.len() == 5 && "DEL"@.len() == 3);
        assert("INCR"@[0] == 'I' && "PING"@[0] == 'P' && "ECHO"@[0] == 'E');
        assert(spec_get(after_set, key, later) == (Some(CellModel { value: decimal(n), expiry: None }), after_set));
        assert(crate::text::parse_i64(decimal(n)) == Some(n));
        assert(crate::modules::commands::spec_arith(after_set, key, 1, later) == Some((true, after_incr)));
    }
    assert(after_set.insert(key, CellModel { value: decimal(n + 1), expiry: None }) == after_incr);
}

/// `SET key value`, then `DEL key`: the second answers `+1` and removes the
/// key, so that a later `GET key` answers `+NONE`.
pub proof fn law_del_after_set(m: StoreMap, key: Seq<char>, value: Seq<char>, now: Instant, later: Instant)
    ensures
        ({
            let after_set = m.insert(key, CellModel { value, expiry: None });
            let after_del = after_set.remove(key);
            &&& spec_execute(command(seq!["DEL"@, key]), after_set, later) == Execution::Done(plus_line(decimal(1)), after_del)
            &&& spec_execute(command(seq!["GET"@, key]), after_del, later) == Execution::Done("+NONE\r\n"@, after_del)
        }),
{
    reveal_strlit("SET");
    reveal_strlit("GET");
    reveal_strlit("PING");
    reveal_strlit("ECHO");
    reveal_strlit("EXIST");
    reveal_strlit("DEL");
    let after_set = m.insert(key, CellModel { value, expiry: None });
    let after_del = after_set.remove(key);
    let del = command(seq!["DEL"@, key]);
    let get = command(seq!["GET"@, key]);
    if let RespValue::Array(a) = del {
        assert(a[0] == RespValue::BulkString("DEL"@));
        let args = a.skip(1);
        assert(args =~= seq![RespValue::BulkString(key)]);
        assert("DEL"@.len() == 3 && "PING"@.len() == 4 && "ECHO"@.len() == 4 && "EXIST"@.len() == 5);
        assert("DEL"@[0] == 'D' && "SET"@[0] == 'S' && "GET"@[0] == 'G');
        assert(args.skip(1) =~= Seq::<RespValue>::empty());
        assert(crate::modules::commands::spec_del(args, after_set, 0) == crate::modules::commands::spec_del(args.skip(1), after_del, 1));
        assert(crate::modules::commands::spec_del(args, after_set, 0) == Some((1int, after_del)));
    }
    if let RespValue::Array(a) = get {
        assert(a[0] == RespValue::BulkString("GET"@));
        assert(a.skip(1) =~= seq![RespValue::BulkString(key)]);
        assert("GET"@.len() == 3 && "PING"@.len() == 4 && "ECHO"@.len() == 4);
        assert("GET"@[0] == 'G' && "SET"@[0] == 'S');
        assert(spec_get(after_del, key, later) == (None::<CellModel>, after_del));
    }
}

/// A key set with `EX n` expires: a `GET` at or after the instant `n`
/// seconds past the write (as chrono computes it) answers `+NONE` and
/// removes the key.
pub proof fn law_expired_key_reads_none(
    m: StoreMap,
    key: Seq<char>,
    value: Seq<char>,
    n: int,
    now: Instant,
    later: Instant,
)
    requires
        i64::MIN <= n <= i64::MAX,
        seconds_later(now, n as i64) is Some,
        !instant_lt(later, seconds_later(now, n as i64)->0),
    ensures
        ({
            let e = seconds_later(now, n as i64)->0;
            let after_set = m.insert(key, CellModel { value, expiry: Some(e) });
            &&& spec_execute(command(seq!["SET"@, key, value, "EX"@, decimal(n)]), m, now) == Execution::Done(ok_reply(), after_set)
            &&& spec_execute(command(seq!["GET"@, key]), after_set, later) == Execution::Done("+NONE\r\n"@, after_set.remove(key))
        }),
{
    reveal_strlit("SET");
    reveal_strlit("GET");
    reveal_strlit("PING");
    reveal_strlit("ECHO");
    reveal_strlit("EX");
    lemma_parse_decimal(n, true, i64::MIN as int, i64::MAX as int);
    let e = seconds_later(now, n as i64)->0;
    let after_set = m.insert(key, CellModel { value, expiry: Some(e) });
    let set = command(seq!["SET"@, key, value, "EX"@, decimal(n)]);
    let get = command(seq!["GET"@, key]);
    if let RespValue::Array(a) = set {
        assert(a[0] == RespValue::BulkString("SET"@));
        assert(a.skip(1) =~= seq![
            RespValue::BulkString(key),
            RespValue::BulkString(value),
            RespValue::BulkString("EX"@),
            RespValue::BulkString(decimal(n)),
        ]);
        assert("SET"@.len() == 3 && "PING"@.len() == 4 && "ECHO"@.len() == 4);
        assert(crate::modules::commands::spec_expiry("EX"@, decimal(n), now) == crate::modules::commands::Expiry::At(e));
    }
    if let RespValue::Array(a) = get {
        assert(a[0] == RespValue::BulkString("GET"@));
        assert(a.skip(1) =~= seq![RespValue::BulkString(key)]);
        assert("GET"@.len() == 3 && "PING"@.len() == 4 && "ECHO"@.len() == 4);
        assert("GET"@[0] == 'G' && "SET"@[0] == 'S');
        assert(expired_at(CellModel { value, expiry: Some(e) }, later));
    }
}

/// A key set with `EX n`, for `n` above zero at an ordinary instant (not a
/// leap second) in chrono's range, can be read back at any instant before
/// `n` seconds have passed: the read answers `+value` and leaves the store.
pub proof fn law_live_key_reads_back(
    m: StoreMap,
    key: Seq<char>,
    value: Seq<char>,
    n: int,
    now: Instant,
    later: Instant,
)
    requires
        0 < n <= i64::MAX,
        now.nanos < 1_000_000_000,
        utc_in_range(now.secs as int),
        utc_in_range(now.secs + n),
        !instant_lt(later, now),
        instant_lt(later, Instant { secs: (now.secs + n) as i64, nanos: now.nanos }),
    ensures
        ({
            let e = Instant { secs: (now.secs + n) as i64, nanos: now.nanos };
            let after_set = m.insert(key, CellModel { value, expiry: Some(e) });
            &&& instant_lt(now, e)
            &&& spec_execute(command(seq!["SET"@, key, value, "EX"@, decimal(n)]), m, now) == Execution::Done(ok_reply(), after_set)
            &&& spec_execute(command(seq!["GET"@, key]), after_set, later) == Execution::Done(plus_line(value), after_set)
        }),
{
    reveal_strlit("SET");
    reveal_strlit("GET");
    reveal_strlit("PING");
    reveal_strlit("ECHO");
    reveal_strlit("EX");
    lemma_parse_decimal(n, true, i64::MIN as int, i64::MAX as int);
    let e = Instant { secs: (now.secs + n) as i64, nanos: now.nanos };
    assert(seconds_later(now, n as i64) == Some(e));
    let after_set = m.insert(key, CellModel { value, expiry: Some(e) });
    let set = command(seq!["SET"@, key, value, "EX"@, decimal(n)]);
    let get = command(seq!["GET"@, key]);
    if let RespValue::Array(a) = set {
        assert(a[0] == RespValue::BulkString("SET"@));
        assert(a.skip(1) =~= seq![
            RespValue::BulkString(key),
            RespValue::BulkString(value),
            RespValue::BulkString("EX"@),
            RespValue::BulkString(decimal(n)),
        ]);
        assert("SET"@.len() == 3 && "PING"@.len() == 4 && "ECHO"@.len() == 4);
        assert(crate::modules::commands::spec_expiry("EX"@, decimal(n), now) == crate::modules::commands::Expiry::At(e));
    }
    if let RespValue::Array(a) = get {
        assert(a[0] == RespValue::BulkString("GET"@));
        assert(a.skip(1) =~= seq![RespValue::BulkString(key)]);
        assert("GET"@.len() == 3 && "PING"@.len() == 4 && "ECHO"@.len() == 4);
        assert("GET"@[0] == 'G' && "SET"@[0] == 'S');
        assert(!expired_at(CellModel { value, expiry: Some(e) }, later));
    }
}

// ---------------------------------------------------------------------------
// Histories of calls on the store
// ---------------------------------------------------------------------------

/// One call on the store, as its contract has it: `Redis::set`,
/// `Redis::delete`, `Redis::get_at` and `Redis::set_list_at`.
pub enum StoreCall {
    Put(Seq<char>, CellModel),
    Delete(Seq<char>),
    Get(Seq<char>, Instant),
    SetList(Seq<char>, Seq<char>, ArrayPlacement, Instant),
}

/// The store after the calls, one after the other.
pub open spec fn run_calls(m: StoreMap, calls: Seq<StoreCall>) -> StoreMap
    decreases calls.len(),
{
    if calls.len() == 0 {
        m
    } else {
        call_step(run_calls(m, calls.drop_last()), calls.last())
    }
}

/// The store after one call.
pub open spec fn call_step(m: StoreMap, call: StoreCall) -> StoreMap {
    match call {
        StoreCall::Put(k, c) => m.insert(k, c),
        StoreCall::Delete(k) => m.remove(k),
        StoreCall::Get(k, t) => spec_get(m, k, t).1,
        StoreCall::SetList(k, v, p, t) => spec_set_list(m, k, v, p, t).1,
    }
}

/// The call writes or deletes `k`.
pub open spec fn writes_key(call: StoreCall, k: Seq<char>) -> bool {
    match call {
        StoreCall::Put(k2, _) => k2 == k,
        StoreCall::Delete(k2) => k2 == k,
        StoreCall::Get(_, _) => false,
        StoreCall::SetList(k2, _, _, _) => k2 == k,
    }
}

/// The call reads `k` at an instant at which `c` has expired.
pub open spec fn expires_key(call: StoreCall, k: Seq<char>, c: CellModel) -> bool {
    match call {
        StoreCall::Get(k2, t) => k2 == k && expired_at(c, t),
        StoreCall::SetList(k2, _, _, t) => k2 == k && expired_at(c, t),
        _ => false,
    }
}

proof fn lemma_call_keeps_other_key(m: StoreMap, call: StoreCall, k: Seq<char>, c: CellModel)
    requires
        m.contains_key(k),
        m[k] == c,
        !writes_key(call, k),
        !expires_key(call, k, c),
    ensures
        call_step(m, call).contains_key(k),
        call_step(m, call)[k] == c,
{
    match call {
        StoreCall::SetList(k2, v, p, t) => {
            let m1 = spec_get(m, k2, t).1;
            assert(m1.contains_key(k) && m1[k] == c);
        },
        _ => {},
    }
}

/// A read of `k` finds the cell of the last call that wrote `k`, so long as
/// no later call wrote or deleted `k`, and the cell had not expired at any
/// later read of `k` nor has at `now`; the read then leaves the store as it
/// is.
pub proof fn law_read_returns_last_write(m: StoreMap, calls: Seq<StoreCall>, i: int, k: Seq<char>, c: CellModel, now: Instant)
    requires
        0 <= i < calls.len(),
        calls[i] == StoreCall::Put(k, c),
        forall|j: int| i < j < calls.len() ==> !writes_key(#[trigger] calls[j], k) && !expires_key(calls[j], k, c),
        !expired_at(c, now),
    ensures
        spec_get(run_calls(m, calls), k, now) == (Some(c), run_calls(m, calls)),
    decreases calls.len(),
{
    lemma_last_write_kept(m, calls, i, k, c);
}

proof fn lemma_last_write_kept(m: StoreMap, calls: Seq<StoreCall>, i: int, k: Seq<char>, c: CellModel)
    requires
        0 <= i < calls.len(),
        calls[i] == StoreCall::Put(k, c),
        forall|j: int| i < j < calls.len() ==> !writes_key(#[trigger] calls[j], k) && !expires_key(calls[j], k, c),
    ensures
        run_calls(m, calls).contains_key(k),
        run_calls(m, calls)[k] == c,
    decreases calls.len(),
{
    let init = calls.drop_last();
    if i == calls.len() - 1 {
    } else {
        assert forall|j: int| i < j < init.len() implies !writes_key(#[trigger] init[j], k) && !expires_key(init[j], k, c) by {
            assert(init[j] == calls[j]);
        }
        lemma_last_write_kept(m, init, i, k, c);
        let m1 = run_calls(m, init);
        let last = calls.last();
        assert(!writes_key(calls[calls.len() - 1], k) && !expires_key(calls[calls.len() - 1], k, c));
        lemma_call_keeps_other_key(m1, last, k, c);
    }
}

/// The instant at which the call reads the store, for the calls that read.
pub open spec fn read_instant(call: StoreCall) -> Option<Instant> {
    match call {
        StoreCall::Get(_, t) => Some(t),
        StoreCall::SetList(_, _, _, t) => Some(t),
        _ => None,
    }
}

/// Every call that reads the store does so at or before `now`: the clock
/// ran forward from those calls to `now`.
pub open spec fn reads_up_to(calls: Seq<StoreCall>, now: Instant) -> bool {
    forall|j: int| 0 <= j < calls.len() ==> match #[trigger] read_instant(calls[j]) {
        Some(t) => !instant_lt(now, t),
        None => true,
    }
}

/// A cell that has expired at `t` has expired at every later instant.
pub proof fn lemma_expiry_lasts(c: CellModel, t: Instant, later: Instant)
    requires
        expired_at(c, t),
        !instant_lt(later, t),
    ensures
        expired_at(c, later),
{
}

/// With the clock running forward: a read at `now` of `k` finds the cell of
/// the last call that wrote `k`, so long as no later call wrote or deleted
/// `k` and the cell has not expired at `now`; the read then leaves the store
/// as it is.
pub proof fn law_read_returns_last_write_in_time(
    m: StoreMap,
    calls: Seq<StoreCall>,
    i: int,
    k: Seq<char>,
    c: CellModel,
    now: Instant,
)
    requires
        0 <= i < calls.len(),
        calls[i] == StoreCall::Put(k, c),
        forall|j: int| i < j < calls.len() ==> !writes_key(#[trigger] calls[j], k),
        reads_up_to(calls, now),
        !expired_at(c, now),
    ensures
        spec_get(run_calls(m, calls), k, now) == (Some(c), run_calls(m, calls)),
{
    assert forall|j: int| i < j < calls.len() implies !writes_key(#[trigger] calls[j], k) && !expires_key(calls[j], k, c) by {
        match read_instant(calls[j]) {
            Some(t) => {
                if expired_at(c, t) {
                    lemma_expiry_lasts(c, t, now);
                }
            },
            None => {},
        }
    }
    law_read_returns_last_write(m, calls, i, k, c, now);
}

/// A key that the store did not hold and that no call wrote is not there
/// after the calls, and a read of it finds nothing.
pub proof fn law_unwritten_key_is_absent(m: StoreMap, calls: Seq<StoreCall>, k: Seq<char>, now: Instant)
    requires
        !m.contains_key(k),
        forall|j: int| 0 <= j < calls.len() ==> !writes_key(#[trigger] calls[j], k),
    ensures
        !run_calls(m, calls).contains_key(k),
        spec_get(run_calls(m, calls), k, now).0 is None,
    decreases calls.len(),
{
    if calls.len() > 0 {
        let init = calls.drop_last();
        assert forall|j: int| 0 <= j < init.len() implies !writes_key(#[trigger] init[j], k) by {
            assert(init[j] == calls[j]);
        }
        law_unwritten_key_is_absent(m, init, k, now);
        assert(!writes_key(calls[calls.len() - 1], k));
    }
}

// ---------------------------------------------------------------------------
// List values
// ---------------------------------------------------------------------------

/// An element that a list value can hold and give back: letters, digits
/// and spaces, at least one of them.
pub open spec fn plain_item(e: Seq<char>) -> bool {
    e.len() > 0 && all_elem(e)
}

pub open spec fn plain_items(es: Seq<Seq<char>>) -> bool {
    forall|i: int| 0 <= i < es.len() ==> plain_item(#[trigger] es[i])
}

proof fn lemma_split_no_comma(s: Seq<char>, t: Seq<char>)
    requires
        all_elem(t),
    ensures
        split_commas(s + t) == split_commas(s).update(
            split_commas(s).len() - 1,
            split_commas(s).last() + t,
        ),
    decreases t.len(),
{
    lemma_split_commas_nonempty(s);
    if t.len() == 0 {
        assert(s + t =~= s);
        assert(split_commas(s).last() + t =~= split_commas(s).last());
        assert(split_commas(s).update(split_commas(s).len() - 1, split_commas(s).last()) =~= split_commas(s));
    } else {
        let t0 = t.drop_last();
        assert(all_elem(t0));
        lemma_split_no_comma(s, t0);
        assert((s + t).drop_last() =~= s + t0);
        assert((s + t).last() == t.last());
        assert(t.last() != ',') by {
            assert(is_elem_at(t, t.len() - 1));
        }
        assert(split_commas(s).last() + t =~= (split_commas(s).last() + t0).push(t.last()));
        assert(split_commas(s + t) =~= split_commas(s).update(split_commas(s).len() - 1, split_commas(s).last() + t));
    }
}

spec fn is_elem_at(t: Seq<char>, i: int) -> bool {
    crate::modules::regex::is_elem(t[i])
}

/// The commas of a joined list separate exactly its elements.
proof fn lemma_split_join(es: Seq<Seq<char>>)
    requires
        es.len() >= 1,
        plain_items(es),
    ensures
        split_commas(join(es, ',')) == es,
    decreases es.len(),
{
    if es.len() == 1 {
        lemma_split_no_comma(seq![], es[0]);
        assert(seq![] + es[0] =~= es[0]);
        assert(split_commas(seq![]) == seq![Seq::<char>::empty()]);
        assert(Seq::<char>::empty() + es[0] =~= es[0]);
        assert(split_commas(es[0]) =~= es);
    } else {
        let init = es.drop_last();
        assert(plain_items(init)) by {
            assert forall|i: int| 0 <= i < init.len() implies plain_item(#[trigger] init[i]) by {
                assert(init[i] == es[i]);
            }
        }
        lemma_split_join(init);
        let pre = join(init, ',').push(',');
        assert(plain_item(es[es.len() - 1]));
        lemma_split_no_comma(pre, es.last());
        assert(pre.drop_last() =~= join(init, ','));
        assert(split_commas(pre) == init.push(seq![]));
        assert(Seq::<char>::empty() + es.last() =~= es.last());
        assert(split_commas(join(es, ',')) =~= es);
    }
}

/// A list value of plain elements is recognised as a list, and its elements
/// are read back as they were written.
pub proof fn law_list_text_reads_back(es: Seq<Seq<char>>)
    requires
        plain_items(es),
    ensures
        array_pattern(list_text(es)),
        elements(list_text(es)) == es,
{
    let s = list_text(es);
    let body = join(es, ',');
    assert(s.subrange(1, s.len() - 1) =~= body);
    if es.len() == 0 {
        assert(body =~= Seq::<char>::empty());
        assert(split_commas(body) == seq![Seq::<char>::empty()]);
        assert(all_ws(Seq::<char>::empty().take(0)));
        assert(all_elem(Seq::<char>::empty().subrange(0, 0)));
        assert(all_ws(Seq::<char>::empty().skip(0)));
        assert(tail_ok(Seq::<char>::empty()));
        let segs = split_commas(body);
        assert(segs.filter(nonempty()) =~= Seq::<Seq<char>>::empty()) by {
            reveal(Seq::filter);
            let e = Seq::<Seq<char>>::empty();
            assert(segs.drop_last() =~= e);
            assert(e.filter(nonempty()) =~= e);
            assert(!nonempty()(segs.last()));
        }
    } else {
        lemma_split_join(es);
        assert forall|j: int| 0 <= j < es.len() - 1 implies lead_ok(#[trigger] es[j]) by {
            assert(plain_item(es[j]));
            assert(all_ws(es[j].take(0)));
            assert(es[j].skip(0) =~= es[j]);
        }
        let last = es.last();
        assert(plain_item(es[es.len() - 1]));
        assert(all_ws(last.take(0)));
        assert(last.subrange(0, last.len() as int) =~= last);
        assert(all_ws(last.skip(last.len() as int)));
        assert(tail_ok(last));
        assert(body_ok(body));
        assert(es.filter(nonempty()) == es) by {
            lemma_filter_all(es);
        }
    }
}

proof fn lemma_filter_all(es: Seq<Seq<char>>)
    requires
        plain_items(es),
    ensures
        es.filter(nonempty()) == es,
    decreases es.len(),
{
    reveal(Seq::filter);
    if es.len() > 0 {
        let init = es.drop_last();
        assert(plain_items(init)) by {
            assert forall|i: int| 0 <= i < init.len() implies plain_item(#[trigger] init[i]) by {
                assert(init[i] == es[i]);
            }
        }
        lemma_filter_all(init);
        assert(plain_item(es[es.len() - 1]));
        assert(es =~= init.push(es.last()));
    }
}

/// Adding a plain element to a list value of plain elements puts it at the
/// end asked for, and counts one element more.
pub proof fn law_insert_on_list(es: Seq<Seq<char>>, value: Seq<char>, placement: ArrayPlacement)
    requires
        plain_items(es),
        plain_item(value),
    ensures
        spec_insert_on_array(list_text(es), value, placement) == Ok::<(Seq<char>, u32), Seq<char>>(
            (list_text(placed(es, value, placement)), (es.len() + 1) as u32),
        ),
        elements(list_text(placed(es, value, placement))) == placed(es, value, placement),
{
    law_list_text_reads_back(es);
    let ns = placed(es, value, placement);
    assert(plain_items(ns)) by {
        assert forall|i: int| 0 <= i < ns.len() implies plain_item(#[trigger] ns[i]) by {
            match placement {
                ArrayPlacement::RIGHT => {
                    if i < es.len() {
                        assert(ns[i] == es[i]);
                    }
                },
                ArrayPlacement::LEFT => {
                    if i > 0 {
                        assert(ns[i] == es[i - 1]);
                    }
                },
            }
        }
    }
    law_list_text_reads_back(ns);
}

/// Whether a value can be added to a list depends on the list alone: a
/// list value takes any non-empty value, whatever characters it holds, and
/// gives the list text with the value at the end asked for, counting one
/// element more than the list had; an empty value leaves the list as it is
/// and counts its elements; a text that is no list value is refused whatever
/// the value.
pub proof fn law_insert_on_array_any_value(array: Seq<char>, value: Seq<char>, placement: ArrayPlacement)
    ensures
        spec_insert_on_array(array, value, placement) is Err <==> !array_pattern(array),
        !array_pattern(array) ==> spec_insert_on_array(array, value, placement) == Err::<(Seq<char>, u32), Seq<char>>(
            "The string it's not an array"@,
        ),
        array_pattern(array) && value.len() > 0 ==> spec_insert_on_array(array, value, placement) == Ok::<
            (Seq<char>, u32),
            Seq<char>,
        >((list_text(placed(elements(array), value, placement)), (elements(array).len() + 1) as u32)),
        array_pattern(array) && value.len() == 0 ==> spec_insert_on_array(array, value, placement) == Ok::<
            (Seq<char>, u32),
            Seq<char>,
        >((array, elements(array).len() as u32)),
{
}

} // verus!
