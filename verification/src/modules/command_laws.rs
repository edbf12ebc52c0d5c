//! What the commands that take many keys or values do, stated over their
//! inputs: `DEL` removes exactly the keys named and counts those the store
//! held; `EXIST` counts the named keys that are there and unexpired;
//! `LPUSH` and `RPUSH` answer the length of the list they leave.
use vstd::prelude::*;
use vstd::set_lib::lemma_len_subset;

use crate::modules::clock::Instant;
use crate::modules::commands::{all_bulk, minus_line, plus_line, spec_del, spec_execute, spec_exist, spec_push_all, Execution, StoreMap};
use crate::modules::laws::{law_insert_on_list, law_list_text_reads_back, plain_item, plain_items};
use crate::modules::store::{expired_at, spec_get, spec_set_list, CellModel};
use crate::modules::regex::array_pattern;
use crate::modules::string_array::{elements, join, list_text, placed, spec_insert_on_array, ArrayPlacement};
use crate::modules::laws::command;
use crate::modules::types::RespValue;
use crate::text::decimal;

verus! {

/// The words, each as a bulk string.
pub open spec fn bulks(words: Seq<Seq<char>>) -> Seq<RespValue> {
    Seq::new(words.len(), |i: int| RespValue::BulkString(words[i]))
}

proof fn lemma_command_args(name: Seq<char>, words: Seq<Seq<char>>)
    ensures
        command(seq![name] + words) == RespValue::Array(seq![RespValue::BulkString(name)] + bulks(words)),
{
    let w = seq![name] + words;
    assert(Seq::new(w.len(), |i: int| RespValue::BulkString(w[i])) =~= seq![RespValue::BulkString(name)] + bulks(words));
}

proof fn lemma_bulks_front(words: Seq<Seq<char>>)
    requires
        words.len() > 0,
    ensures
        bulks(words)[0] == RespValue::BulkString(words[0]),
        bulks(words).skip(1) == bulks(words.skip(1)),
{
    assert(bulks(words).skip(1) =~= bulks(words.skip(1)));
}

// ---------------------------------------------------------------------------
// DEL
// ---------------------------------------------------------------------------

/// How many keys of `m` the removal of `keys` takes away.
pub open spec fn removed_count(m: StoreMap, keys: Seq<Seq<char>>) -> int {
    m.dom().len() - m.remove_keys(keys.to_set()).dom().len()
}

proof fn lemma_remove_keys_dom(m: StoreMap, ks: Set<Seq<char>>)
    requires
        m.dom().finite(),
    ensures
        m.remove_keys(ks).dom() == m.dom().difference(ks),
        m.remove_keys(ks).dom().finite(),
        m.remove_keys(ks).dom().len() <= m.dom().len(),
{
    assert(m.remove_keys(ks).dom() =~= m.dom().difference(ks));
    lemma_len_subset(m.dom().difference(ks), m.dom());
}

proof fn lemma_del(keys: Seq<Seq<char>>, m: StoreMap, n: int)
    requires
        m.dom().finite(),
        0 <= n,
        n + removed_count(m, keys) <= i32::MAX,
    ensures
        spec_del(bulks(keys), m, n) == Some((n + removed_count(m, keys), m.remove_keys(keys.to_set()))),
    decreases keys.len(),
{
    lemma_remove_keys_dom(m, keys.to_set());
    if keys.len() == 0 {
        assert(m.remove_keys(keys.to_set()) =~= m);
    } else {
        let k = keys[0];
        let rest = keys.skip(1);
        lemma_bulks_front(keys);
        assert(keys.to_set() =~= rest.to_set().insert(k)) by {
            assert forall|x: Seq<char>| keys.to_set().contains(x) <==> rest.to_set().insert(k).contains(x) by {
                if keys.contains(x) && x != k {
                    let i = choose|i: int| 0 <= i < keys.len() && keys[i] == x;
                    assert(rest[i - 1] == x);
                }
                if rest.contains(x) {
                    let i = choose|i: int| 0 <= i < rest.len() && rest[i] == x;
                    assert(keys[i + 1] == x);
                }
                if x == k {
                    assert(keys[0] == x);
                }
            }
        }
        if m.contains_key(k) {
            let m1 = m.remove(k);
            assert(m1.dom() =~= m.dom().remove(k));
            assert(m1.remove_keys(rest.to_set()) =~= m.remove_keys(keys.to_set()));
            lemma_remove_keys_dom(m1, rest.to_set());
            assert(removed_count(m1, rest) == removed_count(m, keys) - 1);
            lemma_del(rest, m1, n + 1);
        } else {
            assert(m.remove_keys(rest.to_set()) =~= m.remove_keys(keys.to_set()));
            lemma_del(rest, m, n);
        }
    }
}

/// `DEL k1 .. kn` removes every key named and nothing else, whichever of
/// them the store held and in whatever order they come, and answers how many
/// keys it removed: the number of keys the store held less the number it
/// holds afterwards (each key counted once, however often it is named).
pub proof fn law_del_removes_named_keys(m: StoreMap, keys: Seq<Seq<char>>, now: Instant)
    requires
        m.dom().finite(),
        removed_count(m, keys) <= i32::MAX,
    ensures
        spec_execute(command(seq!["DEL"@] + keys), m, now) == Execution::Done(
            plus_line(decimal(removed_count(m, keys))),
            m.remove_keys(keys.to_set()),
        ),
        forall|k: Seq<char>| keys.contains(k) ==> !#[trigger] m.remove_keys(keys.to_set()).contains_key(k),
        forall|k: Seq<char>|
            !keys.contains(k) && #[trigger] m.contains_key(k) ==> m.remove_keys(keys.to_set()).contains_key(k)
                && m.remove_keys(keys.to_set())[k] == m[k],
{
    reveal_strlit("SET");
    reveal_strlit("GET");
    reveal_strlit("PING");
    reveal_strlit("ECHO");
    reveal_strlit("EXIST");
    reveal_strlit("DEL");
    lemma_command_args("DEL"@, keys);
    let a = seq![RespValue::BulkString("DEL"@)] + bulks(keys);
    assert(a.skip(1) =~= bulks(keys));
    assert(a[0] == RespValue::BulkString("DEL"@));
    assert("DEL"@.len() == 3 && "PING"@.len() == 4 && "ECHO"@.len() == 4 && "EXIST"@.len() == 5);
    assert("DEL"@[0] == 'D' && "SET"@[0] == 'S' && "GET"@[0] == 'G');
    lemma_del(keys, m, 0);
}

// ---------------------------------------------------------------------------
// EXIST
// ---------------------------------------------------------------------------

/// The store holds `k`, and it has not expired at `now`.
pub open spec fn live(m: StoreMap, k: Seq<char>, now: Instant) -> bool {
    m.contains_key(k) && !expired_at(m[k], now)
}

pub open spec fn live_in(m: StoreMap, now: Instant) -> spec_fn(Seq<char>) -> bool {
    |k: Seq<char>| live(m, k, now)
}

/// The keys among `keys` that the store holds but that have expired at `now`.
pub open spec fn expired_among(m: StoreMap, keys: Seq<Seq<char>>, now: Instant) -> Set<Seq<char>> {
    Set::new(|k: Seq<char>| keys.contains(k) && m.contains_key(k) && expired_at(m[k], now))
}

/// How many of `keys`, counted with repetition, are live in `m` at `now`.
pub open spec fn live_count(m: StoreMap, keys: Seq<Seq<char>>, now: Instant) -> int {
    keys.filter(live_in(m, now)).len() as int
}

proof fn lemma_exist(keys: Seq<Seq<char>>, m: StoreMap, now: Instant, n: int)
    requires
        0 <= n,
        n + live_count(m, keys, now) <= i32::MAX,
    ensures
        spec_exist(bulks(keys), m, now, n) == Some((n + live_count(m, keys, now), m.remove_keys(expired_among(m, keys, now)))),
    decreases keys.len(),
{
    if keys.len() == 0 {
        assert(keys.filter(live_in(m, now)) =~= Seq::<Seq<char>>::empty()) by {
            reveal(Seq::filter);
        }
        assert(m.remove_keys(expired_among(m, keys, now)) =~= m);
    } else {
        let k = keys[0];
        let rest = keys.skip(1);
        lemma_bulks_front(keys);
        assert(keys =~= seq![k] + rest);
        rest.lemma_filter_prepend(k, live_in(m, now));
        let (g, m1) = spec_get(m, k, now);
        assert(live_in(m1, now) =~= live_in(m, now));
        assert forall|x: Seq<char>| #[trigger] keys.contains(x) <==> x == k || rest.contains(x) by {
            if keys.contains(x) && x != k {
                let i = choose|i: int| 0 <= i < keys.len() && keys[i] == x;
                assert(rest[i - 1] == x);
            }
            if rest.contains(x) {
                let i = choose|i: int| 0 <= i < rest.len() && rest[i] == x;
                assert(keys[i + 1] == x);
            }
            if x == k {
                assert(keys[0] == x);
            }
        }
        assert(m1.remove_keys(expired_among(m1, rest, now)) =~= m.remove_keys(expired_among(m, keys, now)));
        if live(m, k, now) {
            lemma_exist(rest, m1, now, n + 1);
        } else {
            lemma_exist(rest, m1, now, n);
        }
    }
}

/// `EXIST k1 .. kn` answers how many of the keys named, counted as often as
/// they are named, the store holds unexpired at that instant, whatever their
/// order: a key that is missing or has expired adds nothing wherever it
/// stands. Reading the keys removes those of them that have expired, and
/// nothing else.
pub proof fn law_exist_counts_live_keys(m: StoreMap, keys: Seq<Seq<char>>, now: Instant)
    requires
        live_count(m, keys, now) <= i32::MAX,
    ensures
        spec_execute(command(seq!["EXIST"@] + keys), m, now) == Execution::Done(
            plus_line(decimal(live_count(m, keys, now))),
            m.remove_keys(expired_among(m, keys, now)),
        ),
{
    reveal_strlit("SET");
    reveal_strlit("GET");
    reveal_strlit("PING");
    reveal_strlit("ECHO");
    reveal_strlit("EXIST");
    lemma_command_args("EXIST"@, keys);
    let a = seq![RespValue::BulkString("EXIST"@)] + bulks(keys);
    assert(a.skip(1) =~= bulks(keys));
    assert(a[0] == RespValue::BulkString("EXIST"@));
    assert("EXIST"@.len() == 5 && "PING"@.len() == 4 && "ECHO"@.len() == 4 && "SET"@.len() == 3 && "GET"@.len() == 3);
    lemma_exist(keys, m, now, 0);
}

/// The count that `EXIST` answers does not depend on the order of the keys:
/// naming the keys `a` then `b` counts as many as naming `b` then `a`.
pub proof fn law_exist_ignores_order(m: StoreMap, a: Seq<Seq<char>>, b: Seq<Seq<char>>, now: Instant)
    ensures
        live_count(m, a + b, now) == live_count(m, b + a, now),
        live_count(m, a + b, now) == live_count(m, a, now) + live_count(m, b, now),
{
    Seq::filter_distributes_over_add(a, b, live_in(m, now));
    Seq::filter_distributes_over_add(b, a, live_in(m, now));
}

// ---------------------------------------------------------------------------
// LPUSH and RPUSH
// ---------------------------------------------------------------------------

/// The elements after adding the values one after another, each at the end
/// asked for.
pub open spec fn placed_all(es: Seq<Seq<char>>, values: Seq<Seq<char>>, placement: ArrayPlacement) -> Seq<Seq<char>>
    decreases values.len(),
{
    if values.len() == 0 {
        es
    } else {
        placed_all(placed(es, values[0], placement), values.skip(1), placement)
    }
}

proof fn lemma_placed_plain(es: Seq<Seq<char>>, value: Seq<char>, placement: ArrayPlacement)
    requires
        plain_items(es),
        plain_item(value),
    ensures
        plain_items(placed(es, value, placement)),
        placed(es, value, placement).len() == es.len() + 1,
{
    let ns = placed(es, value, placement);
    assert forall|i: int| 0 <= i < ns.len() implies plain_item(#[trigger] ns[i]) by {
        match placement {
            ArrayPlacement::RIGHT => {
                if i < es.len() {
                    assert(ns[i] == es[i]);
                }
            },
            ArrayPlacement::LEFT => {
                if i > 0 {
                    assert(ns[i] == es[i - 1]);
                }
            },
        }
    }
}

proof fn lemma_plain_skip(values: Seq<Seq<char>>)
    requires
        plain_items(values),
        values.len() > 0,
    ensures
        plain_items(values.skip(1)),
        plain_item(values[0]),
{
    assert forall|i: int| 0 <= i < values.skip(1).len() implies plain_item(#[trigger] values.skip(1)[i]) by {
        assert(values.skip(1)[i] == values[i + 1]);
    }
}

proof fn lemma_placed_all(es: Seq<Seq<char>>, values: Seq<Seq<char>>, placement: ArrayPlacement)
    requires
        plain_items(es),
        plain_items(values),
    ensures
        plain_items(placed_all(es, values, placement)),
        placed_all(es, values, placement).len() == es.len() + values.len(),
    decreases values.len(),
{
    if values.len() > 0 {
        lemma_plain_skip(values);
        lemma_placed_plain(es, values[0], placement);
        lemma_placed_all(placed(es, values[0], placement), values.skip(1), placement);
    }
}

proof fn lemma_push(
    key: Seq<char>,
    es: Seq<Seq<char>>,
    expiry: Option<Instant>,
    values: Seq<Seq<char>>,
    placement: ArrayPlacement,
    m: StoreMap,
    now: Instant,
    last: u32,
)
    requires
        m.contains_key(key),
        m[key] == (CellModel { value: list_text(es), expiry }),
        !expired_at(m[key], now),
        plain_items(es),
        plain_items(values),
        es.len() + values.len() <= u32::MAX,
    ensures
        spec_push_all(key, bulks(values), placement, m, now, last) == (
            Ok::<u32, Seq<char>>(if values.len() == 0 { last } else { (es.len() + values.len()) as u32 }),
            m.insert(key, CellModel { value: list_text(placed_all(es, values, placement)), expiry }),
        ),
    decreases values.len(),
{
    if values.len() == 0 {
        assert(m.insert(key, CellModel { value: list_text(placed_all(es, values, placement)), expiry }) =~= m);
    } else {
        lemma_bulks_front(values);
        lemma_plain_skip(values);
        let v = values[0];
        law_insert_on_list(es, v, placement);
        lemma_placed_plain(es, v, placement);
        let es1 = placed(es, v, placement);
        assert(spec_get(m, key, now) == (Some(m[key]), m));
        assert(spec_insert_on_array(list_text(es), v, placement) == Ok::<(Seq<char>, u32), Seq<char>>(
            (list_text(es1), (es.len() + 1) as u32),
        ));
        let m1 = m.insert(key, CellModel { value: list_text(es1), expiry });
        assert(spec_set_list(m, key, v, placement, now) == (Ok::<u32, Seq<char>>((es.len() + 1) as u32), m1));
        lemma_push(key, es1, expiry, values.skip(1), placement, m1, now, (es.len() + 1) as u32);
        let fin = CellModel { value: list_text(placed_all(es, values, placement)), expiry };
        assert(m1.insert(key, fin) =~= m.insert(key, fin));
    }
}

/// What `LPUSH` (with `left`) or `RPUSH` of bulk strings does, by the values
/// pushed one after another.
proof fn lemma_push_dispatch(m: StoreMap, key: Seq<char>, values: Seq<Seq<char>>, left: bool, now: Instant)
    ensures
        ({
            let name = if left { "LPUSH"@ } else { "RPUSH"@ };
            let placement = if left { ArrayPlacement::LEFT } else { ArrayPlacement::RIGHT };
            spec_execute(command(seq![name, key] + values), m, now) == match spec_push_all(key, bulks(values), placement, m, now, 0) {
                (Ok(n), m1) => Execution::Done(plus_line(decimal(n as int)), m1),
                (Err(e), m1) => Execution::Done(minus_line(e), m1),
            }
        }),
{
    reveal_strlit("SET");
    reveal_strlit("GET");
    reveal_strlit("PING");
    reveal_strlit("ECHO");
    reveal_strlit("EXIST");
    reveal_strlit("DEL");
    reveal_strlit("INCR");
    reveal_strlit("DECR");
    reveal_strlit("LPUSH");
    reveal_strlit("RPUSH");
    let name = if left { "LPUSH"@ } else { "RPUSH"@ };
    let words = seq![key] + values;
    assert(seq![name, key] + values =~= seq![name] + words);
    lemma_command_args(name, words);
    let a = seq![RespValue::BulkString(name)] + bulks(words);
    let args = a.skip(1);
    assert(args =~= bulks(words));
    assert(a[0] == RespValue::BulkString(name));
    assert(words.skip(1) =~= values);
    lemma_bulks_front(words);
    assert(all_bulk(args.skip(1)));
    assert(name.len() == 5 && "PING"@.len() == 4 && "ECHO"@.len() == 4 && "SET"@.len() == 3 && "GET"@.len() == 3);
    assert("EXIST"@[0] == 'E' && name[0] != 'E' && "DEL"@.len() == 3 && "INCR"@.len() == 4 && "DECR"@.len() == 4);
}

/// `RPUSH key v1 .. vn` (`LPUSH` with `left`) on a key holding a list of
/// plain elements adds the plain values one after another at the end asked
/// for, keeping the key's expiry, and answers the length of the list it
/// leaves: the elements it had and the values pushed, as reading the list
/// back shows.
pub proof fn law_push_replies_list_length(
    m: StoreMap,
    key: Seq<char>,
    es: Seq<Seq<char>>,
    expiry: Option<Instant>,
    values: Seq<Seq<char>>,
    left: bool,
    now: Instant,
)
    requires
        m.contains_key(key),
        m[key] == (CellModel { value: list_text(es), expiry }),
        !expired_at(m[key], now),
        plain_items(es),
        plain_items(values),
        values.len() >= 1,
        es.len() + values.len() <= u32::MAX,
    ensures
        ({
            let name = if left { "LPUSH"@ } else { "RPUSH"@ };
            let placement = if left { ArrayPlacement::LEFT } else { ArrayPlacement::RIGHT };
            let after = m.insert(key, CellModel { value: list_text(placed_all(es, values, placement)), expiry });
            &&& spec_execute(command(seq![name, key] + values), m, now) == Execution::Done(
                plus_line(decimal((es.len() + values.len()) as int)),
                after,
            )
            &&& elements(after[key].value).len() == es.len() + values.len()
            &&& elements(after[key].value) == placed_all(es, values, placement)
        }),
{
    let placement = if left { ArrayPlacement::LEFT } else { ArrayPlacement::RIGHT };
    lemma_push_dispatch(m, key, values, left, now);
    lemma_push(key, es, expiry, values, placement, m, now, 0);
    lemma_placed_all(es, values, placement);
    law_list_text_reads_back(placed_all(es, values, placement));
}

/// `RPUSH key v1 .. vn` (`LPUSH` with `left`) on a key that the store does
/// not hold, or that has expired, makes it a list of the plain values, added
/// one after another at the end asked for and without expiry, and answers
/// the number of values.
pub proof fn law_push_onto_missing_key(m: StoreMap, key: Seq<char>, values: Seq<Seq<char>>, left: bool, now: Instant)
    requires
        !live(m, key, now),
        plain_items(values),
        values.len() >= 1,
        values.len() <= u32::MAX,
    ensures
        ({
            let name = if left { "LPUSH"@ } else { "RPUSH"@ };
            let placement = if left { ArrayPlacement::LEFT } else { ArrayPlacement::RIGHT };
            let after = spec_get(m, key, now).1.insert(
                key,
                CellModel { value: list_text(placed_all(Seq::empty(), values, placement)), expiry: None },
            );
            &&& spec_execute(command(seq![name, key] + values), m, now) == Execution::Done(
                plus_line(decimal(values.len() as int)),
                after,
            )
            &&& elements(after[key].value) == placed_all(Seq::empty(), values, placement)
            &&& elements(after[key].value).len() == values.len()
        }),
{
    let placement = if left { ArrayPlacement::LEFT } else { ArrayPlacement::RIGHT };
    lemma_push_dispatch(m, key, values, left, now);
    lemma_bulks_front(values);
    lemma_plain_skip(values);
    let v = values[0];
    let first = seq![v];
    assert(placed(Seq::<Seq<char>>::empty(), v, placement) =~= first);
    assert(join(first, ',') == v);
    assert(seq!['['] + v + seq![']'] == list_text(first));
    let m0 = spec_get(m, key, now).1;
    assert(!m0.contains_key(key));
    let m1 = m0.insert(key, CellModel { value: list_text(first), expiry: None });
    assert(spec_set_list(m, key, v, placement, now) == (Ok::<u32, Seq<char>>(1), m1));
    assert(plain_items(first)) by {
        assert(first[0] == v);
    }
    lemma_push(key, first, None, values.skip(1), placement, m1, now, 1);
    let fin = CellModel { value: list_text(placed_all(Seq::empty(), values, placement)), expiry: None };
    assert(m1.insert(key, fin) =~= m0.insert(key, fin));
    lemma_placed_all(Seq::empty(), values, placement);
    law_list_text_reads_back(placed_all(Seq::empty(), values, placement));
}

/// `RPUSH key v` (`LPUSH` with `left`) of one non-empty value, whatever its
/// characters, on a key holding a list value adds it at the end asked for,
/// keeping the key's expiry, and answers the number of elements the list had
/// plus one; on a key holding a value that is no list it answers the error
/// and leaves the store as it was.
pub proof fn law_push_one_value(m: StoreMap, key: Seq<char>, value: Seq<char>, left: bool, now: Instant)
    requires
        live(m, key, now),
        value.len() > 0,
        elements(m[key].value).len() + 1 <= u32::MAX,
    ensures
        ({
            let name = if left { "LPUSH"@ } else { "RPUSH"@ };
            let placement = if left { ArrayPlacement::LEFT } else { ArrayPlacement::RIGHT };
            let es = elements(m[key].value);
            let r = spec_execute(command(seq![name, key, value]), m, now);
            &&& array_pattern(m[key].value) ==> r == Execution::Done(
                plus_line(decimal((es.len() + 1) as int)),
                m.insert(key, CellModel { value: list_text(placed(es, value, placement)), expiry: m[key].expiry }),
            )
            &&& !array_pattern(m[key].value) ==> r == Execution::Done(
                minus_line("The string it's not an array"@),
                m,
            )
        }),
{
    let placement = if left { ArrayPlacement::LEFT } else { ArrayPlacement::RIGHT };
    let name = if left { "LPUSH"@ } else { "RPUSH"@ };
    let values = seq![value];
    assert(seq![name, key, value] =~= seq![name, key] + values);
    lemma_push_dispatch(m, key, values, left, now);
    lemma_bulks_front(values);
    assert(values.skip(1) =~= Seq::<Seq<char>>::empty());
    assert(bulks(values.skip(1)) =~= Seq::<RespValue>::empty());
    assert(spec_get(m, key, now) == (Some(m[key]), m));
    let (r1, m1) = spec_set_list(m, key, value, placement, now);
    match r1 {
        Ok(n) => {
            assert(spec_push_all(key, bulks(values.skip(1)), placement, m1, now, n) == (Ok::<u32, Seq<char>>(n), m1));
        },
        Err(e) => {},
    }
}

} // verus!
