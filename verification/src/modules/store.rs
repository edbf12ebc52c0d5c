//! The key-value store: each key holds a text value and, possibly, the
//! instant at which it expires. A read at or after that instant removes the
//! key and finds nothing.
use vstd::prelude::*;

use crate::modules::clock::{chrono_utc_text, instant_lt, instant_text, is_before, now, utc_in_range, Instant};
use crate::modules::string_array::{insert_on_array, spec_insert_on_array, ArrayPlacement};
use crate::keyed::{distinct_keys, key_at, key_lt, lemma_absent, lemma_key_lt_order, lemma_lookup, lemma_push, lemma_remove, order_by_key, pairs_to_map};
use crate::text::{chars_of, extend_chars, string_of};

verus! {

/// The value kept under a key, and when it expires.
#[derive(Debug)]
pub struct RedisCell {
    pub value: String,
    pub expiry: Option<Instant>,
}

/// The mathematical content of a [`RedisCell`].
pub struct CellModel {
    pub value: Seq<char>,
    pub expiry: Option<Instant>,
}

impl RedisCell {
    pub open spec fn model(self) -> CellModel {
        CellModel { value: self.value@, expiry: self.expiry }
    }
}

pub open spec fn opt_cell(r: Option<&RedisCell>) -> Option<CellModel> {
    match r {
        Some(c) => Some(c.model()),
        None => None,
    }
}

pub open spec fn opt_owned_cell(r: Option<RedisCell>) -> Option<CellModel> {
    match r {
        Some(c) => Some(c.model()),
        None => None,
    }
}

/// A cell that has expired at `now`.
pub open spec fn expired_at(c: CellModel, now: Instant) -> bool {
    c.expiry matches Some(e) && !instant_lt(now, e)
}

/// Reading `k` at `now`: the cell, unless there is none or it has expired,
/// in which case it is removed.
pub open spec fn spec_get(m: Map<Seq<char>, CellModel>, k: Seq<char>, now: Instant) -> (Option<CellModel>, Map<Seq<char>, CellModel>) {
    if !m.contains_key(k) {
        (None, m)
    } else if expired_at(m[k], now) {
        (None, m.remove(k))
    } else {
        (Some(m[k]), m)
    }
}

/// Adding `v` to the list under `k` at `now`: the new number of elements (or
/// the error for a value that is no list) and the store after it. A missing
/// key gets the list `[v]`.
pub open spec fn spec_set_list(
    m: Map<Seq<char>, CellModel>,
    k: Seq<char>,
    v: Seq<char>,
    placement: ArrayPlacement,
    now: Instant,
) -> (Result<u32, Seq<char>>, Map<Seq<char>, CellModel>) {
    let (g, m1) = spec_get(m, k, now);
    match g {
        Some(c) => match spec_insert_on_array(c.value, v, placement) {
            Ok((nv, len)) => (Ok(len), m1.insert(k, CellModel { value: nv, expiry: c.expiry })),
            Err(e) => (Err(e), m1),
        },
        None => (Ok(1), m1.insert(k, CellModel { value: seq!['['] + v + seq![']'], expiry: None })),
    }
}

/// The store.
pub struct Redis {
    entries: Vec<(String, RedisCell)>,
}

impl Redis {
    pub closed spec fn pairs(self) -> Seq<(Seq<char>, CellModel)> {
        Seq::new(self.entries@.len(), |i: int| (self.entries@[i].0@, self.entries@[i].1.model()))
    }

    /// No key occurs twice.
    pub closed spec fn wf(self) -> bool {
        distinct_keys(self.pairs())
    }
}

impl View for Redis {
    type V = Map<Seq<char>, CellModel>;

    closed spec fn view(&self) -> Map<Seq<char>, CellModel> {
        pairs_to_map(self.pairs())
    }
}

impl Redis {
    /// An empty store.
    pub fn new() -> (r: Redis)
        ensures
            r.wf(),
            r@ == Map::<Seq<char>, CellModel>::empty(),
    {
        let r = Redis { entries: Vec::new() };
        assert(r@ =~= Map::<Seq<char>, CellModel>::empty());
        r
    }

    /// Where `key` is kept, if anywhere.
    fn find(&self, key: &String) -> (r: Option<usize>)
        ensures
            match r {
                Some(i) => i < self.pairs().len() && self.pairs()[i as int].0 == key@,
                None => forall|i: int| 0 <= i < self.pairs().len() ==> (#[trigger] self.pairs()[i]).0 != key@,
            },
    {
        let mut i: usize = 0;
        while i < self.entries.len()
            invariant
                i <= self.entries.len(),
                forall|j: int| 0 <= j < i ==> (#[trigger] self.pairs()[j]).0 != key@,
            decreases self.entries.len() - i,
        {
            if self.entries[i].0 == *key {
                return Some(i);
            }
            i = i + 1;
        }
        None
    }

    /// Keeps `value` under `key`, replacing (and returning) what was there.
    pub fn set(&mut self, key: String, value: RedisCell) -> (r: Option<RedisCell>)
        requires
            old(self).wf(),
        ensures
            final(self).wf(),
            final(self)@ == old(self)@.insert(key@, value.model()),
            opt_owned_cell(r) == (if old(self)@.contains_key(key@) {
                Some(old(self)@[key@])
            } else {
                None
            }),
    {
        let ghost ps = self.pairs();
        let ghost k = key@;
        let ghost c = value.model();
        match self.find(&key) {
            Some(i) => {
                proof {
                    lemma_lookup(ps, i as int);
                    lemma_remove(ps, i as int);
                }
                let (_, old_cell) = self.entries.remove(i);
                assert(self.pairs() =~= ps.remove(i as int));
                proof {
                    lemma_push(ps.remove(i as int), k, c);
                }
                self.entries.push((key, value));
                assert(self.pairs() =~= ps.remove(i as int).push((k, c)));
                assert(self@ =~= old(self)@.insert(k, c));
                Some(old_cell)
            },
            None => {
                proof {
                    lemma_absent(ps, k);
                    lemma_push(ps, k, c);
                }
                self.entries.push((key, value));
                assert(self.pairs() =~= ps.push((k, c)));
                None
            },
        }
    }

    /// Removes `key`, returning what was kept under it.
    pub fn delete(&mut self, key: &str) -> (r: Option<RedisCell>)
        requires
            old(self).wf(),
        ensures
            final(self).wf(),
            final(self)@ == old(self)@.remove(key@),
            opt_owned_cell(r) == (if old(self)@.contains_key(key@) {
                Some(old(self)@[key@])
            } else {
                None
            }),
    {
        let ghost ps = self.pairs();
        let k = String::from_str(key);
        match self.find(&k) {
            Some(i) => {
                proof {
                    lemma_lookup(ps, i as int);
                    lemma_remove(ps, i as int);
                }
                let (_, old_cell) = self.entries.remove(i);
                assert(self.pairs() =~= ps.remove(i as int));
                Some(old_cell)
            },
            None => {
                proof {
                    lemma_absent(ps, key@);
                }
                assert(self@ =~= old(self)@.remove(key@));
                None
            },
        }
    }

    /// Reads `key` at the instant `now`: the cell kept under it, or nothing
    /// where there is none or it has expired (an expired key is removed).
    pub fn get_at(&mut self, key: &str, now: Instant) -> (r: Option<&RedisCell>)
        requires
            old(self).wf(),
        ensures
            final(self).wf(),
            spec_get(old(self)@, key@, now) == (opt_cell(r), final(self)@),
    {
        let ghost ps = self.pairs();
        let k = String::from_str(key);
        match self.find(&k) {
            None => {
                proof {
                    lemma_absent(ps, key@);
                }
                None
            },
            Some(i) => {
                proof {
                    lemma_lookup(ps, i as int);
                }
                let expired = match self.entries[i].1.expiry {
                    Some(e) => !is_before(&now, &e),
                    None => false,
                };
                if expired {
                    proof {
                        lemma_remove(ps, i as int);
                    }
                    self.entries.remove(i);
                    assert(self.pairs() =~= ps.remove(i as int));
                    None
                } else {
                    Some(&self.entries[i].1)
                }
            },
        }
    }

    /// The cell kept under `key` that has not expired at `now`, if any; the
    /// store is not touched.
    pub fn lookup_at(&self, key: &str, now: Instant) -> (r: Option<&RedisCell>)
        requires
            self.wf(),
        ensures
            opt_cell(r) == spec_get(self@, key@, now).0,
    {
        let ghost ps = self.pairs();
        let k = String::from_str(key);
        match self.find(&k) {
            None => {
                proof {
                    lemma_absent(ps, key@);
                }
                None
            },
            Some(i) => {
                proof {
                    lemma_lookup(ps, i as int);
                }
                let expired = match self.entries[i].1.expiry {
                    Some(e) => !is_before(&now, &e),
                    None => false,
                };
                if expired {
                    None
                } else {
                    Some(&self.entries[i].1)
                }
            },
        }
    }

    /// Reads `key` at the instant the clock shows: the cell kept under it,
    /// or nothing where there is none or it has expired (an expired key is
    /// removed).
    pub fn get(&mut self, key: &str) -> (r: Option<&RedisCell>)
        requires
            old(self).wf(),
        ensures
            final(self).wf(),
            exists|t: Instant| spec_get(old(self)@, key@, t) == (opt_cell(r), final(self)@),
    {
        let t = now();
        self.get_at(key, t)
    }

    /// Adds `value` at the given end of the list kept under `key` at the
    /// instant `now`, and returns the new number of elements; a missing key
    /// gets the one-element list. The store is left as it was (but for an
    /// expired key) where the value kept is no list.
    pub fn set_list_at(&mut self, key: String, value: String, placement: ArrayPlacement, now: Instant) -> (r: Result<u32, String>)
        requires
            old(self).wf(),
        ensures
            final(self).wf(),
            spec_set_list(old(self)@, key@, value@, placement, now) == (
                match r {
                    Ok(n) => Ok(n),
                    Err(e) => Err(e@),
                },
                final(self)@,
            ),
    {
        let redis_return = self.get_at(key.as_str(), now);
        match redis_return {
            Some(cell) => {
                let inserted = insert_on_array(cell.value.as_str(), value.as_str(), placement);
                let expiry = cell.expiry;
                match inserted {
                    Ok((new_value, len)) => {
                        self.set(key, RedisCell { value: new_value, expiry });
                        Ok(len)
                    },
                    Err(e) => Err(e),
                }
            },
            None => {
                let mut text: Vec<char> = Vec::new();
                text.push('[');
                let v = chars_of(value.as_str());
                crate::text::extend_chars(&mut text, &v);
                text.push(']');
                assert(text@ =~= seq!['['] + value@ + seq![']']);
                self.set(key, RedisCell { value: string_of(&text), expiry: None });
                Ok(1)
            },
        }
    }

    /// [`Redis::set_list_at`] at the instant the clock shows.
    pub fn set_list(&mut self, key: String, value: String, placement: ArrayPlacement) -> (r: Result<u32, String>)
        requires
            old(self).wf(),
        ensures
            final(self).wf(),
            exists|t: Instant|
                spec_set_list(old(self)@, key@, value@, placement, t) == (
                    match r {
                        Ok(n) => Ok(n),
                        Err(e) => Err(e@),
                    },
                    final(self)@,
                ),
    {
        let t = now();
        self.set_list_at(key, value, placement, t)
    }
}

// ---------------------------------------------------------------------------
// Listing the store
// ---------------------------------------------------------------------------

/// How a cell is written: its value and, where it expires, a comma and the
/// instant as chrono writes it; nothing where chrono has no such instant.
pub open spec fn cell_text(c: CellModel) -> Option<Seq<char>> {
    match c.expiry {
        None => Some(c.value),
        Some(e) => match chrono_utc_text(e.secs, e.nanos) {
            Some(t) => Some(c.value + ","@ + t),
            None => None,
        },
    }
}

/// A cell that can be written: it does not expire, or it expires at an
/// ordinary instant (fewer than a billion nanoseconds) in chrono's range.
pub open spec fn writable(c: CellModel) -> bool {
    match c.expiry {
        None => true,
        Some(e) => utc_in_range(e.secs as int) && e.nanos < 1_000_000_000,
    }
}

pub open spec fn opt_text(s: Option<String>) -> Option<Seq<char>> {
    match s {
        Some(x) => Some(x@),
        None => None,
    }
}

/// The entries one after the other, each as a line break, its key, a comma
/// and its cell; nothing where a cell cannot be written.
pub open spec fn listing(ps: Seq<(Seq<char>, CellModel)>) -> Option<Seq<char>>
    decreases ps.len(),
{
    if ps.len() == 0 {
        Some(seq![])
    } else {
        match (listing(ps.drop_last()), cell_text(ps.last().1)) {
            (Some(a), Some(t)) => Some(a + "\n"@ + ps.last().0 + ","@ + t),
            _ => None,
        }
    }
}

/// The entries come in the order of their keys.
pub open spec fn sorted_by_key(ps: Seq<(Seq<char>, CellModel)>) -> bool {
    forall|a: int, b: int| 0 <= a < b < ps.len() ==> key_lt(ps[a].0, ps[b].0)
}

impl RedisCell {
    /// The cell as written: its value and, where it expires, a comma and
    /// the instant; `None` where chrono has no such instant.
    pub fn to_text(&self) -> (s: Option<String>)
        ensures
            opt_text(s) == cell_text(self.model()),
            writable(self.model()) ==> s is Some,
    {
        match self.expiry {
            None => Some(self.value.clone()),
            Some(e) => match instant_text(e) {
                Some(t) => {
                    let mut v = chars_of(self.value.as_str());
                    let comma = chars_of(",");
                    extend_chars(&mut v, &comma);
                    let tv = chars_of(t.as_str());
                    extend_chars(&mut v, &tv);
                    Some(string_of(&v))
                },
                None => None,
            },
        }
    }
}

impl Redis {
    /// The store written out: its entries in the order of their keys, each
    /// as a line break, the key, a comma and the cell; `None` where an
    /// expiry is no instant chrono can write.
    pub fn to_text(&self) -> (s: Option<String>)
        requires
            self.wf(),
        ensures
            exists|ps: Seq<(Seq<char>, CellModel)>|
                sorted_by_key(ps) && pairs_to_map(ps) == self@ && opt_text(s) == listing(ps),
            (forall|k: Seq<char>| #[trigger] self@.contains_key(k) ==> writable(self@[k])) ==> s is Some,
    {
        let ghost all = self.pairs();
        let ghost all_writable = forall|k: Seq<char>| #[trigger] self@.contains_key(k) ==> writable(self@[k]);
        let n = self.entries.len();
        let mut keys: Vec<Vec<char>> = Vec::new();
        let mut t: usize = 0;
        while t < n
            invariant
                t <= n == self.entries@.len() == all.len(),
                all == self.pairs(),
                keys@.len() == t,
                forall|k: int| 0 <= k < t ==> (#[trigger] keys@[k])@ == all[k].0,
            decreases n - t,
        {
            keys.push(chars_of(self.entries[t].0.as_str()));
            t = t + 1;
        }
        let idx = order_by_key(&keys);
        let ghost ps = Seq::new(n as nat, |u: int| all[idx@[u] as int]);
        let mut out: Vec<char> = Vec::new();
        let mut ok = true;
        let mut u: usize = 0;
        while u < n
            invariant
                u <= n == idx@.len() == all.len() == self.entries@.len(),
                all == self.pairs(),
                ps == Seq::new(n as nat, |w: int| all[idx@[w] as int]),
                forall|w: int| 0 <= w < idx@.len() ==> (#[trigger] idx@[w]) < n,
                (if ok { Some(out@) } else { None }) == listing(ps.take(u as int)),
                self.wf(),
                all_writable == (forall|k: Seq<char>| #[trigger] self@.contains_key(k) ==> writable(self@[k])),
                all_writable ==> ok,
            decreases n - u,
        {
            let k = idx[u];
            let cell = &self.entries[k].1;
            proof {
                crate::keyed::lemma_lookup(all, k as int);
                assert(all[k as int].1 == cell.model());
                if all_writable {
                    assert(self@.contains_key(all[k as int].0));
                }
            }
            assert(ps.take(u + 1).drop_last() =~= ps.take(u as int));
            assert(ps[u as int] == all[k as int]);
            match cell.to_text() {
                Some(text) => {
                    if ok {
                        out.push('\n');
                        let key = chars_of(self.entries[k].0.as_str());
                        extend_chars(&mut out, &key);
                        out.push(',');
                        let tv = chars_of(text.as_str());
                        extend_chars(&mut out, &tv);
                    }
                },
                None => {
                    ok = false;
                },
            }
            proof {
                reveal_strlit("\n");
                reveal_strlit(",");
            }
            u = u + 1;
        }
        assert(ps.take(n as int) =~= ps);
        proof {
            assert(sorted_by_key(ps)) by {
                assert forall|a: int, b: int| 0 <= a < b < ps.len() implies key_lt(ps[a].0, ps[b].0) by {
                    assert(key_at(keys@, idx@, a) == ps[a].0);
                    assert(key_at(keys@, idx@, b) == ps[b].0);
                }
            }
            lemma_sorted_listing_map(all, idx@, ps);
        }
        if ok {
            Some(string_of(&out))
        } else {
            None
        }
    }
}

/// A sorted arrangement of all the entries of a list of distinct keys stands
/// for the same map.
proof fn lemma_sorted_listing_map(all: Seq<(Seq<char>, CellModel)>, idx: Seq<usize>, ps: Seq<(Seq<char>, CellModel)>)
    requires
        distinct_keys(all),
        all.len() <= usize::MAX,
        idx.len() == all.len(),
        crate::keyed::covers(idx, all.len() as int),
        ps == Seq::new(all.len(), |u: int| all[idx[u] as int]),
        sorted_by_key(ps),
    ensures
        pairs_to_map(ps) == pairs_to_map(all),
{
    assert(distinct_keys(ps)) by {
        assert forall|a: int, b: int|
            0 <= a < ps.len() && 0 <= b < ps.len() && a != b implies (#[trigger] ps[a]).0 != (#[trigger] ps[b]).0 by {
            lemma_key_lt_order(ps[a].0, ps[b].0);
        }
    }
    let x = pairs_to_map(ps);
    let y = pairs_to_map(all);
    assert forall|k: Seq<char>| #[trigger] x.contains_key(k) == y.contains_key(k) by {
        if x.contains_key(k) {
            let u = choose|u: int| 0 <= u < ps.len() && (#[trigger] ps[u]).0 == k;
            assert(idx[u] < all.len());
            assert(all[idx[u] as int].0 == k);
        }
        if y.contains_key(k) {
            let j = choose|j: int| 0 <= j < all.len() && (#[trigger] all[j]).0 == k;
            assert(idx.contains(j as usize));
            let u = choose|u: int| 0 <= u < idx.len() && idx[u] == j as usize;
            assert(ps[u].0 == k);
        }
    }
    assert forall|k: Seq<char>| x.contains_key(k) implies #[trigger] x[k] == y[k] by {
        let u = choose|u: int| 0 <= u < ps.len() && (#[trigger] ps[u]).0 == k;
        let j = idx[u] as int;
        assert(idx[u] < all.len());
        crate::keyed::lemma_lookup(ps, u);
        crate::keyed::lemma_lookup(all, j);
    }
    assert(x =~= y);
}

} // verus!
