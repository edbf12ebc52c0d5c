//! A key-value database split into shards: each key lives in the shard that
//! its hash picks, and each shard maps keys to bytes. Requests set or read
//! one key.
use vstd::prelude::*;
use vstd::std_specs::hash::DefaultHasherAdditionalSpecFns;

use std::collections::hash_map::DefaultHasher;
use std::hash::Hasher;

use crate::keyed::{distinct_keys, lemma_absent, lemma_lookup, lemma_push, lemma_remove, pairs_to_map};

verus! {

/// One shard: keys and the bytes kept under them.
pub struct Shard {
    entries: Vec<(String, Vec<u8>)>,
}

impl Shard {
    pub closed spec fn pairs(self) -> Seq<(Seq<char>, Seq<u8>)> {
        Seq::new(self.entries@.len(), |i: int| (self.entries@[i].0@, self.entries@[i].1@))
    }

    /// No key occurs twice.
    pub closed spec fn wf(self) -> bool {
        distinct_keys(self.pairs())
    }
}

impl View for Shard {
    type V = Map<Seq<char>, Seq<u8>>;

    closed spec fn view(&self) -> Map<Seq<char>, Seq<u8>> {
        pairs_to_map(self.pairs())
    }
}

/// A copy of `bytes`.
fn copy_bytes(bytes: &Vec<u8>) -> (r: Vec<u8>)
    ensures
        r@ == bytes@,
{
    let mut r: Vec<u8> = Vec::new();
    let mut i: usize = 0;
    while i < bytes.len()
        invariant
            i <= bytes@.len(),
            r@ == bytes@.take(i as int),
        decreases bytes.len() - i,
    {
        r.push(bytes[i]);
        i = i + 1;
        assert(r@ =~= bytes@.take(i as int));
    }
    assert(bytes@.take(i as int) =~= bytes@);
    r
}

impl Shard {
    /// An empty shard.
    pub fn new() -> (s: Shard)
        ensures
            s.wf(),
            s@ == Map::<Seq<char>, Seq<u8>>::empty(),
    {
        let s = Shard { entries: Vec::new() };
        assert(s@ =~= Map::<Seq<char>, Seq<u8>>::empty());
        s
    }

    /// Where `key` is kept, if anywhere.
    fn find(&self, key: &str) -> (r: Option<usize>)
        ensures
            match r {
                Some(i) => i < self.pairs().len() && self.pairs()[i as int].0 == key@,
                None => forall|i: int| 0 <= i < self.pairs().len() ==> (#[trigger] self.pairs()[i]).0 != key@,
            },
    {
        let k = String::from_str(key);
        let mut i: usize = 0;
        while i < self.entries.len()
            invariant
                i <= self.entries.len(),
                k@ == key@,
                forall|j: int| 0 <= j < i ==> (#[trigger] self.pairs()[j]).0 != key@,
            decreases self.entries.len() - i,
        {
            if self.entries[i].0 == k {
                return Some(i);
            }
            i = i + 1;
        }
        None
    }

    /// Keeps `value` under `key`, in place of what was there.
    pub fn insert(&mut self, key: String, value: Vec<u8>)
        requires
            old(self).wf(),
        ensures
            final(self).wf(),
            final(self)@ == old(self)@.insert(key@, value@),
    {
        let ghost ps = self.pairs();
        let ghost k = key@;
        let ghost v = value@;
        match self.find(key.as_str()) {
            Some(i) => {
                proof {
                    lemma_remove(ps, i as int);
                    lemma_push(ps.remove(i as int), k, v);
                }
                self.entries.remove(i);
                assert(self.pairs() =~= ps.remove(i as int));
                self.entries.push((key, value));
                assert(self.pairs() =~= ps.remove(i as int).push((k, v)));
                assert(self@ =~= old(self)@.insert(k, v));
            },
            None => {
                proof {
                    lemma_absent(ps, k);
                    lemma_push(ps, k, v);
                }
                self.entries.push((key, value));
                assert(self.pairs() =~= ps.push((k, v)));
            },
        }
    }

    /// A copy of the bytes kept under `key`, if any.
    pub fn get(&self, key: &str) -> (r: Option<Vec<u8>>)
        requires
            self.wf(),
        ensures
            match r {
                Some(v) => self@.contains_key(key@) && v@ == self@[key@],
                None => !self@.contains_key(key@),
            },
    {
        let ghost ps = self.pairs();
        match self.find(key) {
            Some(i) => {
                proof {
                    lemma_lookup(ps, i as int);
                }
                Some(copy_bytes(&self.entries[i].1))
            },
            None => {
                proof {
                    lemma_absent(ps, key@);
                }
                None
            },
        }
    }
}

/// `num_shards` empty shards.
pub fn new_shared_db(num_shards: usize) -> (db: Vec<Shard>)
    ensures
        db@.len() == num_shards,
        forall|i: int| 0 <= i < num_shards ==> (#[trigger] db@[i]).wf() && db@[i]@ == Map::<Seq<char>, Seq<u8>>::empty(),
{
    let mut db: Vec<Shard> = Vec::with_capacity(num_shards);
    let mut i: usize = 0;
    while i < num_shards
        invariant
            i <= num_shards,
            db@.len() == i,
            forall|j: int| 0 <= j < i ==> (#[trigger] db@[j]).wf() && db@[j]@ == Map::<Seq<char>, Seq<u8>>::empty(),
        decreases num_shards - i,
    {
        db.push(Shard::new());
        i = i + 1;
    }
    db
}

/// What hashing the text `key` writes into a hasher that has seen `writes`.
pub uninterp spec fn str_hash_writes(writes: Seq<Seq<u8>>, key: Seq<char>) -> Seq<Seq<u8>>;

/// Feeds `key` to `state`.
///
/// Calls `<str as Hash>::hash`. What it writes into the hasher is named, not
/// stated: the writes depend on the text alone.
#[verifier::external_body]
fn hash_str_into(key: &str, state: &mut DefaultHasher)
    ensures
        final(state)@ == str_hash_writes(old(state)@, key@),
{
    std::hash::Hash::hash(key, state);
}

/// The hash of a key: that of a fresh `DefaultHasher` fed with the key.
pub open spec fn key_hash(key: Seq<char>) -> u64 {
    DefaultHasher::spec_finish(str_hash_writes(Seq::empty(), key))
}

/// The hash of `key`, by a fresh `DefaultHasher`.
pub fn hash(key: &str) -> (h: u64)
    ensures
        h == key_hash(key@),
{
    let mut s = DefaultHasher::new();
    hash_str_into(key, &mut s);
    s.finish()
}

/// The shard, among `num_shards` (at least one), that a key of hash `h`
/// lives in.
pub fn shard_for_hash(h: u64, num_shards: usize) -> (i: usize)
    requires
        num_shards > 0,
    ensures
        i == (h as usize) % num_shards,
        i < num_shards,
{
    (h as usize) % num_shards
}

/// The shard that keeps `key` among `num_shards`, which must be at least one.
pub fn shard_index(key: &str, num_shards: usize) -> (i: usize)
    requires
        num_shards > 0,
    ensures
        i == (key_hash(key@) as usize) % num_shards,
        i < num_shards,
{
    shard_for_hash(hash(key), num_shards)
}

/// A request to the database.
pub enum Request {
    /// Keep the bytes under the key.
    Put { key: String, value: Vec<u8> },
    /// Read what the key holds.
    Get { key: String },
}

/// An answer to a request.
pub enum Reply {
    /// A short status line.
    Simple(String),
    /// The bytes read.
    Bulk(Vec<u8>),
    /// Nothing was kept under the key.
    Null,
}

/// What an answer says.
pub enum Answer {
    Simple(Seq<char>),
    Bulk(Seq<u8>),
    Null,
}

pub open spec fn answer_of(r: Reply) -> Answer {
    match r {
        Reply::Simple(s) => Answer::Simple(s@),
        Reply::Bulk(v) => Answer::Bulk(v@),
        Reply::Null => Answer::Null,
    }
}

/// The answer to a read of `key` in a shard holding `m`.
pub open spec fn read_answer(m: Map<Seq<char>, Seq<u8>>, key: Seq<char>) -> Answer {
    if m.contains_key(key) {
        Answer::Bulk(m[key])
    } else {
        Answer::Null
    }
}

/// Serves one request on the shard that keeps its key: a write is answered
/// with `OK`, a read with the bytes kept or, where there are none, with
/// `Null`.
pub fn respond(shard: &mut Shard, request: Request) -> (reply: Reply)
    requires
        old(shard).wf(),
    ensures
        final(shard).wf(),
        match request {
            Request::Put { key, value } => {
                &&& final(shard)@ == old(shard)@.insert(key@, value@)
                &&& answer_of(reply) == Answer::Simple("OK"@)
            },
            Request::Get { key } => {
                &&& final(shard)@ == old(shard)@
                &&& answer_of(reply) == read_answer(old(shard)@, key@)
            },
        },
{
    match request {
        Request::Put { key, value } => {
            shard.insert(key, value);
            Reply::Simple(String::from_str("OK"))
        },
        Request::Get { key } => {
            match shard.get(key.as_str()) {
                Some(v) => Reply::Bulk(v),
                None => Reply::Null,
            }
        },
    }
}

/// A read of a key gives back the bytes last written under it, and a write
/// leaves what a read of any other key gives as it was.
pub proof fn law_read_after_put(m: Map<Seq<char>, Seq<u8>>, key: Seq<char>, value: Seq<u8>, other: Seq<char>)
    ensures
        read_answer(m.insert(key, value), key) == Answer::Bulk(value),
        other != key ==> read_answer(m.insert(key, value), other) == read_answer(m, other),
{
}

/// A request to the whole database, as a value: keep bytes under a key, or
/// read a key.
pub enum DbRequest {
    Put(Seq<char>, Seq<u8>),
    Get(Seq<char>),
}

/// The request puts bytes under `key`.
pub open spec fn puts_key(r: DbRequest, key: Seq<char>) -> bool {
    match r {
        DbRequest::Put(k, _) => k == key,
        DbRequest::Get(_) => false,
    }
}

/// The bytes a request puts.
pub open spec fn put_value(r: DbRequest) -> Seq<u8> {
    match r {
        DbRequest::Put(_, v) => v,
        DbRequest::Get(_) => seq![],
    }
}

/// The shard among `n` that keeps `key`: what [`shard_index`] gives.
pub open spec fn route(key: Seq<char>, n: nat) -> int {
    ((key_hash(key) as usize) % (n as usize)) as int
}

/// The shards after serving the requests one after the other, each on the
/// shard that [`shard_index`] picks for its key, as [`respond`] serves it;
/// the requests of all connections taken in the order they were served.
pub open spec fn db_after(db: Seq<Map<Seq<char>, Seq<u8>>>, requests: Seq<DbRequest>) -> Seq<Map<Seq<char>, Seq<u8>>>
    decreases requests.len(),
{
    if requests.len() == 0 {
        db
    } else {
        let before = db_after(db, requests.drop_last());
        match requests.last() {
            DbRequest::Put(k, v) => {
                let i = route(k, before.len());
                before.update(i, before[i].insert(k, v))
            },
            DbRequest::Get(_) => before,
        }
    }
}

proof fn lemma_db_after_len(db: Seq<Map<Seq<char>, Seq<u8>>>, requests: Seq<DbRequest>)
    requires
        0 < db.len() <= usize::MAX,
    ensures
        db_after(db, requests).len() == db.len(),
    decreases requests.len(),
{
    if requests.len() > 0 {
        lemma_db_after_len(db, requests.drop_last());
        let before = db_after(db, requests.drop_last());
        if let DbRequest::Put(k, v) = requests.last() {
            assert(0 <= route(k, before.len()) < before.len());
        }
    }
}

/// Across the whole database, a read of a key is answered with the bytes of
/// the last request that put bytes under it, and a read of a key that no
/// request put, in a database that started empty, with `Null`.
pub proof fn law_database_read_after_put(
    db: Seq<Map<Seq<char>, Seq<u8>>>,
    requests: Seq<DbRequest>,
    key: Seq<char>,
)
    requires
        0 < db.len() <= usize::MAX,
    ensures
        ({
            let after = db_after(db, requests);
            let shard = after[route(key, db.len())];
            &&& after.len() == db.len()
            &&& forall|i: int|
                0 <= i < requests.len() && puts_key(#[trigger] requests[i], key)
                    && (forall|j: int| i < j < requests.len() ==> !puts_key(#[trigger] requests[j], key))
                    ==> read_answer(shard, key) == Answer::Bulk(put_value(requests[i]))
            &&& (forall|i: int| 0 <= i < db.len() ==> (#[trigger] db[i]) == Map::<Seq<char>, Seq<u8>>::empty())
                && (forall|j: int| 0 <= j < requests.len() ==> !puts_key(#[trigger] requests[j], key))
                ==> read_answer(shard, key) == Answer::Null
        }),
    decreases requests.len(),
{
    lemma_db_after_len(db, requests);
    if requests.len() > 0 {
        let init = requests.drop_last();
        law_database_read_after_put(db, init, key);
        lemma_db_after_len(db, init);
        let before = db_after(db, init);
        let after = db_after(db, requests);
        let r = route(key, db.len());
        assert(0 <= r < db.len());
        assert forall|i: int|
            0 <= i < requests.len() && puts_key(#[trigger] requests[i], key)
                && (forall|j: int| i < j < requests.len() ==> !puts_key(#[trigger] requests[j], key))
            implies read_answer(after[r], key) == Answer::Bulk(put_value(requests[i])) by {
            if i < requests.len() - 1 {
                assert(init[i] == requests[i]);
                assert forall|j: int| i < j < init.len() implies !puts_key(#[trigger] init[j], key) by {
                    assert(init[j] == requests[j]);
                }
                let last_j = requests.len() - 1;
                assert(!puts_key(requests[last_j], key));
                if let DbRequest::Put(k, v) = requests.last() {
                    let q = route(k, before.len());
                    if q != r {
                        assert(after[r] == before[r]);
                    } else {
                        assert(after[r] == before[r].insert(k, v));
                    }
                }
            }
        }
        if (forall|i: int| 0 <= i < db.len() ==> (#[trigger] db[i]) == Map::<Seq<char>, Seq<u8>>::empty())
            && (forall|j: int| 0 <= j < requests.len() ==> !puts_key(#[trigger] requests[j], key)) {
            assert forall|j: int| 0 <= j < init.len() implies !puts_key(#[trigger] init[j], key) by {
                assert(init[j] == requests[j]);
            }
            let last_j = requests.len() - 1;
            assert(!puts_key(requests[last_j], key));
            if let DbRequest::Put(k, v) = requests.last() {
                let q = route(k, before.len());
                if q != r {
                    assert(after[r] == before[r]);
                } else {
                    assert(after[r] == before[r].insert(k, v));
                }
            }
        }
    } else {
        if forall|i: int| 0 <= i < db.len() ==> (#[trigger] db[i]) == Map::<Seq<char>, Seq<u8>>::empty() {
            let r = route(key, db.len());
            assert(db[r] == Map::<Seq<char>, Seq<u8>>::empty());
        }
    }
}

} // verus!
