//! Reading RESP values off the front of a request.
//!
//! Every reader takes the unread part of the request, returns the value at
//! its front and leaves the rest of the request in place. The spec functions
//! say, for every input, what a reader returns and what it leaves, or that
//! the input is one the reader refuses by aborting (the executable readers
//! require that this is not the case).
use vstd::prelude::*;

use crate::modules::types::{models, opt_model, RedisDeserializationTypes, RespValue};
use crate::text::{
    char_utf8_len, chars_of, find_crlf, find_crlf_at, lemma_find_crlf_from, parse_i64, parse_integer_at, parse_u32,
    parse_usize, string_from_range, utf8_len,
};

verus! {

/// What a reader does with an input: it aborts, or it yields a value and
/// leaves the rest of the input.
pub enum Outcome<T> {
    Aborts,
    Parsed(T, Seq<char>),
}

/// What is left after skipping two bytes of the UTF-8 encoding of `r`:
/// `None` where fewer than two bytes remain or the cut falls inside a
/// character.
pub open spec fn skip_two_bytes(r: Seq<char>) -> Option<Seq<char>> {
    if r.len() >= 1 && utf8_len(r[0]) == 2 {
        Some(r.drop_first())
    } else if r.len() >= 2 && utf8_len(r[0]) == 1 && utf8_len(r[1]) == 1 {
        Some(r.skip(2))
    } else {
        None
    }
}

/// A line `+text`, `-text` or `:integer` ended by `"\r\n"`.
pub open spec fn spec_flat(s: Seq<char>) -> Outcome<RespValue> {
    match find_crlf(s) {
        None => Outcome::Aborts,
        Some(p) => if p == 0 {
            Outcome::Aborts
        } else {
            let body = s.subrange(1, p);
            let rest = s.skip(p + 2);
            if s[0] == '+' {
                Outcome::Parsed(RespValue::SimpleString(body), rest)
            } else if s[0] == '-' {
                Outcome::Parsed(RespValue::ErrorMessage(body), rest)
            } else if s[0] == ':' {
                match parse_i64(body) {
                    Some(n) => Outcome::Parsed(RespValue::Integer(n), rest),
                    None => Outcome::Aborts,
                }
            } else {
                Outcome::Aborts
            }
        },
    }
}

/// A bulk string `$count\r\n` followed by its characters and two more bytes.
/// A count that is not a `usize` stands for the null bulk string.
pub open spec fn spec_bulk(s: Seq<char>) -> Outcome<Option<RespValue>> {
    match find_crlf(s) {
        None => Outcome::Aborts,
        Some(p) => if p == 0 || utf8_len(s[0]) != 1 {
            Outcome::Aborts
        } else {
            let after = s.skip(p + 2);
            match parse_usize(s.subrange(1, p)) {
                None => Outcome::Parsed(None, after),
                Some(count) => {
                    let k = if count < after.len() {
                        count
                    } else {
                        after.len() as int
                    };
                    match skip_two_bytes(after.skip(k)) {
                        Some(rest) => Outcome::Parsed(Some(RespValue::BulkString(after.take(k))), rest),
                        None => Outcome::Aborts,
                    }
                },
            }
        },
    }
}

/// An array `*count\r\n` followed by `count` values. A count that is not a
/// `u32` stands for the null array; without a line break the input is left
/// untouched.
pub open spec fn spec_array(s: Seq<char>, strict: bool) -> Outcome<Option<Seq<RespValue>>>
    decreases s.len(), 1nat, 0nat,
{
    match find_crlf(s) {
        None => Outcome::Parsed(None, s),
        Some(p) => if p == 0 || utf8_len(s[0]) != 1 {
            Outcome::Aborts
        } else {
            proof {
                lemma_find_crlf_from(s, 0);
            }
            let after = s.skip(p + 2);
            match parse_u32(s.subrange(1, p)) {
                None => Outcome::Parsed(None, after),
                Some(n) => match spec_items(after, n as nat, strict) {
                    Outcome::Aborts => Outcome::Aborts,
                    Outcome::Parsed(items, r) => Outcome::Parsed(Some(items), r),
                },
            }
        },
    }
}

pub open spec fn opt_prepend(v: Option<RespValue>, vs: Seq<RespValue>) -> Seq<RespValue> {
    match v {
        Some(x) => seq![x] + vs,
        None => vs,
    }
}

/// `n` reads of [`spec_deserialize`] one after the other, keeping the values
/// that are there.
pub open spec fn spec_items(s: Seq<char>, n: nat, strict: bool) -> Outcome<Seq<RespValue>>
    decreases s.len(), 3nat, n,
{
    if n == 0 {
        Outcome::Parsed(seq![], s)
    } else {
        match spec_deserialize(s, strict) {
            Outcome::Aborts => Outcome::Aborts,
            Outcome::Parsed(v, r) => if r.len() > s.len() {
                // never the case: see `lemma_rest_is_suffix`
                Outcome::Aborts
            } else {
                match spec_items(r, (n - 1) as nat, strict) {
                    Outcome::Aborts => Outcome::Aborts,
                    Outcome::Parsed(vs, r2) => Outcome::Parsed(opt_prepend(v, vs), r2),
                }
            },
        }
    }
}

/// Any value, chosen by its first character; nothing, with the input left
/// as it is, on empty input or on a first character that marks no value.
pub open spec fn spec_deserialize(s: Seq<char>, strict: bool) -> Outcome<Option<RespValue>>
    decreases s.len(), 2nat, 0nat,
{
    if s.len() == 0 {
        Outcome::Parsed(None, s)
    } else if s[0] == '$' {
        spec_bulk(s)
    } else if s[0] == '*' {
        match spec_array(s, strict) {
            Outcome::Aborts => Outcome::Aborts,
            Outcome::Parsed(None, r) => Outcome::Parsed(None, r),
            Outcome::Parsed(Some(items), r) => Outcome::Parsed(Some(RespValue::Array(items)), r),
        }
    } else if s[0] == '+' || s[0] == ':' || s[0] == '-' {
        match spec_flat(s) {
            Outcome::Aborts => Outcome::Aborts,
            Outcome::Parsed(v, r) => Outcome::Parsed(Some(v), r),
        }
    } else if strict {
        Outcome::Aborts
    } else {
        Outcome::Parsed(None, s)
    }
}

pub open spec fn opt_models(v: Option<Vec<RedisDeserializationTypes>>) -> Option<Seq<RespValue>> {
    match v {
        Some(items) => Some(models(items@)),
        None => None,
    }
}

// ---------------------------------------------------------------------------
// Readers over a character buffer and a position
// ---------------------------------------------------------------------------

/// `r` is the executable image of outcome `o` read from `chars[pos..]`.
pub open spec fn reads_as<T>(o: Outcome<T>, r: Option<(T, usize)>, chars: Seq<char>, pos: usize) -> bool {
    match o {
        Outcome::Aborts => r is None,
        Outcome::Parsed(v, rest) => match r {
            Some((w, np)) => w == v && pos <= np <= chars.len() && rest == chars.skip(np as int),
            None => false,
        },
    }
}

fn flat_at(chars: &Vec<char>, pos: usize) -> (r: Option<(RedisDeserializationTypes, usize)>)
    requires
        pos <= chars.len(),
    ensures
        reads_as(spec_flat(chars@.skip(pos as int)), match r {
            Some((t, np)) => Some((t.model(), np)),
            None => None,
        }, chars@, pos),
{
    let ghost s = chars@.skip(pos as int);
    let p = match find_crlf_at(chars, pos) {
        Some(p) => p,
        None => return None,
    };
    if p == pos {
        return None;
    }
    let body = string_from_range(chars, pos + 1, p);
    assert(body@ =~= s.subrange(1, p - pos));
    assert(chars@.skip(p + 2) =~= s.skip(p - pos + 2));
    let first = chars[pos];
    assert(first == s[0]);
    if first == '+' {
        Some((RedisDeserializationTypes::SimpleString(body), p + 2))
    } else if first == '-' {
        Some((RedisDeserializationTypes::ErrorMessage(body), p + 2))
    } else if first == ':' {
        assert(chars@.subrange(pos + 1, p as int) =~= s.subrange(1, p - pos));
        match parse_integer_at(chars, pos + 1, p, true, i64::MIN as i128, i64::MAX as i128) {
            Some(n) => Some((RedisDeserializationTypes::Integer(n as i64), p + 2)),
            None => None,
        }
    } else {
        None
    }
}

fn bulk_at(chars: &Vec<char>, pos: usize) -> (r: Option<(Option<RedisDeserializationTypes>, usize)>)
    requires
        pos <= chars.len(),
    ensures
        reads_as(spec_bulk(chars@.skip(pos as int)), match r {
            Some((t, np)) => Some((opt_model(t), np)),
            None => None,
        }, chars@, pos),
{
    let ghost s = chars@.skip(pos as int);
    let p = match find_crlf_at(chars, pos) {
        Some(p) => p,
        None => return None,
    };
    if p == pos || char_utf8_len(chars[pos]) != 1 {
        return None;
    }
    let start = p + 2;
    let ghost after = s.skip(p - pos + 2);
    assert(chars@.skip(start as int) =~= after);
    assert(chars@.subrange(pos + 1, p as int) =~= s.subrange(1, p - pos));
    match parse_integer_at(chars, pos + 1, p, false, 0, usize::MAX as i128) {
        None => Some((None, start)),
        Some(count) => {
            let avail = chars.len() - start;
            let k: usize = if (count as usize) < avail {
                count as usize
            } else {
                avail
            };
            let value = string_from_range(chars, start, start + k);
            assert(value@ =~= after.take(k as int));
            let q = start + k;
            assert(chars@.skip(q as int) =~= after.skip(k as int));
            if q < chars.len() && char_utf8_len(chars[q]) == 2 {
                assert(chars@.skip(q + 1) =~= after.skip(k as int).drop_first());
                Some((Some(RedisDeserializationTypes::BulkString(value)), q + 1))
            } else if chars.len() - q >= 2 && char_utf8_len(chars[q]) == 1 && char_utf8_len(chars[q + 1]) == 1 {
                assert(chars@.skip(q + 2) =~= after.skip(k as int).skip(2));
                Some((Some(RedisDeserializationTypes::BulkString(value)), q + 2))
            } else {
                None
            }
        },
    }
}

#[verifier::loop_isolation(false)]
fn array_at(chars: &Vec<char>, pos: usize, strict: bool) -> (r: Option<(Option<Vec<RedisDeserializationTypes>>, usize)>)
    requires
        pos <= chars.len(),
    ensures
        reads_as(spec_array(chars@.skip(pos as int), strict), match r {
            Some((t, np)) => Some((opt_models(t), np)),
            None => None,
        }, chars@, pos),
    decreases chars.len() - pos, 0nat,
{
    let ghost s = chars@.skip(pos as int);
    let p = match find_crlf_at(chars, pos) {
        Some(p) => p,
        None => return Some((None, pos)),
    };
    if p == pos || char_utf8_len(chars[pos]) != 1 {
        return None;
    }
    let start = p + 2;
    let ghost after = s.skip(p - pos + 2);
    assert(chars@.skip(start as int) =~= after);
    assert(chars@.subrange(pos + 1, p as int) =~= s.subrange(1, p - pos));
    match parse_integer_at(chars, pos + 1, p, false, 0, u32::MAX as i128) {
        None => Some((None, start)),
        Some(count) => {
            let count = count as u32;
            let mut ret: Vec<RedisDeserializationTypes> = Vec::new();
            let mut cur = start;
            let mut done: u32 = 0;
            assert(models(ret@) =~= Seq::<RespValue>::empty());
            while done < count
                invariant
                    start <= cur <= chars.len(),
                    pos < start,
                    done <= count,
                    spec_items(after, count as nat, strict) == (match spec_items(chars@.skip(cur as int), (count - done) as nat, strict) {
                        Outcome::Aborts => Outcome::<Seq<RespValue>>::Aborts,
                        Outcome::Parsed(vs, r) => Outcome::Parsed(models(ret@) + vs, r),
                    }),
                decreases count - done,
            {
                let ghost here = chars@.skip(cur as int);
                let ghost before = models(ret@);
                match deserialize_at(chars, cur, strict) {
                    None => {
                        return None;
                    },
                    Some((item, np)) => {
                        assert(here.skip(np - cur) =~= chars@.skip(np as int));
                        let ghost item_model = opt_model(item);
                        match item {
                            Some(t) => {
                                ret.push(t);
                                assert(models(ret@) =~= before.push(t.model()));
                            },
                            None => {
                                assert(models(ret@) =~= before);
                            },
                        }
                        proof {
                            let tail = spec_items(chars@.skip(np as int), (count - done - 1) as nat, strict);
                            match tail {
                                Outcome::Parsed(vs, r) => {
                                    match item_model {
                                        Some(m) => {
                                            assert(before + opt_prepend(Some(m), vs) =~= before.push(m) + vs);
                                        },
                                        None => {},
                                    }
                                },
                                Outcome::Aborts => {},
                            }
                        }
                        cur = np;
                    },
                }
                done = done + 1;
            }
            assert(models(ret@) + seq![] =~= models(ret@));
            Some((Some(ret), cur))
        },
    }
}

fn deserialize_at(chars: &Vec<char>, pos: usize, strict: bool) -> (r: Option<(Option<RedisDeserializationTypes>, usize)>)
    requires
        pos <= chars.len(),
    ensures
        reads_as(spec_deserialize(chars@.skip(pos as int), strict), match r {
            Some((t, np)) => Some((opt_model(t), np)),
            None => None,
        }, chars@, pos),
    decreases chars.len() - pos, 1nat,
{
    let ghost s = chars@.skip(pos as int);
    if pos == chars.len() {
        return Some((None, pos));
    }
    let first = chars[pos];
    assert(first == s[0]);
    if first == '$' {
        bulk_at(chars, pos)
    } else if first == '*' {
        match array_at(chars, pos, strict) {
            None => None,
            Some((None, np)) => Some((None, np)),
            Some((Some(items), np)) => {
                let t = RedisDeserializationTypes::Array(Box::new(items));
                assert(t.model() == RespValue::Array(models(items@))) by {
                    if let RespValue::Array(ms) = t.model() {
                        assert(ms =~= models(items@));
                    }
                }
                Some((Some(t), np))
            },
        }
    } else if first == '+' || first == ':' || first == '-' {
        match flat_at(chars, pos) {
            None => None,
            Some((t, np)) => Some((Some(t), np)),
        }
    } else if strict {
        None
    } else {
        Some((None, pos))
    }
}


// ---------------------------------------------------------------------------
// Laws
// ---------------------------------------------------------------------------

/// `r` is what is left of `s` after dropping some characters from its front.
pub open spec fn is_suffix(r: Seq<char>, s: Seq<char>) -> bool {
    r.len() <= s.len() && r == s.skip(s.len() - r.len())
}

proof fn lemma_suffix_skip(s: Seq<char>, k: int)
    requires
        0 <= k <= s.len(),
    ensures
        is_suffix(s.skip(k), s),
{
    assert(s.skip(k) =~= s.skip(s.len() - s.skip(k).len()));
}

proof fn lemma_suffix_trans(a: Seq<char>, b: Seq<char>, c: Seq<char>)
    requires
        is_suffix(a, b),
        is_suffix(b, c),
    ensures
        is_suffix(a, c),
{
    assert(a =~= c.skip(c.len() - a.len()));
}

/// A flat reader leaves a suffix of its input.
pub proof fn lemma_flat_rest_is_suffix(s: Seq<char>)
    ensures
        spec_flat(s) matches Outcome::Parsed(_, r) ==> is_suffix(r, s),
{
    lemma_find_crlf_from(s, 0);
    if let Some(p) = find_crlf(s) {
        lemma_suffix_skip(s, p + 2);
    }
}

/// A bulk-string reader leaves a suffix of its input.
pub proof fn lemma_bulk_rest_is_suffix(s: Seq<char>)
    ensures
        spec_bulk(s) matches Outcome::Parsed(_, r) ==> is_suffix(r, s),
{
    lemma_find_crlf_from(s, 0);
    if let Some(p) = find_crlf(s) {
        let after = s.skip(p + 2);
        lemma_suffix_skip(s, p + 2);
        if let Some(count) = parse_usize(s.subrange(1, p)) {
            let k = if count < after.len() {
                count
            } else {
                after.len() as int
            };
            let t = after.skip(k);
            lemma_suffix_skip(after, k);
            lemma_suffix_trans(t, after, s);
            if t.len() >= 1 && utf8_len(t[0]) == 2 {
                lemma_suffix_skip(t, 1);
                assert(t.drop_first() == t.skip(1));
                lemma_suffix_trans(t.drop_first(), t, s);
            } else if t.len() >= 2 {
                lemma_suffix_skip(t, 2);
                lemma_suffix_trans(t.skip(2), t, s);
            }
        }
    }
}

/// An array reader leaves a suffix of its input.
pub proof fn lemma_array_rest_is_suffix(s: Seq<char>, strict: bool)
    ensures
        spec_array(s, strict) matches Outcome::Parsed(_, r) ==> is_suffix(r, s),
    decreases s.len(), 1nat, 0nat,
{
    lemma_find_crlf_from(s, 0);
    match find_crlf(s) {
        None => {
            lemma_suffix_skip(s, 0);
            assert(s.skip(0) =~= s);
        },
        Some(p) => {
            if !(p == 0 || utf8_len(s[0]) != 1) {
                let after = s.skip(p + 2);
                lemma_suffix_skip(s, p + 2);
                if let Some(n) = parse_u32(s.subrange(1, p)) {
                    lemma_items_rest_is_suffix(after, n as nat, strict);
                    if let Outcome::Parsed(_, r) = spec_items(after, n as nat, strict) {
                        lemma_suffix_trans(r, after, s);
                    }
                }
            }
        },
    }
}

/// Reading `n` values one after the other leaves a suffix of the input.
pub proof fn lemma_items_rest_is_suffix(s: Seq<char>, n: nat, strict: bool)
    ensures
        spec_items(s, n, strict) matches Outcome::Parsed(_, r) ==> is_suffix(r, s),
    decreases s.len(), 3nat, n,
{
    if n == 0 {
        assert(s.skip(0) =~= s);
    } else {
        lemma_rest_is_suffix(s, strict);
        if let Outcome::Parsed(v, r) = spec_deserialize(s, strict) {
            if r.len() <= s.len() {
                lemma_items_rest_is_suffix(r, (n - 1) as nat, strict);
                if let Outcome::Parsed(_, r2) = spec_items(r, (n - 1) as nat, strict) {
                    lemma_suffix_trans(r2, r, s);
                }
            }
        }
    }
}

/// Reading a value consumes a prefix of the request: what is left is a
/// suffix of what was there (so the guard in `spec_items` never fires).
pub proof fn lemma_rest_is_suffix(s: Seq<char>, strict: bool)
    ensures
        spec_deserialize(s, strict) matches Outcome::Parsed(_, r) ==> is_suffix(r, s),
    decreases s.len(), 2nat, 0nat,
{
    if s.len() == 0 {
        assert(s.skip(0) =~= s);
    } else if s[0] == '$' {
        lemma_bulk_rest_is_suffix(s);
    } else if s[0] == '*' {
        lemma_array_rest_is_suffix(s, strict);
    } else if s[0] == '+' || s[0] == ':' || s[0] == '-' {
        lemma_flat_rest_is_suffix(s);
    } else {
        assert(s.skip(0) =~= s);
    }
}

// ---------------------------------------------------------------------------
// Readers of the unread part of a request
// ---------------------------------------------------------------------------

/// Reads a flat value (`+text`, `-text` or `:integer` and `"\r\n"`) off
/// the front of `command`, leaving the rest of it in `command`.
pub fn deserialize_flat_command(command: &mut &str) -> (r: RedisDeserializationTypes)
    requires
        !(spec_flat(old(command)@) is Aborts),
    ensures
        spec_flat(old(command)@) == Outcome::Parsed(r.model(), final(command)@),
{
    let s: &str = *command;
    let chars = chars_of(s);
    assert(chars@.skip(0) =~= chars@);
    match flat_at(&chars, 0) {
        Some((t, np)) => {
            *command = s.substring_char(np, chars.len());
            t
        },
        None => {
            proof {
                assert(false);
            }
            RedisDeserializationTypes::Integer(0)
        },
    }
}

/// Reads a bulk string off the front of `command`; `None` for the null
/// bulk string. The rest stays in `command`.
pub fn deserialize_bulk_string(command: &mut &str) -> (r: Option<RedisDeserializationTypes>)
    requires
        !(spec_bulk(old(command)@) is Aborts),
    ensures
        spec_bulk(old(command)@) == Outcome::Parsed(opt_model(r), final(command)@),
{
    let s: &str = *command;
    let chars = chars_of(s);
    assert(chars@.skip(0) =~= chars@);
    match bulk_at(&chars, 0) {
        Some((t, np)) => {
            *command = s.substring_char(np, chars.len());
            t
        },
        None => {
            proof {
                assert(false);
            }
            None
        },
    }
}

/// Reads an array off the front of `command`; `None` for the null array.
/// A `strict` read refuses an element that starts with a character that
/// marks no value; a lenient one skips it. The rest stays in `command`.
pub(crate) fn read_array(command: &mut &str, strict: bool) -> (r: Option<Vec<RedisDeserializationTypes>>)
    requires
        !(spec_array(old(command)@, strict) is Aborts),
    ensures
        spec_array(old(command)@, strict) == Outcome::Parsed(opt_models(r), final(command)@),
{
    let s: &str = *command;
    let chars = chars_of(s);
    assert(chars@.skip(0) =~= chars@);
    match array_at(&chars, 0, strict) {
        Some((t, np)) => {
            *command = s.substring_char(np, chars.len());
            t
        },
        None => {
            proof {
                assert(false);
            }
            None
        },
    }
}

/// Whether [`read_array`] refuses `command`.
pub(crate) fn read_array_aborts(command: &str, strict: bool) -> (b: bool)
    ensures
        b == (spec_array(command@, strict) is Aborts),
{
    let chars = chars_of(command);
    assert(chars@.skip(0) =~= chars@);
    array_at(&chars, 0, strict).is_none()
}

/// Reads an array off the front of `command`; `None` for the null array.
/// An element that starts with a character that marks no value is read as
/// nothing. The rest stays in `command`.
pub fn deserialize_array(command: &mut &str) -> (r: Option<Vec<RedisDeserializationTypes>>)
    requires
        !(spec_array(old(command)@, false) is Aborts),
    ensures
        spec_array(old(command)@, false) == Outcome::Parsed(opt_models(r), final(command)@),
{
    read_array(command, false)
}

/// Reads whatever value starts `command`; `None` when `command` is empty,
/// holds a null value, or starts with a character that marks no value
/// (then `command` is left as it is). The rest stays in `command`.
pub fn deserialize(command: &mut &str) -> (r: Option<RedisDeserializationTypes>)
    requires
        !(spec_deserialize(old(command)@, false) is Aborts),
    ensures
        spec_deserialize(old(command)@, false) == Outcome::Parsed(opt_model(r), final(command)@),
{
    let s: &str = *command;
    let chars = chars_of(s);
    assert(chars@.skip(0) =~= chars@);
    match deserialize_at(&chars, 0, false) {
        Some((t, np)) => {
            *command = s.substring_char(np, chars.len());
            t
        },
        None => {
            proof {
                assert(false);
            }
            None
        },
    }
}

/// Whether [`deserialize`] refuses `command` (aborts on it).
pub fn deserialize_aborts(command: &str) -> (b: bool)
    ensures
        b == (spec_deserialize(command@, false) is Aborts),
{
    let chars = chars_of(command);
    assert(chars@.skip(0) =~= chars@);
    deserialize_at(&chars, 0, false).is_none()
}

/// Whether [`deserialize_flat_command`] refuses `command` (aborts on it).
pub fn flat_aborts(command: &str) -> (b: bool)
    ensures
        b == (spec_flat(command@) is Aborts),
{
    let chars = chars_of(command);
    assert(chars@.skip(0) =~= chars@);
    flat_at(&chars, 0).is_none()
}

/// Whether [`deserialize_bulk_string`] refuses `command` (aborts on it).
pub fn bulk_aborts(command: &str) -> (b: bool)
    ensures
        b == (spec_bulk(command@) is Aborts),
{
    let chars = chars_of(command);
    assert(chars@.skip(0) =~= chars@);
    bulk_at(&chars, 0).is_none()
}

/// Whether [`deserialize_array`] refuses `command` (aborts on it).
pub fn array_aborts(command: &str) -> (b: bool)
    ensures
        b == (spec_array(command@, false) is Aborts),
{
    read_array_aborts(command, false)
}

} // verus!
