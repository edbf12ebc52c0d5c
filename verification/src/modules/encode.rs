//! The wire form of a value, and reading it back: what `deserialize` reads
//! off the front of an encoded value is that value, and exactly its text is
//! consumed.
use vstd::prelude::*;

use crate::modules::deserialize::{
    opt_prepend, skip_two_bytes, spec_array, spec_bulk, spec_deserialize, spec_items, Outcome,
};
use crate::modules::types::RespValue;
use crate::text::{
    decimal, find_crlf, is_crlf_at, is_digit, lemma_find_crlf_from, lemma_nat_decimal_digits, lemma_parse_decimal,
    nat_decimal, utf8_len,
};

verus! {

/// `"\r\n"`
pub open spec fn line_end() -> Seq<char> {
    seq!['\r', '\n']
}

/// How a value is written on the wire.
pub open spec fn encode(v: RespValue) -> Seq<char>
    decreases v,
{
    match v {
        RespValue::SimpleString(s) => seq!['+'] + s + line_end(),
        RespValue::ErrorMessage(s) => seq!['-'] + s + line_end(),
        RespValue::Integer(n) => seq![':'] + decimal(n) + line_end(),
        RespValue::BulkString(s) => seq!['$'] + decimal(s.len() as int) + line_end() + s + line_end(),
        RespValue::Array(items) => seq!['*'] + decimal(items.len() as int) + line_end() + encode_items(items),
    }
}

/// The values one after the other, each written on the wire.
pub open spec fn encode_items(items: Seq<RespValue>) -> Seq<char>
    decreases items,
{
    if items.len() == 0 {
        seq![]
    } else {
        encode(items[0]) + encode_items(items.skip(1))
    }
}

/// `s` holds no line break.
pub open spec fn no_line_break(s: Seq<char>) -> bool {
    forall|i: int| 0 <= i < s.len() ==> !is_crlf_at(s, i)
}

/// Every character of `s` takes one byte.
pub open spec fn ascii(s: Seq<char>) -> bool {
    forall|i: int| 0 <= i < s.len() ==> utf8_len(#[trigger] s[i]) == 1
}

/// A value that its wire form gives back: simple strings and errors without
/// a line break, integers of the `i64` range, bulk strings of one-byte
/// characters, arrays of at most `u32::MAX` such values.
pub open spec fn encodable(v: RespValue) -> bool
    decreases v,
{
    match v {
        RespValue::SimpleString(s) => no_line_break(s),
        RespValue::ErrorMessage(s) => no_line_break(s),
        RespValue::Integer(n) => i64::MIN <= n <= i64::MAX,
        RespValue::BulkString(s) => ascii(s) && s.len() <= usize::MAX,
        RespValue::Array(items) => items.len() <= u32::MAX && encodable_items(items),
    }
}

pub open spec fn encodable_items(items: Seq<RespValue>) -> bool
    decreases items,
{
    if items.len() == 0 {
        true
    } else {
        encodable(items[0]) && encodable_items(items.skip(1))
    }
}

/// The first line break of `a + "\r\n" + b`, where `a` holds none, ends `a`.
proof fn lemma_first_line_break(a: Seq<char>, b: Seq<char>)
    requires
        no_line_break(a),
    ensures
        find_crlf(a + line_end() + b) == Some(a.len() as int),
{
    let s = a + line_end() + b;
    assert(is_crlf_at(s, a.len() as int));
    assert forall|i: int| 0 <= i < a.len() implies !is_crlf_at(s, i) by {
        if i + 1 < a.len() {
            assert(!is_crlf_at(a, i));
        } else {
            assert(s[i + 1] == '\r');
        }
    }
    lemma_find_crlf_from(s, 0);
    match find_crlf(s) {
        Some(k) => {
            if k > a.len() {
                assert(!is_crlf_at(s, a.len() as int));
            }
        },
        None => {},
    }
}

/// The decimal form of an integer holds no line break.
proof fn lemma_decimal_no_line_break(n: int)
    ensures
        no_line_break(decimal(n)),
        decimal(n).len() >= 1,
{
    let m: nat = if n < 0 { (-n) as nat } else { n as nat };
    lemma_nat_decimal_digits(m);
    let d = decimal(n);
    assert forall|i: int| 0 <= i < d.len() implies !is_crlf_at(d, i) by {
        if n < 0 {
            if i > 0 {
                assert(d[i] == nat_decimal(m)[i - 1]);
                assert(is_digit(nat_decimal(m)[i - 1]));
            }
        } else {
            assert(is_digit(nat_decimal(m)[i]));
        }
    }
}

/// Reading back the wire form of a value gives the value, and leaves what
/// follows it. This holds of the lenient and the strict reader alike.
pub proof fn law_read_back_encoding(v: RespValue, rest: Seq<char>, strict: bool)
    requires
        encodable(v),
    ensures
        spec_deserialize(encode(v) + rest, strict) == Outcome::Parsed(Some(v), rest),
    decreases v,
{
    match v {
        RespValue::SimpleString(t) => lemma_read_flat_text(t, rest, '+', strict),
        RespValue::ErrorMessage(t) => lemma_read_flat_text(t, rest, '-', strict),
        RespValue::Integer(n) => lemma_read_integer(n, rest, strict),
        RespValue::BulkString(t) => lemma_read_bulk(t, rest, strict),
        RespValue::Array(items) => {
            let s = encode(v) + rest;
            let head = seq!['*'] + decimal(items.len() as int);
            lemma_decimal_no_line_break(items.len() as int);
            lemma_parse_decimal(items.len() as int, false, 0, u32::MAX as int);
            assert(head.skip(1) =~= decimal(items.len() as int));
            lemma_head_no_line_break(head);
            let after = encode_items(items) + rest;
            assert(s =~= head + line_end() + after);
            lemma_first_line_break(head, after);
            let p = head.len() as int;
            assert(s.subrange(1, p) =~= decimal(items.len() as int));
            assert(s.skip(p + 2) =~= after);
            lemma_read_back_items(items, rest, strict);
            assert(spec_array(s, strict) == Outcome::Parsed(Some(items), rest));
        },
    }
}

proof fn lemma_read_flat_text(t: Seq<char>, rest: Seq<char>, marker: char, strict: bool)
    requires
        no_line_break(t),
        marker == '+' || marker == '-',
    ensures
        spec_deserialize(seq![marker] + t + line_end() + rest, strict) == Outcome::Parsed(
            Some(if marker == '+' { RespValue::SimpleString(t) } else { RespValue::ErrorMessage(t) }),
            rest,
        ),
{
    let body = seq![marker] + t;
    assert(body.skip(1) =~= t);
    lemma_flat_read(body, rest);
    assert((body + line_end() + rest)[0] == marker);
}

proof fn lemma_read_integer(n: int, rest: Seq<char>, strict: bool)
    requires
        i64::MIN <= n <= i64::MAX,
    ensures
        spec_deserialize(seq![':'] + decimal(n) + line_end() + rest, strict) == Outcome::Parsed(
            Some(RespValue::Integer(n)),
            rest,
        ),
{
    lemma_decimal_no_line_break(n);
    lemma_parse_decimal(n, true, i64::MIN as int, i64::MAX as int);
    let body = seq![':'] + decimal(n);
    assert(body.skip(1) =~= decimal(n));
    lemma_flat_read(body, rest);
    assert((body + line_end() + rest)[0] == ':');
}

proof fn lemma_read_bulk(t: Seq<char>, rest: Seq<char>, strict: bool)
    requires
        ascii(t),
        t.len() <= usize::MAX,
    ensures
        spec_deserialize(encode(RespValue::BulkString(t)) + rest, strict) == Outcome::Parsed(
            Some(RespValue::BulkString(t)),
            rest,
        ),
{
    let s = encode(RespValue::BulkString(t)) + rest;
    let head = seq!['$'] + decimal(t.len() as int);
    lemma_decimal_no_line_break(t.len() as int);
    lemma_parse_decimal(t.len() as int, false, 0, usize::MAX as int);
    assert(head.skip(1) =~= decimal(t.len() as int));
    lemma_head_no_line_break(head);
    let after = t + line_end() + rest;
    assert(s =~= head + line_end() + after);
    lemma_first_line_break(head, after);
    let p = head.len() as int;
    assert(s.subrange(1, p) =~= decimal(t.len() as int));
    assert(s.skip(p + 2) =~= after);
    assert(after.take(t.len() as int) =~= t);
    assert(after.skip(t.len() as int) =~= line_end() + rest);
    assert((line_end() + rest).skip(2) =~= rest);
    assert(skip_two_bytes(line_end() + rest) == Some(rest));
    assert(s[0] == '$');
    assert(spec_bulk(s) == Outcome::Parsed(Some(RespValue::BulkString(t)), rest));
}

proof fn lemma_head_no_line_break(head: Seq<char>)
    requires
        head.len() >= 1,
        head[0] == '$' || head[0] == '*' || head[0] == '+' || head[0] == '-' || head[0] == ':',
        no_line_break(head.skip(1)),
    ensures
        no_line_break(head),
{
    assert forall|i: int| 0 <= i < head.len() implies !is_crlf_at(head, i) by {
        if i > 0 {
            assert(head.skip(1)[i - 1] == head[i]);
            if i + 1 < head.len() {
                assert(head.skip(1)[i] == head[i + 1]);
                assert(!is_crlf_at(head.skip(1), i - 1));
            }
        }
    }
}

/// A flat line `body + "\r\n"`, whose body starts with its marker and holds
/// no line break, is read as far as its line break.
proof fn lemma_flat_read(body: Seq<char>, rest: Seq<char>)
    requires
        body.len() >= 1,
        no_line_break(body.skip(1)),
        body[0] == '+' || body[0] == '-' || body[0] == ':',
    ensures
        find_crlf(body + line_end() + rest) == Some(body.len() as int),
        (body + line_end() + rest).subrange(1, body.len() as int) == body.skip(1),
        (body + line_end() + rest).skip(body.len() as int + 2) == rest,
{
    lemma_head_no_line_break(body);
    lemma_first_line_break(body, rest);
    assert((body + line_end() + rest).subrange(1, body.len() as int) =~= body.skip(1));
    assert((body + line_end() + rest).skip(body.len() as int + 2) =~= rest);
}

/// Reading back the values of an array one after the other gives them all,
/// and leaves what follows them.
proof fn lemma_read_back_items(items: Seq<RespValue>, rest: Seq<char>, strict: bool)
    requires
        encodable_items(items),
    ensures
        spec_items(encode_items(items) + rest, items.len(), strict) == Outcome::Parsed(items, rest),
    decreases items,
{
    if items.len() == 0 {
        assert(encode_items(items) + rest =~= rest);
        assert(items =~= Seq::<RespValue>::empty());
    } else {
        let x = items[0];
        let tail = items.skip(1);
        let after = encode_items(tail) + rest;
        assert(encode_items(items) + rest =~= encode(x) + after);
        law_read_back_encoding(x, after, strict);
        lemma_read_back_items(tail, rest, strict);
        assert(tail.len() == items.len() - 1);
        assert(opt_prepend(Some(x), tail) =~= items);
    }
}

} // verus!
