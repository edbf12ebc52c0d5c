//! Character-level building blocks shared by the protocol parser, the list
//! values of the store and the command responses: locating a line break,
//! reading and writing decimal integers, and UTF-8 widths.
use vstd::prelude::*;

verus! {

/// `s[i..i+2]` is a carriage return followed by a line feed.
pub open spec fn is_crlf_at(s: Seq<char>, i: int) -> bool {
    0 <= i && i + 1 < s.len() && s[i] == '\r' && s[i + 1] == '\n'
}

/// The first line break at or after index `i`.
pub open spec fn find_crlf_from(s: Seq<char>, i: int) -> Option<int>
    decreases s.len() - i,
{
    if i < 0 || i + 1 >= s.len() {
        None
    } else if is_crlf_at(s, i) {
        Some(i)
    } else {
        find_crlf_from(s, i + 1)
    }
}

/// The index of the first `"\r\n"` in `s`, as `str::find("\r\n")` reports it
/// (counted in characters).
pub open spec fn find_crlf(s: Seq<char>) -> Option<int> {
    find_crlf_from(s, 0)
}

/// Number of bytes a character takes in UTF-8.
pub open spec fn utf8_len(c: char) -> int {
    if (c as u32) < 0x80 {
        1
    } else if (c as u32) < 0x800 {
        2
    } else if (c as u32) < 0x10000 {
        3
    } else {
        4
    }
}

pub open spec fn is_digit(c: char) -> bool {
    '0' <= c && c <= '9'
}

pub open spec fn digit_value(c: char) -> int {
    (c as int) - ('0' as int)
}

pub open spec fn all_digits(s: Seq<char>) -> bool {
    forall|i: int| 0 <= i < s.len() ==> is_digit(#[trigger] s[i])
}

/// The number that a string of decimal digits denotes.
pub open spec fn digits_value(s: Seq<char>) -> int
    decreases s.len(),
{
    if s.len() == 0 {
        0
    } else {
        digits_value(s.drop_last()) * 10 + digit_value(s.last())
    }
}

/// What `str::parse` yields for a primitive integer type whose values are
/// `min..=max`: an optional `+` (or, for a signed type, `-`) followed by one
/// or more ASCII digits, whose value lies in the range; anything else is an
/// error.
pub open spec fn parse_integer(s: Seq<char>, signed: bool, min: int, max: int) -> Option<int> {
    if s.len() == 0 {
        None
    } else {
        let neg = signed && s[0] == '-';
        let digits = if s[0] == '+' || neg {
            s.drop_first()
        } else {
            s
        };
        if digits.len() == 0 || !all_digits(digits) {
            None
        } else {
            let v = if neg {
                -digits_value(digits)
            } else {
                digits_value(digits)
            };
            if min <= v <= max {
                Some(v)
            } else {
                None
            }
        }
    }
}

/// `parse::<i64>()`
pub open spec fn parse_i64(s: Seq<char>) -> Option<int> {
    parse_integer(s, true, i64::MIN as int, i64::MAX as int)
}

/// `parse::<u32>()`
pub open spec fn parse_u32(s: Seq<char>) -> Option<int> {
    parse_integer(s, false, 0, u32::MAX as int)
}

/// `parse::<usize>()`
pub open spec fn parse_usize(s: Seq<char>) -> Option<int> {
    parse_integer(s, false, 0, usize::MAX as int)
}

pub open spec fn digit_char(d: int) -> char {
    (d + ('0' as int)) as char
}

/// Decimal digits of a natural number, without leading zeros.
pub open spec fn nat_decimal(n: nat) -> Seq<char>
    decreases n,
{
    if n < 10 {
        seq![digit_char(n as int)]
    } else {
        nat_decimal(n / 10).push(digit_char((n % 10) as int))
    }
}

/// How `to_string()` / `{}` writes an integer.
pub open spec fn decimal(n: int) -> Seq<char> {
    if n < 0 {
        seq!['-'] + nat_decimal((-n) as nat)
    } else {
        nat_decimal(n as nat)
    }
}

pub open spec fn hex_digit_char(d: int) -> char {
    if d < 10 {
        (d + ('0' as int)) as char
    } else {
        (d - 10 + ('a' as int)) as char
    }
}

/// How `{:x}` writes a natural number: lower-case hexadecimal digits
/// without leading zeros.
pub open spec fn lower_hex(n: nat) -> Seq<char>
    decreases n,
{
    if n < 16 {
        seq![hex_digit_char(n as int)]
    } else {
        lower_hex(n / 16).push(hex_digit_char((n % 16) as int))
    }
}

// ---------------------------------------------------------------------------
// Lemmas
// ---------------------------------------------------------------------------

/// The line break that the search reports is one, and none comes before it.
pub proof fn lemma_find_crlf_from(s: Seq<char>, i: int)
    requires
        0 <= i,
    ensures
        match find_crlf_from(s, i) {
            Some(k) => is_crlf_at(s, k) && i <= k && forall|j: int| i <= j < k ==> !is_crlf_at(s, j),
            None => forall|j: int| i <= j ==> !is_crlf_at(s, j),
        },
    decreases s.len() - i,
{
    if i + 1 < s.len() && !is_crlf_at(s, i) {
        lemma_find_crlf_from(s, i + 1);
    }
}

pub proof fn lemma_digits_value_nonneg(s: Seq<char>)
    requires
        all_digits(s),
    ensures
        digits_value(s) >= 0,
    decreases s.len(),
{
    if s.len() > 0 {
        assert(all_digits(s.drop_last()));
        lemma_digits_value_nonneg(s.drop_last());
        assert(is_digit(s[s.len() - 1]));
    }
}

pub proof fn lemma_nat_decimal_digits(n: nat)
    ensures
        all_digits(nat_decimal(n)),
        nat_decimal(n).len() >= 1,
        digits_value(nat_decimal(n)) == n,
    decreases n,
{
    if n < 10 {
        let s = nat_decimal(n);
        let c = digit_char(n as int);
        assert(s.drop_last() =~= Seq::<char>::empty());
        assert((c as int) == n + ('0' as int));
        assert(digit_value(c) == n);
        assert(digits_value(s) == digits_value(s.drop_last()) * 10 + digit_value(s.last()));
    } else {
        lemma_nat_decimal_digits(n / 10);
        let s = nat_decimal(n);
        let c = digit_char((n % 10) as int);
        assert(s.drop_last() =~= nat_decimal(n / 10));
        assert((c as int) == (n % 10) + ('0' as int));
        assert(digit_value(c) == n % 10);
        assert forall|i: int| 0 <= i < s.len() implies is_digit(#[trigger] s[i]) by {
            if i < s.len() - 1 {
                assert(s[i] == nat_decimal(n / 10)[i]);
            }
        }
    }
}

/// Ten to the power `k`.
pub open spec fn pow10(k: nat) -> nat
    decreases k,
{
    if k == 0 {
        1
    } else {
        10 * pow10((k - 1) as nat)
    }
}

/// A number below `10^k` has at most `k` decimal digits.
pub proof fn lemma_nat_decimal_len(n: nat, k: nat)
    requires
        1 <= k,
        n < pow10(k),
    ensures
        nat_decimal(n).len() <= k,
    decreases n,
{
    if n >= 10 {
        if k == 1 {
            assert(pow10(1) == 10 * pow10(0));
        } else {
            assert(pow10(k) == 10 * pow10((k - 1) as nat));
            lemma_nat_decimal_len(n / 10, (k - 1) as nat);
        }
    }
}

/// How an `i32` is written is ASCII, at most 11 characters long.
pub proof fn lemma_decimal_i32(n: int)
    requires
        i32::MIN <= n <= i32::MAX,
    ensures
        decimal(n).len() <= 11,
        vstd::utf8::is_ascii_chars(decimal(n)),
{
    let m: nat = if n < 0 { (-n) as nat } else { n as nat };
    assert(pow10(10) == 10000000000) by {
        reveal_with_fuel(pow10, 11);
    }
    lemma_nat_decimal_len(m, 10);
    lemma_nat_decimal_digits(m);
    let d = nat_decimal(m);
    assert forall|i: int| 0 <= i < decimal(n).len() implies '\0' <= #[trigger] decimal(n)[i] <= '\u{7f}' by {
        if n < 0 {
            if i > 0 {
                assert(decimal(n)[i] == d[i - 1]);
                assert(is_digit(d[i - 1]));
            }
        } else {
            assert(is_digit(d[i]));
        }
    }
}

/// Reading back what `decimal` writes gives the number again.
pub proof fn lemma_parse_decimal(n: int, signed: bool, min: int, max: int)
    requires
        min <= n <= max,
        n < 0 ==> signed,
    ensures
        parse_integer(decimal(n), signed, min, max) == Some(n),
{
    if n < 0 {
        let m = (-n) as nat;
        lemma_nat_decimal_digits(m);
        let s = decimal(n);
        assert(s.drop_first() =~= nat_decimal(m));
    } else {
        lemma_nat_decimal_digits(n as nat);
        let s = nat_decimal(n as nat);
        assert(is_digit(s[0]));
    }
}

// ---------------------------------------------------------------------------
// Executable counterparts
// ---------------------------------------------------------------------------

/// The characters of `s`, in order.
pub fn chars_of(s: &str) -> (v: Vec<char>)
    ensures
        v@ == s@,
{
    let mut v: Vec<char> = Vec::new();
    for c in it: s.chars()
        invariant
            v@ == it.seq().take(it.index() as int),
    {
        v.push(c);
    }
    v
}

/// A `String` holding exactly the given characters.
pub fn string_of(v: &Vec<char>) -> (s: String)
    ensures
        s@ == v@,
{
    let mut s = String::new();
    let mut i: usize = 0;
    while i < v.len()
        invariant
            i <= v.len(),
            s@ == v@.take(i as int),
        decreases v.len() - i,
    {
        s.push(v[i]);
        i = i + 1;
    }
    assert(v@.take(v.len() as int) =~= v@);
    s
}

/// A `String` holding `chars[lo..hi]`.
pub fn string_from_range(chars: &Vec<char>, lo: usize, hi: usize) -> (s: String)
    requires
        lo <= hi <= chars.len(),
    ensures
        s@ == chars@.subrange(lo as int, hi as int),
{
    let mut s = String::new();
    let mut i = lo;
    while i < hi
        invariant
            lo <= i <= hi <= chars.len(),
            s@ == chars@.subrange(lo as int, i as int),
        decreases hi - i,
    {
        s.push(chars[i]);
        proof {
            assert(chars@.subrange(lo as int, i + 1) =~= chars@.subrange(lo as int, i as int).push(chars@[i as int]));
        }
        i = i + 1;
    }
    s
}

/// Appends the characters of `t` to `v`.
pub fn extend_chars(v: &mut Vec<char>, t: &Vec<char>)
    ensures
        final(v)@ == old(v)@ + t@,
{
    let mut i: usize = 0;
    while i < t.len()
        invariant
            i <= t.len(),
            v@ == old(v)@ + t@.take(i as int),
        decreases t.len() - i,
    {
        v.push(t[i]);
        i = i + 1;
    }
    assert(t@.take(t.len() as int) =~= t@);
}

/// Index (into `chars`) of the first line break at or after `pos`.
pub fn find_crlf_at(chars: &Vec<char>, pos: usize) -> (r: Option<usize>)
    requires
        pos <= chars.len(),
    ensures
        match r {
            Some(p) => find_crlf(chars@.skip(pos as int)) == Some(p - pos) && pos <= p && p + 2 <= chars.len(),
            None => find_crlf(chars@.skip(pos as int)) is None,
        },
{
    proof {
        lemma_find_crlf_from(chars@.skip(pos as int), 0);
    }
    let ghost s = chars@.skip(pos as int);
    let mut i = pos;
    while chars.len() - i >= 2
        invariant
            pos <= i <= chars.len(),
            s == chars@.skip(pos as int),
            find_crlf(s) == find_crlf_from(s, i - pos),
        decreases chars.len() - i,
    {
        if chars[i] == '\r' && chars[i + 1] == '\n' {
            assert(is_crlf_at(s, i - pos));
            return Some(i);
        }
        assert(!is_crlf_at(s, i - pos));
        i = i + 1;
    }
    None
}

pub fn is_ascii_digit(c: char) -> (b: bool)
    ensures
        b == is_digit(c),
{
    '0' <= c && c <= '9'
}

/// Bytes the character takes in UTF-8.
pub fn char_utf8_len(c: char) -> (n: usize)
    ensures
        n == utf8_len(c),
{
    let u = c as u32;
    if u < 0x80 {
        1
    } else if u < 0x800 {
        2
    } else if u < 0x10000 {
        3
    } else {
        4
    }
}

/// Parses `chars[lo..hi]` as `str::parse` does for an integer type with
/// values `min..=max`.
#[verifier::loop_isolation(false)]
pub fn parse_integer_at(chars: &Vec<char>, lo: usize, hi: usize, signed: bool, min: i128, max: i128) -> (r: Option<i128>)
    requires
        lo <= hi <= chars.len(),
        -0x1_0000_0000_0000_0000 <= min,
        max <= 0x1_0000_0000_0000_0000,
    ensures
        match parse_integer(chars@.subrange(lo as int, hi as int), signed, min as int, max as int) {
            Some(v) => r == Some(v as i128),
            None => r is None,
        },
{
    let ghost s = chars@.subrange(lo as int, hi as int);
    if lo == hi {
        return None;
    }
    let c0 = chars[lo];
    let neg = signed && c0 == '-';
    let start = if c0 == '+' || neg {
        lo + 1
    } else {
        lo
    };
    let ghost digits = chars@.subrange(start as int, hi as int);
    assert(digits =~= (if s[0] == '+' || neg {
        s.drop_first()
    } else {
        s
    }));
    if start == hi {
        return None;
    }
    let mut i = start;
    while i < hi
        invariant
            start <= i <= hi <= chars.len(),
            digits == chars@.subrange(start as int, hi as int),
            forall|k: int| start <= k < i ==> is_digit(#[trigger] chars@[k]),
        decreases hi - i,
    {
        if !is_ascii_digit(chars[i]) {
            assert(!is_digit(digits[i - start]));
            return None;
        }
        i = i + 1;
    }
    assert(all_digits(digits)) by {
        assert forall|k: int| 0 <= k < digits.len() implies is_digit(#[trigger] digits[k]) by {
            assert(digits[k] == chars@[start + k]);
        }
    }
    let cap: u128 = 0x1_0000_0000_0000_0000;
    let mut v: u128 = 0;
    let mut j = start;
    while j < hi
        invariant
            start <= j <= hi <= chars.len(),
            all_digits(digits),
            digits == chars@.subrange(start as int, hi as int),
            cap == 0x1_0000_0000_0000_0000,
            v <= cap + 1,
            v == (if digits_value(chars@.subrange(start as int, j as int)) > cap {
                cap + 1
            } else {
                digits_value(chars@.subrange(start as int, j as int))
            }),
        decreases hi - j,
    {
        let ghost pre = chars@.subrange(start as int, j as int);
        let ghost next = chars@.subrange(start as int, j + 1);
        assert(next.drop_last() =~= pre);
        assert(next.last() == chars@[j as int]);
        assert(is_digit(digits[j - start]));
        assert(digits[j - start] == chars@[j as int]);
        proof {
            assert(all_digits(pre)) by {
                assert forall|k: int| 0 <= k < pre.len() implies is_digit(#[trigger] pre[k]) by {
                    assert(pre[k] == digits[k]);
                }
            }
            lemma_digits_value_nonneg(pre);
        }
        if v <= cap {
            let d = (chars[j] as u32 - '0' as u32) as u128;
            v = v * 10 + d;
            if v > cap {
                v = cap + 1;
            }
        }
        j = j + 1;
    }
    assert(chars@.subrange(start as int, hi as int) =~= digits);
    if v > cap {
        return None;
    }
    let value: i128 = if neg {
        -(v as i128)
    } else {
        v as i128
    };
    if min <= value && value <= max {
        Some(value)
    } else {
        None
    }
}

/// The decimal digits of `n`, as `to_string()` writes them.
pub fn decimal_chars(n: i128) -> (v: Vec<char>)
    requires
        n > i128::MIN,
    ensures
        v@ == decimal(n as int),
{
    let neg = n < 0;
    let mut m: u128 = if neg {
        (-n) as u128
    } else {
        n as u128
    };
    let ghost m0 = m as nat;
    // digits, least significant first
    let mut rev: Vec<char> = Vec::new();
    let c0 = char_from_digit((m % 10) as u32);
    rev.push(c0);
    m = m / 10;
    proof {
        if m == 0 {
            assert(nat_decimal(m0) == seq![c0]);
        } else {
            assert(nat_decimal(m0) == nat_decimal(m as nat).push(c0));
        }
        assert(rev@.reverse() =~= seq![c0]);
        assert(nat_decimal(m0) =~= (if m == 0 { seq![] } else { nat_decimal(m as nat) }) + rev@.reverse());
    }
    while m > 0
        invariant
            m0 == (if neg { -(n as int) } else { n as int }),
            nat_decimal(m0) == (if m == 0 { seq![] } else { nat_decimal(m as nat) }) + rev@.reverse(),
        decreases m,
    {
        let c = char_from_digit((m % 10) as u32);
        let ghost old_m = m;
        let ghost old_rev = rev@;
        rev.push(c);
        m = m / 10;
        proof {
            if m == 0 {
                assert(nat_decimal(old_m as nat) == seq![c]);
            } else {
                assert(nat_decimal(old_m as nat) == nat_decimal(m as nat).push(c));
            }
            assert(rev@.reverse() =~= seq![c] + old_rev.reverse());
            assert(nat_decimal(m0) =~= (if m == 0 { seq![] } else { nat_decimal(m as nat) }) + rev@.reverse());
        }
    }
    let mut out: Vec<char> = Vec::new();
    if neg {
        out.push('-');
    }
    let mut k = rev.len();
    while k > 0
        invariant
            k <= rev.len(),
            out@ == (if neg { seq!['-'] } else { seq![] }) + rev@.reverse().take(rev.len() - k),
        decreases k,
    {
        k = k - 1;
        proof {
            assert(rev@.reverse().take(rev.len() - k) =~= rev@.reverse().take(rev.len() - k - 1).push(rev@[k as int]));
        }
        out.push(rev[k]);
    }
    assert(rev@.reverse().take(rev.len() as int) =~= rev@.reverse());
    assert(out@ =~= decimal(n as int));
    out
}

pub fn char_from_digit(d: u32) -> (c: char)
    requires
        d < 10,
    ensures
        c == digit_char(d as int),
        c == hex_digit_char(d as int),
{
    if d == 0 { '0' }
    else if d == 1 { '1' }
    else if d == 2 { '2' }
    else if d == 3 { '3' }
    else if d == 4 { '4' }
    else if d == 5 { '5' }
    else if d == 6 { '6' }
    else if d == 7 { '7' }
    else if d == 8 { '8' }
    else { '9' }
}

/// The hexadecimal digit of value `d`, in lower case.
pub fn char_from_hex_digit(d: u64) -> (c: char)
    requires
        d < 16,
    ensures
        c == hex_digit_char(d as int),
{
    if d < 10 {
        char_from_digit(d as u32)
    } else if d == 10 { 'a' }
    else if d == 11 { 'b' }
    else if d == 12 { 'c' }
    else if d == 13 { 'd' }
    else if d == 14 { 'e' }
    else { 'f' }
}

/// The lower-case hexadecimal digits of `n`, as `{:x}` writes them.
pub fn lower_hex_chars(n: u64) -> (v: Vec<char>)
    ensures
        v@ == lower_hex(n as nat),
{
    let mut m: u64 = n;
    // digits, least significant first
    let mut rev: Vec<char> = Vec::new();
    let c0 = char_from_hex_digit(m % 16);
    rev.push(c0);
    m = m / 16;
    proof {
        if m == 0 {
            assert(lower_hex(n as nat) == seq![c0]);
        } else {
            assert(lower_hex(n as nat) == lower_hex(m as nat).push(c0));
        }
        assert(rev@.reverse() =~= seq![c0]);
        assert(lower_hex(n as nat) =~= (if m == 0 { seq![] } else { lower_hex(m as nat) }) + rev@.reverse());
    }
    while m > 0
        invariant
            lower_hex(n as nat) == (if m == 0 { seq![] } else { lower_hex(m as nat) }) + rev@.reverse(),
        decreases m,
    {
        let c = char_from_hex_digit(m % 16);
        let ghost old_m = m;
        let ghost old_rev = rev@;
        rev.push(c);
        m = m / 16;
        proof {
            if m == 0 {
                assert(lower_hex(old_m as nat) == seq![c]);
            } else {
                assert(lower_hex(old_m as nat) == lower_hex(m as nat).push(c));
            }
            assert(rev@.reverse() =~= seq![c] + old_rev.reverse());
            assert(lower_hex(n as nat) =~= (if m == 0 { seq![] } else { lower_hex(m as nat) }) + rev@.reverse());
        }
    }
    let mut out: Vec<char> = Vec::new();
    let mut k = rev.len();
    while k > 0
        invariant
            k <= rev.len(),
            out@ == rev@.reverse().take(rev.len() - k),
        decreases k,
    {
        k = k - 1;
        proof {
            assert(rev@.reverse().take(rev.len() - k) =~= rev@.reverse().take(rev.len() - k - 1).push(rev@[k as int]));
        }
        out.push(rev[k]);
    }
    assert(rev@.reverse().take(rev.len() as int) =~= rev@.reverse());
    out
}

} // verus!
