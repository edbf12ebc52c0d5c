//! Recognising list values: the texts matched by the pattern
//! `^\[\s*([a-zA-Z0-9 ]+,\s*)*[a-zA-Z0-9 ]*\s*\]$`.
//!
//! Between the brackets the text splits at its commas into segments. The
//! pattern asks every segment but the last to be white space followed by at
//! least one element character (`\s*[a-zA-Z0-9 ]+`), and the last to be
//! white space, element characters, white space (`\s*[a-zA-Z0-9 ]*\s*`).
use vstd::prelude::*;

verus! {

/// `\s`: a character with the Unicode `White_Space` property.
pub open spec fn is_ws(c: char) -> bool {
    let u = c as u32;
    (0x09 <= u && u <= 0x0D) || u == 0x20 || u == 0x85 || u == 0xA0 || u == 0x1680 || (0x2000
        <= u && u <= 0x200A) || u == 0x2028 || u == 0x2029 || u == 0x202F || u == 0x205F || u
        == 0x3000
}

/// `[a-zA-Z0-9 ]`
pub open spec fn is_elem(c: char) -> bool {
    ('a' <= c && c <= 'z') || ('A' <= c && c <= 'Z') || ('0' <= c && c <= '9') || c == ' '
}

pub open spec fn all_ws(s: Seq<char>) -> bool {
    forall|i: int| 0 <= i < s.len() ==> is_ws(#[trigger] s[i])
}

pub open spec fn all_elem(s: Seq<char>) -> bool {
    forall|i: int| 0 <= i < s.len() ==> is_elem(#[trigger] s[i])
}

/// `\s*[a-zA-Z0-9 ]+`
pub open spec fn lead_ok(s: Seq<char>) -> bool {
    exists|p: int| 0 <= p < s.len() && all_ws(#[trigger] s.take(p)) && all_elem(s.skip(p))
}

/// `\s*[a-zA-Z0-9 ]*\s*`
pub open spec fn tail_ok(s: Seq<char>) -> bool {
    exists|p: int, q: int|
        0 <= p <= q <= s.len() && all_ws(#[trigger] s.take(p)) && all_elem(
            #[trigger] s.subrange(p, q),
        ) && all_ws(s.skip(q))
}

/// The pieces of `s` between its commas (`str::split(",")`).
pub open spec fn split_commas(s: Seq<char>) -> Seq<Seq<char>>
    decreases s.len(),
{
    if s.len() == 0 {
        seq![seq![]]
    } else {
        let prev = split_commas(s.drop_last());
        if s.last() == ',' {
            prev.push(seq![])
        } else {
            prev.update(prev.len() - 1, prev.last().push(s.last()))
        }
    }
}

pub open spec fn body_ok(b: Seq<char>) -> bool {
    let segs = split_commas(b);
    &&& forall|j: int| 0 <= j < segs.len() - 1 ==> lead_ok(#[trigger] segs[j])
    &&& tail_ok(segs.last())
}

/// `s` is a list value.
pub open spec fn array_pattern(s: Seq<char>) -> bool {
    &&& s.len() >= 2
    &&& s[0] == '['
    &&& s.last() == ']'
    &&& body_ok(s.subrange(1, s.len() - 1))
}

pub proof fn lemma_split_commas_nonempty(s: Seq<char>)
    ensures
        split_commas(s).len() >= 1,
    decreases s.len(),
{
    if s.len() > 0 {
        lemma_split_commas_nonempty(s.drop_last());
    }
}

fn is_ws_char(c: char) -> (b: bool)
    ensures
        b == is_ws(c),
{
    let u = c as u32;
    (0x09 <= u && u <= 0x0D) || u == 0x20 || u == 0x85 || u == 0xA0 || u == 0x1680 || (0x2000
        <= u && u <= 0x200A) || u == 0x2028 || u == 0x2029 || u == 0x202F || u == 0x205F || u
        == 0x3000
}

fn is_elem_char(c: char) -> (b: bool)
    ensures
        b == is_elem(c),
{
    ('a' <= c && c <= 'z') || ('A' <= c && c <= 'Z') || ('0' <= c && c <= '9') || c == ' '
}

/// Whether `chars[lo..hi]` is `\s*[a-zA-Z0-9 ]+`.
#[verifier::loop_isolation(false)]
fn lead_ok_at(chars: &Vec<char>, lo: usize, hi: usize) -> (b: bool)
    requires
        lo <= hi <= chars.len(),
    ensures
        b == lead_ok(chars@.subrange(lo as int, hi as int)),
{
    let ghost s = chars@.subrange(lo as int, hi as int);
    // q: where the longest run of element characters at the end begins
    let mut q = hi;
    while q > lo && is_elem_char(chars[q - 1])
        invariant
            lo <= q <= hi <= chars.len(),
            s == chars@.subrange(lo as int, hi as int),
            all_elem(s.skip(q - lo)),
        decreases q,
    {
        assert(s.skip(q - 1 - lo) =~= seq![s[q - 1 - lo]] + s.skip(q - lo));
        q = q - 1;
    }
    // q == lo, or chars[q - 1] is no element character
    if q == hi {
        proof {
            assert forall|p: int| 0 <= p < s.len() && all_ws(#[trigger] s.take(p)) implies !all_elem(s.skip(p)) by {
                assert(s.skip(p)[s.len() - 1 - p] == s[s.len() - 1]);
                assert(s[s.len() - 1] == chars@[hi - 1]);
            }
        }
        return false;
    }
    let mut i = lo;
    while i < q
        invariant
            lo <= i <= q <= hi <= chars.len(),
            s == chars@.subrange(lo as int, hi as int),
            all_ws(s.take(i - lo)),
        decreases q - i,
    {
        if !is_ws_char(chars[i]) {
            proof {
                // a witness would have to start at or before i, and at or after q
                assert forall|p: int| 0 <= p < s.len() && all_ws(#[trigger] s.take(p)) implies !all_elem(s.skip(p)) by {
                    if p > i - lo {
                        assert(s.take(p)[i - lo] == s[i - lo]);
                    } else {
                        if q > lo {
                            assert(s.skip(p)[q - 1 - lo - p] == s[q - 1 - lo]);
                        }
                    }
                }
            }
            return false;
        }
        assert(s.take(i + 1 - lo) =~= s.take(i - lo).push(s[i - lo]));
        i = i + 1;
    }
    assert(all_ws(s.take(q - lo)) && all_elem(s.skip(q - lo)));
    true
}

/// Whether `chars[lo..hi]` is `\s*[a-zA-Z0-9 ]*\s*`.
#[verifier::loop_isolation(false)]
fn tail_ok_at(chars: &Vec<char>, lo: usize, hi: usize) -> (b: bool)
    requires
        lo <= hi <= chars.len(),
    ensures
        b == tail_ok(chars@.subrange(lo as int, hi as int)),
{
    let ghost s = chars@.subrange(lo as int, hi as int);
    // p0: end of the longest white-space prefix
    let mut p0 = lo;
    while p0 < hi && is_ws_char(chars[p0])
        invariant
            lo <= p0 <= hi <= chars.len(),
            s == chars@.subrange(lo as int, hi as int),
            all_ws(s.take(p0 - lo)),
        decreases hi - p0,
    {
        assert(s.take(p0 + 1 - lo) =~= s.take(p0 - lo).push(s[p0 - lo]));
        p0 = p0 + 1;
    }
    // r0: start of the longest white-space suffix
    let mut r0 = hi;
    while r0 > lo && is_ws_char(chars[r0 - 1])
        invariant
            lo <= r0 <= hi <= chars.len(),
            s == chars@.subrange(lo as int, hi as int),
            all_ws(s.skip(r0 - lo)),
        decreases r0,
    {
        assert(s.skip(r0 - 1 - lo) =~= seq![s[r0 - 1 - lo]] + s.skip(r0 - lo));
        r0 = r0 - 1;
    }
    let m = if p0 < r0 {
        p0
    } else {
        r0
    };
    let mut k = m;
    while k < r0
        invariant
            lo <= m <= k <= r0 <= hi <= chars.len(),
            s == chars@.subrange(lo as int, hi as int),
            all_elem(s.subrange(m - lo, k - lo)),
        decreases r0 - k,
    {
        if !is_elem_char(chars[k]) {
            proof {
                // then p0 < r0, and every witness (p, q) has p <= p0 <= k < r0 <= q
                assert forall|p: int, q: int|
                    0 <= p <= q <= s.len() && all_ws(#[trigger] s.take(p)) implies !(all_elem(
                        #[trigger] s.subrange(p, q),
                    ) && all_ws(s.skip(q))) by {
                    if p > p0 - lo {
                        assert(s.take(p)[p0 - lo] == s[p0 - lo]);
                    } else if q < r0 - lo {
                        assert(s.skip(q)[r0 - 1 - lo - q] == s[r0 - 1 - lo]);
                    } else {
                        assert(s.subrange(p, q)[k - lo - p] == s[k - lo]);
                    }
                }
            }
            return false;
        }
        assert(s.subrange(m - lo, k + 1 - lo) =~= s.subrange(m - lo, k - lo).push(s[k - lo]));
        k = k + 1;
    }
    proof {
        if p0 < r0 {
            assert(all_ws(s.take(p0 - lo)) && all_elem(s.subrange(p0 - lo, r0 - lo)) && all_ws(s.skip(r0 - lo)));
        } else {
            assert(s.take(r0 - lo) =~= s.take(p0 - lo).take(r0 - lo));
            assert(all_ws(s.take(r0 - lo)));
            assert(all_elem(s.subrange(r0 - lo, r0 - lo)));
            assert(all_ws(s.skip(r0 - lo)));
        }
    }
    true
}

/// Whether `chars[lo..hi]` is a body of a list value.
fn body_ok_at(chars: &Vec<char>, lo: usize, hi: usize) -> (b: bool)
    requires
        lo <= hi <= chars.len(),
    ensures
        b == body_ok(chars@.subrange(lo as int, hi as int)),
{
    let ghost b = chars@.subrange(lo as int, hi as int);
    let mut seg_start = lo;
    let mut i = lo;
    let mut ok = true;
    while i < hi
        invariant
            lo <= seg_start <= i <= hi <= chars.len(),
            b == chars@.subrange(lo as int, hi as int),
            split_commas(b.take(i - lo)).len() >= 1,
            split_commas(b.take(i - lo)).last() == chars@.subrange(seg_start as int, i as int),
            ok == (forall|j: int| 0 <= j < split_commas(b.take(i - lo)).len() - 1 ==> lead_ok(#[trigger] split_commas(b.take(i - lo))[j])),
        decreases hi - i,
    {
        let ghost pre = b.take(i - lo);
        let ghost segs = split_commas(pre);
        let ghost next = b.take(i + 1 - lo);
        assert(next.drop_last() =~= pre);
        assert(next.last() == chars@[i as int]);
        if chars[i] == ',' {
            let seg_ok = lead_ok_at(chars, seg_start, i);
            let ghost old_ok = ok;
            ok = ok && seg_ok;
            proof {
                let nsegs = split_commas(next);
                assert(nsegs == segs.push(seq![]));
                assert(nsegs.last() =~= chars@.subrange(i + 1, i + 1));
                assert forall|j: int| 0 <= j < nsegs.len() - 1 implies #[trigger] nsegs[j] == segs[j] by {}
                assert(seg_ok == lead_ok(segs.last()));
                if ok {
                    assert forall|j: int| 0 <= j < nsegs.len() - 1 implies lead_ok(#[trigger] nsegs[j]) by {
                        if j < segs.len() - 1 {
                            assert(lead_ok(segs[j]));
                        } else {
                            assert(nsegs[j] == segs.last());
                        }
                    }
                } else if !seg_ok {
                    assert(nsegs[segs.len() - 1] == segs.last());
                    assert(!lead_ok(nsegs[segs.len() - 1]));
                } else {
                    assert(!old_ok);
                    let j = choose|j: int| 0 <= j < segs.len() - 1 && !lead_ok(#[trigger] segs[j]);
                    assert(!lead_ok(nsegs[j]));
                }
            }
            seg_start = i + 1;
        } else {
            proof {
                let nsegs = split_commas(next);
                assert(nsegs == segs.update(segs.len() - 1, segs.last().push(chars@[i as int])));
                assert(nsegs.last() =~= chars@.subrange(seg_start as int, i + 1));
                assert forall|j: int| 0 <= j < nsegs.len() - 1 implies #[trigger] nsegs[j] == segs[j] by {}
                if ok {
                    assert forall|j: int| 0 <= j < nsegs.len() - 1 implies lead_ok(#[trigger] nsegs[j]) by {
                        assert(lead_ok(segs[j]));
                    }
                } else {
                    let j = choose|j: int| 0 <= j < segs.len() - 1 && !lead_ok(#[trigger] segs[j]);
                    assert(!lead_ok(nsegs[j]));
                }
            }
        }
        i = i + 1;
    }
    assert(b.take(hi - lo) =~= b);
    let last_ok = tail_ok_at(chars, seg_start, hi);
    ok && last_ok
}

/// Whether `chars` is a list value.
pub fn array_pattern_chars(chars: &Vec<char>) -> (b: bool)
    ensures
        b == array_pattern(chars@),
{
    let n = chars.len();
    if n < 2 || chars[0] != '[' || chars[n - 1] != ']' {
        return false;
    }
    body_ok_at(chars, 1, n - 1)
}

/// Whether `s` is a list value, that is, matches
/// `^\[\s*([a-zA-Z0-9 ]+,\s*)*[a-zA-Z0-9 ]*\s*\]$`.
pub fn is_array_pattern(s: &str) -> (b: bool)
    ensures
        b == array_pattern(s@),
{
    let chars = crate::text::chars_of(s);
    array_pattern_chars(&chars)
}

} // verus!
