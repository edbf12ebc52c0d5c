//! List values: texts such as `[a,b,c]` that the store keeps under a key,
//! and the insertion of one more element at either end.
use vstd::prelude::*;

use crate::modules::regex::{array_pattern, array_pattern_chars, split_commas, lemma_split_commas_nonempty};
use crate::text::{chars_of, extend_chars, string_of};

verus! {

/// Which end of a list an element goes to.
#[derive(PartialEq, Eq, Structural, Debug, Clone, Copy)]
pub enum ArrayPlacement {
    LEFT,
    RIGHT,
}

pub open spec fn nonempty() -> spec_fn(Seq<char>) -> bool {
    |seg: Seq<char>| seg.len() > 0
}

/// The elements of a list value: the non-empty pieces between its commas.
pub open spec fn elements(array: Seq<char>) -> Seq<Seq<char>> {
    split_commas(array.subrange(1, array.len() - 1)).filter(nonempty())
}

/// The items one after the other, with `sep` between neighbours.
pub open spec fn join(items: Seq<Seq<char>>, sep: char) -> Seq<char>
    decreases items.len(),
{
    if items.len() == 0 {
        seq![]
    } else if items.len() == 1 {
        items[0]
    } else {
        join(items.drop_last(), sep).push(sep) + items.last()
    }
}

/// The list value with the given elements: `[e1,e2,...]`.
pub open spec fn list_text(items: Seq<Seq<char>>) -> Seq<char> {
    seq!['['] + join(items, ',') + seq![']']
}

pub open spec fn not_an_array_message() -> Seq<char> {
    "The string it's not an array"@
}

/// The elements after adding `value` at the given end.
pub open spec fn placed(es: Seq<Seq<char>>, value: Seq<char>, placement: ArrayPlacement) -> Seq<Seq<char>> {
    match placement {
        ArrayPlacement::RIGHT => es.push(value),
        ArrayPlacement::LEFT => seq![value] + es,
    }
}

/// What [`insert_on_array`] gives: the list text and its number of elements,
/// or the error message when `array` is no list value. An empty `value`
/// leaves the list as it is.
pub open spec fn spec_insert_on_array(array: Seq<char>, value: Seq<char>, placement: ArrayPlacement) -> Result<(Seq<char>, u32), Seq<char>> {
    if !array_pattern(array) {
        Err(not_an_array_message())
    } else {
        let es = elements(array);
        if value.len() == 0 {
            Ok((array, es.len() as u32))
        } else {
            let ns = placed(es, value, placement);
            Ok((list_text(ns), ns.len() as u32))
        }
    }
}

pub open spec fn views(v: Seq<Vec<char>>) -> Seq<Seq<char>> {
    Seq::new(v.len(), |i: int| v[i]@)
}

/// The non-empty pieces between the commas of `chars[lo..hi]`.
fn elements_at(chars: &Vec<char>, lo: usize, hi: usize) -> (segs: Vec<Vec<char>>)
    requires
        lo <= hi <= chars.len(),
    ensures
        views(segs@) == split_commas(chars@.subrange(lo as int, hi as int)).filter(nonempty()),
{
    let ghost b = chars@.subrange(lo as int, hi as int);
    let mut segs: Vec<Vec<char>> = Vec::new();
    let mut cur: Vec<char> = Vec::new();
    let mut i = lo;
    proof {
        assert(b.take(0) =~= Seq::<char>::empty());
        assert(split_commas(b.take(0)).drop_last() =~= Seq::<Seq<char>>::empty());
        assert(views(segs@) =~= Seq::<Seq<char>>::empty());
    }
    while i < hi
        invariant
            lo <= i <= hi <= chars.len(),
            b == chars@.subrange(lo as int, hi as int),
            split_commas(b.take(i - lo)).len() >= 1,
            views(segs@) == split_commas(b.take(i - lo)).drop_last().filter(nonempty()),
            cur@ == split_commas(b.take(i - lo)).last(),
        decreases hi - i,
    {
        let ghost pre = b.take(i - lo);
        let ghost segs0 = split_commas(pre);
        let ghost next = b.take(i + 1 - lo);
        let ghost old_views = views(segs@);
        assert(next.drop_last() =~= pre);
        assert(next.last() == chars@[i as int]);
        let c = chars[i];
        if c == ',' {
            proof {
                assert(split_commas(next) == segs0.push(seq![]));
                assert(split_commas(next).drop_last() =~= segs0);
                assert(segs0 =~= segs0.drop_last().push(segs0.last()));
                segs0.drop_last().lemma_filter_push(segs0.last(), nonempty());
            }
            if cur.len() > 0 {
                segs.push(cur);
                assert(views(segs@) =~= old_views.push(segs0.last()));
            } else {
                assert(views(segs@) =~= old_views);
            }
            cur = Vec::new();
            assert(cur@ =~= split_commas(next).last());
        } else {
            proof {
                assert(split_commas(next) == segs0.update(segs0.len() - 1, segs0.last().push(c)));
                assert(split_commas(next).drop_last() =~= segs0.drop_last());
            }
            cur.push(c);
        }
        i = i + 1;
    }
    proof {
        assert(b.take(hi - lo) =~= b);
        let all = split_commas(b);
        lemma_split_commas_nonempty(b);
        assert(all =~= all.drop_last().push(all.last()));
        all.drop_last().lemma_filter_push(all.last(), nonempty());
    }
    if cur.len() > 0 {
        let ghost old_views = views(segs@);
        segs.push(cur);
        assert(views(segs@) =~= old_views.push(split_commas(b).last()));
    }
    segs
}

/// `[` followed by the items joined with commas, followed by `]`.
fn list_chars(items: &Vec<Vec<char>>) -> (out: Vec<char>)
    ensures
        out@ == list_text(views(items@)),
{
    let mut out: Vec<char> = Vec::new();
    out.push('[');
    let mut i: usize = 0;
    proof {
        assert(views(items@).take(0) =~= Seq::<Seq<char>>::empty());
        assert(out@ =~= seq!['['] + join(views(items@).take(0), ','));
    }
    while i < items.len()
        invariant
            i <= items.len(),
            out@ == seq!['['] + join(views(items@).take(i as int), ','),
        decreases items.len() - i,
    {
        let ghost before = out@;
        let ghost t = views(items@).take(i + 1);
        assert(t.drop_last() =~= views(items@).take(i as int));
        assert(t.last() == items@[i as int]@);
        if i > 0 {
            out.push(',');
        } else {
            assert(t.len() == 1);
        }
        extend_chars(&mut out, &items[i]);
        assert(out@ =~= seq!['['] + join(t, ','));
        i = i + 1;
    }
    assert(views(items@).take(items.len() as int) =~= views(items@));
    out.push(']');
    out
}

pub open spec fn result_view(r: Result<(String, u32), String>) -> Result<(Seq<char>, u32), Seq<char>> {
    match r {
        Ok((s, n)) => Ok((s@, n)),
        Err(e) => Err(e@),
    }
}

/// Adds `value` at the given end of the list value `array` and returns the
/// new list value with its number of elements; an error when `array` is no
/// list value. An empty `value` leaves the list as it is.
pub fn insert_on_array(array: &str, value: &str, placement: ArrayPlacement) -> (r: Result<(String, u32), String>)
    ensures
        result_view(r) == spec_insert_on_array(array@, value@, placement),
{
    let chars = chars_of(array);
    if !array_pattern_chars(&chars) {
        return Err(String::from_str("The string it's not an array"));
    }
    let n = chars.len();
    let mut segs = elements_at(&chars, 1, n - 1);
    if value.is_empty() {
        let count = segs.len() as u32;
        return Ok((String::from_str(array), count));
    }
    let v = chars_of(value);
    let ghost es = views(segs@);
    if placement == ArrayPlacement::RIGHT {
        segs.push(v);
        assert(views(segs@) =~= es.push(value@));
    } else {
        segs.insert(0, v);
        assert(views(segs@) =~= seq![value@] + es);
    }
    let text = list_chars(&segs);
    let count = segs.len() as u32;
    Ok((string_of(&text), count))
}

} // verus!
