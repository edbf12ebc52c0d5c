//! Lists of key-value pairs with distinct text keys, and the maps they
//! stand for.
use vstd::prelude::*;

verus! {

/// The map that a list of key-value pairs stands for.
pub open spec fn pairs_to_map<V>(ps: Seq<(Seq<char>, V)>) -> Map<Seq<char>, V> {
    Map::new(
        |k: Seq<char>| exists|i: int| 0 <= i < ps.len() && (#[trigger] ps[i]).0 == k,
        |k: Seq<char>| ps[choose|i: int| 0 <= i < ps.len() && (#[trigger] ps[i]).0 == k].1,
    )
}

pub open spec fn distinct_keys<V>(ps: Seq<(Seq<char>, V)>) -> bool {
    forall|i: int, j: int|
        0 <= i < ps.len() && 0 <= j < ps.len() && i != j ==> (#[trigger] ps[i]).0 != (#[trigger] ps[j]).0
}

pub proof fn lemma_lookup<V>(ps: Seq<(Seq<char>, V)>, i: int)
    requires
        distinct_keys(ps),
        0 <= i < ps.len(),
    ensures
        pairs_to_map(ps).contains_key(ps[i].0),
        pairs_to_map(ps)[ps[i].0] == ps[i].1,
{
    let k = ps[i].0;
    assert(exists|j: int| 0 <= j < ps.len() && (#[trigger] ps[j]).0 == k);
    let j = choose|j: int| 0 <= j < ps.len() && (#[trigger] ps[j]).0 == k;
    assert(j == i);
}

pub proof fn lemma_absent<V>(ps: Seq<(Seq<char>, V)>, k: Seq<char>)
    requires
        forall|i: int| 0 <= i < ps.len() ==> (#[trigger] ps[i]).0 != k,
    ensures
        !pairs_to_map(ps).contains_key(k),
{
}

pub proof fn lemma_push<V>(ps: Seq<(Seq<char>, V)>, k: Seq<char>, c: V)
    requires
        distinct_keys(ps),
        forall|i: int| 0 <= i < ps.len() ==> (#[trigger] ps[i]).0 != k,
    ensures
        distinct_keys(ps.push((k, c))),
        pairs_to_map(ps.push((k, c))) == pairs_to_map(ps).insert(k, c),
{
    let qs = ps.push((k, c));
    assert(distinct_keys(qs)) by {
        assert forall|i: int, j: int|
            0 <= i < qs.len() && 0 <= j < qs.len() && i != j implies (#[trigger] qs[i]).0 != (#[trigger] qs[j]).0 by {
            if i < ps.len() && j < ps.len() {
                assert(qs[i] == ps[i] && qs[j] == ps[j]);
            } else if i < ps.len() {
                assert(qs[i] == ps[i]);
            } else {
                assert(qs[j] == ps[j]);
            }
        }
    }
    let a = pairs_to_map(qs);
    let b = pairs_to_map(ps).insert(k, c);
    assert forall|x: Seq<char>| #[trigger] a.contains_key(x) == b.contains_key(x) by {
        if b.contains_key(x) && x != k {
            let i = choose|i: int| 0 <= i < ps.len() && (#[trigger] ps[i]).0 == x;
            assert(qs[i] == ps[i]);
        }
        if x == k {
            assert(qs[ps.len() as int].0 == k);
        }
        if a.contains_key(x) && x != k {
            let i = choose|i: int| 0 <= i < qs.len() && (#[trigger] qs[i]).0 == x;
            assert(i < ps.len());
            assert(qs[i] == ps[i]);
        }
    }
    assert forall|x: Seq<char>| a.contains_key(x) implies #[trigger] a[x] == b[x] by {
        if x == k {
            lemma_lookup(qs, ps.len() as int);
        } else {
            let i = choose|i: int| 0 <= i < qs.len() && (#[trigger] qs[i]).0 == x;
            assert(i < ps.len());
            assert(qs[i] == ps[i]);
            lemma_lookup(qs, i);
            lemma_lookup(ps, i);
        }
    }
    assert(a =~= b);
}

pub proof fn lemma_remove<V>(ps: Seq<(Seq<char>, V)>, i: int)
    requires
        distinct_keys(ps),
        0 <= i < ps.len(),
    ensures
        distinct_keys(ps.remove(i)),
        pairs_to_map(ps.remove(i)) == pairs_to_map(ps).remove(ps[i].0),
        forall|j: int| 0 <= j < ps.remove(i).len() ==> (#[trigger] ps.remove(i)[j]).0 != ps[i].0,
{
    let qs = ps.remove(i);
    let k = ps[i].0;
    assert forall|j: int| 0 <= j < qs.len() implies (#[trigger] qs[j]) == ps[if j < i { j } else { j + 1 }] by {}
    assert(distinct_keys(qs)) by {
        assert forall|a: int, b: int|
            0 <= a < qs.len() && 0 <= b < qs.len() && a != b implies (#[trigger] qs[a]).0 != (#[trigger] qs[b]).0 by {
            assert(qs[a] == ps[if a < i { a } else { a + 1 }]);
            assert(qs[b] == ps[if b < i { b } else { b + 1 }]);
        }
    }
    assert forall|j: int| 0 <= j < qs.len() implies (#[trigger] qs[j]).0 != k by {
        assert(qs[j] == ps[if j < i { j } else { j + 1 }]);
    }
    let a = pairs_to_map(qs);
    let b = pairs_to_map(ps).remove(k);
    assert forall|x: Seq<char>| #[trigger] a.contains_key(x) == b.contains_key(x) by {
        if b.contains_key(x) {
            let j = choose|j: int| 0 <= j < ps.len() && (#[trigger] ps[j]).0 == x;
            assert(j != i);
            let jj = if j < i { j } else { j - 1 };
            assert(qs[jj] == ps[j]);
        }
        if a.contains_key(x) {
            let j = choose|j: int| 0 <= j < qs.len() && (#[trigger] qs[j]).0 == x;
            assert(qs[j] == ps[if j < i { j } else { j + 1 }]);
        }
    }
    assert forall|x: Seq<char>| a.contains_key(x) implies #[trigger] a[x] == b[x] by {
        let j = choose|j: int| 0 <= j < qs.len() && (#[trigger] qs[j]).0 == x;
        let jj = if j < i { j } else { j + 1 };
        assert(qs[j] == ps[jj]);
        lemma_lookup(qs, j);
        lemma_lookup(ps, jj);
    }
    assert(a =~= b);
}

/// `a` comes strictly before `b` in the order of strings: at the first
/// place where they differ, `a` has the smaller character, or `a` is a
/// proper prefix of `b`.
pub open spec fn key_lt(a: Seq<char>, b: Seq<char>) -> bool
    decreases a.len(),
{
    if a.len() == 0 {
        b.len() > 0
    } else if b.len() == 0 {
        false
    } else if a[0] != b[0] {
        a[0] < b[0]
    } else {
        key_lt(a.drop_first(), b.drop_first())
    }
}

/// The order of strings is strict and total.
pub proof fn lemma_key_lt_order(a: Seq<char>, b: Seq<char>)
    ensures
        !key_lt(a, a),
        key_lt(a, b) ==> !key_lt(b, a),
        a != b ==> key_lt(a, b) || key_lt(b, a),
    decreases a.len(),
{
    if a.len() > 0 {
        lemma_key_lt_order(a.drop_first(), a.drop_first());
        if b.len() > 0 {
            lemma_key_lt_order(a.drop_first(), b.drop_first());
            if a[0] == b[0] && a != b {
                assert(a.drop_first() != b.drop_first()) by {
                    if a.drop_first() == b.drop_first() {
                        assert(a =~= seq![a[0]] + a.drop_first());
                        assert(b =~= seq![b[0]] + b.drop_first());
                    }
                }
            }
        }
    } else if b.len() == 0 {
        assert(a =~= b);
    }
}

/// The order of strings is transitive.
pub proof fn lemma_key_lt_trans(a: Seq<char>, b: Seq<char>, c: Seq<char>)
    requires
        key_lt(a, b),
        key_lt(b, c),
    ensures
        key_lt(a, c),
    decreases a.len(),
{
    if a.len() > 0 && b.len() > 0 && c.len() > 0 && a[0] == b[0] && b[0] == c[0] {
        lemma_key_lt_trans(a.drop_first(), b.drop_first(), c.drop_first());
    }
}

/// Whether `a` comes strictly before `b` in the order of strings.
pub fn chars_lt(a: &Vec<char>, b: &Vec<char>) -> (r: bool)
    ensures
        r == key_lt(a@, b@),
{
    let mut i: usize = 0;
    assert(a@.skip(0) =~= a@);
    assert(b@.skip(0) =~= b@);
    while i < a.len() && i < b.len() && a[i] == b[i]
        invariant
            i <= a@.len(),
            i <= b@.len(),
            a@.take(i as int) == b@.take(i as int),
            key_lt(a@, b@) == key_lt(a@.skip(i as int), b@.skip(i as int)),
        decreases a.len() - i,
    {
        proof {
            let sa = a@.skip(i as int);
            let sb = b@.skip(i as int);
            assert(sa[0] == sb[0]);
            assert(sa.drop_first() =~= a@.skip(i + 1));
            assert(sb.drop_first() =~= b@.skip(i + 1));
            assert(a@.take(i + 1) =~= a@.take(i as int).push(a@[i as int]));
            assert(b@.take(i + 1) =~= b@.take(i as int).push(b@[i as int]));
        }
        i = i + 1;
    }
    proof {
        let sa = a@.skip(i as int);
        let sb = b@.skip(i as int);
        assert(sa.len() == a@.len() - i);
        assert(sb.len() == b@.len() - i);
        if i < a.len() && i < b.len() {
            assert(sa[0] == a@[i as int]);
            assert(sb[0] == b@[i as int]);
        }
    }
    if i == a.len() {
        i < b.len()
    } else if i == b.len() {
        false
    } else {
        a[i] < b[i]
    }
}

/// The key at the position that `idx[t]` names.
pub open spec fn key_at(keys: Seq<Vec<char>>, idx: Seq<usize>, t: int) -> Seq<char> {
    keys[idx[t] as int]@
}

pub open spec fn distinct_positions(idx: Seq<usize>) -> bool {
    forall|a: int, b: int| 0 <= a < idx.len() && 0 <= b < idx.len() && a != b ==> idx[a] != idx[b]
}

/// `idx` names every position below `n`, and no other.
pub open spec fn covers(idx: Seq<usize>, n: int) -> bool {
    &&& forall|t: int| 0 <= t < idx.len() ==> (#[trigger] idx[t]) < n
    &&& forall|j: usize| j < n ==> #[trigger] idx.contains(j)
}

proof fn lemma_swap_keeps(idx: Seq<usize>, n: int, p: int, q: int)
    requires
        0 <= p < idx.len(),
        0 <= q < idx.len(),
        covers(idx, n),
        distinct_positions(idx),
    ensures
        covers(idx.update(p, idx[q]).update(q, idx[p]), n),
        distinct_positions(idx.update(p, idx[q]).update(q, idx[p])),
{
    let jdx = idx.update(p, idx[q]).update(q, idx[p]);
    assert forall|j: usize| j < n implies #[trigger] jdx.contains(j) by {
        assert(idx.contains(j));
        let t = choose|t: int| 0 <= t < idx.len() && idx[t] == j;
        if t == p {
            assert(jdx[q] == j);
        } else if t == q {
            assert(jdx[p] == j);
        } else {
            assert(jdx[t] == j);
        }
    }
}

/// The positions of `keys`, which are pairwise different, from the one of
/// the smallest key to the one of the largest.
pub fn order_by_key(keys: &Vec<Vec<char>>) -> (idx: Vec<usize>)
    requires
        forall|a: int, b: int|
            0 <= a < keys@.len() && 0 <= b < keys@.len() && a != b ==> keys@[a]@ != keys@[b]@,
    ensures
        idx@.len() == keys@.len(),
        covers(idx@, keys@.len() as int),
        forall|a: int, b: int| 0 <= a < b < idx@.len() ==> key_lt(key_at(keys@, idx@, a), key_at(keys@, idx@, b)),
{
    let n = keys.len();
    let mut idx: Vec<usize> = Vec::new();
    let mut t: usize = 0;
    while t < n
        invariant
            t <= n == keys@.len(),
            idx@.len() == t,
            forall|k: int| 0 <= k < t ==> idx@[k] == k,
        decreases n - t,
    {
        idx.push(t);
        t = t + 1;
    }
    assert(covers(idx@, n as int)) by {
        assert forall|j: usize| j < n implies #[trigger] idx@.contains(j) by {
            assert(idx@[j as int] == j);
        }
    }
    if n == 0 {
        return idx;
    }
    let mut i: usize = 1;
    while i < n
        invariant
            1 <= i <= n == idx@.len() == keys@.len(),
            covers(idx@, n as int),
            distinct_positions(idx@),
            forall|k1: int, k2: int|
                0 <= k1 < keys@.len() && 0 <= k2 < keys@.len() && k1 != k2 ==> keys@[k1]@ != keys@[k2]@,
            forall|a: int, b: int| 0 <= a < b < i ==> key_lt(key_at(keys@, idx@, a), key_at(keys@, idx@, b)),
        decreases n - i,
    {
        let mut j = i;
        while j > 0 && chars_lt(&keys[idx[j]], &keys[idx[j - 1]])
            invariant
                0 <= j <= i < n == idx@.len() == keys@.len(),
                covers(idx@, n as int),
                distinct_positions(idx@),
                forall|k1: int, k2: int|
                    0 <= k1 < keys@.len() && 0 <= k2 < keys@.len() && k1 != k2 ==> keys@[k1]@ != keys@[k2]@,
                forall|a: int, b: int|
                    0 <= a < b <= i && a != j && b != j ==> key_lt(key_at(keys@, idx@, a), key_at(keys@, idx@, b)),
                forall|b: int| j < b <= i ==> key_lt(key_at(keys@, idx@, j as int), key_at(keys@, idx@, b)),
            decreases j,
        {
            let x = idx[j - 1];
            let y = idx[j];
            let ghost before = idx@;
            proof {
                lemma_swap_keeps(before, n as int, j - 1, j as int);
            }
            idx.set(j - 1, y);
            idx.set(j, x);
            assert(idx@ == before.update(j - 1, before[j as int]).update(j as int, before[j - 1]));
            proof {
                let jj = j as int;
                assert(key_lt(key_at(keys@, before, jj), key_at(keys@, before, jj - 1)));
                assert forall|a: int, b: int|
                    0 <= a < b <= i && a != jj - 1 && b != jj - 1 implies key_lt(
                    key_at(keys@, idx@, a),
                    key_at(keys@, idx@, b),
                ) by {
                    let oa = if a == jj { jj - 1 } else { a };
                    let ob = if b == jj { jj - 1 } else { b };
                    assert(key_at(keys@, idx@, a) == key_at(keys@, before, oa));
                    assert(key_at(keys@, idx@, b) == key_at(keys@, before, ob));
                }
                assert forall|b: int| jj - 1 < b <= i implies key_lt(
                    key_at(keys@, idx@, jj - 1),
                    #[trigger] key_at(keys@, idx@, b),
                ) by {
                    assert(key_at(keys@, idx@, jj - 1) == key_at(keys@, before, jj));
                    if b != jj {
                        assert(key_at(keys@, idx@, b) == key_at(keys@, before, b));
                    }
                }
            }
            j = j - 1;
        }
        proof {
            if j > 0 {
                let kp = key_at(keys@, idx@, j - 1);
                let kj = key_at(keys@, idx@, j as int);
                assert(idx@[j - 1] != idx@[j as int]);
                lemma_key_lt_order(kp, kj);
                assert forall|a: int| 0 <= a < j - 1 implies key_lt(key_at(keys@, idx@, a), kj) by {
                    lemma_key_lt_trans(key_at(keys@, idx@, a), kp, kj);
                }
            }
        }
        i = i + 1;
    }
    idx
}

} // verus!
