//! Exercises on common collections: the median and the mode of a list of
//! integers, Pig Latin, and a company directory of departments.
use vstd::prelude::*;

use crate::text::{chars_of, extend_chars, string_of};

verus! {

pub open spec fn sorted(s: Seq<i32>) -> bool {
    forall|i: int, j: int| 0 <= i <= j < s.len() ==> s[i] <= s[j]
}

/// Sorts `v` in place, ascending.
pub fn sort(v: &mut Vec<i32>)
    ensures
        final(v)@.len() == old(v)@.len(),
        final(v)@.to_multiset() == old(v)@.to_multiset(),
        sorted(final(v)@),
{
    broadcast use vstd::multiset::group_multiset_axioms;

    let n = v.len();
    let mut i: usize = 1;
    if n == 0 {
        return;
    }
    while i < n
        invariant
            1 <= i <= n == v.len(),
            v@.to_multiset() == old(v)@.to_multiset(),
            sorted(v@.take(i as int)),
        decreases n - i,
    {
        let mut j = i;
        assert forall|a: int, b: int| 0 <= a <= b <= i && a != j && b != j implies v@[a] <= v@[b] by {
            assert(v@.take(i as int)[a] == v@[a]);
            assert(v@.take(i as int)[b] == v@[b]);
        }
        while j > 0 && v[j - 1] > v[j]
            invariant
                0 <= j <= i < n == v.len(),
                v@.to_multiset() == old(v)@.to_multiset(),
                // v[0..=i] is sorted but for v[j], which may be smaller than v[j-1]
                forall|a: int, b: int| 0 <= a <= b <= i && a != j && b != j ==> v@[a] <= v@[b],
                forall|b: int| j < b <= i ==> v@[j as int] <= v@[b],
            decreases j,
        {
            let a = v[j - 1];
            let b = v[j];
            let ghost before = v@;
            v.set(j - 1, b);
            v.set(j, a);
            proof {
                let mid = before.update(j - 1, b);
                assert(v@ == mid.update(j as int, a));
                vstd::seq_lib::to_multiset_update(before, j - 1, b);
                vstd::seq_lib::to_multiset_update(mid, j as int, a);
                assert(mid[j as int] == b);
                assert(before.to_multiset().count(a) > 0) by {
                    vstd::seq_lib::to_multiset_contains(before, a);
                    assert(before[j - 1] == a);
                }
                assert(v@.to_multiset() =~= before.to_multiset());
            }
            j = j - 1;
        }
        assert forall|x: int, y: int| 0 <= x <= y < i + 1 implies #[trigger] v@.take(i + 1)[x] <= #[trigger] v@.take(i + 1)[y] by {
            assert(v@.take(i + 1)[x] == v@[x]);
            assert(v@.take(i + 1)[y] == v@[y]);
            if x != j && y != j {
            } else if x == j {
            } else {
                assert(v@[x] <= v@[j - 1]);
            }
        }
        i = i + 1;
    }
    assert(v@.take(n as int) =~= v@);
}

/// Sorts `vec` and returns its middle element (the upper one of the two
/// middle elements of an even-length list).
pub fn median(vec: &mut Vec<i32>) -> (r: i32)
    requires
        old(vec)@.len() > 0,
    ensures
        final(vec)@.len() == old(vec)@.len(),
        final(vec)@.to_multiset() == old(vec)@.to_multiset(),
        sorted(final(vec)@),
        r == final(vec)@[(old(vec)@.len() / 2) as int],
{
    sort(vec);
    vec[vec.len() / 2]
}

/// How often `x` occurs in `s`.
pub open spec fn count_in(s: Seq<i32>, x: i32) -> nat
    decreases s.len(),
{
    if s.len() == 0 {
        0
    } else {
        count_in(s.drop_last(), x) + if s.last() == x {
            1nat
        } else {
            0nat
        }
    }
}

fn count_of(vec: &Vec<i32>, x: i32) -> (c: usize)
    ensures
        c == count_in(vec@, x),
{
    let mut c: usize = 0;
    let mut j: usize = 0;
    while j < vec.len()
        invariant
            j <= vec.len(),
            c == count_in(vec@.take(j as int), x),
            c <= j,
        decreases vec.len() - j,
    {
        assert(vec@.take(j + 1).drop_last() =~= vec@.take(j as int));
        if vec[j] == x {
            c = c + 1;
        }
        j = j + 1;
    }
    assert(vec@.take(vec.len() as int) =~= vec@);
    c
}

/// A most frequent value of `vec` (`0` for an empty list). Where several
/// values are equally frequent, which one is returned is not promised.
pub fn mode(vec: &Vec<i32>) -> (r: i32)
    ensures
        vec@.len() == 0 ==> r == 0,
        vec@.len() > 0 ==> vec@.contains(r),
        forall|x: i32| count_in(vec@, x) <= count_in(vec@, r),
{
    if vec.len() == 0 {
        return 0;
    }
    let mut best = vec[0];
    let mut best_count = count_of(vec, best);
    let mut i: usize = 1;
    while i < vec.len()
        invariant
            1 <= i <= vec.len(),
            vec@.contains(best),
            best_count == count_in(vec@, best),
            forall|k: int| 0 <= k < i ==> count_in(vec@, #[trigger] vec@[k]) <= best_count,
        decreases vec.len() - i,
    {
        let c = count_of(vec, vec[i]);
        if c > best_count {
            best = vec[i];
            best_count = c;
        }
        i = i + 1;
    }
    proof {
        assert forall|x: i32| count_in(vec@, x) <= count_in(vec@, best) by {
            lemma_count_absent(vec@, x);
            if vec@.contains(x) {
                let k = choose|k: int| 0 <= k < vec@.len() && vec@[k] == x;
                assert(count_in(vec@, vec@[k]) <= best_count);
            }
        }
    }
    best
}

proof fn lemma_count_absent(s: Seq<i32>, x: i32)
    ensures
        !s.contains(x) ==> count_in(s, x) == 0,
    decreases s.len(),
{
    if s.len() > 0 {
        lemma_count_absent(s.drop_last(), x);
        if !s.contains(x) {
            assert(!s.drop_last().contains(x)) by {
                if s.drop_last().contains(x) {
                    let k = choose|k: int| 0 <= k < s.drop_last().len() && s.drop_last()[k] == x;
                    assert(s[k] == x);
                }
            }
            assert(s[s.len() - 1] != x);
        }
    }
}

/// `char::to_ascii_lowercase`
pub open spec fn ascii_lower(c: char) -> char {
    if 'A' <= c && c <= 'Z' {
        ((c as u32) + 32) as char
    } else {
        c
    }
}

pub open spec fn is_vowel(c: char) -> bool {
    let l = ascii_lower(c);
    l == 'a' || l == 'e' || l == 'i' || l == 'o' || l == 'u'
}

/// The Pig Latin form of a word: a word starting with a vowel gets `-hay`,
/// any other word moves its first letter behind a dash and gets `ay`.
pub open spec fn pig_latin(w: Seq<char>) -> Seq<char> {
    if is_vowel(w[0]) {
        w + "-hay"@
    } else {
        w.skip(1) + seq!['-', w[0]] + "ay"@
    }
}

fn lower_ascii(c: char) -> (l: char)
    ensures
        l == ascii_lower(c),
{
    if 'A' <= c && c <= 'Z' {
        ((c as u32) + 32) as u8 as char
    } else {
        c
    }
}

/// The Pig Latin form of a non-empty word.
pub fn to_pig_latin(word: String) -> (r: String)
    requires
        word@.len() > 0,
    ensures
        r@ == pig_latin(word@),
{
    let chars = chars_of(word.as_str());
    let first = chars[0];
    let l = lower_ascii(first);
    let vowel = l == 'a' || l == 'e' || l == 'i' || l == 'o' || l == 'u';
    if vowel {
        let mut out = chars;
        let tail = chars_of("-hay");
        extend_chars(&mut out, &tail);
        string_of(&out)
    } else {
        let mut out: Vec<char> = Vec::new();
        let mut i: usize = 1;
        while i < chars.len()
            invariant
                1 <= i <= chars.len(),
                out@ == chars@.subrange(1, i as int),
            decreases chars.len() - i,
        {
            out.push(chars[i]);
            assert(chars@.subrange(1, i + 1) =~= chars@.subrange(1, i as int).push(chars@[i as int]));
            i = i + 1;
        }
        out.push('-');
        out.push(first);
        let tail = chars_of("ay");
        extend_chars(&mut out, &tail);
        assert(out@ =~= word@.skip(1) + seq!['-', word@[0]] + "ay"@);
        string_of(&out)
    }
}

/// A company: departments, each with the names of the people in it, in the
/// order they were added.
pub struct Company {
    pub departments: Vec<(String, Vec<String>)>,
}

pub open spec fn names_view(v: Seq<String>) -> Seq<Seq<char>> {
    Seq::new(v.len(), |i: int| v[i]@)
}

pub open spec fn departments_view(ds: Seq<(String, Vec<String>)>) -> Seq<(Seq<char>, Seq<Seq<char>>)> {
    Seq::new(ds.len(), |i: int| (ds[i].0@, names_view(ds[i].1@)))
}

/// Where the department `name` stands, if anywhere (the first one of that
/// name).
pub open spec fn department_index(ds: Seq<(Seq<char>, Seq<Seq<char>>)>, name: Seq<char>) -> Option<int>
    decreases ds.len(),
{
    if ds.len() == 0 {
        None
    } else {
        match department_index(ds.drop_last(), name) {
            Some(i) => Some(i),
            None => if ds.last().0 == name {
                Some(ds.len() - 1)
            } else {
                None
            },
        }
    }
}

/// Everyone, department after department.
pub open spec fn everyone(ds: Seq<(Seq<char>, Seq<Seq<char>>)>) -> Seq<Seq<char>>
    decreases ds.len(),
{
    if ds.len() == 0 {
        seq![]
    } else {
        everyone(ds.drop_last()) + ds.last().1
    }
}

/// The departments after adding `person` to `department`: at the end of it,
/// or as the only member of a new department at the end.
pub open spec fn with_member(ds: Seq<(Seq<char>, Seq<Seq<char>>)>, person: Seq<char>, department: Seq<char>) -> Seq<(Seq<char>, Seq<Seq<char>>)> {
    match department_index(ds, department) {
        Some(i) => ds.update(i, (ds[i].0, ds[i].1.push(person))),
        None => ds.push((department, seq![person])),
    }
}

impl Company {
    pub open spec fn view_departments(&self) -> Seq<(Seq<char>, Seq<Seq<char>>)> {
        departments_view(self.departments@)
    }

    /// A company without departments.
    pub fn new() -> (c: Company)
        ensures
            c.view_departments() == Seq::<(Seq<char>, Seq<Seq<char>>)>::empty(),
    {
        let c = Company { departments: Vec::new() };
        assert(c.view_departments() =~= Seq::<(Seq<char>, Seq<Seq<char>>)>::empty());
        c
    }

    fn find(&self, name: &String) -> (r: Option<usize>)
        ensures
            match department_index(self.view_departments(), name@) {
                Some(i) => r == Some(i as usize),
                None => r is None,
            },
            r matches Some(i) ==> i < self.departments.len() && self.view_departments()[i as int].0 == name@,
    {
        let ghost ds = self.view_departments();
        proof {
            lemma_index_props(ds, name@);
        }
        let mut i: usize = 0;
        while i < self.departments.len()
            invariant
                i <= self.departments.len(),
                ds == self.view_departments(),
                department_index(ds.take(i as int), name@) is None,
            decreases self.departments.len() - i,
        {
            assert(ds.take(i + 1).drop_last() =~= ds.take(i as int));
            if self.departments[i].0 == *name {
                proof {
                    lemma_index_prefix(ds, i as int + 1, name@);
                }
                return Some(i);
            }
            i = i + 1;
        }
        assert(ds.take(i as int) =~= ds);
        None
    }

    /// Adds `name` to the department `department_name`, creating the
    /// department where there is none.
    pub fn add(&mut self, name: &str, department_name: &str)
        ensures
            final(self).view_departments() == with_member(old(self).view_departments(), name@, department_name@),
    {
        let ghost ds = self.view_departments();
        proof {
            lemma_index_props(ds, department_name@);
        }
        let dept = String::from_str(department_name);
        match self.find(&dept) {
            Some(i) => {
                let (d, mut people) = self.departments.remove(i);
                people.push(String::from_str(name));
                self.departments.insert(i, (d, people));
                assert(names_view(people@) =~= ds[i as int].1.push(name@));
                assert(self.view_departments() =~= ds.update(i as int, (ds[i as int].0, ds[i as int].1.push(name@))));
            },
            None => {
                let mut people: Vec<String> = Vec::new();
                people.push(String::from_str(name));
                self.departments.push((dept, people));
                assert(names_view(people@) =~= seq![name@]);
                assert(self.view_departments() =~= ds.push((department_name@, seq![name@])));
            },
        }
    }

    /// Everyone in the company, department after department.
    pub fn get_all(&self) -> (r: Vec<String>)
        ensures
            names_view(r@) == everyone(self.view_departments()),
    {
        let ghost ds = self.view_departments();
        let mut all: Vec<String> = Vec::new();
        let mut i: usize = 0;
        while i < self.departments.len()
            invariant
                i <= self.departments.len(),
                ds == self.view_departments(),
                names_view(all@) == everyone(ds.take(i as int)),
            decreases self.departments.len() - i,
        {
            assert(ds.take(i + 1).drop_last() =~= ds.take(i as int));
            let people = &self.departments[i].1;
            let ghost start = names_view(all@);
            let mut j: usize = 0;
            while j < people.len()
                invariant
                    j <= people.len(),
                    names_view(all@) == start + names_view(people@).take(j as int),
                decreases people.len() - j,
            {
                let ghost old_all = all@;
                all.push(people[j].clone());
                assert(names_view(all@) =~= names_view(old_all).push(people@[j as int]@));
                assert(names_view(people@).take(j + 1) =~= names_view(people@).take(j as int).push(people@[j as int]@));
                assert(names_view(all@) =~= start + names_view(people@).take(j + 1));
                j = j + 1;
            }
            assert(names_view(people@).take(people.len() as int) =~= ds[i as int].1);
            i = i + 1;
        }
        assert(ds.take(i as int) =~= ds);
        all
    }

    /// The people in the department `name`, if there is one.
    pub fn get_by_department(&self, name: &str) -> (r: Option<&Vec<String>>)
        ensures
            match department_index(self.view_departments(), name@) {
                Some(i) => r matches Some(v) && names_view(v@) == self.view_departments()[i].1,
                None => r is None,
            },
    {
        proof {
            lemma_index_props(self.view_departments(), name@);
        }
        let n = String::from_str(name);
        match self.find(&n) {
            Some(i) => Some(&self.departments[i].1),
            None => None,
        }
    }
}

proof fn lemma_index_props(ds: Seq<(Seq<char>, Seq<Seq<char>>)>, name: Seq<char>)
    ensures
        department_index(ds, name) matches Some(i) ==> 0 <= i < ds.len() && ds[i].0 == name,
    decreases ds.len(),
{
    if ds.len() > 0 {
        lemma_index_props(ds.drop_last(), name);
    }
}

proof fn lemma_index_prefix(ds: Seq<(Seq<char>, Seq<Seq<char>>)>, k: int, name: Seq<char>)
    requires
        0 < k <= ds.len(),
        department_index(ds.take(k - 1), name) is None,
        ds[k - 1].0 == name,
    ensures
        department_index(ds, name) == Some(k - 1),
    decreases ds.len() - k,
{
    assert(ds.take(k).drop_last() =~= ds.take(k - 1));
    assert(department_index(ds.take(k), name) == Some(k - 1));
    if k < ds.len() {
        lemma_index_extend(ds, k + 1, name, k - 1);
    } else {
        assert(ds.take(k) =~= ds);
    }
}

proof fn lemma_index_extend(ds: Seq<(Seq<char>, Seq<Seq<char>>)>, k: int, name: Seq<char>, i: int)
    requires
        0 < k <= ds.len(),
        department_index(ds.take(k - 1), name) == Some(i),
    ensures
        department_index(ds, name) == Some(i),
    decreases ds.len() - k,
{
    assert(ds.take(k).drop_last() =~= ds.take(k - 1));
    if k < ds.len() {
        lemma_index_extend(ds, k + 1, name, i);
    } else {
        assert(ds.take(k) =~= ds);
    }
}

proof fn lemma_index_update(
    ds: Seq<(Seq<char>, Seq<Seq<char>>)>,
    i: int,
    entry: (Seq<char>, Seq<Seq<char>>),
    name: Seq<char>,
)
    requires
        0 <= i < ds.len(),
        entry.0 == ds[i].0,
    ensures
        department_index(ds.update(i, entry), name) == department_index(ds, name),
    decreases ds.len(),
{
    let us = ds.update(i, entry);
    if i < ds.len() - 1 {
        assert(us.drop_last() =~= ds.drop_last().update(i, entry));
        lemma_index_update(ds.drop_last(), i, entry, name);
    } else {
        assert(us.drop_last() =~= ds.drop_last());
    }
}

/// Whoever is added to a department is then listed last in it.
pub proof fn law_added_member_is_listed(
    ds: Seq<(Seq<char>, Seq<Seq<char>>)>,
    person: Seq<char>,
    department: Seq<char>,
)
    ensures
        ({
            let after = with_member(ds, person, department);
            &&& department_index(after, department) is Some
            &&& after[department_index(after, department)->0].1.last() == person
        }),
{
    lemma_index_props(ds, department);
    match department_index(ds, department) {
        Some(i) => {
            lemma_index_update(ds, i, (ds[i].0, ds[i].1.push(person)), department);
        },
        None => {
            let after = ds.push((department, seq![person]));
            assert(after.drop_last() =~= ds);
        },
    }
}

/// The departments after adding each `(person, department)` of `adds`, in
/// order, to a company without departments.
pub open spec fn after_adds(adds: Seq<(Seq<char>, Seq<char>)>) -> Seq<(Seq<char>, Seq<Seq<char>>)>
    decreases adds.len(),
{
    if adds.len() == 0 {
        seq![]
    } else {
        with_member(after_adds(adds.drop_last()), adds.last().0, adds.last().1)
    }
}

/// The people added to `department`, in the order they were added.
pub open spec fn added_to(adds: Seq<(Seq<char>, Seq<char>)>, department: Seq<char>) -> Seq<Seq<char>>
    decreases adds.len(),
{
    if adds.len() == 0 {
        seq![]
    } else if adds.last().1 == department {
        added_to(adds.drop_last(), department).push(adds.last().0)
    } else {
        added_to(adds.drop_last(), department)
    }
}

/// After a sequence of additions to a company without departments, a
/// department is there exactly when someone was added to it, and it lists
/// the people added to it, in the order they were added.
pub proof fn law_department_lists_its_additions(adds: Seq<(Seq<char>, Seq<char>)>, department: Seq<char>)
    ensures
        (department_index(after_adds(adds), department) is Some) <==> (exists|i: int|
            0 <= i < adds.len() && (#[trigger] adds[i]).1 == department),
        department_index(after_adds(adds), department) matches Some(j) ==> after_adds(adds)[j].1 == added_to(
            adds,
            department,
        ),
    decreases adds.len(),
{
    if adds.len() > 0 {
        let init = adds.drop_last();
        let (p, d) = adds.last();
        law_department_lists_its_additions(init, department);
        let ds = after_adds(init);
        lemma_index_props(ds, department);
        lemma_index_props(ds, d);
        if exists|i: int| 0 <= i < init.len() && (#[trigger] init[i]).1 == department {
            let i = choose|i: int| 0 <= i < init.len() && (#[trigger] init[i]).1 == department;
            assert(adds[i] == init[i]);
        }
        if d == department {
            assert(adds[adds.len() - 1].1 == department);
            law_added_member_is_listed(ds, p, d);
            match department_index(ds, d) {
                Some(j) => {
                    lemma_index_update(ds, j, (ds[j].0, ds[j].1.push(p)), d);
                },
                None => {
                    let after = ds.push((d, seq![p]));
                    assert(after.drop_last() =~= ds);
                    assert(!(exists|i: int| 0 <= i < init.len() && (#[trigger] init[i]).1 == department));
                    assert(added_to(init, department) =~= Seq::<Seq<char>>::empty()) by {
                        lemma_added_to_absent(init, department);
                    }
                },
            }
        } else {
            if exists|i: int| 0 <= i < adds.len() && (#[trigger] adds[i]).1 == department {
                let i = choose|i: int| 0 <= i < adds.len() && (#[trigger] adds[i]).1 == department;
                assert(i < init.len());
                assert(init[i] == adds[i]);
            }
            match department_index(ds, d) {
                Some(j) => {
                    lemma_index_update(ds, j, (ds[j].0, ds[j].1.push(p)), department);
                },
                None => {
                    let after = ds.push((d, seq![p]));
                    assert(after.drop_last() =~= ds);
                },
            }
        }
    }
}

proof fn lemma_added_to_absent(adds: Seq<(Seq<char>, Seq<char>)>, department: Seq<char>)
    requires
        !(exists|i: int| 0 <= i < adds.len() && (#[trigger] adds[i]).1 == department),
    ensures
        added_to(adds, department) == Seq::<Seq<char>>::empty(),
    decreases adds.len(),
{
    if adds.len() > 0 {
        let init = adds.drop_last();
        if exists|i: int| 0 <= i < init.len() && (#[trigger] init[i]).1 == department {
            let i = choose|i: int| 0 <= i < init.len() && (#[trigger] init[i]).1 == department;
            assert(adds[i] == init[i]);
        }
        lemma_added_to_absent(init, department);
        assert(adds[adds.len() - 1].1 != department);
    }
}

} // verus!
