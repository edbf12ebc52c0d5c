//! A collection of integers that keeps the sum from which its average is
//! taken, brought up to date on every change.
use vstd::prelude::*;

verus! {

/// The sum of the numbers, added from the first to the last.
pub open spec fn seq_sum(s: Seq<i32>) -> int
    decreases s.len(),
{
    if s.len() == 0 {
        0
    } else {
        seq_sum(s.drop_last()) + s.last()
    }
}

/// Every running sum, from the first number to the last, fits in an `i32`:
/// the sum can be taken in `i32` arithmetic without overflow.
pub open spec fn sums_fit(s: Seq<i32>) -> bool {
    forall|k: int| 0 <= k <= s.len() ==> i32::MIN <= #[trigger] seq_sum(s.take(k)) <= i32::MAX
}

/// Numbers in the order they were added, with their sum as of the last
/// change; the average is that sum over the count.
pub struct AverageCollection {
    vec: Vec<i32>,
    sum: i32,
}

impl View for AverageCollection {
    type V = Seq<i32>;

    closed spec fn view(&self) -> Seq<i32> {
        self.vec@
    }
}

proof fn lemma_prefix_fits(s: Seq<i32>, n: int)
    requires
        sums_fit(s),
        0 <= n <= s.len(),
    ensures
        sums_fit(s.take(n)),
{
    assert forall|k: int| 0 <= k <= n implies i32::MIN <= #[trigger] seq_sum(s.take(n).take(k)) <= i32::MAX by {
        assert(s.take(n).take(k) =~= s.take(k));
    }
}

impl AverageCollection {
    /// The collection is well formed: the sum is that of its numbers, and
    /// every running sum fits in an `i32`.
    pub closed spec fn wf(&self) -> bool {
        &&& sums_fit(self.vec@)
        &&& self.sum as int == seq_sum(self.vec@)
    }

    /// An empty collection.
    pub fn new() -> (r: Self)
        ensures
            r.wf(),
            r@ == Seq::<i32>::empty(),
    {
        let r = AverageCollection { vec: Vec::new(), sum: 0 };
        assert(r.vec@.take(0) =~= Seq::<i32>::empty());
        r
    }

    /// Adds `number` at the end and takes the sum again. Every running sum
    /// must fit in an `i32`, as the addition overflows otherwise.
    pub fn add(&mut self, number: i32)
        requires
            old(self).wf(),
            sums_fit(old(self)@.push(number)),
        ensures
            final(self).wf(),
            final(self)@ == old(self)@.push(number),
    {
        self.vec.push(number);
        self.update_average();
    }

    /// Takes off the last number, if any, and then takes the sum again.
    pub fn remove(&mut self) -> (r: Option<i32>)
        requires
            old(self).wf(),
        ensures
            final(self).wf(),
            old(self)@.len() == 0 ==> r is None && final(self)@ == old(self)@,
            old(self)@.len() > 0 ==> r == Some(old(self)@.last()) && final(self)@ == old(self)@.drop_last(),
    {
        let result = self.vec.pop();
        match result {
            Some(value) => {
                proof {
                    lemma_prefix_fits(old(self)@, old(self)@.len() - 1);
                    assert(old(self)@.take(old(self)@.len() - 1) =~= self.vec@);
                }
                self.update_average();
                Some(value)
            },
            None => None,
        }
    }

    /// Sums the numbers, from the first to the last.
    pub fn update_average(&mut self)
        requires
            sums_fit(old(self)@),
        ensures
            final(self).wf(),
            final(self)@ == old(self)@,
    {
        let mut acc: i32 = 0;
        let mut i: usize = 0;
        proof {
            assert(self.vec@.take(0) =~= Seq::<i32>::empty());
        }
        while i < self.vec.len()
            invariant
                i <= self.vec@.len(),
                sums_fit(self.vec@),
                acc as int == seq_sum(self.vec@.take(i as int)),
            decreases self.vec@.len() - i,
        {
            proof {
                assert(self.vec@.take(i + 1).drop_last() =~= self.vec@.take(i as int));
                assert(i32::MIN <= seq_sum(self.vec@.take(i + 1)) <= i32::MAX);
            }
            acc = acc + self.vec[i];
            i = i + 1;
        }
        proof {
            assert(self.vec@.take(i as int) =~= self.vec@);
        }
        self.sum = acc;
    }

    /// The sum and the count of the numbers: the average is the first over
    /// the second.
    pub fn totals(&self) -> (r: (i32, usize))
        requires
            self.wf(),
        ensures
            r.0 as int == seq_sum(self@),
            r.1 == self@.len(),
    {
        (self.sum, self.vec.len())
    }
}

} // verus!
