//! The Fibonacci sequence, computed with a table of the values found so far.
use vstd::prelude::*;

verus! {

/// The `n`th Fibonacci number, counting from `fib(0) == 0`.
pub open spec fn fib(n: nat) -> nat
    decreases n,
{
    if n == 0 {
        0
    } else if n == 1 {
        1
    } else {
        fib((n - 1) as nat) + fib((n - 2) as nat)
    }
}

/// `n` more steps of the sequence, from two consecutive values `a`, `b`.
spec fn fib_from(n: nat, a: nat, b: nat) -> nat
    decreases n,
{
    if n == 0 {
        a
    } else {
        fib_from((n - 1) as nat, b, a + b)
    }
}

proof fn lemma_fib_from(n: nat, k: nat)
    ensures
        fib_from(n, fib(k), fib(k + 1)) == fib(n + k),
    decreases n,
{
    if n > 0 {
        lemma_fib_from((n - 1) as nat, k + 1);
        assert(fib(k + 2) == fib(k + 1) + fib(k));
        assert((n - 1) as nat + (k + 1) == n + k);
    }
}

/// The Fibonacci numbers never decrease.
pub proof fn lemma_fib_monotonic(i: nat, j: nat)
    requires
        i <= j,
    ensures
        fib(i) <= fib(j),
    decreases j - i,
{
    if i < j {
        lemma_fib_monotonic(i, (j - 1) as nat);
        if j >= 2 {
            assert(fib(j) == fib((j - 1) as nat) + fib((j - 2) as nat));
        }
    }
}

/// Ten steps ahead of two consecutive Fibonacci numbers.
proof fn lemma_fib_jump(k: nat, a: nat, b: nat)
    requires
        fib(k) == a,
        fib(k + 1) == b,
    ensures
        fib(k + 10) == fib_from(10, a, b),
        fib(k + 11) == fib_from(10, b, a + b),
{
    lemma_fib_from(10, k);
    lemma_fib_from(10, k + 1);
    assert(fib(k + 2) == a + b);
}

/// The largest Fibonacci number that fits in a `u64` is `fib(93)`.
pub proof fn lemma_fib_93_fits()
    ensures
        fib(93) == 12200160415121876738,
        fib(93) <= u64::MAX,
{
    assert(fib(0) == 0 && fib(1) == 1);
    lemma_fib_jump(0, 0, 1);
    assert(fib_from(10, 0, 1) == 55 && fib_from(10, 1, 1) == 89) by {
        reveal_with_fuel(fib_from, 11);
    }
    lemma_fib_jump(10, 55, 89);
    assert(fib_from(10, 55, 89) == 6765 && fib_from(10, 89, 144) == 10946) by {
        reveal_with_fuel(fib_from, 11);
    }
    lemma_fib_jump(20, 6765, 10946);
    assert(fib_from(10, 6765, 10946) == 832040 && fib_from(10, 10946, 17711) == 1346269) by {
        reveal_with_fuel(fib_from, 11);
    }
    lemma_fib_jump(30, 832040, 1346269);
    assert(fib_from(10, 832040, 1346269) == 102334155 && fib_from(10, 1346269, 2178309) == 165580141) by {
        reveal_with_fuel(fib_from, 11);
    }
    lemma_fib_jump(40, 102334155, 165580141);
    assert(fib_from(10, 102334155, 165580141) == 12586269025 && fib_from(10, 165580141, 267914296) == 20365011074) by {
        reveal_with_fuel(fib_from, 11);
    }
    lemma_fib_jump(50, 12586269025, 20365011074);
    assert(fib_from(10, 12586269025, 20365011074) == 1548008755920 && fib_from(10, 20365011074, 32951280099) == 2504730781961) by {
        reveal_with_fuel(fib_from, 11);
    }
    lemma_fib_jump(60, 1548008755920, 2504730781961);
    assert(fib_from(10, 1548008755920, 2504730781961) == 190392490709135 && fib_from(10, 2504730781961, 4052739537881) == 308061521170129) by {
        reveal_with_fuel(fib_from, 11);
    }
    lemma_fib_jump(70, 190392490709135, 308061521170129);
    assert(fib_from(10, 190392490709135, 308061521170129) == 23416728348467685 && fib_from(10, 308061521170129, 498454011879264) == 37889062373143906) by {
        reveal_with_fuel(fib_from, 11);
    }
    lemma_fib_jump(80, 23416728348467685, 37889062373143906);
    assert(fib_from(10, 23416728348467685, 37889062373143906) == 2880067194370816120 && fib_from(10, 37889062373143906, 61305790721611591) == 4660046610375530309) by {
        reveal_with_fuel(fib_from, 11);
    }
    assert(fib(92) == fib(91) + fib(90));
    assert(fib(93) == fib(92) + fib(91));
}

/// Every entry of the table is either unknown (0) or the Fibonacci number
/// of its index.
spec fn memo_ok(memo: Seq<u64>) -> bool {
    forall|i: int| 0 <= i < memo.len() ==> (#[trigger] memo[i] == 0 || memo[i] == fib(i as nat))
}

fn fib_memo(nth: u64, memo: &mut Vec<u64>) -> (r: u64)
    requires
        nth <= 93,
        nth < old(memo).len(),
        memo_ok(old(memo)@),
    ensures
        r == fib(nth as nat),
        final(memo)@.len() == old(memo)@.len(),
        memo_ok(final(memo)@),
    decreases nth,
{
    if nth == 0 {
        return 0;
    } else if nth == 1 {
        return 1;
    } else if memo[nth as usize] != 0 {
        return memo[nth as usize];
    } else {
        let a = fib_memo(nth - 1, memo);
        let b = fib_memo(nth - 2, memo);
        proof {
            lemma_fib_monotonic(nth as nat, 93);
            lemma_fib_93_fits();
        }
        memo.set(nth as usize, a + b);
        return memo[nth as usize];
    }
}

/// The `nth` Fibonacci number. Past `nth == 93` it would not fit in a `u64`.
pub fn fibonacci(nth: u64) -> (r: u64)
    requires
        nth <= 93,
    ensures
        r == fib(nth as nat),
{
    let mut memo: Vec<u64> = vec![0; nth as usize + 1];
    assert(memo_ok(memo@));
    fib_memo(nth, &mut memo)
}

} // verus!
