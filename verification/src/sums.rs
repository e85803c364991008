//! Finite sums of integer terms, and the few facts about them that the force
//! computations rest on.

use crate::fixed::magnitude;
use vstd::prelude::*;

verus! {

/// `f(0) + f(1) + ... + f(n - 1)`.
pub open spec fn sum_to(n: nat, f: spec_fn(int) -> int) -> int
    decreases n,
{
    if n == 0 {
        0
    } else {
        sum_to((n - 1) as nat, f) + f(n - 1)
    }
}

/// Sums of equal terms are equal.
pub proof fn lemma_sum_ext(n: nat, f: spec_fn(int) -> int, g: spec_fn(int) -> int)
    requires
        forall|i: int| 0 <= i < n ==> #[trigger] f(i) == g(i),
    ensures
        sum_to(n, f) == sum_to(n, g),
    decreases n,
{
    if n > 0 {
        lemma_sum_ext((n - 1) as nat, f, g);
    }
}

/// A sum of zeros is zero.
pub proof fn lemma_sum_zero(n: nat, f: spec_fn(int) -> int)
    requires
        forall|i: int| 0 <= i < n ==> #[trigger] f(i) == 0,
    ensures
        sum_to(n, f) == 0,
    decreases n,
{
    if n > 0 {
        lemma_sum_zero((n - 1) as nat, f);
    }
}

/// The magnitude of a sum is at most the sum of bounds on the magnitudes of
/// its terms.
pub proof fn lemma_sum_bound(n: nat, f: spec_fn(int) -> int, b: spec_fn(int) -> int)
    requires
        forall|i: int| 0 <= i < n ==> magnitude(#[trigger] f(i)) <= b(i),
    ensures
        magnitude(sum_to(n, f)) <= sum_to(n, b),
    decreases n,
{
    if n > 0 {
        lemma_sum_bound((n - 1) as nat, f, b);
    }
}

/// A sum of terms that are each at most the matching term of another sum is at
/// most that sum.
pub proof fn lemma_sum_le(n: nat, f: spec_fn(int) -> int, g: spec_fn(int) -> int)
    requires
        forall|i: int| 0 <= i < n ==> #[trigger] f(i) <= g(i),
    ensures
        sum_to(n, f) <= sum_to(n, g),
    decreases n,
{
    if n > 0 {
        lemma_sum_le((n - 1) as nat, f, g);
    }
}

/// The sum of the negated terms is the negated sum.
pub proof fn lemma_sum_neg(n: nat, f: spec_fn(int) -> int, g: spec_fn(int) -> int)
    requires
        forall|i: int| 0 <= i < n ==> #[trigger] g(i) == -f(i),
    ensures
        sum_to(n, g) == -sum_to(n, f),
    decreases n,
{
    if n > 0 {
        lemma_sum_neg((n - 1) as nat, f, g);
    }
}

/// A sum over `a + b` terms is the sum over the first `a` plus the sum over
/// the last `b`.
pub proof fn lemma_sum_split(
    a: nat,
    b: nat,
    f: spec_fn(int) -> int,
    lo: spec_fn(int) -> int,
    hi: spec_fn(int) -> int,
)
    requires
        forall|i: int| 0 <= i < a ==> #[trigger] lo(i) == f(i),
        forall|i: int| 0 <= i < b ==> #[trigger] hi(i) == f(a + i),
    ensures
        sum_to(a + b, f) == sum_to(a, lo) + sum_to(b, hi),
    decreases b,
{
    if b == 0 {
        lemma_sum_ext(a, f, lo);
    } else {
        lemma_sum_split(a, (b - 1) as nat, f, lo, hi);
        assert(hi(b - 1) == f(a + (b - 1)));
    }
}

/// A sum whose terms are all `c` is `n * c`.
pub proof fn lemma_sum_const(n: nat, f: spec_fn(int) -> int, c: int)
    requires
        forall|i: int| 0 <= i < n ==> #[trigger] f(i) == c,
    ensures
        sum_to(n, f) == n * c,
    decreases n,
{
    if n > 0 {
        lemma_sum_const((n - 1) as nat, f, c);
        assert(n * c == (n - 1) * c + c) by (nonlinear_arith);
    } else {
        assert(0 * c == 0);
    }
}

/// Of a sum of terms that are not negative, every initial part is between
/// zero and the whole.
pub proof fn lemma_sum_prefix(n: nat, m: nat, f: spec_fn(int) -> int)
    requires
        n <= m,
        forall|i: int| 0 <= i < m ==> #[trigger] f(i) >= 0,
    ensures
        0 <= sum_to(n, f) <= sum_to(m, f),
    decreases m,
{
    if m > n {
        lemma_sum_prefix(n, (m - 1) as nat, f);
    } else if n > 0 {
        lemma_sum_prefix((n - 1) as nat, (n - 1) as nat, f);
    }
}

/// The sum of `c` times each term is `c` times the sum.
pub proof fn lemma_sum_scale(n: nat, f: spec_fn(int) -> int, c: int, g: spec_fn(int) -> int)
    requires
        forall|i: int| 0 <= i < n ==> #[trigger] g(i) == c * f(i),
    ensures
        sum_to(n, g) == c * sum_to(n, f),
    decreases n,
{
    if n > 0 {
        lemma_sum_scale((n - 1) as nat, f, c, g);
        let a = sum_to((n - 1) as nat, f);
        let b = f(n - 1);
        assert(c * (a + b) == c * a + c * b) by (nonlinear_arith);
    } else {
        assert(c * 0 == 0);
    }
}

/// The sum of `f` over the entries of a list.
pub open spec fn sum_over(list: Seq<int>, f: spec_fn(int) -> int) -> int {
    sum_to(list.len(), |t: int| f(list[t]))
}

/// The sum over a concatenation is the sum of the sums.
pub proof fn lemma_sum_over_concat(a: Seq<int>, b: Seq<int>, f: spec_fn(int) -> int)
    ensures
        sum_over(a + b, f) == sum_over(a, f) + sum_over(b, f),
{
    let ab = a + b;
    lemma_sum_split(
        a.len(),
        b.len(),
        |t: int| f(ab[t]),
        |t: int| f(a[t]),
        |t: int| f(b[t]),
    );
}

/// Taking one entry out of a list lowers the sum over it by the term of that
/// entry.
pub proof fn lemma_sum_over_remove(list: Seq<int>, at: int, f: spec_fn(int) -> int)
    requires
        0 <= at < list.len(),
    ensures
        sum_over(list, f) == sum_over(list.remove(at), f) + f(list[at]),
{
    let head = list.take(at);
    let one = seq![list[at]];
    let rest = list.skip(at + 1);
    assert(list =~= head + one + rest);
    assert(list.remove(at) =~= head + rest);
    lemma_sum_over_concat(head, one, f);
    lemma_sum_over_concat(head + one, rest, f);
    lemma_sum_over_concat(head, rest, f);
    reveal_with_fuel(sum_to, 2);
    assert(sum_over(one, f) == f(list[at]));
}

/// The sum of `f` over a list of distinct numbers below `n` is the sum, over
/// the numbers below `n`, of `f` where the list holds the number and of zero
/// where it does not.
pub proof fn lemma_sum_over_list(n: nat, f: spec_fn(int) -> int, list: Seq<int>)
    requires
        list.no_duplicates(),
        forall|t: int| 0 <= t < list.len() ==> 0 <= #[trigger] list[t] < n,
    ensures
        sum_over(list, f) == sum_to(
            n,
            |i: int|
                if list.contains(i) {
                    f(i)
                } else {
                    0
                },
        ),
    decreases n,
{
    let picked = |i: int|
        if list.contains(i) {
            f(i)
        } else {
            0
        };
    if n == 0 {
        if list.len() > 0 {
            let first = list[0];
            assert(0 <= first < n);
        }
        assert(list.len() == 0);
    } else {
        let last = n - 1;
        if list.contains(last) {
            let at = choose|t: int| 0 <= t < list.len() && list[t] == last;
            let fewer = list.remove(at);
            assert forall|t: int| 0 <= t < fewer.len() implies 0 <= #[trigger] fewer[t] < n - 1 by {
                if t < at {
                    assert(fewer[t] == list[t]);
                } else {
                    assert(fewer[t] == list[t + 1]);
                }
            }
            assert(fewer.no_duplicates()) by {
                assert forall|a: int, b: int|
                    0 <= a < fewer.len() && 0 <= b < fewer.len() && a != b implies fewer[a]
                    != fewer[b] by {
                    let a0 = if a < at {
                        a
                    } else {
                        a + 1
                    };
                    let b0 = if b < at {
                        b
                    } else {
                        b + 1
                    };
                    assert(fewer[a] == list[a0] && fewer[b] == list[b0]);
                }
            }
            lemma_sum_over_list((n - 1) as nat, f, fewer);
            lemma_sum_over_remove(list, at, f);
            let picked_fewer = |i: int|
                if fewer.contains(i) {
                    f(i)
                } else {
                    0
                };
            assert forall|i: int| 0 <= i < n - 1 implies #[trigger] picked_fewer(i) == picked(
                i,
            ) by {
                if list.contains(i) {
                    let t = choose|t: int| 0 <= t < list.len() && list[t] == i;
                    let t0 = if t < at {
                        t
                    } else {
                        t - 1
                    };
                    assert(fewer[t0] == i);
                }
                if fewer.contains(i) {
                    let t = choose|t: int| 0 <= t < fewer.len() && fewer[t] == i;
                    let t0 = if t < at {
                        t
                    } else {
                        t + 1
                    };
                    assert(list[t0] == i);
                }
            }
            lemma_sum_ext((n - 1) as nat, picked_fewer, picked);
        } else {
            assert forall|t: int| 0 <= t < list.len() implies 0 <= #[trigger] list[t] < n - 1 by {
                if list[t] == last {
                    assert(list.contains(last));
                }
            }
            lemma_sum_over_list((n - 1) as nat, f, list);
        }
    }
}

/// A sum over rows of `s` terms each is the sum over all terms in one row.
pub proof fn lemma_sum_rows(
    c: nat,
    s: nat,
    rows: spec_fn(int) -> int,
    row: spec_fn(int, int) -> int,
    flat: spec_fn(int) -> int,
)
    requires
        s >= 1,
        forall|j: int|
            0 <= j < c ==> #[trigger] rows(j) == sum_to(s, |i: int| row(j, i)),
        forall|j: int, i: int|
            0 <= j < c && 0 <= i < s ==> #[trigger] row(j, i) == flat(j * s + i),
    ensures
        sum_to(c, rows) == sum_to(c * s, flat),
    decreases c,
{
    if c == 0 {
        assert(c * s == 0);
    } else {
        let before = (c - 1) as nat;
        lemma_sum_rows(before, s, rows, row, flat);
        assert(c * s == before * s + s) by (nonlinear_arith)
            requires
                before == c - 1,
        ;
        let hi = |i: int| row(c - 1, i);
        assert forall|i: int| 0 <= i < s implies #[trigger] hi(i) == flat(before * s + i) by {
            assert(row(c - 1, i) == flat((c - 1) * s + i));
        }
        lemma_sum_split(before * s, s, flat, flat, hi);
    }
}

} // verus!
