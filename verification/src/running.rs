//! Running totals and running products of integer sequences.

use vstd::prelude::*;

verus! {

/// The total of the first `n` entries of `s`, added up from the left,
/// starting at 0.
pub open spec fn running_sum(s: Seq<int>, n: int) -> int
    decreases n,
{
    if n <= 0 {
        0
    } else {
        running_sum(s, n - 1) + s[n - 1]
    }
}

/// The product of the first `n` entries of `s`, multiplied up from the left,
/// starting at 1.
pub open spec fn running_product(s: Seq<int>, n: int) -> int
    decreases n,
{
    if n <= 0 {
        1
    } else {
        running_product(s, n - 1) * s[n - 1]
    }
}

/// The total of all entries of `s`.
pub open spec fn total(s: Seq<int>) -> int {
    running_sum(s, s.len() as int)
}

/// The product of all entries of `s`.
pub open spec fn product(s: Seq<int>) -> int {
    running_product(s, s.len() as int)
}

/// Every running total of `s`, from the empty one to the full one, lies
/// between `lo` and `hi`.
pub open spec fn sums_stay_within(s: Seq<int>, lo: int, hi: int) -> bool {
    forall|n: int| 0 <= n <= s.len() ==> lo <= #[trigger] running_sum(s, n) <= hi
}

/// Every running product of `s`, from the empty one to the full one, lies
/// between `lo` and `hi`.
pub open spec fn products_stay_within(s: Seq<int>, lo: int, hi: int) -> bool {
    forall|n: int| 0 <= n <= s.len() ==> lo <= #[trigger] running_product(s, n) <= hi
}

/// A running total reads only the entries it adds up.
pub proof fn lemma_running_sum_of_prefix(s: Seq<int>, t: Seq<int>, n: int)
    requires
        0 <= n <= s.len(),
        n <= t.len(),
        forall|i: int| 0 <= i < n ==> s[i] == t[i],
    ensures
        running_sum(s, n) == running_sum(t, n),
    decreases n,
{
    if n > 0 {
        lemma_running_sum_of_prefix(s, t, n - 1);
    }
}

/// A running product reads only the entries it multiplies.
pub proof fn lemma_running_product_of_prefix(s: Seq<int>, t: Seq<int>, n: int)
    requires
        0 <= n <= s.len(),
        n <= t.len(),
        forall|i: int| 0 <= i < n ==> s[i] == t[i],
    ensures
        running_product(s, n) == running_product(t, n),
    decreases n,
{
    if n > 0 {
        lemma_running_product_of_prefix(s, t, n - 1);
    }
}

/// Running totals of entries that are not negative never go down.
pub proof fn lemma_running_sum_of_naturals_grows(s: Seq<int>, m: int, n: int)
    requires
        0 <= m <= n <= s.len(),
        forall|i: int| 0 <= i < s.len() ==> s[i] >= 0,
    ensures
        0 <= running_sum(s, m) <= running_sum(s, n),
    decreases n,
{
    if m < n {
        lemma_running_sum_of_naturals_grows(s, m, n - 1);
    } else if 0 < n {
        lemma_running_sum_of_naturals_grows(s, m - 1, n - 1);
    }
}

} // verus!
