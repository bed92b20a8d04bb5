//! Summary statistics over the measured delays (in milliseconds): the largest
//! delay, the truncated mean and the median of the ascending order.
use vstd::prelude::*;
use vstd::relations::sorted_by;
use vstd::relations::total_ordering;
use vstd::seq_lib::commutative_foldl;
use vstd::seq_lib::lemma_fold_left_permutation;
use vstd::seq_lib::lemma_sorted_unique;
use vstd::seq_lib::group_to_multiset_ensures;
use vstd::seq_lib::lemma_multiset_commutative;

verus! {

/// The order in which delays are reported: ascending.
pub open spec fn delay_leq() -> spec_fn(u128, u128) -> bool {
    |a: u128, b: u128| a <= b
}

/// One step of summing delays as mathematical integers.
pub open spec fn add_delay() -> spec_fn(int, u128) -> int {
    |acc: int, d: u128| acc + d
}

/// The exact sum of the delays.
pub open spec fn total(s: Seq<u128>) -> int {
    s.fold_left(0int, add_delay())
}

/// The largest delay (0 for no delays).
pub open spec fn largest(s: Seq<u128>) -> u128
    decreases s.len(),
{
    if s.len() == 0 {
        0
    } else {
        let rest = largest(s.drop_last());
        if s.last() > rest {
            s.last()
        } else {
            rest
        }
    }
}

/// The delays in ascending order.
pub open spec fn ascending_order(s: Seq<u128>) -> Seq<u128> {
    s.sort_by(delay_leq())
}

/// The three numbers that are printed at the end of a run.
#[derive(Clone, Copy, Debug, PartialEq, Eq)]
pub struct DelayReport {
    /// The largest delay.
    pub max: u128,
    /// The sum of the delays divided by their number, rounded down.
    pub average: u128,
    /// The element at index `len / 2` of the delays in ascending order.
    pub median: u128,
}

/// The report of a non-empty sequence of delays whose sum fits in a `u128`.
pub open spec fn report_of(s: Seq<u128>) -> DelayReport {
    DelayReport {
        max: largest(s),
        average: (total(s) / (s.len() as int)) as u128,
        median: ascending_order(s)[(s.len() / 2) as int],
    }
}

/// `<=` on delays is a total order.
pub proof fn lemma_delay_leq_total_ordering()
    ensures
        total_ordering(delay_leq()),
{
}

/// The ascending order is sorted and holds exactly the delays of `s`.
pub proof fn lemma_ascending_order(s: Seq<u128>)
    ensures
        sorted_by(ascending_order(s), delay_leq()),
        forall|i: int, j: int|
            0 <= i < j < s.len() ==> #[trigger] ascending_order(s)[i] <= #[trigger] ascending_order(
                s,
            )[j],
        ascending_order(s).to_multiset() == s.to_multiset(),
        ascending_order(s).len() == s.len(),
{
    broadcast use group_to_multiset_ensures;

    lemma_delay_leq_total_ordering();
    s.lemma_sort_by_ensures(delay_leq());
    assert(ascending_order(s).len() == ascending_order(s).to_multiset().len());
    assert forall|i: int, j: int| 0 <= i < j < s.len() implies #[trigger] ascending_order(s)[i]
        <= #[trigger] ascending_order(s)[j] by {
        assert(delay_leq()(ascending_order(s)[i], ascending_order(s)[j]));
    }
}

/// A sorted sequence with the same elements as `s` is the ascending order of `s`.
pub proof fn lemma_sorted_is_ascending_order(s: Seq<u128>, t: Seq<u128>)
    requires
        sorted_by(t, delay_leq()),
        t.to_multiset() == s.to_multiset(),
    ensures
        t == ascending_order(s),
{
    lemma_ascending_order(s);
    lemma_delay_leq_total_ordering();
    lemma_sorted_unique(t, ascending_order(s), delay_leq());
}

/// The largest delay is one of the delays, and no delay exceeds it.
pub proof fn lemma_largest(s: Seq<u128>)
    ensures
        s.len() > 0 ==> s.contains(largest(s)),
        forall|i: int| 0 <= i < s.len() ==> s[i] <= largest(s),
    decreases s.len(),
{
    if s.len() > 0 {
        let p = s.drop_last();
        lemma_largest(p);
        if p.len() > 0 && largest(p) >= s.last() {
            let j = choose|j: int| 0 <= j < p.len() && p[j] == largest(p);
            assert(s[j] == largest(s));
        } else {
            assert(s[s.len() - 1] == largest(s));
        }
        assert forall|i: int| 0 <= i < s.len() implies s[i] <= largest(s) by {
            if i < s.len() - 1 {
                assert(s[i] == p[i]);
            }
        }
    }
}

/// Two sequences with the same elements have the same largest delay.
pub proof fn lemma_largest_permutation(s: Seq<u128>, t: Seq<u128>)
    requires
        s.to_multiset() == t.to_multiset(),
    ensures
        largest(s) == largest(t),
{
    broadcast use group_to_multiset_ensures;

    lemma_largest(s);
    lemma_largest(t);
    if s.len() > 0 {
        assert(s.to_multiset().len() == t.to_multiset().len());
        assert(s.to_multiset().count(largest(s)) > 0);
        assert(t.contains(largest(s)));
        assert(t.to_multiset().count(largest(t)) > 0);
        assert(s.contains(largest(t)));
        let i = choose|i: int| 0 <= i < t.len() && t[i] == largest(s);
        let j = choose|j: int| 0 <= j < s.len() && s[j] == largest(t);
        assert(t[i] <= largest(t));
        assert(s[j] <= largest(s));
    } else {
        assert(t.to_multiset().len() == 0);
    }
}

/// Two sequences with the same elements have the same total.
pub proof fn lemma_total_permutation(s: Seq<u128>, t: Seq<u128>)
    requires
        s.to_multiset() == t.to_multiset(),
    ensures
        total(s) == total(t),
{
    assert(commutative_foldl(add_delay()));
    lemma_fold_left_permutation(s, t, add_delay(), 0int);
}

/// A total is never negative, and a prefix's total never exceeds the whole.
pub proof fn lemma_total_prefix(s: Seq<u128>, i: int)
    requires
        0 <= i <= s.len(),
    ensures
        0 <= total(s.take(i)) <= total(s),
    decreases s.len(),
{
    if s.len() > 0 {
        if i == s.len() {
            assert(s.take(i) =~= s);
            lemma_total_prefix(s.drop_last(), s.len() - 1);
            assert(s.drop_last().take(s.len() - 1) =~= s.drop_last());
        } else {
            lemma_total_prefix(s.drop_last(), i);
            assert(s.drop_last().take(i) =~= s.take(i));
        }
    }
}

/// Every delay bounds the total from below and the largest bounds it from above.
proof fn lemma_total_bounds(s: Seq<u128>, lo: int, hi: int)
    requires
        forall|i: int| 0 <= i < s.len() ==> lo <= #[trigger] s[i] <= hi,
    ensures
        s.len() * lo <= total(s) <= s.len() * hi,
    decreases s.len(),
{
    if s.len() > 0 {
        let p = s.drop_last();
        assert forall|i: int| 0 <= i < p.len() implies lo <= #[trigger] p[i] <= hi by {
            assert(p[i] == s[i]);
        }
        lemma_total_bounds(p, lo, hi);
        assert(s.len() * lo == p.len() * lo + lo) by (nonlinear_arith)
            requires
                s.len() == p.len() + 1,
        ;
        assert(s.len() * hi == p.len() * hi + hi) by (nonlinear_arith)
            requires
                s.len() == p.len() + 1,
        ;
    }
}

/// The report depends only on which delays were measured, not on the order in
/// which they arrived.
pub proof fn lemma_report_ignores_arrival_order(a: Seq<u128>, b: Seq<u128>)
    requires
        a.to_multiset() == b.to_multiset(),
    ensures
        report_of(a) == report_of(b),
{
    broadcast use group_to_multiset_ensures;

    lemma_largest_permutation(a, b);
    lemma_total_permutation(a, b);
    lemma_ascending_order(a);
    lemma_sorted_is_ascending_order(b, ascending_order(a));
    assert(a.len() == a.to_multiset().len());
    assert(b.len() == b.to_multiset().len());
}

/// The smallest delay, the median, the average and the largest delay are
/// ordered: the smallest is at most the median and the average, and both are
/// at most the largest, which is the last of the ascending order.
pub proof fn lemma_report_bounds(s: Seq<u128>)
    requires
        s.len() > 0,
        total(s) <= u128::MAX,
    ensures
        report_of(s).max == ascending_order(s).last(),
        ascending_order(s)[0] <= report_of(s).median <= report_of(s).max,
        ascending_order(s)[0] <= report_of(s).average <= report_of(s).max,
{
    let asc = ascending_order(s);
    let n = s.len() as int;
    lemma_ascending_order(s);
    lemma_largest_permutation(s, asc);
    lemma_total_permutation(s, asc);
    lemma_largest(asc);
    let lo = asc[0] as int;
    let hi = largest(s) as int;
    assert forall|i: int| 0 <= i < asc.len() implies lo <= #[trigger] asc[i] <= hi by {
        if i > 0 {
            assert(delay_leq()(asc[0], asc[i]));
        }
    }
    let j = choose|j: int| 0 <= j < asc.len() && asc[j] == largest(asc);
    if j < n - 1 {
        assert(delay_leq()(asc[j], asc[n - 1]));
    }
    lemma_total_bounds(asc, lo, hi);
    let t = total(s);
    assert(lo <= t / n <= hi) by (nonlinear_arith)
        requires
            n > 0,
            n * lo <= t <= n * hi,
    ;
}

/// One step of counting the delays that are at most `m`.
pub open spec fn at_most_step(m: u128) -> spec_fn(int, u128) -> int {
    |acc: int, d: u128| acc + if d <= m {
        1int
    } else {
        0int
    }
}

/// One step of counting the delays that are at least `m`.
pub open spec fn at_least_step(m: u128) -> spec_fn(int, u128) -> int {
    |acc: int, d: u128| acc + if d >= m {
        1int
    } else {
        0int
    }
}

/// How many of the delays are at most `m`.
pub open spec fn count_at_most(s: Seq<u128>, m: u128) -> int {
    s.fold_left(0int, at_most_step(m))
}

/// How many of the delays are at least `m`.
pub open spec fn count_at_least(s: Seq<u128>, m: u128) -> int {
    s.fold_left(0int, at_least_step(m))
}

/// Where the first `j` delays are at most `m`, at least `j` delays are.
proof fn lemma_count_at_most_prefix(s: Seq<u128>, m: u128, j: int)
    requires
        0 <= j <= s.len(),
        forall|i: int| 0 <= i < j ==> #[trigger] s[i] <= m,
    ensures
        count_at_most(s, m) >= j,
        count_at_most(s, m) >= 0,
    decreases s.len(),
{
    if s.len() > 0 {
        let p = s.drop_last();
        let jj = if j == s.len() {
            j - 1
        } else {
            j
        };
        assert forall|i: int| 0 <= i < jj implies #[trigger] p[i] <= m by {
            assert(p[i] == s[i]);
        }
        lemma_count_at_most_prefix(p, m, jj);
        if j == s.len() {
            assert(s[s.len() - 1] <= m);
        }
    }
}

/// Where the delays from index `j` on are at least `m`, at least
/// `s.len() - j` delays are.
proof fn lemma_count_at_least_suffix(s: Seq<u128>, m: u128, j: int)
    requires
        0 <= j <= s.len(),
        forall|i: int| j <= i < s.len() ==> #[trigger] s[i] >= m,
    ensures
        count_at_least(s, m) >= s.len() - j,
        count_at_least(s, m) >= 0,
    decreases s.len(),
{
    if s.len() > 0 {
        let p = s.drop_last();
        let jj = if j == s.len() {
            p.len() as int
        } else {
            j
        };
        assert forall|i: int| jj <= i < p.len() implies #[trigger] p[i] >= m by {
            assert(p[i] == s[i]);
        }
        lemma_count_at_least_suffix(p, m, jj);
        if j < s.len() {
            assert(s[s.len() - 1] >= m);
        }
    }
}

/// The total starts at 0 and grows by each delay in full, zero delays
/// included.
pub proof fn lemma_total_adds_up(s: Seq<u128>, d: u128)
    ensures
        total(Seq::<u128>::empty()) == 0,
        total(s.push(d)) == total(s) + d,
{
    assert(s.push(d).drop_last() =~= s);
}

/// The reported median is the middle order statistic of all the delays,
/// zero delays included: it is one of the delays, at least `len / 2 + 1`
/// delays are at most it, and at least `len - len / 2` are at least it.
/// Exactly one value has all three properties: the element at index
/// `len / 2` of the delays in ascending order.
pub proof fn lemma_median_is_middle_order_statistic(s: Seq<u128>)
    requires
        s.len() > 0,
    ensures
        s.contains(report_of(s).median),
        count_at_most(s, report_of(s).median) >= s.len() / 2 + 1,
        count_at_least(s, report_of(s).median) >= s.len() - s.len() / 2,
{
    broadcast use group_to_multiset_ensures;

    let asc = ascending_order(s);
    let k = (s.len() / 2) as int;
    let m = report_of(s).median;
    lemma_ascending_order(s);
    assert(m == asc[k]);
    assert forall|i: int| 0 <= i < k + 1 implies #[trigger] asc[i] <= m by {
        if i < k {
            assert(delay_leq()(asc[i], asc[k]));
        }
    }
    assert forall|i: int| k <= i < asc.len() implies #[trigger] asc[i] >= m by {
        if i > k {
            assert(delay_leq()(asc[k], asc[i]));
        }
    }
    lemma_count_at_most_prefix(asc, m, k + 1);
    lemma_count_at_least_suffix(asc, m, k);
    assert(commutative_foldl(at_most_step(m)));
    assert(commutative_foldl(at_least_step(m)));
    lemma_fold_left_permutation(asc, s, at_most_step(m), 0int);
    lemma_fold_left_permutation(asc, s, at_least_step(m), 0int);
    assert(asc.to_multiset().count(m) > 0) by {
        assert(asc.contains(m));
    }
    assert(s.to_multiset().count(m) > 0);
}

/// The reported maximum is one of the delays and no delay exceeds it.
pub proof fn lemma_max_is_largest_delay(s: Seq<u128>)
    requires
        s.len() > 0,
    ensures
        s.contains(report_of(s).max),
        forall|i: int| 0 <= i < s.len() ==> #[trigger] s[i] <= report_of(s).max,
{
    lemma_largest(s);
}

/// The reported average is the sum of all the delays divided by their
/// number, rounded down: `len * average <= sum < len * (average + 1)`.
pub proof fn lemma_average_is_truncated_mean(s: Seq<u128>)
    requires
        s.len() > 0,
        total(s) <= u128::MAX,
    ensures
        s.len() * report_of(s).average <= total(s) < s.len() * (report_of(s).average + 1),
{
    let n = s.len() as int;
    let t = total(s);
    lemma_total_prefix(s, 0);
    assert(0 <= t / n <= t && n * (t / n) <= t < n * (t / n + 1)) by (nonlinear_arith)
        requires
            n > 0,
            t >= 0,
    ;
}

/// The sum of the delays, or `None` where it does not fit in a `u128`.
pub fn total_delay(delays: &Vec<u128>) -> (sum: Option<u128>)
    ensures
        match sum {
            Some(t) => t == total(delays@),
            None => total(delays@) > u128::MAX,
        },
{
    let mut acc: u128 = 0;
    let mut i: usize = 0;
    while i < delays.len()
        invariant
            i <= delays.len(),
            acc == total(delays@.take(i as int)),
        decreases delays.len() - i,
    {
        assert(delays@.take(i + 1).drop_last() =~= delays@.take(i as int));
        match acc.checked_add(delays[i]) {
            Some(next) => {
                acc = next;
            },
            None => {
                proof {
                    lemma_total_prefix(delays@, i + 1);
                }
                return None;
            },
        }
        i = i + 1;
    }
    assert(delays@.take(i as int) =~= delays@);
    Some(acc)
}

/// The largest delay, or `None` where there is none.
pub fn largest_delay(delays: &Vec<u128>) -> (max: Option<u128>)
    ensures
        match max {
            Some(m) => delays@.len() > 0 && m == largest(delays@),
            None => delays@.len() == 0,
        },
{
    if delays.len() == 0 {
        return None;
    }
    let mut m: u128 = 0;
    let mut i: usize = 0;
    while i < delays.len()
        invariant
            i <= delays.len(),
            m == largest(delays@.take(i as int)),
        decreases delays.len() - i,
    {
        assert(delays@.take(i + 1).drop_last() =~= delays@.take(i as int));
        if delays[i] > m {
            m = delays[i];
        }
        i = i + 1;
    }
    assert(delays@.take(i as int) =~= delays@);
    Some(m)
}

/// Inserting `x` into a sorted sequence after exactly the elements that are at
/// most `x` keeps it sorted and adds `x` to its elements.
proof fn lemma_insert_in_place(before: Seq<u128>, p: int, x: u128)
    requires
        sorted_by(before, delay_leq()),
        0 <= p <= before.len(),
        forall|k: int| 0 <= k < p ==> before[k] <= x,
        p < before.len() ==> before[p] > x,
    ensures
        sorted_by(before.insert(p, x), delay_leq()),
        before.insert(p, x).to_multiset() == before.to_multiset().insert(x),
{
    broadcast use group_to_multiset_ensures;

    let after = before.insert(p, x);
    before.insert_ensures(p, x);
    assert forall|a: int, b: int| 0 <= a < b < after.len() implies #[trigger] delay_leq()(
        after[a],
        after[b],
    ) by {
        if b < p {
        } else if b == p {
            assert(after[a] == before[a]);
        } else if a < p {
            assert(after[b] == before[b - 1]);
            assert(delay_leq()(before[p], before[b - 1]) || p == b - 1);
        } else if a == p {
            assert(after[b] == before[b - 1]);
            assert(delay_leq()(before[p], before[b - 1]) || p == b - 1);
        } else {
            assert(after[a] == before[a - 1]);
            assert(after[b] == before[b - 1]);
            assert(delay_leq()(before[a - 1], before[b - 1]));
        }
    }
    let lo = before.subrange(0, p);
    let hi = before.subrange(p, before.len() as int);
    assert(before =~= lo + hi);
    lemma_multiset_commutative(lo, hi);
    lemma_multiset_commutative(lo.push(x), hi);
    assert(after =~= lo.push(x) + hi);
    assert(lo.push(x).to_multiset() =~= lo.to_multiset().insert(x));
    assert(after.to_multiset() =~= lo.to_multiset().insert(x).add(hi.to_multiset()));
    assert(before.to_multiset() =~= lo.to_multiset().add(hi.to_multiset()));
    assert(lo.to_multiset().insert(x).add(hi.to_multiset()) =~= lo.to_multiset().add(
        hi.to_multiset(),
    ).insert(x)) by {
        broadcast use vstd::multiset::group_multiset_axioms;
    }
}

/// Sorts the delays into ascending order.
pub fn sort_delays(delays: &mut Vec<u128>)
    ensures
        final(delays)@ == ascending_order(old(delays)@),
{
    broadcast use group_to_multiset_ensures;

    let mut sorted: Vec<u128> = Vec::new();
    let mut i: usize = 0;
    while i < delays.len()
        invariant
            i <= delays.len(),
            sorted_by(sorted@, delay_leq()),
            sorted@.to_multiset() == delays@.take(i as int).to_multiset(),
        decreases delays.len() - i,
    {
        let x = delays[i];
        let mut p: usize = 0;
        while p < sorted.len() && sorted[p] <= x
            invariant
                p <= sorted.len(),
                forall|k: int| 0 <= k < p ==> sorted@[k] <= x,
            decreases sorted.len() - p,
        {
            p = p + 1;
        }
        let ghost before = sorted@;
        sorted.insert(p, x);
        proof {
            broadcast use group_to_multiset_ensures;

            lemma_insert_in_place(before, p as int, x);
            assert(delays@.take(i + 1) =~= delays@.take(i as int).push(x));
            assert(delays@.take(i + 1).to_multiset() =~= delays@.take(i as int).to_multiset().insert(
                x,
            ));
        }
        i = i + 1;
    }
    proof {
        assert(delays@.take(i as int) =~= delays@);
        lemma_sorted_is_ascending_order(delays@, sorted@);
    }
    *delays = sorted;
}

/// Sorts the delays and reports their largest value, their truncated mean and
/// their median.
pub fn summarize(delays: &mut Vec<u128>) -> (report: DelayReport)
    requires
        old(delays).len() > 0,
        total(old(delays)@) <= u128::MAX,
    ensures
        final(delays)@ == ascending_order(old(delays)@),
        report == report_of(old(delays)@),
{
    let ghost original = delays@;
    sort_delays(delays);
    proof {
        lemma_ascending_order(original);
        lemma_largest_permutation(delays@, original);
        lemma_total_permutation(delays@, original);
    }
    let max = match largest_delay(delays) {
        Some(m) => m,
        None => 0,
    };
    let sum = match total_delay(delays) {
        Some(t) => t,
        None => 0,
    };
    let n = delays.len();
    let average = sum / (n as u128);
    let median = delays[n / 2];
    DelayReport { max, average, median }
}

} // verus!
