//! Summary statistics over a sequence of samples: least, mean and the 95th
//! percentile by nearest rank. Each is 0 for no samples.

use vstd::prelude::*;

verus! {

/// The least of the samples.
pub open spec fn least(s: Seq<u64>) -> u64
    decreases s.len(),
{
    if s.len() == 0 {
        0
    } else if s.len() == 1 {
        s[0]
    } else {
        let rest = least(s.drop_last());
        if s.last() < rest {
            s.last()
        } else {
            rest
        }
    }
}

/// The sum of the samples.
pub open spec fn total(s: Seq<u64>) -> nat
    decreases s.len(),
{
    if s.len() == 0 {
        0
    } else {
        total(s.drop_last()) + s.last() as nat
    }
}

/// The mean of the samples, rounded down.
pub open spec fn mean(s: Seq<u64>) -> nat {
    if s.len() == 0 {
        0
    } else {
        total(s) / s.len()
    }
}

/// How many samples do not exceed `v`.
pub open spec fn count_at_most(s: Seq<u64>, v: u64) -> nat {
    s.filter(|x: u64| x <= v).len()
}

/// The rank of the 95th percentile among `n` samples: 0.95 `n`, rounded
/// up.
pub open spec fn rank_95(n: nat) -> nat {
    (95 * n + 99) / 100
}

/// Whether at least 95 in 100 samples do not exceed `v`.
pub open spec fn covers_95(s: Seq<u64>, v: u64) -> bool {
    count_at_most(s, v) >= rank_95(s.len())
}

/// The 95th percentile by nearest rank: the least sample that at least
/// 95 in 100 samples do not exceed.
pub open spec fn percentile_95(s: Seq<u64>) -> u64 {
    least(s.filter(|v: u64| covers_95(s, v)))
}

/// The least sample is a sample, and none is below it.
pub proof fn lemma_least(s: Seq<u64>)
    requires
        s.len() > 0,
    ensures
        s.contains(least(s)),
        forall|i: int| 0 <= i < s.len() ==> least(s) <= #[trigger] s[i],
    decreases s.len(),
{
    if s.len() == 1 {
        assert(s[0] == least(s));
    } else {
        let front = s.drop_last();
        lemma_least(front);
        let w = choose|i: int| 0 <= i < front.len() && front[i] == least(front);
        assert(s[w] == front[w]);
        assert(s[s.len() - 1] == s.last());
        assert forall|i: int| 0 <= i < s.len() implies least(s) <= #[trigger] s[i] by {
            if i < front.len() {
                assert(front[i] == s[i]);
            }
        }
    }
}

/// The sum of `n` samples is at most `n` times the largest sample there
/// can be.
pub proof fn lemma_total_bound(s: Seq<u64>)
    ensures
        total(s) <= s.len() * u64::MAX,
    decreases s.len(),
{
    if s.len() > 0 {
        lemma_total_bound(s.drop_last());
        assert((s.len() - 1) * u64::MAX + u64::MAX == s.len() * u64::MAX) by (nonlinear_arith);
    }
}

/// A filter keeps a sequence whole where every element passes.
proof fn lemma_filter_keeps_all(s: Seq<u64>, pred: spec_fn(u64) -> bool)
    requires
        forall|i: int| 0 <= i < s.len() ==> pred(#[trigger] s[i]),
    ensures
        s.filter(pred) == s,
    decreases s.len(),
{
    reveal(Seq::filter);
    if s.len() > 0 {
        let front = s.drop_last();
        assert forall|i: int| 0 <= i < front.len() implies pred(#[trigger] front[i]) by {
            assert(front[i] == s[i]);
        }
        lemma_filter_keeps_all(front, pred);
        assert(front.push(s.last()) =~= s);
    } else {
        assert(s.filter(pred) =~= s);
    }
}

/// The greatest of the samples.
spec fn greatest(s: Seq<u64>) -> u64
    decreases s.len(),
{
    if s.len() == 0 {
        0
    } else {
        let rest = greatest(s.drop_last());
        if s.last() > rest {
            s.last()
        } else {
            rest
        }
    }
}

/// The greatest sample is a sample, and none is above it.
proof fn lemma_greatest(s: Seq<u64>)
    requires
        s.len() > 0,
    ensures
        s.contains(greatest(s)),
        forall|i: int| 0 <= i < s.len() ==> greatest(s) >= #[trigger] s[i],
    decreases s.len(),
{
    let front = s.drop_last();
    assert(s[s.len() - 1] == s.last());
    if front.len() > 0 {
        lemma_greatest(front);
        let w = choose|i: int| 0 <= i < front.len() && front[i] == greatest(front);
        assert(s[w] == front[w]);
        assert forall|i: int| 0 <= i < s.len() implies greatest(s) >= #[trigger] s[i] by {
            if i < front.len() {
                assert(front[i] == s[i]);
            }
        }
    } else {
        assert(greatest(front) == 0);
        assert(s[0] == greatest(s));
    }
}

/// What a filter keeps are elements of what it was given.
proof fn lemma_filter_keeps_elements(s: Seq<u64>, pred: spec_fn(u64) -> bool)
    ensures
        forall|i: int| 0 <= i < s.filter(pred).len() ==> s.contains(#[trigger] s.filter(pred)[i]),
    decreases s.len(),
{
    reveal(Seq::filter);
    if s.len() > 0 {
        let front = s.drop_last();
        lemma_filter_keeps_elements(front, pred);
        assert forall|i: int| 0 <= i < s.filter(pred).len() implies s.contains(
            #[trigger] s.filter(pred)[i],
        ) by {
            if i < front.filter(pred).len() {
                let v = front.filter(pred)[i];
                let w = choose|w: int| 0 <= w < front.len() && front[w] == v;
                assert(s[w] == v);
            } else {
                assert(s[s.len() - 1] == s.last());
            }
        }
    }
}

/// The 95th percentile of some samples is one of them, at least 95 in
/// 100 samples do not exceed it, and no smaller sample has that property.
pub proof fn lemma_percentile_95(s: Seq<u64>)
    requires
        s.len() > 0,
    ensures
        s.contains(percentile_95(s)),
        covers_95(s, percentile_95(s)),
        forall|i: int|
            0 <= i < s.len() && covers_95(s, #[trigger] s[i]) ==> percentile_95(s) <= s[i],
{
    let pred = |v: u64| covers_95(s, v);
    let kept = s.filter(pred);
    let top = greatest(s);
    lemma_greatest(s);
    lemma_filter_keeps_all(s, |x: u64| x <= top);
    lemma_rank_95(s.len());
    assert(pred(top));
    let at = choose|i: int| 0 <= i < s.len() && s[i] == top;
    s.lemma_filter_contains(pred, at);
    lemma_least(kept);
    lemma_filter_keeps_elements(s, pred);
    let found = choose|i: int| 0 <= i < kept.len() && kept[i] == least(kept);
    assert(s.contains(kept[found]));
    s.lemma_filter_pred(pred, found);
    assert forall|i: int| 0 <= i < s.len() && covers_95(s, #[trigger] s[i]) implies percentile_95(
        s,
    ) <= s[i] by {
        assert(pred(s[i]));
        s.lemma_filter_contains(pred, i);
        let w = choose|w: int| 0 <= w < kept.len() && kept[w] == s[i];
        assert(least(kept) <= kept[w]);
    }
}

/// The rank of the 95th percentile is `n` less a twentieth of `n`, and so
/// lies between 1 and `n` where there is a sample.
pub proof fn lemma_rank_95(n: nat)
    ensures
        rank_95(n) == n - n / 20,
        n > 0 ==> 1 <= rank_95(n) <= n,
{
}

/// Samples that do not exceed a bound add up to no more than their number
/// times the bound.
proof fn lemma_total_within(s: Seq<u64>, bound: nat)
    requires
        forall|i: int| 0 <= i < s.len() ==> s[i] <= bound,
    ensures
        total(s) <= s.len() * bound,
    decreases s.len(),
{
    if s.len() > 0 {
        let front = s.drop_last();
        assert forall|i: int| 0 <= i < front.len() implies front[i] <= bound by {
            assert(front[i] == s[i]);
        }
        lemma_total_within(front, bound);
        assert(s.last() == s[s.len() - 1]);
        assert((s.len() - 1) * bound + bound == s.len() * bound) by (nonlinear_arith);
    }
}

/// No statistic of samples exceeds a bound that no sample exceeds.
pub proof fn lemma_statistics_within(s: Seq<u64>, bound: nat)
    requires
        forall|i: int| 0 <= i < s.len() ==> s[i] <= bound,
    ensures
        least(s) <= bound,
        mean(s) <= bound,
        percentile_95(s) <= bound,
{
    if s.len() > 0 {
        lemma_least(s);
        lemma_percentile_95(s);
        lemma_total_within(s, bound);
        let n = s.len() as int;
        let t = total(s) as int;
        let b = bound as int;
        assert(t / n <= b) by (nonlinear_arith)
            requires
                0 <= t <= n * b,
                n > 0,
        ;
    } else {
        assert(s.filter(|v: u64| covers_95(s, v)) =~= Seq::<u64>::empty()) by {
            reveal(Seq::filter);
        }
    }
}

/// Samples that are all `latency` have `latency` as their least, their
/// mean and their 95th percentile.
pub proof fn lemma_constant_samples(s: Seq<u64>, latency: u64)
    requires
        s.len() > 0,
        forall|i: int| 0 <= i < s.len() ==> s[i] == latency,
    ensures
        least(s) == latency,
        mean(s) == latency,
        percentile_95(s) == latency,
{
    lemma_least(s);
    lemma_constant_total(s, latency);
    let n = s.len() as int;
    assert((n * latency) / n == latency) by (nonlinear_arith)
        requires
            n > 0,
            latency >= 0,
    ;
    lemma_filter_keeps_all(s, |x: u64| x <= latency);
    lemma_rank_95(s.len());
    assert(covers_95(s, latency));
    lemma_filter_keeps_all(s, |v: u64| covers_95(s, v));
}

/// Samples that are all `latency` add up to their number times `latency`.
proof fn lemma_constant_total(s: Seq<u64>, latency: u64)
    requires
        forall|i: int| 0 <= i < s.len() ==> s[i] == latency,
    ensures
        total(s) == s.len() * latency,
    decreases s.len(),
{
    if s.len() > 0 {
        let front = s.drop_last();
        assert forall|i: int| 0 <= i < front.len() implies front[i] == latency by {
            assert(front[i] == s[i]);
        }
        lemma_constant_total(front, latency);
        assert((s.len() - 1) * latency + latency == s.len() * latency) by (nonlinear_arith);
    }
}

/// Computes [`least`].
pub fn least_of(samples: &Vec<u64>) -> (m: u64)
    ensures
        m == least(samples@),
{
    if samples.len() == 0 {
        return 0;
    }
    let mut m: u64 = samples[0];
    let mut i: usize = 1;
    assert(samples@.subrange(0, 1).len() == 1);
    while i < samples.len()
        invariant
            1 <= i <= samples@.len(),
            m == least(samples@.subrange(0, i as int)),
        decreases samples@.len() - i,
    {
        proof {
            let next = samples@.subrange(0, i + 1);
            assert(next.drop_last() =~= samples@.subrange(0, i as int));
            assert(next.last() == samples@[i as int]);
        }
        if samples[i] < m {
            m = samples[i];
        }
        i = i + 1;
    }
    assert(samples@.subrange(0, samples@.len() as int) =~= samples@);
    m
}

/// Computes [`mean`].
pub fn mean_of(samples: &Vec<u64>) -> (m: u64)
    ensures
        m == mean(samples@),
{
    if samples.len() == 0 {
        return 0;
    }
    let mut sum: u128 = 0;
    let mut i: usize = 0;
    while i < samples.len()
        invariant
            i <= samples@.len(),
            sum == total(samples@.subrange(0, i as int)),
        decreases samples@.len() - i,
    {
        proof {
            let next = samples@.subrange(0, i + 1);
            assert(next.drop_last() =~= samples@.subrange(0, i as int));
            assert(next.last() == samples@[i as int]);
            lemma_total_bound(next);
            assert(next.len() * u64::MAX <= u64::MAX * u64::MAX) by (nonlinear_arith)
                requires
                    next.len() <= u64::MAX,
            ;
        }
        sum = sum + samples[i] as u128;
        i = i + 1;
    }
    proof {
        assert(samples@.subrange(0, samples@.len() as int) =~= samples@);
        lemma_total_bound(samples@);
        let n = samples@.len() as int;
        let t = total(samples@) as int;
        assert(t / n <= u64::MAX) by (nonlinear_arith)
            requires
                0 <= t <= n * u64::MAX,
                n > 0,
        ;
    }
    (sum / (samples.len() as u128)) as u64
}

/// Counts the samples that do not exceed `v`.
pub fn count_at_most_of(samples: &Vec<u64>, v: u64) -> (count: usize)
    ensures
        count == count_at_most(samples@, v),
{
    let ghost pred = |x: u64| x <= v;
    let mut count: usize = 0;
    let mut i: usize = 0;
    while i < samples.len()
        invariant
            i <= samples@.len(),
            count <= i,
            pred == (|x: u64| x <= v),
            count == samples@.subrange(0, i as int).filter(pred).len(),
        decreases samples@.len() - i,
    {
        proof {
            reveal(Seq::filter);
            let next = samples@.subrange(0, i + 1);
            assert(next.drop_last() =~= samples@.subrange(0, i as int));
            assert(next.last() == samples@[i as int]);
        }
        if samples[i] <= v {
            count = count + 1;
        }
        i = i + 1;
    }
    assert(samples@.subrange(0, samples@.len() as int) =~= samples@);
    count
}

/// Computes [`percentile_95`].
pub fn percentile_95_of(samples: &Vec<u64>) -> (p: u64)
    ensures
        p == percentile_95(samples@),
{
    let n: usize = samples.len();
    let rank: usize = n - n / 20;
    let ghost pred = |v: u64| covers_95(samples@, v);
    let mut found: bool = false;
    let mut p: u64 = 0;
    let mut i: usize = 0;
    proof {
        lemma_rank_95(n as nat);
        reveal(Seq::filter);
        assert(samples@.subrange(0, 0).filter(pred) =~= Seq::<u64>::empty());
    }
    while i < n
        invariant
            n == samples@.len(),
            i <= n,
            rank == rank_95(n as nat),
            pred == (|v: u64| covers_95(samples@, v)),
            found == (samples@.subrange(0, i as int).filter(pred).len() > 0),
            p == least(samples@.subrange(0, i as int).filter(pred)),
        decreases n - i,
    {
        let v: u64 = samples[i];
        let covers: bool = count_at_most_of(samples, v) >= rank;
        proof {
            reveal(Seq::filter);
            let next = samples@.subrange(0, i + 1);
            assert(next.drop_last() =~= samples@.subrange(0, i as int));
            assert(next.last() == v);
            assert(covers == pred(v));
            let kept = samples@.subrange(0, i as int).filter(pred);
            if covers {
                assert(next.filter(pred) == kept.push(v));
                assert(kept.push(v).drop_last() =~= kept);
            }
        }
        if covers && (!found || v < p) {
            p = v;
        }
        if covers {
            found = true;
        }
        i = i + 1;
    }
    assert(samples@.subrange(0, n as int) =~= samples@);
    p
}

} // verus!
