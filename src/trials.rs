//! The trial set of a session: every combination of the tested conditions,
//! put in an order drawn by a Fisher–Yates shuffle.
use vstd::prelude::*;
use vstd::multiset::Multiset;
use vstd::seq_lib::{lemma_multiset_commutative, to_multiset_update};
use crate::codes::ControlAlgorithm;

verus! {

/// One experimental condition.
#[derive(Clone, Copy, Debug, PartialEq, Eq, Structural)]
pub struct Combination {
    pub control_algorithm: ControlAlgorithm,
    pub packet_rate: i32,
    pub delay: i32,
}

/// Algorithm `a` and rate `rate` with each delay of `d`, in order.
pub open spec fn with_delays(a: ControlAlgorithm, rate: i32, d: Seq<i32>) -> Seq<Combination>
    decreases d.len(),
{
    if d.len() == 0 {
        Seq::empty()
    } else {
        with_delays(a, rate, d.drop_last()).push(
            Combination { control_algorithm: a, packet_rate: rate, delay: d.last() },
        )
    }
}

/// Algorithm `a` with each rate of `p` and each delay of `d`, rates outermost.
pub open spec fn with_rates(a: ControlAlgorithm, p: Seq<i32>, d: Seq<i32>) -> Seq<Combination>
    decreases p.len(),
{
    if p.len() == 0 {
        Seq::empty()
    } else {
        with_rates(a, p.drop_last(), d) + with_delays(a, p.last(), d)
    }
}

/// The cross product algorithms × rates × delays, algorithms outermost.
pub open spec fn cross(a: Seq<ControlAlgorithm>, p: Seq<i32>, d: Seq<i32>) -> Seq<Combination>
    decreases a.len(),
{
    if a.len() == 0 {
        Seq::empty()
    } else {
        cross(a.drop_last(), p, d) + with_rates(a.last(), p, d)
    }
}

/// Every combination of the given algorithms, packet rates and delays, in
/// enumeration order.
pub fn combinations(
    algorithms: &Vec<ControlAlgorithm>,
    packet_rates: &Vec<i32>,
    delays: &Vec<i32>,
) -> (r: Vec<Combination>)
    ensures
        r@ == cross(algorithms@, packet_rates@, delays@),
{
    let mut r: Vec<Combination> = Vec::new();
    let mut ai: usize = 0;
    while ai < algorithms.len()
        invariant
            ai <= algorithms@.len(),
            r@ == cross(algorithms@.take(ai as int), packet_rates@, delays@),
        decreases algorithms@.len() - ai,
    {
        let a = algorithms[ai];
        let ghost before = r@;
        let mut pi: usize = 0;
        while pi < packet_rates.len()
            invariant
                ai < algorithms@.len(),
                a == algorithms@[ai as int],
                pi <= packet_rates@.len(),
                r@ == before + with_rates(a, packet_rates@.take(pi as int), delays@),
            decreases packet_rates@.len() - pi,
        {
            let rate = packet_rates[pi];
            let ghost mid = r@;
            let mut di: usize = 0;
            while di < delays.len()
                invariant
                    pi < packet_rates@.len(),
                    rate == packet_rates@[pi as int],
                    di <= delays@.len(),
                    r@ == mid + with_delays(a, rate, delays@.take(di as int)),
                decreases delays@.len() - di,
            {
                r.push(Combination { control_algorithm: a, packet_rate: rate, delay: delays[di] });
                proof {
                    assert(delays@.take(di + 1).drop_last() =~= delays@.take(di as int));
                }
                di = di + 1;
                assert(r@ =~= mid + with_delays(a, rate, delays@.take(di as int)));
            }
            proof {
                assert(delays@.take(delays@.len() as int) =~= delays@);
                assert(packet_rates@.take(pi + 1).drop_last() =~= packet_rates@.take(pi as int));
            }
            pi = pi + 1;
            assert(r@ =~= before + with_rates(a, packet_rates@.take(pi as int), delays@));
        }
        proof {
            assert(packet_rates@.take(packet_rates@.len() as int) =~= packet_rates@);
            assert(algorithms@.take(ai + 1).drop_last() =~= algorithms@.take(ai as int));
        }
        ai = ai + 1;
    }
    assert(algorithms@.take(algorithms@.len() as int) =~= algorithms@);
    r
}

/// The position that step `k` of the shuffle swaps with position `k`:
/// draw `k` reduced to `0..=k`, or `k` itself when no draw was supplied.
pub open spec fn draw_for(draws: Seq<usize>, k: int) -> int {
    if k < draws.len() {
        (draws[k] as int) % (k + 1)
    } else {
        k
    }
}

pub open spec fn swap<T>(s: Seq<T>, i: int, j: int) -> Seq<T> {
    s.update(i, s[j]).update(j, s[i])
}

/// The Fisher–Yates shuffle of the first `n` positions of `s`: for `k` from
/// `n - 1` down to `1`, swap position `k` with position `draw_for(draws, k)`.
pub open spec fn shuffled<T>(s: Seq<T>, draws: Seq<usize>, n: int) -> Seq<T>
    decreases n,
{
    if n <= 1 {
        s
    } else {
        shuffled(swap(s, n - 1, draw_for(draws, n - 1)), draws, n - 1)
    }
}

proof fn lemma_swap_keeps_multiset<T>(s: Seq<T>, i: int, j: int)
    requires
        0 <= i < s.len(),
        0 <= j < s.len(),
    ensures
        swap(s, i, j).to_multiset() == s.to_multiset(),
        swap(s, i, j).len() == s.len(),
{
    let s1 = s.update(i, s[j]);
    to_multiset_update(s, i, s[j]);
    to_multiset_update(s1, j, s[i]);
    if i == j {
        assert(swap(s, i, j) =~= s);
    } else {
        broadcast use vstd::seq_lib::group_to_multiset_ensures;

        assert(s1[j] == s[j]);
        assert(s.contains(s[i]));
        assert(s.contains(s[j]));
        assert(s.to_multiset().count(s[i]) > 0);
        assert(s.to_multiset().count(s[j]) > 0);
        assert(swap(s, i, j).to_multiset() =~= s.to_multiset());
    }
}

proof fn lemma_shuffled_keeps_multiset<T>(s: Seq<T>, draws: Seq<usize>, n: int)
    requires
        n <= s.len(),
    ensures
        shuffled(s, draws, n).to_multiset() == s.to_multiset(),
        shuffled(s, draws, n).len() == s.len(),
    decreases n,
{
    if n > 1 {
        let j = draw_for(draws, n - 1);
        if n - 1 < draws.len() {
            let m = n;
            let x = draws[n - 1] as int;
            assert(x % m < m) by (nonlinear_arith)
                requires
                    m > 0,
            ;
        }
        lemma_swap_keeps_multiset(s, n - 1, j);
        lemma_shuffled_keeps_multiset(swap(s, n - 1, j), draws, n - 1);
    }
}

/// Puts `v` in the order that the Fisher–Yates shuffle with the given draws
/// gives. Where each draw `k` is independent and uniform over `0..=k`, every
/// order is equally likely. A draw uniform over all of `usize` is reduced
/// modulo `k + 1`, which leaves a bias of at most `(k + 1) / 2^64` per step:
/// the order is then uniform only to that approximation. The elements
/// themselves are kept, each as often as before.
pub fn shuffle(v: &mut Vec<Combination>, draws: &Vec<usize>)
    ensures
        final(v)@ == shuffled(old(v)@, draws@, old(v)@.len() as int),
        final(v)@.to_multiset() == old(v)@.to_multiset(),
        final(v)@.len() == old(v)@.len(),
{
    let ghost start = v@;
    let mut n: usize = v.len();
    while n > 1
        invariant
            n <= v@.len(),
            v@.len() == start.len(),
            shuffled(v@, draws@, n as int) == shuffled(start, draws@, start.len() as int),
        decreases n,
    {
        let k: usize = n - 1;
        let j: usize = if k < draws.len() {
            draws[k] % n
        } else {
            k
        };
        let ghost prev = v@;
        let vk = v[k];
        let vj = v[j];
        v.set(k, vj);
        v.set(j, vk);
        assert(v@ =~= swap(prev, k as int, j as int));
        n = k;
    }
    proof {
        lemma_shuffled_keeps_multiset(start, draws@, start.len() as int);
    }
}

proof fn lemma_with_delays_count(a: ControlAlgorithm, rate: i32, d: Seq<i32>, c: Combination)
    ensures
        with_delays(a, rate, d).len() == d.len(),
        with_delays(a, rate, d).to_multiset().count(c) == if c.control_algorithm == a
            && c.packet_rate == rate {
            d.to_multiset().count(c.delay)
        } else {
            0
        },
    decreases d.len(),
{
    broadcast use vstd::seq_lib::group_to_multiset_ensures;

    if d.len() == 0 {
        assert(d.to_multiset() =~= Multiset::empty());
        assert(with_delays(a, rate, d).to_multiset() =~= Multiset::empty());
    } else {
        lemma_with_delays_count(a, rate, d.drop_last(), c);
        assert(d =~= d.drop_last().push(d.last()));
    }
}

proof fn lemma_with_rates_count(a: ControlAlgorithm, p: Seq<i32>, d: Seq<i32>, c: Combination)
    ensures
        with_rates(a, p, d).len() == p.len() * d.len(),
        with_rates(a, p, d).to_multiset().count(c) == if c.control_algorithm == a {
            p.to_multiset().count(c.packet_rate) * d.to_multiset().count(c.delay)
        } else {
            0
        },
    decreases p.len(),
{
    broadcast use vstd::seq_lib::group_to_multiset_ensures;
    broadcast use vstd::multiset::group_multiset_axioms;

    if p.len() == 0 {
        assert(p.to_multiset() =~= Multiset::empty());
        assert(with_rates(a, p, d).to_multiset() =~= Multiset::empty());
        let dc = d.to_multiset().count(c.delay);
        assert(0 * dc == 0);
        assert(p.len() * d.len() == 0) by (nonlinear_arith)
            requires
                p.len() == 0,
        ;
    } else {
        let q = p.drop_last();
        lemma_with_rates_count(a, q, d, c);
        lemma_with_delays_count(a, p.last(), d, c);
        lemma_multiset_commutative(with_rates(a, q, d), with_delays(a, p.last(), d));
        assert(p =~= q.push(p.last()));
        let k = q.to_multiset().count(c.packet_rate);
        let b: int = if p.last() == c.packet_rate { 1 } else { 0 };
        let dc = d.to_multiset().count(c.delay);
        assert(p.to_multiset().count(c.packet_rate) == k + b);
        assert((k + b) * dc == k * dc + b * dc) by (nonlinear_arith);
        assert(b * dc == if b == 1 { dc } else { 0 }) by (nonlinear_arith)
            requires
                b == 0 || b == 1,
        ;
        assert(p.len() * d.len() == q.len() * d.len() + d.len()) by (nonlinear_arith)
            requires
                p.len() == q.len() + 1,
        ;
    }
}

proof fn lemma_cross_count(a: Seq<ControlAlgorithm>, p: Seq<i32>, d: Seq<i32>, c: Combination)
    ensures
        cross(a, p, d).len() == a.len() * p.len() * d.len(),
        cross(a, p, d).to_multiset().count(c) == a.to_multiset().count(c.control_algorithm)
            * p.to_multiset().count(c.packet_rate) * d.to_multiset().count(c.delay),
    decreases a.len(),
{
    broadcast use vstd::seq_lib::group_to_multiset_ensures;
    broadcast use vstd::multiset::group_multiset_axioms;

    if a.len() == 0 {
        assert(a.to_multiset() =~= Multiset::empty());
        assert(cross(a, p, d).to_multiset() =~= Multiset::empty());
        let pc = p.to_multiset().count(c.packet_rate);
        let dc = d.to_multiset().count(c.delay);
        assert(0 * pc * dc == 0) by (nonlinear_arith);
        assert(a.len() * p.len() * d.len() == 0) by (nonlinear_arith)
            requires
                a.len() == 0,
        ;
    } else {
        let q = a.drop_last();
        lemma_cross_count(q, p, d, c);
        lemma_with_rates_count(a.last(), p, d, c);
        lemma_multiset_commutative(cross(q, p, d), with_rates(a.last(), p, d));
        assert(a =~= q.push(a.last()));
        let k = q.to_multiset().count(c.control_algorithm);
        let b: int = if a.last() == c.control_algorithm { 1 } else { 0 };
        let pc = p.to_multiset().count(c.packet_rate);
        let dc = d.to_multiset().count(c.delay);
        assert(a.to_multiset().count(c.control_algorithm) == k + b);
        assert((k + b) * pc * dc == k * pc * dc + b * (pc * dc)) by (nonlinear_arith);
        assert(b * (pc * dc) == if b == 1 { pc * dc } else { 0 }) by (nonlinear_arith)
            requires
                b == 0 || b == 1,
        ;
        assert(a.len() * p.len() * d.len() == q.len() * p.len() * d.len() + p.len() * d.len())
            by (nonlinear_arith)
            requires
                a.len() == q.len() + 1,
        ;
    }
}

/// The trials of a session are the combinations of its conditions, in some
/// order: there are |algorithms| × |rates| × |delays| of them, and each
/// combination occurs as often as its algorithm, rate and delay occur in
/// their lists together allow (so exactly once where the lists hold no
/// repeats), whatever the draws of the shuffle.
pub proof fn lemma_session_trials_are_combinations(
    algorithms: Seq<ControlAlgorithm>,
    packet_rates: Seq<i32>,
    delays: Seq<i32>,
    draws: Seq<usize>,
    c: Combination,
)
    ensures
        ({
            let all = cross(algorithms, packet_rates, delays);
            let order = shuffled(all, draws, all.len() as int);
            &&& order.len() == algorithms.len() * packet_rates.len() * delays.len()
            &&& order.to_multiset() == all.to_multiset()
            &&& order.to_multiset().count(c) == algorithms.to_multiset().count(c.control_algorithm)
                * packet_rates.to_multiset().count(c.packet_rate) * delays.to_multiset().count(c.delay)
        }),
{
    let all = cross(algorithms, packet_rates, delays);
    lemma_cross_count(algorithms, packet_rates, delays, c);
    lemma_shuffled_keeps_multiset(all, draws, all.len() as int);
}

} // verus!
