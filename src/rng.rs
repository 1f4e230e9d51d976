//! A small linear congruential generator and the shuffles built on it.
use vstd::prelude::*;
use vstd::multiset::Multiset;
use crate::dates::time_since_epoch;

verus! {

/// Multiplier and increment of the generator.
pub const LCG_MUL: usize = 1664525;
pub const LCG_ADD: usize = 1013904223;

/// The state that follows `state`.
pub open spec fn next_state(state: usize) -> usize {
    state.wrapping_mul(LCG_MUL).wrapping_add(LCG_ADD)
}

/// A generator of pseudo-random indices.
#[derive(Debug, Clone, Copy)]
pub struct SimpleRng {
    pub state: usize,
}

impl SimpleRng {
    /// A generator started from `seed`.
    pub fn new(seed: usize) -> (r: SimpleRng)
        ensures
            r.state == seed,
    {
        SimpleRng { state: seed }
    }

    /// Advances the state and returns a value in `[min, max)`.
    pub fn gen_range(&mut self, min: usize, max: usize) -> (r: usize)
        requires
            min < max,
        ensures
            final(self).state == next_state(old(self).state),
            r == min as int + final(self).state as int % (max as int - min as int),
            min <= r < max,
    {
        self.state = self.state.wrapping_mul(LCG_MUL).wrapping_add(LCG_ADD);
        min + (self.state % (max - min))
    }
}

/// `s` with the elements at `i` and `j` exchanged.
pub open spec fn swapped<T>(s: Seq<T>, i: int, j: int) -> Seq<T> {
    s.update(i, s[j]).update(j, s[i])
}

/// `s` after the exchanges of places `i..n`: place `i` is exchanged with
/// place `i + next % (len - i)`, where `next` is the state that follows
/// `state`, and the generator goes on from `next`.
pub open spec fn shuffle_from<T>(s: Seq<T>, i: nat, n: nat, state: usize) -> Seq<T>
    decreases n - i,
{
    if i >= n || i >= s.len() {
        s
    } else {
        let next = next_state(state);
        let j = i + next as int % (s.len() - i);
        shuffle_from(swapped(s, i as int, j), i + 1, n, next)
    }
}

/// Exchanges the elements at `i` and `j`, `i <= j`.
fn swap_at<T>(v: &mut Vec<T>, i: usize, j: usize)
    requires
        i <= j < old(v)@.len(),
    ensures
        final(v)@ == swapped(old(v)@, i as int, j as int),
{
    if i == j {
        assert(v@ =~= swapped(v@, i as int, j as int));
        return;
    }
    let ghost s = v@;
    let xj = v.remove(j);
    v.insert(i, xj);
    let xi = v.remove(i + 1);
    v.insert(j, xi);
    assert(v@ =~= swapped(s, i as int, j as int));
}

/// Shuffles the first `n` places: for each `i < n` in turn, exchanges
/// element `i` with one drawn from `[i, len)` by a generator seeded with `seed`.
/// The elements are only permuted.
pub fn suffix_with_seed<T>(v: &mut Vec<T>, n: usize, seed: usize)
    requires
        n <= old(v)@.len(),
    ensures
        final(v)@ == shuffle_from(old(v)@, 0, n as nat, seed),
        final(v)@.len() == old(v)@.len(),
        final(v)@.to_multiset() == old(v)@.to_multiset(),
{
    broadcast use vstd::seq_lib::to_multiset_update, vstd::multiset::group_multiset_axioms, vstd::seq_lib::group_to_multiset_ensures;

    let len = v.len();
    let mut rng = SimpleRng::new(seed);
    let mut i: usize = 0;
    while i < n
        invariant
            n <= len,
            i <= n,
            v@.len() == len,
            v@.to_multiset() == old(v)@.to_multiset(),
            shuffle_from(v@, i as nat, n as nat, rng.state) == shuffle_from(old(v)@, 0, n as nat, seed),
        decreases n - i,
    {
        let j = rng.gen_range(i, len);
        let ghost s = v@;
        swap_at(v, i, j);
        proof {
            vstd::seq_lib::to_multiset_update(s, i as int, s[j as int]);
            vstd::seq_lib::to_multiset_update(s.update(i as int, s[j as int]), j as int, s[i as int]);
            if i != j {
                assert(s.contains(s[i as int]));
                assert(s.contains(s[j as int]));
                vstd::seq_lib::to_multiset_contains(s, s[i as int]);
                vstd::seq_lib::to_multiset_contains(s, s[j as int]);
                assert(s.to_multiset().count(s[i as int]) > 0);
                assert(s.to_multiset().insert(s[j as int]).remove(s[i as int]).count(s[j as int]) > 0);
                assert(s.to_multiset().insert(s[j as int]).remove(s[i as int]).insert(s[i as int]).remove(s[j as int]) =~= s.to_multiset());
            } else {
                assert(swapped(s, i as int, j as int) =~= s);
            }
        }
        i = i + 1;
    }
}

/// A seed from the clock: the nanoseconds since 1970-01-01, wrapped to the
/// width of `usize`; zero when the clock is set before 1970.
fn time_seed() -> usize {
    match time_since_epoch() {
        Some(t) => #[verifier::truncate] ((t.0 as u128 * 1_000_000_000u128 + t.1 as u128) as usize),
        None => 0,
    }
}

/// Shuffles the first `n` places of `v` with a generator seeded from the clock.
pub fn suffix<T>(v: &mut Vec<T>, n: usize)
    requires
        n <= old(v)@.len(),
    ensures
        final(v)@.len() == old(v)@.len(),
        final(v)@.to_multiset() == old(v)@.to_multiset(),
{
    let seed = time_seed();
    suffix_with_seed(v, n, seed);
}

/// `n` elements of `v` chosen at random: the first `n` after shuffling.
pub fn random_choose_n<T>(v: Vec<T>, n: usize) -> (r: Vec<T>)
    requires
        n <= v@.len(),
    ensures
        r@.len() == n,
        r@.to_multiset().subset_of(v@.to_multiset()),
{
    random_choose_n_with_seed(v, n, time_seed())
}

/// `n` elements of `v`: the first `n` after shuffling with `seed`.
pub fn random_choose_n_with_seed<T>(v: Vec<T>, n: usize, seed: usize) -> (r: Vec<T>)
    requires
        n <= v@.len(),
    ensures
        n > 0 ==> r@ == shuffle_from(v@, 0, n as nat, seed).take(n as int),
        r@.len() == n,
        r@.to_multiset().subset_of(v@.to_multiset()),
{
    broadcast use vstd::seq_lib::group_to_multiset_ensures, vstd::multiset::group_multiset_axioms;

    let mut v = v;
    if n == 0 {
        let r: Vec<T> = Vec::new();
        assert(r@.to_multiset() =~= Multiset::empty());
        return r;
    }
    suffix_with_seed(&mut v, n, seed);
    let ghost shuffled = v@;
    v.truncate(n);
    proof {
        assert(v@ =~= shuffled.take(n as int));
        assert(shuffled =~= v@ + shuffled.subrange(n as int, shuffled.len() as int));
        vstd::seq_lib::lemma_multiset_commutative(v@, shuffled.subrange(n as int, shuffled.len() as int));
    }
    v
}

} // verus!
