//! Overlapping sliding windows over a sequence of tiles.
use vstd::prelude::*;

verus! {

/// A half-open index range `[start, end)` into the tile sequence.
#[derive(Clone, Copy, Debug, PartialEq, Eq, Structural)]
pub struct Window {
    pub start: usize,
    pub end: usize,
}

impl Window {
    /// Number of tiles covered by the window.
    pub fn len(&self) -> (r: usize)
        requires
            self.start <= self.end,
        ensures
            r == self.end - self.start,
    {
        self.end - self.start
    }
}

/// Number of windows that `partition` produces: one for each start index
/// `k * (step - overlap)` below `n - overlap`.
pub open spec fn window_count(n: nat, step: nat, overlap: nat) -> nat
    recommends
        step > overlap,
        n > overlap,
{
    ((n - overlap + (step - overlap) - 1) as nat / (step - overlap) as nat) as nat
}

/// Start index of the `k`-th window.
pub open spec fn window_start(k: nat, step: nat, overlap: nat) -> nat {
    k * (step - overlap) as nat
}

/// End index (exclusive) of the `k`-th window: `step` tiles later, truncated to `n`.
pub open spec fn window_end(k: nat, n: nat, step: nat, overlap: nat) -> nat {
    let s = window_start(k, step, overlap);
    if s + step <= n {
        s + step
    } else {
        n
    }
}

/// The windows of `n` tiles, in order.
pub open spec fn windows(n: nat, step: nat, overlap: nat) -> Seq<Window> {
    Seq::new(
        window_count(n, step, overlap),
        |k: int|
            Window {
                start: window_start(k as nat, step, overlap) as usize,
                end: window_end(k as nat, n, step, overlap) as usize,
            },
    )
}

/// The k-th window starts below `n - overlap`, exactly when `k` is below the count.
proof fn lemma_count(n: nat, step: nat, overlap: nat, k: nat)
    requires
        step > overlap,
        n > overlap,
    ensures
        k < window_count(n, step, overlap) <==> window_start(k, step, overlap) + overlap < n,
{
    let d = (step - overlap) as nat;
    let m = (n - overlap) as nat;
    assert(window_count(n, step, overlap) == (m + d - 1) as nat / d);
    assert(window_start(k, step, overlap) == k * d);
    assert(k < (m + d - 1) as nat / d <==> k * d < m) by (nonlinear_arith)
        requires
            d > 0,
            m > 0,
    {
        if k < (m + d - 1) as nat / d {
            assert(k + 1 <= (m + d - 1) as nat / d);
            assert((k + 1) * d <= ((m + d - 1) as nat / d) * d);
            assert(((m + d - 1) as nat / d) * d <= m + d - 1);
        }
        if k * d < m {
            assert(k * d + d <= m + d - 1);
            assert((k + 1) * d <= m + d - 1);
            assert(k + 1 <= (m + d - 1) as nat / d);
        }
    }
}

/// The windows cover every tile: each index below `n` lies in some window,
/// and an index lies in two consecutive windows only within the `overlap`
/// tiles that they share.
pub proof fn lemma_windows_cover(n: usize, step: usize, overlap: usize, i: usize)
    requires
        step > overlap,
        n > overlap,
        i < n,
    ensures
        exists|k: int|
            0 <= k < windows(n as nat, step as nat, overlap as nat).len() && #[trigger] windows(n as nat, step as nat, overlap as nat)[k].start <= i
                < windows(n as nat, step as nat, overlap as nat)[k].end,
        forall|k: int|
            0 <= k < windows(n as nat, step as nat, overlap as nat).len() - 1 && windows(n as nat, step as nat, overlap as nat)[k].start <= i
                < windows(n as nat, step as nat, overlap as nat)[k].end && windows(n as nat, step as nat, overlap as nat)[k + 1].start <= i
                ==> i >= #[trigger] windows(n as nat, step as nat, overlap as nat)[k].end - overlap,
{
    let w = windows(n as nat, step as nat, overlap as nat);
    let d = (step - overlap) as nat;
    let k = (i as nat / d) as nat;
    let c = window_count(n as nat, step as nat, overlap as nat);
    assert(k * d <= i < k * d + d) by (nonlinear_arith)
        requires
            k == i as nat / d,
            d > 0,
    {
        vstd::arithmetic::div_mod::lemma_fundamental_div_mod(i as int, d as int);
    }
    if k < c {
        lemma_count(n as nat, step as nat, overlap as nat, k);
        assert(window_start(k, step as nat, overlap as nat) == k * d);
        assert(w[k as int].start == k * d);
        assert(w[k as int].start <= i < w[k as int].end);
    } else {
        let last = (c - 1) as nat;
        lemma_count(n as nat, step as nat, overlap as nat, 0);
        lemma_count(n as nat, step as nat, overlap as nat, last);
        lemma_count(n as nat, step as nat, overlap as nat, c);
        assert(last * d <= k * d) by (nonlinear_arith)
            requires
                last < k,
                d > 0,
        ;
        assert(window_start(c, step as nat, overlap as nat) == last * d + d) by (nonlinear_arith)
            requires
                window_start(c, step as nat, overlap as nat) == c * d,
                c == last + 1,
        ;
        assert(w[last as int].start <= i < w[last as int].end);
    }
    assert forall|j: int|
        0 <= j < w.len() - 1 && w[j].start <= i < w[j].end && w[j + 1].start <= i implies i >= #[trigger] w[j].end
            - overlap by {
        lemma_count(n as nat, step as nat, overlap as nat, (j + 1) as nat);
        assert(window_start((j + 1) as nat, step as nat, overlap as nat) == window_start(j as nat, step as nat, overlap as nat) + d) by (nonlinear_arith)
            requires
                window_start((j + 1) as nat, step as nat, overlap as nat) == (j + 1) * d,
                window_start(j as nat, step as nat, overlap as nat) == j * d,
        ;
    }
}

/// Splits `n` tiles into overlapping windows of up to `step` tiles, each one
/// starting `step - overlap` tiles after the previous one.
pub fn partition(n: usize, step: usize, overlap: usize) -> (r: Vec<Window>)
    requires
        step > overlap,
        n > overlap,
    ensures
        r@ == windows(n as nat, step as nat, overlap as nat),
        r@.len() >= 1,
        r@[0].start == 0,
        r@.last().end == n,
        forall|k: int|
            0 <= k < r@.len() ==> r@[k].start < r@[k].end && r@[k].end <= n && r@[k].end
                - r@[k].start <= step,
        forall|k: int|
            0 <= k < r@.len() - 1 ==> #[trigger] r@[k + 1].start + overlap == r@[k].end
                && r@[k].end - r@[k].start == step,
{
    let d = step - overlap;
    let mut r: Vec<Window> = Vec::new();
    let mut start: usize = 0;
    let ghost mut k: nat = 0;
    let mut more = true;
    proof {
        lemma_count(n as nat, step as nat, overlap as nat, 0);
    }
    while more
        invariant
            step > overlap,
            n > overlap,
            d == step - overlap,
            more ==> start == window_start(k, step as nat, overlap as nat),
            k <= window_count(n as nat, step as nat, overlap as nat),
            r@.len() == k,
            more <==> k < window_count(n as nat, step as nat, overlap as nat),
            more ==> start + overlap < n,
            forall|j: int|
                0 <= j < k ==> r@[j] == windows(n as nat, step as nat, overlap as nat)[j],
        decreases window_count(n as nat, step as nat, overlap as nat) - k,
    {
        let end = if n - start >= step {
            start + step
        } else {
            n
        };
        r.push(Window { start, end });
        proof {
            lemma_count(n as nat, step as nat, overlap as nat, k + 1);
            assert(window_start(k + 1, step as nat, overlap as nat) == start + d) by (nonlinear_arith)
                requires
                    start == k * d,
                    window_start(k + 1, step as nat, overlap as nat) == (k + 1) * d,
            ;
            k = k + 1;
        }
        if n - overlap - start > d {
            start = start + d;
        } else {
            more = false;
            proof {
                assert(!(k < window_count(n as nat, step as nat, overlap as nat)));
            }
        }
    }
    let ghost w = windows(n as nat, step as nat, overlap as nat);
    proof {
        lemma_count(n as nat, step as nat, overlap as nat, 0);
        assert(r@ =~= w);
        let c = w.len() as int;
        let last = (c - 1) as nat;
        lemma_count(n as nat, step as nat, overlap as nat, last);
        lemma_count(n as nat, step as nat, overlap as nat, c as nat);
        assert forall|j: int| 0 <= j < c - 1 implies #[trigger] w[j + 1].start + overlap == w[j].end
            && w[j].end - w[j].start == step by {
            lemma_count(n as nat, step as nat, overlap as nat, (j + 1) as nat);
            assert(window_start((j + 1) as nat, step as nat, overlap as nat) == window_start(
                j as nat, step as nat, overlap as nat) + d) by (nonlinear_arith)
                requires d == step - overlap,
                    window_start((j + 1) as nat, step as nat, overlap as nat) == (j + 1) * d,
                    window_start(j as nat, step as nat, overlap as nat) == j * d,
            ;
        }
        assert forall|j: int| 0 <= j < c implies w[j].start < w[j].end && w[j].end <= n
            && w[j].end - w[j].start <= step by {
            lemma_count(n as nat, step as nat, overlap as nat, j as nat);
        }
        assert(window_start((c - 1) as nat, step as nat, overlap as nat) + step >= n) by (nonlinear_arith)
            requires
                d == step - overlap,
                window_start((c - 1) as nat, step as nat, overlap as nat) == (c - 1) * d,
                window_start(c as nat, step as nat, overlap as nat) == c * d,
                window_start(c as nat, step as nat, overlap as nat) + overlap >= n,
        ;
    }
    r
}

} // verus!
