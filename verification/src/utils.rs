//! Small numeric helpers.

use vstd::prelude::*;

verus! {

/// The average of the last `N` values added (of all of them while fewer were added).
pub struct SimpleRunningAverage<const N: usize> {
    /// the most recent values, oldest first
    values: Vec<i64>,
}

/// The last `n` elements of `s` (all of `s` when it is shorter).
pub open spec fn last_n(s: Seq<i64>, n: nat) -> Seq<i64> {
    if s.len() > n {
        s.subrange(s.len() - n, s.len() as int)
    } else {
        s
    }
}

/// The last `n` elements of `s` are exactly that: a window of `min(|s|, n)`
/// elements, the tail of `s` in its order.
pub proof fn lemma_last_n_is_tail(s: Seq<i64>, n: nat)
    ensures
        last_n(s, n).len() == if s.len() < n {
            s.len()
        } else {
            n
        },
        forall|i: int|
            0 <= i < last_n(s, n).len() ==> #[trigger] last_n(s, n)[i] == s[s.len() - last_n(
                s,
                n,
            ).len() + i],
{
}

/// Adding values one at a time keeps the last `n` of all values added: adding
/// `v` to the window of `s` gives the window of `s` followed by `v`.
pub proof fn lemma_last_n_push(s: Seq<i64>, v: i64, n: nat)
    ensures
        last_n(last_n(s, n).push(v), n) == last_n(s.push(v), n),
{
    lemma_last_n_is_tail(s, n);
    lemma_last_n_is_tail(last_n(s, n).push(v), n);
    lemma_last_n_is_tail(s.push(v), n);
    assert(last_n(last_n(s, n).push(v), n) =~= last_n(s.push(v), n));
}

pub open spec fn sum_of(s: Seq<i64>) -> int
    decreases s.len(),
{
    if s.len() == 0 {
        0
    } else {
        sum_of(s.drop_last()) + s.last() as int
    }
}

/// Integer division that rounds towards zero (as `/` does on Rust integers).
pub open spec fn div_trunc(a: int, b: int) -> int {
    if a >= 0 {
        a / b
    } else {
        -((-a) / b)
    }
}

/// The running average of a window: the sum divided by the count, rounded
/// towards zero; 0 for an empty window.
pub open spec fn window_average(s: Seq<i64>) -> int {
    if s.len() == 0 {
        0
    } else {
        div_trunc(sum_of(s), s.len() as int)
    }
}

proof fn lemma_average_bound(s: Seq<i64>)
    requires
        s.len() > 0,
    ensures
        i64::MIN <= window_average(s) <= i64::MAX,
{
    lemma_sum_elements_bound(s);
    let n = s.len() as int;
    let t = sum_of(s);
    if t >= 0 {
        assert(t / n <= i64::MAX) by (nonlinear_arith)
            requires
                t <= n * 0x7fff_ffff_ffff_ffff,
                n > 0,
                t >= 0,
        {}
        assert(t / n >= 0) by (nonlinear_arith)
            requires
                n > 0,
                t >= 0,
        {}
    } else {
        assert((-t) / n <= 0x8000_0000_0000_0000) by (nonlinear_arith)
            requires
                -t <= n * 0x8000_0000_0000_0000,
                n > 0,
                -t > 0,
        {}
        assert((-t) / n >= 0) by (nonlinear_arith)
            requires
                n > 0,
                -t > 0,
        {}
    }
}

proof fn lemma_sum_elements_bound(s: Seq<i64>)
    ensures
        -(s.len() as int) * 0x8000_0000_0000_0000 <= sum_of(s) <= (s.len() as int) * 0x7fff_ffff_ffff_ffff,
    decreases s.len(),
{
    if s.len() > 0 {
        lemma_sum_elements_bound(s.drop_last());
    }
}

impl<const N: usize> SimpleRunningAverage<N> {
    #[verifier::type_invariant]
    spec fn window_fits(self) -> bool {
        self.values@.len() <= N
    }

    /// The values in the window, oldest first.
    pub closed spec fn window(self) -> Seq<i64> {
        self.values@
    }

    /// An empty window.
    pub fn new() -> (r: Self)
        ensures
            r.window() == Seq::<i64>::empty(),
    {
        SimpleRunningAverage { values: Vec::new() }
    }

    /// Adds a value; the oldest one leaves once the window holds `N` values.
    pub fn add(&mut self, value: i64)
        ensures
            final(self).window() == last_n(old(self).window().push(value), N as nat),
            final(self).window().len() <= N,
            final(self).window().len() == if old(self).window().len() < N {
                old(self).window().len() + 1
            } else {
                N as nat
            },
            N > 0 ==> final(self).window().last() == value,
    {
        proof {
            use_type_invariant(&*self);
        }
        let mut values = Vec::new();
        std::mem::swap(&mut values, &mut self.values);
        values.push(value);
        let ghost pushed = values@;
        if values.len() > N {
            let drop = values.len() - N;
            let mut kept: Vec<i64> = Vec::new();
            let mut i = drop;
            while i < values.len()
                invariant
                    drop <= i <= values.len(),
                    values@ == pushed,
                    drop == pushed.len() - N,
                    kept@ =~= pushed.subrange(drop as int, i as int),
                decreases values.len() - i,
            {
                kept.push(values[i]);
                i = i + 1;
            }
            self.values = kept;
        } else {
            self.values = values;
        }
    }

    /// The average of the window (0 while it is empty), rounded towards zero.
    pub fn get(&self) -> (avg: i64)
        ensures
            avg as int == window_average(self.window()),
    {
        let n = self.values.len();
        if n == 0 {
            return 0;
        }
        let mut sum: i128 = 0;
        let mut i: usize = 0;
        proof {
            assert(self.values@.subrange(0, 0) =~= Seq::<i64>::empty());
        }
        while i < n
            invariant
                n == self.values@.len(),
                i <= n,
                sum == sum_of(self.values@.subrange(0, i as int)),
                n <= usize::MAX,
            decreases n - i,
        {
            proof {
                assert(self.values@.subrange(0, i + 1).drop_last() =~= self.values@.subrange(0, i as int));
                lemma_sum_elements_bound(self.values@.subrange(0, i + 1));
                assert((i + 1) as int * 0x8000_0000_0000_0000 <= 0x1_0000_0000_0000_0000int * 0x8000_0000_0000_0000) by (nonlinear_arith)
                    requires
                        i + 1 <= 0x1_0000_0000_0000_0000int,
                {}
            }
            sum = sum + self.values[i] as i128;
            i = i + 1;
        }
        proof {
            assert(self.values@.subrange(0, n as int) =~= self.values@);
            lemma_average_bound(self.values@);
            lemma_sum_elements_bound(self.values@);
            assert(n as int * 0x8000_0000_0000_0000 < 0x1_0000_0000_0000_0000int * 0x8000_0000_0000_0000) by (nonlinear_arith)
                requires
                    n < 0x1_0000_0000_0000_0000int,
            {}
        }
        let len = n as i128;
        if sum >= 0 {
            (sum / len) as i64
        } else {
            (-((-sum) / len)) as i64
        }
    }
}

} // verus!
