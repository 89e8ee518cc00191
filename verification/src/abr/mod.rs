//! Rate adaptation: the bitrate bookkeeping that the adaptation rules share.
//!
//! `available[v][q]` is the bitrate of representation `q` of view `v`.

use vstd::prelude::*;

pub mod quetramulti;

verus! {

/// Whether view `v` offers a representation `q`.
pub open spec fn offers(available: Seq<Vec<u64>>, v: int, q: int) -> bool {
    0 <= v < available.len() && 0 <= q < available[v]@.len()
}

/// The bitrate of representation `q` of view `v`.
pub open spec fn bitrate(available: Seq<Vec<u64>>, v: int, q: int) -> int {
    available[v]@[q] as int
}

/// The total bitrate when view `v` takes representation `qualities[v]`, over the
/// first `n` views.
pub open spec fn chosen_total(available: Seq<Vec<u64>>, qualities: Seq<usize>, n: nat) -> int
    decreases n,
{
    if n == 0 {
        0
    } else {
        chosen_total(available, qualities, (n - 1) as nat) + bitrate(
            available,
            n - 1,
            qualities[n - 1] as int,
        )
    }
}

/// Whether every view in `0..n` offers the representation chosen for it.
pub open spec fn choices_offered(available: Seq<Vec<u64>>, qualities: Seq<usize>, n: nat) -> bool {
    forall|v: int| 0 <= v < n ==> offers(available, v, #[trigger] qualities[v] as int)
}

proof fn lemma_chosen_total_monotone(available: Seq<Vec<u64>>, qualities: Seq<usize>, m: nat, n: nat)
    requires
        m <= n,
    ensures
        chosen_total(available, qualities, m) <= chosen_total(available, qualities, n),
    decreases n,
{
    if m < n {
        lemma_chosen_total_monotone(available, qualities, m, (n - 1) as nat);
    }
}

/// The total bitrate of a choice of one representation per view (view `v` takes
/// representation `qualities[v]`), or `None` where a view lacks its chosen
/// representation or the total does not fit in a `u64`.
pub fn total_bitrate(available: &Vec<Vec<u64>>, qualities: &Vec<usize>) -> (r: Option<u64>)
    ensures
        r is Some <==> (choices_offered(available@, qualities@, qualities@.len())
            && chosen_total(available@, qualities@, qualities@.len()) <= u64::MAX),
        r matches Some(t) ==> t == chosen_total(available@, qualities@, qualities@.len()),
{
    let n = qualities.len();
    let mut total: u64 = 0;
    let mut v: usize = 0;
    while v < n
        invariant
            n == qualities@.len(),
            v <= n,
            choices_offered(available@, qualities@, v as nat),
            total == chosen_total(available@, qualities@, v as nat),
        decreases n - v,
    {
        if v >= available.len() || qualities[v] >= available[v].len() {
            assert(!offers(available@, v as int, qualities@[v as int] as int));
            return None;
        }
        let b = available[v][qualities[v]];
        if b > u64::MAX - total {
            proof {
                lemma_chosen_total_monotone(available@, qualities@, (v + 1) as nat, n as nat);
            }
            return None;
        }
        total = total + b;
        v = v + 1;
    }
    Some(total)
}

/// The sum of the bitrates of representation `q` over the first `n` views.
pub open spec fn column_total(available: Seq<Vec<u64>>, n: nat, q: int) -> int
    decreases n,
{
    if n == 0 {
        0
    } else {
        column_total(available, (n - 1) as nat, q) + bitrate(available, n - 1, q)
    }
}

/// The number of views whose bitrates are combined: `views`, and at least the first.
pub open spec fn views_combined(views: nat) -> nat {
    if views == 0 {
        1
    } else {
        views
    }
}

/// Whether the bitrates of the first `views` views can be combined: there is a
/// first view, and each view offers as many representations as it does.
pub open spec fn combinable(available: Seq<Vec<u64>>, views: nat) -> bool {
    &&& available.len() > 0
    &&& views_combined(views) <= available.len()
    &&& forall|v: int| 0 <= v < views_combined(views) ==> (#[trigger] available[v])@.len() >= available[0]@.len()
}

proof fn lemma_column_total_monotone(available: Seq<Vec<u64>>, m: nat, n: nat, q: int)
    requires
        m <= n,
    ensures
        column_total(available, m, q) <= column_total(available, n, q),
    decreases n,
{
    if m < n {
        lemma_column_total_monotone(available, m, (n - 1) as nat, q);
    }
}

/// For each representation of the first view, the sum of its bitrates over the
/// first `views` views (over the first view alone when `views` is 0): the
/// bitrate of taking that representation in every view. `None` where a view
/// offers fewer representations than the first, or a sum does not fit in a `u64`.
pub fn combined_bitrates(available: &Vec<Vec<u64>>, views: usize) -> (r: Option<Vec<u64>>)
    ensures
        r is Some <==> (combinable(available@, views as nat) && forall|q: int|
            0 <= q < available@[0]@.len() ==> #[trigger] column_total(available@, views_combined(views as nat), q) <= u64::MAX),
        r matches Some(c) ==> c@.len() == available@[0]@.len() && forall|q: int|
            0 <= q < c@.len() ==> #[trigger] c@[q] == column_total(available@, views_combined(views as nat), q),
{
    if available.len() == 0 {
        return None;
    }
    let n: usize = if views == 0 {
        1
    } else {
        views
    };
    if n > available.len() {
        return None;
    }
    let width = available[0].len();
    let mut k: usize = 0;
    while k < n
        invariant
            n == views_combined(views as nat),
            n <= available@.len(),
            width == available@[0]@.len(),
            k <= n,
            forall|v: int| 0 <= v < k ==> (#[trigger] available@[v])@.len() >= width,
        decreases n - k,
    {
        if available[k].len() < width {
            return None;
        }
        k = k + 1;
    }
    let mut combined: Vec<u64> = Vec::new();
    let mut q: usize = 0;
    while q < width
        invariant
            n == views_combined(views as nat),
            n <= available@.len(),
            width == available@[0]@.len(),
            forall|v: int| 0 <= v < n ==> (#[trigger] available@[v])@.len() >= width,
            q <= width,
            combined@.len() == q,
            forall|j: int| 0 <= j < q ==> #[trigger] combined@[j] == column_total(available@, n as nat, j),
        decreases width - q,
    {
        let mut sum: u64 = 0;
        let mut v: usize = 0;
        while v < n
            invariant
                n == views_combined(views as nat),
                n <= available@.len(),
                width == available@[0]@.len(),
                forall|i: int| 0 <= i < n ==> (#[trigger] available@[i])@.len() >= width,
                q < width,
                v <= n,
                sum == column_total(available@, v as nat, q as int),
            decreases n - v,
        {
            let b = available[v][q];
            if b > u64::MAX - sum {
                proof {
                    lemma_column_total_monotone(available@, (v + 1) as nat, n as nat, q as int);
                    assert(column_total(available@, views_combined(views as nat), q as int) > u64::MAX);
                }
                return None;
            }
            sum = sum + b;
            v = v + 1;
        }
        combined.push(sum);
        q = q + 1;
    }
    assert forall|j: int| 0 <= j < available@[0]@.len() implies #[trigger] column_total(
        available@,
        views_combined(views as nat),
        j,
    ) <= u64::MAX by {
        assert(combined@[j] == column_total(available@, n as nat, j));
    }
    Some(combined)
}

} // verus!
