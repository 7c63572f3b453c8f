//! Arrays backed by a `Vec`, with the numeric operations used for index arithmetic.
use vstd::prelude::*;

verus! {

/// The sum of a sequence of naturals.
pub open spec fn sum(s: Seq<usize>) -> nat
    decreases s.len(),
{
    if s.len() == 0 {
        0
    } else {
        (sum(s.drop_last()) + s.last()) as nat
    }
}

pub proof fn lemma_sum_push(s: Seq<usize>, x: usize)
    ensures
        sum(s.push(x)) == sum(s) + x,
{
    assert(s.push(x).drop_last() =~= s);
}

pub proof fn lemma_sum_concat(a: Seq<usize>, b: Seq<usize>)
    ensures
        sum(a + b) == sum(a) + sum(b),
    decreases b.len(),
{
    if b.len() == 0 {
        assert(a + b =~= a);
    } else {
        assert((a + b).drop_last() =~= a + b.drop_last());
        lemma_sum_concat(a, b.drop_last());
    }
}

/// Cutting a sequence in three pieces splits its sum in three.
pub proof fn lemma_sum_split(s: Seq<usize>, i: int, j: int)
    requires
        0 <= i <= j <= s.len(),
    ensures
        sum(s) == sum(s.subrange(0, i)) + sum(s.subrange(i, j)) + sum(s.subrange(j, s.len() as int)),
        sum(s.subrange(0, i)) <= sum(s.subrange(0, j)),
        sum(s.subrange(i, j)) <= sum(s),
{
    let a = s.subrange(0, i);
    let b = s.subrange(i, j);
    let c = s.subrange(j, s.len() as int);
    lemma_sum_concat(a, b);
    lemma_sum_concat(a + b, c);
    assert(s =~= a + b + c);
    assert(s.subrange(0, j) =~= a + b);
}

/// The sum of the first `i` entries.
pub open spec fn prefix_sum(s: Seq<usize>, i: int) -> nat {
    sum(s.take(i))
}

/// `values[k]` repeated `counts[k]` times, for each `k` in order.
pub open spec fn repeated(counts: Seq<usize>, values: Seq<usize>) -> Seq<usize>
    decreases counts.len(),
{
    if counts.len() == 0 || values.len() == 0 {
        Seq::empty()
    } else {
        repeated(counts.drop_last(), values.drop_last()) + Seq::new(
            counts.last() as nat,
            |_k: int| values.last(),
        )
    }
}

/// Marker for the array backend built on `Vec`.
#[derive(PartialEq, Eq, Clone, Debug)]
pub struct VecKind {}

/// A newtype over `Vec<T>` with whole-array operations.
#[derive(PartialEq, Eq, Clone, Debug)]
pub struct VecArray<T>(pub Vec<T>);

impl<T> View for VecArray<T> {
    type V = Seq<T>;

    open spec fn view(&self) -> Seq<T> {
        self.0@
    }
}

impl<T: Clone> VecArray<T> {
    pub fn empty() -> (r: Self)
        ensures
            r@.len() == 0,
    {
        VecArray(Vec::new())
    }

    pub fn len(&self) -> (r: usize)
        ensures
            r == self@.len(),
    {
        self.0.len()
    }

    /// `self` followed by `other`.
    pub fn concatenate(&self, other: &Self) -> (r: Self)
        ensures
            r@.len() == self@.len() + other@.len(),
            forall|i: int| 0 <= i < self@.len() ==> cloned(self@[i], #[trigger] r@[i]),
            forall|i: int|
                0 <= i < other@.len() ==> cloned(other@[i], #[trigger] r@[self@.len() + i]),
    {
        let mut result = self.0.clone();
        result.extend_from_slice(other.0.as_slice());
        let r = VecArray(result);
        assert forall|i: int| 0 <= i < other@.len() implies cloned(
            other@[i],
            #[trigger] r@[self@.len() + i],
        ) by {
            assert(r@[self@.len() + i] == r@[(self@.len() + i) as int]);
        }
        r
    }

    /// `n` copies of `x`.
    pub fn fill(x: T, n: usize) -> (r: Self)
        ensures
            r@.len() == n,
            forall|i: int| 0 <= i < n ==> cloned(x, #[trigger] r@[i]),
    {
        VecArray(vec![x; n])
    }

    pub fn get(&self, i: usize) -> (r: T)
        requires
            i < self@.len(),
        ensures
            cloned(self@[i as int], r),
    {
        self.0[i].clone()
    }

    /// The entries from `start` up to, not including, `end`.
    pub fn get_range(&self, start: usize, end: usize) -> (r: &[T])
        requires
            start <= end <= self@.len(),
        ensures
            r@ == self@.subrange(start as int, end as int),
    {
        let s = self.0.as_slice();
        &s[start..end]
    }

    /// Overwrite the entries from `start` up to `end` with clones of `v`.
    pub fn set_range(&mut self, start: usize, end: usize, v: &Self)
        requires
            start <= end <= old(self)@.len(),
            end - start == v@.len(),
        ensures
            final(self)@.len() == old(self)@.len(),
            forall|i: int|
                0 <= i < old(self)@.len() && !(start <= i < end) ==> #[trigger] final(self)@[i]
                    == old(self)@[i],
            forall|i: int| start <= i < end ==> cloned(v@[i - start], #[trigger] final(self)@[i]),
    {
        let mut j: usize = 0;
        while j < end - start
            invariant
                start <= end <= old(self)@.len(),
                end - start == v@.len(),
                j <= end - start,
                self@.len() == old(self)@.len(),
                forall|i: int|
                    0 <= i < old(self)@.len() && !(start <= i < start + j) ==> #[trigger] self@[i]
                        == old(self)@[i],
                forall|i: int| start <= i < start + j ==> cloned(v@[i - start], #[trigger] self@[i]),
            decreases end - start - j,
        {
            let x = v.0[j].clone();
            self.0.set(start + j, x);
            j = j + 1;
        }
    }

    /// The entries of `self` at the positions `idx`, in that order.
    pub fn gather(&self, idx: &[usize]) -> (r: Self)
        requires
            forall|k: int| 0 <= k < idx@.len() ==> #[trigger] idx@[k] < self@.len(),
        ensures
            r@.len() == idx@.len(),
            forall|k: int| 0 <= k < idx@.len() ==> cloned(self@[idx@[k] as int], #[trigger] r@[k]),
    {
        let mut out: Vec<T> = Vec::with_capacity(idx.len());
        let mut k: usize = 0;
        while k < idx.len()
            invariant
                k <= idx@.len(),
                out@.len() == k,
                forall|k: int| 0 <= k < idx@.len() ==> #[trigger] idx@[k] < self@.len(),
                forall|m: int| 0 <= m < k ==> cloned(self@[idx@[m] as int], #[trigger] out@[m]),
            decreases idx@.len() - k,
        {
            let i = idx[k];
            out.push(self.0[i].clone());
            k = k + 1;
        }
        VecArray(out)
    }

    /// For each position `i` listed in `idx`, set `self[i]` to a clone of `v[i]`.
    pub fn scatter(&mut self, idx: &[usize], v: &Self)
        requires
            forall|k: int|
                0 <= k < idx@.len() ==> #[trigger] idx@[k] < old(self)@.len() && idx@[k]
                    < v@.len(),
        ensures
            final(self)@.len() == old(self)@.len(),
            forall|i: int|
                0 <= i < old(self)@.len() && idx@.contains(i as usize) ==> cloned(
                    v@[i],
                    #[trigger] final(self)@[i],
                ),
            forall|i: int|
                0 <= i < old(self)@.len() && !idx@.contains(i as usize) ==> #[trigger] final(self)@[i] == old(self)@[i],
    {
        let n = self.0.len();
        let mut k: usize = 0;
        while k < idx.len()
            invariant
                k <= idx@.len(),
                n == old(self)@.len(),
                self@.len() == old(self)@.len(),
                forall|k: int|
                    0 <= k < idx@.len() ==> #[trigger] idx@[k] < old(self)@.len() && idx@[k]
                        < v@.len(),
                forall|i: int|
                    0 <= i < old(self)@.len() && idx@.take(k as int).contains(i as usize)
                        ==> cloned(v@[i], #[trigger] self@[i]),
                forall|i: int|
                    0 <= i < old(self)@.len() && !idx@.take(k as int).contains(i as usize)
                        ==> #[trigger] self@[i] == old(self)@[i],
            decreases idx@.len() - k,
        {
            let i = idx[k];
            let x = v.0[i].clone();
            self.0.set(i, x);
            proof {
                assert forall|j: int|
                    0 <= j < old(self)@.len() && idx@.take(k + 1).contains(
                        j as usize,
                    ) implies cloned(v@[j], #[trigger] self@[j]) by {
                    if j != i as int {
                        let w = choose|w: int|
                            0 <= w < k + 1 && #[trigger] idx@.take(k + 1)[w] == j as usize;
                        assert(idx@.take(k + 1)[k as int] == i);
                        assert(w != k);
                        assert(idx@.take(k as int)[w] == j as usize);
                    }
                }
                assert forall|j: int|
                    0 <= j < old(self)@.len() && !idx@.take(k + 1).contains(
                        j as usize,
                    ) implies #[trigger] self@[j] == old(self)@[j] by {
                    assert(idx@.take(k + 1)[k as int] == i);
                    if idx@.take(k as int).contains(j as usize) {
                        let w = choose|w: int|
                            0 <= w < k && #[trigger] idx@.take(k as int)[w] == j as usize;
                        assert(idx@.take(k + 1)[w] == j as usize);
                    }
                }
            }
            k = k + 1;
        }
        assert(idx@.take(idx@.len() as int) =~= idx@);
    }
}

/// Adding one entry to a prefix adds that entry to its sum.
pub proof fn lemma_prefix_sum_next(s: Seq<usize>, i: int)
    requires
        0 <= i < s.len(),
    ensures
        prefix_sum(s, i + 1) == prefix_sum(s, i) + s[i],
        prefix_sum(s, i + 1) <= sum(s),
{
    assert(s.take(i + 1).drop_last() =~= s.take(i));
    lemma_sum_split(s, i + 1, i + 1);
    assert(s.subrange(0, i + 1) =~= s.take(i + 1));
}

/// Extending a window by one entry adds that entry to its sum.
pub proof fn lemma_window_next(s: Seq<usize>, a: int, b: int)
    requires
        0 <= a <= b < s.len(),
    ensures
        sum(s.subrange(a, b + 1)) == sum(s.subrange(a, b)) + s[b],
        sum(s.subrange(a, b + 1)) <= sum(s),
{
    assert(s.subrange(a, b + 1).drop_last() =~= s.subrange(a, b));
    lemma_sum_split(s, a, b + 1);
}

/// Unfolds `repeated` on the first `k + 1` entries.
pub proof fn lemma_repeated_next(counts: Seq<usize>, values: Seq<usize>, k: int)
    requires
        0 <= k < counts.len(),
        counts.len() == values.len(),
    ensures
        repeated(counts.take(k + 1), values.take(k + 1)) == repeated(counts.take(k), values.take(k))
            + Seq::new(counts[k] as nat, |_j: int| values[k]),
{
    assert(counts.take(k + 1).drop_last() =~= counts.take(k));
    assert(values.take(k + 1).drop_last() =~= values.take(k));
    assert(Seq::new(counts[k] as nat, |_j: int| values[k]) =~= Seq::new(
        counts.take(k + 1).last() as nat,
        |_j: int| values.take(k + 1).last(),
    ));
}

/// An entry of a sequence of naturals is at most its sum.
pub proof fn lemma_entry_le_sum(s: Seq<usize>, i: int)
    requires
        0 <= i < s.len(),
    ensures
        s[i] <= sum(s),
{
    lemma_sum_split(s, i, i + 1);
    assert(s.subrange(i, i + 1).drop_last() =~= Seq::<usize>::empty());
}

impl VecArray<usize> {
    /// An entry-for-entry copy.
    pub fn duplicate(&self) -> (r: Self)
        ensures
            r@ == self@,
    {
        let mut out: Vec<usize> = Vec::with_capacity(self.0.len());
        let mut i: usize = 0;
        while i < self.0.len()
            invariant
                i <= self@.len(),
                out@ == self@.take(i as int),
            decreases self@.len() - i,
        {
            out.push(self.0[i]);
            i = i + 1;
            assert(out@ =~= self@.take(i as int));
        }
        assert(self@.take(self@.len() as int) =~= self@);
        VecArray(out)
    }

    /// The entries of `self` followed by those of `other`.
    pub fn concat(&self, other: &Self) -> (r: Self)
        ensures
            r@ == self@ + other@,
    {
        let mut out = self.duplicate();
        let mut j: usize = 0;
        while j < other.0.len()
            invariant
                j <= other@.len(),
                out@ == self@ + other@.take(j as int),
            decreases other@.len() - j,
        {
            out.0.push(other.0[j]);
            j = j + 1;
            assert(out@ =~= self@ + other@.take(j as int));
        }
        assert(other@.take(other@.len() as int) =~= other@);
        out
    }

    /// `c` added to every entry.
    pub fn add_scalar(&self, c: usize) -> (r: Self)
        requires
            forall|i: int| 0 <= i < self@.len() ==> #[trigger] self@[i] + c <= usize::MAX,
        ensures
            r@.len() == self@.len(),
            forall|i: int| 0 <= i < self@.len() ==> #[trigger] r@[i] == self@[i] + c,
    {
        let mut out: Vec<usize> = Vec::with_capacity(self.0.len());
        let mut i: usize = 0;
        while i < self.0.len()
            invariant
                i <= self@.len(),
                out@.len() == i,
                forall|i: int| 0 <= i < self@.len() ==> #[trigger] self@[i] + c <= usize::MAX,
                forall|j: int| 0 <= j < i ==> #[trigger] out@[j] == self@[j] + c,
            decreases self@.len() - i,
        {
            out.push(self.0[i] + c);
            i = i + 1;
        }
        VecArray(out)
    }

    /// Pointwise sum of two arrays of equal length.
    pub fn add(&self, rhs: &Self) -> (r: Self)
        requires
            self@.len() == rhs@.len(),
            forall|i: int| 0 <= i < self@.len() ==> #[trigger] self@[i] + rhs@[i] <= usize::MAX,
        ensures
            r@.len() == self@.len(),
            forall|i: int| 0 <= i < self@.len() ==> #[trigger] r@[i] == self@[i] + rhs@[i],
    {
        let mut out: Vec<usize> = Vec::with_capacity(self.0.len());
        let mut i: usize = 0;
        while i < self.0.len()
            invariant
                i <= self@.len(),
                self@.len() == rhs@.len(),
                out@.len() == i,
                forall|i: int| 0 <= i < self@.len() ==> #[trigger] self@[i] + rhs@[i] <= usize::MAX,
                forall|j: int| 0 <= j < i ==> #[trigger] out@[j] == self@[j] + rhs@[j],
            decreases self@.len() - i,
        {
            out.push(self.0[i] + rhs.0[i]);
            i = i + 1;
        }
        VecArray(out)
    }

    /// Pointwise difference of two arrays of equal length.
    pub fn sub(&self, rhs: &Self) -> (r: Self)
        requires
            self@.len() == rhs@.len(),
            forall|i: int| 0 <= i < self@.len() ==> #[trigger] rhs@[i] <= self@[i],
        ensures
            r@.len() == self@.len(),
            forall|i: int| 0 <= i < self@.len() ==> #[trigger] r@[i] == self@[i] - rhs@[i],
    {
        let mut out: Vec<usize> = Vec::with_capacity(self.0.len());
        let mut i: usize = 0;
        while i < self.0.len()
            invariant
                i <= self@.len(),
                self@.len() == rhs@.len(),
                out@.len() == i,
                forall|i: int| 0 <= i < self@.len() ==> #[trigger] rhs@[i] <= self@[i],
                forall|j: int| 0 <= j < i ==> #[trigger] out@[j] == self@[j] - rhs@[j],
            decreases self@.len() - i,
        {
            out.push(self.0[i] - rhs.0[i]);
            i = i + 1;
        }
        VecArray(out)
    }

    /// The largest entry, or `None` for an empty array.
    pub fn max(&self) -> (r: Option<usize>)
        ensures
            r is None <==> self@.len() == 0,
            r matches Some(m) ==> self@.contains(m) && forall|i: int|
                0 <= i < self@.len() ==> #[trigger] self@[i] <= m,
    {
        if self.0.len() == 0 {
            return None;
        }
        let mut m: usize = self.0[0];
        let mut w: usize = 0;
        let mut i: usize = 1;
        while i < self.0.len()
            invariant
                1 <= i <= self@.len(),
                w < self@.len(),
                self@[w as int] == m,
                forall|j: int| 0 <= j < i ==> #[trigger] self@[j] <= m,
            decreases self@.len() - i,
        {
            if self.0[i] > m {
                m = self.0[i];
                w = i;
            }
            i = i + 1;
        }
        Some(m)
    }

    /// Pointwise quotient and remainder by `d`.
    pub fn quot_rem(&self, d: usize) -> (r: (Self, Self))
        requires
            d != 0,
        ensures
            r.0@.len() == self@.len(),
            r.1@.len() == self@.len(),
            forall|i: int| 0 <= i < self@.len() ==> #[trigger] r.0@[i] == self@[i] / d,
            forall|i: int| 0 <= i < self@.len() ==> #[trigger] r.1@[i] == self@[i] % d,
    {
        let mut q: Vec<usize> = Vec::with_capacity(self.0.len());
        let mut m: Vec<usize> = Vec::with_capacity(self.0.len());
        let mut i: usize = 0;
        while i < self.0.len()
            invariant
                d != 0,
                i <= self@.len(),
                q@.len() == i,
                m@.len() == i,
                forall|j: int| 0 <= j < i ==> #[trigger] q@[j] == self@[j] / d,
                forall|j: int| 0 <= j < i ==> #[trigger] m@[j] == self@[j] % d,
            decreases self@.len() - i,
        {
            let x = self.0[i];
            q.push(x / d);
            m.push(x % d);
            i = i + 1;
        }
        (VecArray(q), VecArray(m))
    }

    /// Pointwise `self[i] * c + x[i]`.
    pub fn mul_constant_add(&self, c: usize, x: &Self) -> (r: Self)
        requires
            self@.len() == x@.len(),
            forall|i: int| 0 <= i < self@.len() ==> #[trigger] self@[i] * c + x@[i] <= usize::MAX,
        ensures
            r@.len() == self@.len(),
            forall|i: int| 0 <= i < self@.len() ==> #[trigger] r@[i] == self@[i] * c + x@[i],
    {
        let mut out: Vec<usize> = Vec::with_capacity(self.0.len());
        let mut i: usize = 0;
        while i < self.0.len()
            invariant
                i <= self@.len(),
                self@.len() == x@.len(),
                out@.len() == i,
                forall|i: int| 0 <= i < self@.len() ==> #[trigger] self@[i] * c + x@[i] <= usize::MAX,
                forall|j: int| 0 <= j < i ==> #[trigger] out@[j] == self@[j] * c + x@[j],
            decreases self@.len() - i,
        {
            let s = self.0[i];
            let y = x.0[i];
            assert(s * c + y <= usize::MAX);
            assert(s * c <= usize::MAX) by (nonlinear_arith)
                requires
                    s * c + y <= usize::MAX,
                    y >= 0,
            ;
            out.push(s * c + y);
            i = i + 1;
        }
        VecArray(out)
    }

    /// The sum of all entries, or `None` where it does not fit in a `usize`.
    pub fn checked_sum(&self) -> (r: Option<usize>)
        ensures
            r == (if sum(self@) <= usize::MAX {
                Some(sum(self@) as usize)
            } else {
                None::<usize>
            }),
    {
        let mut acc: usize = 0;
        let mut i: usize = 0;
        while i < self.0.len()
            invariant
                i <= self@.len(),
                acc == prefix_sum(self@, i as int),
            decreases self@.len() - i,
        {
            proof {
                lemma_prefix_sum_next(self@, i as int);
            }
            match acc.checked_add(self.0[i]) {
                Some(a) => {
                    acc = a;
                },
                None => {
                    return None;
                },
            }
            i = i + 1;
        }
        assert(self@.take(self@.len() as int) =~= self@);
        Some(acc)
    }

    /// Prefix sums: entry `i` is the sum of the first `i` entries, and one more entry holds
    /// the total.
    pub fn cumulative_sum(&self) -> (r: Self)
        requires
            sum(self@) <= usize::MAX,
        ensures
            r@.len() == self@.len() + 1,
            forall|i: int| 0 <= i <= self@.len() ==> #[trigger] r@[i] == prefix_sum(self@, i),
            r@[self@.len() as int] == sum(self@),
    {
        let mut v: Vec<usize> = Vec::with_capacity(self.0.len());
        let mut a: usize = 0;
        let mut i: usize = 0;
        while i < self.0.len()
            invariant
                i <= self@.len(),
                sum(self@) <= usize::MAX,
                a == prefix_sum(self@, i as int),
                v@.len() == i,
                forall|j: int| 0 <= j < i ==> #[trigger] v@[j] == prefix_sum(self@, j),
            decreases self@.len() - i,
        {
            proof {
                lemma_prefix_sum_next(self@, i as int);
            }
            v.push(a);
            a = a + self.0[i];
            i = i + 1;
        }
        v.push(a);
        assert(self@.take(self@.len() as int) =~= self@);
        VecArray(v)
    }

    /// The integers from `start` up to, not including, `stop`.
    pub fn arange(start: usize, stop: usize) -> (r: Self)
        requires
            start <= stop,
        ensures
            r@.len() == stop - start,
            forall|i: int| 0 <= i < stop - start ==> #[trigger] r@[i] == start + i,
    {
        let n = stop - start;
        let mut v: Vec<usize> = Vec::with_capacity(n);
        let mut i: usize = 0;
        while i < n
            invariant
                n == stop - start,
                i <= n,
                v@.len() == i,
                forall|j: int| 0 <= j < i ==> #[trigger] v@[j] == start + j,
            decreases n - i,
        {
            v.push(start + i);
            i = i + 1;
        }
        VecArray(v)
    }

    /// Each `x[k]` repeated `self[k]` times, in order.
    pub fn repeat(&self, x: &[usize]) -> (r: Self)
        requires
            self@.len() == x@.len(),
        ensures
            r@ == repeated(self@, x@),
    {
        let mut v: Vec<usize> = Vec::new();
        let mut k: usize = 0;
        while k < self.0.len()
            invariant
                k <= self@.len(),
                self@.len() == x@.len(),
                v@ == repeated(self@.take(k as int), x@.take(k as int)),
            decreases self@.len() - k,
        {
            let n = self.0[k];
            let xk = x[k];
            let ghost before = v@;
            let mut j: usize = 0;
            while j < n
                invariant
                    j <= n,
                    v@ == before + Seq::new(j as nat, |_i: int| xk),
                decreases n - j,
            {
                v.push(xk);
                j = j + 1;
                assert(v@ =~= before + Seq::new(j as nat, |_i: int| xk));
            }
            proof {
                lemma_repeated_next(self@, x@, k as int);
                assert(Seq::new(n as nat, |_i: int| xk) =~= Seq::new(
                    self@[k as int] as nat,
                    |_j: int| x@[k as int],
                ));
            }
            k = k + 1;
        }
        assert(self@.take(self@.len() as int) =~= self@);
        assert(x@.take(x@.len() as int) =~= x@);
        VecArray(v)
    }

    /// Reading `self` as segment sizes that cut `x` into consecutive pieces, the sum of each
    /// piece.
    pub fn segmented_sum(&self, x: &Self) -> (r: Self)
        requires
            sum(self@) == x@.len(),
            sum(x@) <= usize::MAX,
        ensures
            r@.len() == self@.len(),
            forall|i: int|
                0 <= i < self@.len() ==> #[trigger] r@[i] == sum(
                    x@.subrange(prefix_sum(self@, i) as int, prefix_sum(self@, i + 1) as int),
                ),
            sum(r@) == sum(x@),
    {
        let mut out: Vec<usize> = Vec::with_capacity(self.0.len());
        let xn = x.0.len();
        let mut p: usize = 0;
        let mut i: usize = 0;
        while i < self.0.len()
            invariant
                xn == x@.len(),
                i <= self@.len(),
                sum(self@) == x@.len(),
                sum(x@) <= usize::MAX,
                p == prefix_sum(self@, i as int),
                sum(out@) == prefix_sum(x@, p as int),
                out@.len() == i,
                forall|k: int|
                    0 <= k < i ==> #[trigger] out@[k] == sum(
                        x@.subrange(prefix_sum(self@, k) as int, prefix_sum(self@, k + 1) as int),
                    ),
            decreases self@.len() - i,
        {
            proof {
                lemma_prefix_sum_next(self@, i as int);
            }
            let n = self.0[i];
            let mut acc: usize = 0;
            let mut j: usize = 0;
            while j < n
                invariant
                    j <= n,
                    xn == x@.len(),
                    p + n <= x@.len(),
                    sum(x@) <= usize::MAX,
                    acc == sum(x@.subrange(p as int, p + j)),
                decreases n - j,
            {
                proof {
                    lemma_window_next(x@, p as int, p + j);
                }
                acc = acc + x.0[p + j];
                j = j + 1;
            }
            proof {
                lemma_sum_push(out@, acc);
                lemma_sum_concat(x@.take(p as int), x@.subrange(p as int, p + n));
                assert(x@.take(p as int) + x@.subrange(p as int, p + n) =~= x@.take(p + n));
            }
            out.push(acc);
            p = p + n;
            i = i + 1;
        }
        assert(self@.take(self@.len() as int) =~= self@);
        assert(x@.take(x@.len() as int) =~= x@);
        VecArray(out)
    }
}

} // verus!
