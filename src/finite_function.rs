//! Finite functions `{0..n} -> {0..m}` stored as tables, with composition, coproduct and
//! coequalizers.
use crate::array::VecArray;
use vstd::prelude::*;

verus! {

/// `f` gives the same value to both ends of each pair `(s[k], t[k])`.
pub open spec fn respects(f: spec_fn(int) -> int, s: Seq<usize>, t: Seq<usize>) -> bool {
    forall|k: int| #![trigger s[k]] 0 <= k < s.len() ==> f(s[k] as int) == f(t[k] as int)
}

/// `i` and `j` lie in one class of the least equivalence relation that holds every pair
/// `(s[k], t[k])`: every function that agrees on each pair agrees on them.
pub open spec fn related(s: Seq<usize>, t: Seq<usize>, i: int, j: int) -> bool {
    forall|f: spec_fn(int) -> int| #[trigger] respects(f, s, t) ==> f(i) == f(j)
}

pub proof fn lemma_related_sym(s: Seq<usize>, t: Seq<usize>, i: int, j: int)
    requires
        related(s, t, i, j),
    ensures
        related(s, t, j, i),
{
}

pub proof fn lemma_related_trans(s: Seq<usize>, t: Seq<usize>, i: int, j: int, l: int)
    requires
        related(s, t, i, j),
        related(s, t, j, l),
    ensures
        related(s, t, i, l),
{
}

pub proof fn lemma_related_pair(s: Seq<usize>, t: Seq<usize>, k: int)
    requires
        0 <= k < s.len(),
    ensures
        related(s, t, s[k] as int, t[k] as int),
{
    assert forall|f: spec_fn(int) -> int| #[trigger] respects(f, s, t) implies f(s[k] as int) == f(
        t[k] as int,
    ) by {
        assert(s[k] == s[k]);
    }
}

/// Some entry of `q` equals `c`.
pub open spec fn hits(q: Seq<usize>, c: int) -> bool {
    exists|i: int| #![trigger q[i]] 0 <= i < q.len() && q[i] == c
}

/// `q`, a table on `n` points with values below `k`, is the coequalizer of the pairs
/// `(s[m], t[m])`: it identifies each pair, identifies nothing else that the pairs do not
/// force, takes every value below `k`, and numbers the classes in the order of their first
/// element.
pub open spec fn is_coequalizer(s: Seq<usize>, t: Seq<usize>, n: nat, q: Seq<usize>, k: nat) -> bool {
    &&& q.len() == n
    &&& forall|i: int| 0 <= i < n ==> #[trigger] q[i] < k
    &&& forall|c: int| 0 <= c < k ==> #[trigger] hits(q, c)
    &&& forall|m: int| #![trigger s[m]] 0 <= m < s.len() ==> q[s[m] as int] == q[t[m] as int]
    &&& forall|i: int, j: int|
        0 <= i < n && 0 <= j < n ==> (#[trigger] q[i] == #[trigger] q[j] <==> related(s, t, i, j))
    &&& forall|i: int|
        0 <= i < n && #[trigger] q[i] > 0 ==> hits(q.take(i), q[i] - 1)
}

/// A function from `{0..table.len()}` to `{0..target}`.
#[derive(PartialEq, Eq, Clone, Debug)]
pub struct FiniteFunction {
    pub table: VecArray<usize>,
    pub target: usize,
}

impl FiniteFunction {
    /// Every entry of the table is below the target.
    pub open spec fn wf(&self) -> bool {
        forall|i: int| 0 <= i < self.table@.len() ==> #[trigger] self.table@[i] < self.target
    }

    /// The function with this table and target, if every entry is below the target.
    pub fn new(table: VecArray<usize>, target: usize) -> (r: Option<Self>)
        ensures
            r is Some <==> forall|i: int| 0 <= i < table@.len() ==> #[trigger] table@[i] < target,
            r matches Some(f) ==> f.table@ == table@ && f.target == target && f.wf(),
    {
        let mut i: usize = 0;
        while i < table.0.len()
            invariant
                i <= table@.len(),
                forall|j: int| 0 <= j < i ==> #[trigger] table@[j] < target,
            decreases table@.len() - i,
        {
            if table.0[i] >= target {
                return None;
            }
            i = i + 1;
        }
        Some(FiniteFunction { table, target })
    }

    /// The size of the domain.
    pub fn source(&self) -> (r: usize)
        ensures
            r == self.table@.len(),
    {
        self.table.0.len()
    }

    /// The size of the codomain.
    pub fn target(&self) -> (r: usize)
        ensures
            r == self.target,
    {
        self.target
    }

    /// The identity on `{0..n}`.
    pub fn identity(n: usize) -> (r: Self)
        ensures
            r.wf(),
            r.target == n,
            r.table@.len() == n,
            forall|i: int| 0 <= i < n ==> #[trigger] r.table@[i] == i,
    {
        FiniteFunction { table: VecArray::arange(0, n), target: n }
    }

    /// The only function from the empty set to `{0..target}`.
    pub fn initial(target: usize) -> (r: Self)
        ensures
            r.wf(),
            r.target == target,
            r.table@.len() == 0,
    {
        FiniteFunction { table: VecArray(Vec::new()), target }
    }

    /// `self` followed by `other`, where the target of `self` is the domain of `other`.
    pub fn compose(&self, other: &Self) -> (r: Option<Self>)
        requires
            self.wf(),
        ensures
            r is Some <==> self.target == other.table@.len(),
            r matches Some(h) ==> {
                &&& h.target == other.target
                &&& h.table@.len() == self.table@.len()
                &&& forall|i: int|
                    0 <= i < self.table@.len() ==> #[trigger] h.table@[i]
                        == other.table@[self.table@[i] as int]
                &&& (other.wf() ==> h.wf())
            },
    {
        if self.target != other.table.0.len() {
            return None;
        }
        let mut out: Vec<usize> = Vec::with_capacity(self.table.0.len());
        let mut i: usize = 0;
        while i < self.table.0.len()
            invariant
                self.wf(),
                self.target == other.table@.len(),
                i <= self.table@.len(),
                out@.len() == i,
                forall|j: int|
                    0 <= j < i ==> #[trigger] out@[j] == other.table@[self.table@[j] as int],
            decreases self.table@.len() - i,
        {
            let x = self.table.0[i];
            out.push(other.table.0[x]);
            i = i + 1;
        }
        Some(FiniteFunction { table: VecArray(out), target: other.target })
    }

    /// The coproduct `self + other`: `other`'s values move past the end of `self`'s target.
    pub fn coproduct(&self, other: &Self) -> (r: Self)
        requires
            self.wf(),
            other.wf(),
            self.target + other.target <= usize::MAX,
        ensures
            r.wf(),
            r.target == self.target + other.target,
            r.table@.len() == self.table@.len() + other.table@.len(),
            forall|i: int|
                0 <= i < self.table@.len() ==> #[trigger] r.table@[i] == self.table@[i],
            forall|i: int|
                0 <= i < other.table@.len() ==> #[trigger] r.table@[self.table@.len() + i]
                    == other.table@[i] + self.target,
    {
        let mut out: Vec<usize> = Vec::with_capacity(self.table.0.len());
        let mut i: usize = 0;
        while i < self.table.0.len()
            invariant
                i <= self.table@.len(),
                out@.len() == i,
                forall|j: int| 0 <= j < i ==> #[trigger] out@[j] == self.table@[j],
            decreases self.table@.len() - i,
        {
            out.push(self.table.0[i]);
            i = i + 1;
        }
        let mut j: usize = 0;
        while j < other.table.0.len()
            invariant
                self.target + other.target <= usize::MAX,
                j <= other.table@.len(),
                out@.len() == self.table@.len() + j,
                forall|i: int| 0 <= i < self.table@.len() ==> #[trigger] out@[i] == self.table@[i],
                forall|i: int|
                    0 <= i < j ==> #[trigger] out@[self.table@.len() + i] == other.table@[i]
                        + self.target,
                other.wf(),
            decreases other.table@.len() - j,
        {
            let x = other.table.0[j];
            out.push(x + self.target);
            j = j + 1;
        }
        let r = FiniteFunction { table: VecArray(out), target: self.target + other.target };
        assert forall|i: int| 0 <= i < r.table@.len() implies #[trigger] r.table@[i] < r.target by {
            if i >= self.table@.len() {
                let j = i - self.table@.len();
                assert(r.table@[self.table@.len() + j] == other.table@[j] + self.target);
            }
        }
        r
    }

    /// The coequalizer of `self` and `other`, two functions with one domain and one target:
    /// the canonical quotient of the target that identifies `self(x)` with `other(x)` for
    /// every `x` in the domain, and nothing more.
    pub fn coequalizer(&self, other: &Self) -> (r: Option<Self>)
        requires
            self.wf(),
            other.wf(),
        ensures
            r is Some <==> self.table@.len() == other.table@.len() && self.target == other.target,
            r matches Some(q) ==> {
                &&& q.wf()
                &&& is_coequalizer(
                    self.table@,
                    other.table@,
                    self.target as nat,
                    q.table@,
                    q.target as nat,
                )
                &&& (self.table@.len() == 0 ==> q.target == self.target && forall|i: int|
                    0 <= i < self.target ==> #[trigger] q.table@[i] == i)
            },
    {
        if self.table.0.len() != other.table.0.len() || self.target != other.target {
            return None;
        }
        let n = self.target;
        let ghost s = self.table@;
        let ghost t = other.table@;
        // comp[x] is the least element of the class of x found so far
        let mut comp: Vec<usize> = VecArray::arange(0, n).0;
        let mut m: usize = 0;
        while m < self.table.0.len()
            invariant
                s == self.table@,
                t == other.table@,
                s.len() == t.len(),
                self.wf(),
                other.wf(),
                n == self.target,
                n == other.target,
                m <= s.len(),
                comp@.len() == n,
                forall|x: int|
                    0 <= x < n ==> #[trigger] comp@[x] <= x && comp@[comp@[x] as int] == comp@[x],
                forall|x: int| 0 <= x < n ==> related(s, t, x, #[trigger] comp@[x] as int),
                forall|j: int|
                    #![trigger s[j]]
                    0 <= j < m ==> comp@[s[j] as int] == comp@[t[j] as int],
                m == 0 ==> forall|x: int| 0 <= x < n ==> #[trigger] comp@[x] == x,
            decreases s.len() - m,
        {
            let sa = self.table.0[m];
            let tb = other.table.0[m];
            let a = comp[sa];
            let b = comp[tb];
            if a != b {
                let lo = if a < b {
                    a
                } else {
                    b
                };
                let hi = if a < b {
                    b
                } else {
                    a
                };
                let ghost before = comp@;
                let mut x: usize = 0;
                while x < n
                    invariant
                        comp@.len() == n,
                        x <= n,
                        before.len() == n,
                        forall|y: int|
                            0 <= y < x ==> #[trigger] comp@[y] == (if before[y] == hi {
                                lo
                            } else {
                                before[y]
                            }),
                        forall|y: int| x <= y < n ==> #[trigger] comp@[y] == before[y],
                    decreases n - x,
                {
                    if comp[x] == hi {
                        comp.set(x, lo);
                    }
                    x = x + 1;
                }
                proof {
                    assert(before[sa as int] == a);
                    assert(before[tb as int] == b);
                    assert(before[a as int] == a);
                    assert(before[b as int] == b);
                    lemma_related_pair(s, t, m as int);
                    assert(related(s, t, sa as int, a as int));
                    assert(related(s, t, tb as int, b as int));
                    lemma_related_sym(s, t, sa as int, a as int);
                    lemma_related_trans(s, t, a as int, sa as int, tb as int);
                    lemma_related_trans(s, t, a as int, tb as int, b as int);
                    lemma_related_sym(s, t, a as int, b as int);
                    assert(related(s, t, hi as int, lo as int));
                    assert forall|x: int| 0 <= x < n implies #[trigger] comp@[x] <= x
                        && comp@[comp@[x] as int] == comp@[x] by {
                        let c = before[x];
                        assert(before[c as int] == c);
                        if c == hi {
                            assert(comp@[lo as int] == lo);
                        } else {
                            assert(comp@[c as int] == c);
                        }
                    }
                    assert forall|x: int| 0 <= x < n implies related(
                        s,
                        t,
                        x,
                        #[trigger] comp@[x] as int,
                    ) by {
                        let c = before[x];
                        assert(related(s, t, x, c as int));
                        if c == hi {
                            lemma_related_trans(s, t, x, hi as int, lo as int);
                        }
                    }
                    assert forall|j: int| #![trigger s[j]] 0 <= j < m + 1 implies comp@[s[j] as int]
                        == comp@[t[j] as int] by {
                        assert(s[j] < n && t[j] < n);
                        assert(comp@[s[j] as int] == (if before[s[j] as int] == hi {
                            lo
                        } else {
                            before[s[j] as int]
                        }));
                        assert(comp@[t[j] as int] == (if before[t[j] as int] == hi {
                            lo
                        } else {
                            before[t[j] as int]
                        }));
                    }
                }
            }
            m = m + 1;
        }
        // number the classes by their least element
        let mut q: Vec<usize> = Vec::with_capacity(n);
        let mut k: usize = 0;
        let ghost mut last: int = -1;
        let mut x: usize = 0;
        while x < n
            invariant
                s == self.table@,
                t == other.table@,
                s.len() == t.len(),
                self.wf(),
                other.wf(),
                n == self.target,
                comp@.len() == n,
                forall|y: int|
                    0 <= y < n ==> #[trigger] comp@[y] <= y && comp@[comp@[y] as int] == comp@[y],
                forall|y: int| 0 <= y < n ==> related(s, t, y, #[trigger] comp@[y] as int),
                forall|j: int|
                    #![trigger s[j]]
                    0 <= j < s.len() ==> comp@[s[j] as int] == comp@[t[j] as int],
                s.len() == 0 ==> forall|y: int| 0 <= y < n ==> #[trigger] comp@[y] == y,
                x <= n,
                q@.len() == x,
                k <= x,
                forall|y: int| 0 <= y < x ==> #[trigger] q@[y] < k,
                forall|y: int| 0 <= y < x ==> #[trigger] q@[y] == q@[comp@[y] as int],
                forall|y1: int, y2: int|
                    0 <= y1 < y2 < x && comp@[y1] == y1 && comp@[y2] == y2 ==> #[trigger] q@[y1]
                        < #[trigger] q@[y2],
                forall|c: int| 0 <= c < k ==> #[trigger] hits(q@, c),
                forall|y: int| 0 <= y < x && #[trigger] q@[y] > 0 ==> hits(q@.take(y), q@[y] - 1),
                k > 0 ==> 0 <= last < x && q@[last] == k - 1,
                s.len() == 0 ==> k == x && forall|y: int| 0 <= y < x ==> #[trigger] q@[y] == y,
            decreases n - x,
        {
            let ghost q0 = q@;
            let ghost k0 = k;
            let ghost last0 = last;
            let c = comp[x];
            if c == x {
                q.push(k);
                proof {
                    last = x as int;
                }
                k = k + 1;
            } else {
                let v = q[c];
                q.push(v);
            }
            proof {
                assert forall|d: int| 0 <= d < k implies #[trigger] hits(q@, d) by {
                    if d < k0 {
                        assert(hits(q0, d));
                        let i = choose|i: int| #![trigger q0[i]] 0 <= i < q0.len() && q0[i] == d;
                        assert(q@[i] == d);
                    } else {
                        assert(q@[x as int] == d);
                    }
                }
                assert forall|y: int| 0 <= y < x + 1 && #[trigger] q@[y] > 0 implies hits(
                    q@.take(y),
                    q@[y] - 1,
                ) by {
                    if y < x {
                        assert(q@.take(y) =~= q0.take(y));
                    } else if c == x {
                        assert(q@.take(y)[last0] == k0 - 1);
                    } else {
                        assert(q@[y] == q0[c as int]);
                        assert(hits(q0.take(c as int), q0[c as int] - 1));
                        let i = choose|i: int|
                            #![trigger q0.take(c as int)[i]]
                            0 <= i < c && q0.take(c as int)[i] == q0[c as int] - 1;
                        assert(q@.take(y)[i] == q0[c as int] - 1);
                    }
                }
                assert forall|y: int| 0 <= y < x + 1 implies #[trigger] q@[y] == q@[comp@[y] as int] by {
                    if y < x {
                        assert(q0[y] == q0[comp@[y] as int]);
                    }
                }
            }
            x = x + 1;
        }
        let ghost qs = q@;
        proof {
            assert forall|j: int| #![trigger s[j]] 0 <= j < s.len() implies qs[s[j] as int]
                == qs[t[j] as int] by {
                assert(s[j] < n && t[j] < n);
                assert(qs[s[j] as int] == qs[comp@[s[j] as int] as int]);
                assert(qs[t[j] as int] == qs[comp@[t[j] as int] as int]);
            }
            let f = |y: int|
                if 0 <= y < n {
                    qs[y] as int
                } else {
                    0
                };
            assert(respects(f, s, t)) by {
                assert forall|j: int| #![trigger s[j]] 0 <= j < s.len() implies f(s[j] as int) == f(
                    t[j] as int,
                ) by {
                    assert(s[j] < n && t[j] < n);
                }
            }
            assert forall|i: int, j: int| 0 <= i < n && 0 <= j < n implies (#[trigger] qs[i]
                == #[trigger] qs[j] <==> related(s, t, i, j)) by {
                if qs[i] == qs[j] {
                    let ci = comp@[i] as int;
                    let cj = comp@[j] as int;
                    assert(qs[i] == qs[ci]);
                    assert(qs[j] == qs[cj]);
                    assert(comp@[ci] == ci);
                    assert(comp@[cj] == cj);
                    if ci < cj {
                        assert(qs[ci] < qs[cj]);
                    } else if cj < ci {
                        assert(qs[cj] < qs[ci]);
                    }
                    assert(related(s, t, i, ci));
                    assert(related(s, t, j, cj));
                    lemma_related_sym(s, t, j, cj);
                    lemma_related_trans(s, t, i, ci, j);
                }
                if related(s, t, i, j) {
                    assert(f(i) == f(j));
                }
            }
        }
        Some(FiniteFunction { table: VecArray(q), target: k })
    }
}

} // verus!
