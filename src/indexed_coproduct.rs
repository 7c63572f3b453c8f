//! Indexed coproducts: a list of lists stored as segment sizes and one flat payload.
use crate::array::{
    VecArray, lemma_entry_le_sum, lemma_sum_concat, lemma_sum_push, prefix_sum, sum,
};
use crate::finite_function::FiniteFunction;
use crate::semifinite::SemifiniteFunction;
use vstd::prelude::*;

verus! {

/// Values with a length: what the payload of an [`IndexedCoproduct`] must offer.
pub trait HasLen {
    spec fn spec_len(&self) -> nat;

    fn len(&self) -> (r: usize)
        ensures
            r == self.spec_len(),
    ;

    fn is_empty(&self) -> (r: bool)
        ensures
            r == (self.spec_len() == 0),
    {
        self.len() == 0
    }
}

impl HasLen for FiniteFunction {
    open spec fn spec_len(&self) -> nat {
        self.table@.len()
    }

    fn len(&self) -> (r: usize) {
        self.source()
    }
}

impl<T> HasLen for SemifiniteFunction<T> {
    open spec fn spec_len(&self) -> nat {
        self.0@.len()
    }

    fn len(&self) -> (r: usize) {
        self.0.0.len()
    }
}

/// A finite coproduct of arrows: segment `i` of the payload has length `sources.table[i]`,
/// and the segments follow each other in `values`.
#[derive(Clone, Debug)]
#[non_exhaustive]
pub struct IndexedCoproduct<F> {
    /// The segment sizes, as a function into `{0..total + 1}`.
    pub sources: FiniteFunction,
    /// The concatenation of all segments.
    pub values: F,
}

/// Every entry of a table is below its sum plus one.
proof fn lemma_sizes_wf(f: FiniteFunction)
    requires
        f.target == sum(f.table@) + 1,
    ensures
        f.wf(),
{
    assert forall|i: int| 0 <= i < f.table@.len() implies #[trigger] f.table@[i] < f.target by {
        lemma_entry_le_sum(f.table@, i);
    }
}

impl<F: HasLen> IndexedCoproduct<F> {
    /// The segment sizes add up to the payload length, and the target of `sources` is that
    /// total plus one.
    pub open spec fn wf(&self) -> bool {
        &&& sum(self.sources.table@) == self.values.spec_len()
        &&& self.sources.target == sum(self.sources.table@) + 1
    }

    /// The coproduct with these segment sizes and payload, where the declared target of
    /// `sources` is their sum plus one and that sum is the payload length.
    pub fn new(sources: FiniteFunction, values: F) -> (r: Option<Self>)
        requires
            values.spec_len() < usize::MAX,
        ensures
            r is Some <==> sum(sources.table@) == values.spec_len() && sources.target == sum(
                sources.table@,
            ) + 1,
            r matches Some(c) ==> c.wf() && c.sources.table@ == sources.table@ && c.sources.target
                == sources.target && c.values == values,
    {
        let target = sources.target;
        match Self::from_semifinite(SemifiniteFunction(sources.table), values) {
            None => None,
            Some(result) => {
                if result.sources.target != target {
                    None
                } else {
                    Some(result)
                }
            },
        }
    }

    /// The coproduct with these segment sizes and payload, if the sizes add up to the
    /// payload length.
    pub fn from_semifinite(sources: SemifiniteFunction<usize>, values: F) -> (r: Option<Self>)
        requires
            values.spec_len() < usize::MAX,
        ensures
            r is Some <==> sum(sources.0@) == values.spec_len(),
            r matches Some(c) ==> c.wf() && c.sources.wf() && c.sources.table@ == sources.0@
                && c.sources.target == sum(sources.0@) + 1 && c.values == values,
    {
        let total = match sources.0.checked_sum() {
            None => {
                return None;
            },
            Some(t) => t,
        };
        if total != values.len() {
            return None;
        }
        let sizes = FiniteFunction { table: sources.0, target: total + 1 };
        proof {
            lemma_sizes_wf(sizes);
        }
        Some(IndexedCoproduct { sources: sizes, values })
    }

    /// `values` cut into segments of length one each.
    pub fn singleton(values: F) -> (r: Self)
        requires
            values.spec_len() < usize::MAX,
        ensures
            r.wf(),
            r.sources.wf(),
            r.sources.table@ == Seq::new(values.spec_len(), |_i: int| 1usize),
            r.values == values,
    {
        let n = values.len();
        let mut ones: Vec<usize> = Vec::with_capacity(n);
        let mut i: usize = 0;
        while i < n
            invariant
                i <= n,
                ones@ == Seq::new(i as nat, |_i: int| 1usize),
                sum(ones@) == i,
            decreases n - i,
        {
            proof {
                lemma_sum_push(ones@, 1);
            }
            ones.push(1);
            i = i + 1;
            assert(ones@ =~= Seq::new(i as nat, |_i: int| 1usize));
        }
        let sizes = FiniteFunction { table: VecArray(ones), target: n + 1 };
        proof {
            lemma_sizes_wf(sizes);
        }
        IndexedCoproduct { sources: sizes, values }
    }

    /// The number of segments.
    pub fn len(&self) -> (r: usize)
        ensures
            r == self.sources.table@.len(),
    {
        self.sources.source()
    }
}

impl<F: HasLen + Clone> IndexedCoproduct<F> {
    /// Composition of lists of lists: `self` lists indices of `other`'s segments, and the
    /// result gives each segment of `self` the concatenation of the segments of `other` it
    /// lists.
    pub fn flatmap(&self, other: &IndexedCoproduct<F>) -> (r: IndexedCoproduct<F>)
        requires
            self.wf(),
            other.wf(),
            self.values.spec_len() == other.sources.table@.len(),
        ensures
            r.sources.table@.len() == self.sources.table@.len(),
            forall|i: int|
                0 <= i < self.sources.table@.len() ==> #[trigger] r.sources.table@[i] == sum(
                    other.sources.table@.subrange(
                        prefix_sum(self.sources.table@, i) as int,
                        prefix_sum(self.sources.table@, i + 1) as int,
                    ),
                ),
            sum(r.sources.table@) == sum(other.sources.table@),
            r.sources.target == other.sources.target,
            r.sources.wf(),
            cloned(other.values, r.values),
            r.values.spec_len() == other.values.spec_len() ==> r.wf(),
    {
        let table = self.sources.table.segmented_sum(&other.sources.table);
        let sources = FiniteFunction { table, target: other.sources.target };
        proof {
            lemma_sizes_wf(sources);
        }
        let values = other.values.clone();
        IndexedCoproduct { sources, values }
    }
}

impl<F> HasLen for IndexedCoproduct<F> {
    open spec fn spec_len(&self) -> nat {
        self.sources.table@.len()
    }

    fn len(&self) -> (r: usize) {
        self.sources.source()
    }
}

impl IndexedCoproduct<FiniteFunction> {
    /// The coproduct with no segments, whose empty payload maps into `{0..target}`.
    pub fn initial(target: usize) -> (r: Self)
        ensures
            r.wf(),
            r.values.wf(),
            r.sources.table@.len() == 0,
            r.values.table@.len() == 0,
            r.values.target == target,
    {
        let sources = FiniteFunction::initial(1);
        let values = FiniteFunction::initial(target);
        IndexedCoproduct { sources, values }
    }

    /// Direct sum: the segments of `self`, then those of `other`, whose payload values move
    /// past the end of the target of `self`'s payload.
    pub fn tensor(&self, other: &IndexedCoproduct<FiniteFunction>) -> (r: IndexedCoproduct<
        FiniteFunction,
    >)
        requires
            self.wf(),
            other.wf(),
            self.values.wf(),
            other.values.wf(),
            self.sources.target + other.sources.target <= usize::MAX,
            self.values.target + other.values.target <= usize::MAX,
        ensures
            r.wf(),
            r.values.wf(),
            r.sources.table@ == self.sources.table@ + other.sources.table@,
            r.sources.target == self.sources.target + other.sources.target - 1,
            r.values.target == self.values.target + other.values.target,
            r.values.table@.len() == self.values.table@.len() + other.values.table@.len(),
            forall|i: int|
                0 <= i < self.values.table@.len() ==> #[trigger] r.values.table@[i]
                    == self.values.table@[i],
            forall|i: int|
                0 <= i < other.values.table@.len() ==> #[trigger] r.values.table@[self.values.table@.len() + i]
                    == other.values.table@[i] + self.values.target,
    {
        let table = self.sources.table.concat(&other.sources.table);
        proof {
            lemma_sum_concat(self.sources.table@, other.sources.table@);
        }
        let target = (self.sources.target + other.sources.target) - 1;
        IndexedCoproduct {
            sources: FiniteFunction { table, target },
            values: self.values.coproduct(&other.values),
        }
    }

    /// Reserved: evaluating the payload at an external index mapping is not defined, so no
    /// result is ever given.
    pub fn indexed_values(&self, _x: &FiniteFunction) -> (r: Option<FiniteFunction>)
        ensures
            r is None,
    {
        None
    }

    /// The same segments with the payload `x` applied after it, if the domain of `x` is the
    /// target of the payload.
    pub fn map_values(&self, x: &FiniteFunction) -> (r: Option<Self>)
        requires
            self.values.wf(),
        ensures
            r is Some <==> x.table@.len() == self.values.target,
            r matches Some(c) ==> {
                &&& c.sources.table@ == self.sources.table@
                &&& c.sources.target == self.sources.target
                &&& c.values.target == x.target
                &&& c.values.table@.len() == self.values.table@.len()
                &&& forall|i: int|
                    0 <= i < self.values.table@.len() ==> #[trigger] c.values.table@[i]
                        == x.table@[self.values.table@[i] as int]
                &&& (self.wf() ==> c.wf())
                &&& (x.wf() ==> c.values.wf())
            },
    {
        match self.values.compose(x) {
            None => None,
            Some(values) => {
                let sources = FiniteFunction {
                    table: self.sources.table.duplicate(),
                    target: self.sources.target,
                };
                Some(IndexedCoproduct { sources, values })
            },
        }
    }

    /// Reserved: reindexing the segments is not defined, so no result is ever given.
    pub fn map_indexes(&self, _x: &FiniteFunction) -> (r: Option<Self>)
        ensures
            r is None,
    {
        None
    }
}

} // verus!
