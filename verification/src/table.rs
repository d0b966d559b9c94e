//! Cross-section tables and their truncation at an energy threshold.

use crate::binary64::{less_than, spec_less_than, INFINITY};
use vstd::prelude::*;

verus! {

/// One tabulated point: an electron energy and the cross-section weight at it.
#[derive(Clone, Copy, Debug, PartialEq, Eq, Structural)]
pub struct Sample {
    pub energy: u64,
    pub weight: u64,
}

/// Why two columns do not form a table.
#[derive(Clone, Copy, Debug, PartialEq, Eq, Structural)]
pub enum TableError {
    /// The columns differ in length.
    LengthMismatch,
    /// The energy at `index` is negative, infinite or a NaN.
    InvalidEnergy { index: usize },
    /// The weight at `index` is negative, infinite or a NaN.
    InvalidWeight { index: usize },
    /// The energy at `index` does not exceed the one before it.
    NotAscending { index: usize },
}

/// A finite number that is not negative, with the sign bit clear. Among such
/// values the order of the numbers is the order of their bit patterns.
pub open spec fn is_quantity(bits: u64) -> bool {
    bits < INFINITY
}

/// The invariant of a table: quantities throughout, energies strictly
/// ascending.
pub open spec fn is_table(samples: Seq<Sample>) -> bool {
    &&& forall|i: int|
        0 <= i < samples.len() ==> is_quantity(#[trigger] samples[i].energy) && is_quantity(
            samples[i].weight,
        )
    &&& forall|i: int, j: int|
        0 <= i < j < samples.len() ==> #[trigger] samples[i].energy < #[trigger] samples[j].energy
}

/// The samples that two columns of equal length spell out.
pub open spec fn paired(energies: Seq<u64>, weights: Seq<u64>) -> Seq<Sample> {
    Seq::new(energies.len(), |i: int| Sample { energy: energies[i], weight: weights[i] })
}

/// What is wrong with row `i` of two columns, if anything: its energy is
/// looked at first, then its weight, then the step from the row before.
pub open spec fn fault_at(energies: Seq<u64>, weights: Seq<u64>, i: int) -> Option<TableError> {
    if !is_quantity(energies[i]) {
        Some(TableError::InvalidEnergy { index: i as usize })
    } else if !is_quantity(weights[i]) {
        Some(TableError::InvalidWeight { index: i as usize })
    } else if i > 0 && energies[i - 1] >= energies[i] {
        Some(TableError::NotAscending { index: i as usize })
    } else {
        None
    }
}

/// The number of samples whose energy lies below `threshold`.
pub open spec fn visible(samples: Seq<Sample>, threshold: u64) -> nat
    decreases samples.len(),
{
    if samples.len() == 0 {
        0
    } else {
        visible(samples.drop_last(), threshold) + if spec_less_than(
            samples.last().energy,
            threshold,
        ) {
            1nat
        } else {
            0nat
        }
    }
}

/// In a table the samples below a threshold are exactly the first
/// `visible(..)` ones.
pub proof fn lemma_visible_is_prefix(samples: Seq<Sample>, threshold: u64)
    requires
        is_table(samples),
    ensures
        visible(samples, threshold) <= samples.len(),
        forall|i: int|
            0 <= i < samples.len() ==> (spec_less_than(#[trigger] samples[i].energy, threshold) <==> i
                < visible(samples, threshold)),
    decreases samples.len(),
{
    if samples.len() > 0 {
        let front = samples.drop_last();
        lemma_visible_is_prefix(front, threshold);
        let last = samples.len() - 1;
        assert forall|i: int| 0 <= i < samples.len() implies (spec_less_than(
            #[trigger] samples[i].energy,
            threshold,
        ) <==> i < visible(samples, threshold)) by {
            if i < last {
                assert(front[i] == samples[i]);
                assert(samples[i].energy < samples[last].energy);
            }
        }
    }
}

/// Truncation never shrinks as the threshold grows: a higher threshold
/// leaves at least as many samples visible, and so at least as long a table.
pub proof fn lemma_visible_monotone(samples: Seq<Sample>, lower: u64, upper: u64)
    requires
        spec_less_than(lower, upper) || lower == upper,
    ensures
        visible(samples, lower) <= visible(samples, upper) <= samples.len(),
        samples.take(visible(samples, lower) as int).len() <= samples.take(
            visible(samples, upper) as int,
        ).len(),
    decreases samples.len(),
{
    if samples.len() > 0 {
        lemma_visible_monotone(samples.drop_last(), lower, upper);
    }
}

/// A cross-section table: energies and weights paired row by row, so that
/// the two columns cannot differ in length.
#[derive(Debug)]
pub struct CrossSectionTable {
    samples: Vec<Sample>,
}

impl View for CrossSectionTable {
    type V = Seq<Sample>;

    closed spec fn view(&self) -> Seq<Sample> {
        self.samples@
    }
}

impl CrossSectionTable {
    #[verifier::type_invariant]
    spec fn well_formed(self) -> bool {
        is_table(self.samples@)
    }

    /// Builds a table from an energy column and a weight column, or names
    /// the first row that stops them from being one.
    pub fn from_columns(energies: &Vec<u64>, weights: &Vec<u64>) -> (result: Result<
        CrossSectionTable,
        TableError,
    >)
        ensures
            energies@.len() != weights@.len() ==> result == Err::<CrossSectionTable, TableError>(
                TableError::LengthMismatch,
            ),
            energies@.len() == weights@.len() ==> match result {
                Ok(table) => {
                    &&& table@ == paired(energies@, weights@)
                    &&& is_table(table@)
                    &&& forall|i: int|
                        0 <= i < energies@.len() ==> fault_at(energies@, weights@, i).is_none()
                },
                Err(error) => exists|i: int|
                    {
                        &&& 0 <= i < energies@.len()
                        &&& fault_at(energies@, weights@, i) == Some(error)
                        &&& forall|j: int| 0 <= j < i ==> fault_at(energies@, weights@, j).is_none()
                    },
            },
    {
        if energies.len() != weights.len() {
            return Err(TableError::LengthMismatch);
        }
        let n = energies.len();
        let mut samples: Vec<Sample> = Vec::new();
        let mut i: usize = 0;
        while i < n
            invariant
                n == energies@.len(),
                n == weights@.len(),
                i <= n,
                samples@ == paired(energies@, weights@).take(i as int),
                is_table(samples@),
                forall|j: int| 0 <= j < i ==> fault_at(energies@, weights@, j).is_none(),
            decreases n - i,
        {
            let energy = energies[i];
            let weight = weights[i];
            if energy >= INFINITY {
                let error = TableError::InvalidEnergy { index: i };
                assert(fault_at(energies@, weights@, i as int) == Some(error));
                return Err(error);
            }
            if weight >= INFINITY {
                let error = TableError::InvalidWeight { index: i };
                assert(fault_at(energies@, weights@, i as int) == Some(error));
                return Err(error);
            }
            if i > 0 && energies[i - 1] >= energy {
                let error = TableError::NotAscending { index: i };
                assert(fault_at(energies@, weights@, i as int) == Some(error));
                return Err(error);
            }
            assert(fault_at(energies@, weights@, i as int).is_none());
            let ghost before = samples@;
            samples.push(Sample { energy, weight });
            proof {
                assert(samples@ =~= paired(energies@, weights@).take(i + 1));
                assert forall|a: int, b: int| 0 <= a < b < samples@.len() implies (
                #[trigger] samples@[a].energy) < (#[trigger] samples@[b].energy) by {
                    if b == i && a < i - 1 {
                        assert(before[a].energy < before[i - 1].energy);
                    }
                }
            }
            i += 1;
        }
        assert(samples@ =~= paired(energies@, weights@));
        Ok(CrossSectionTable { samples })
    }

    /// The number of samples. The samples of any table meet `is_table`.
    pub fn len(&self) -> (n: usize)
        ensures
            n == self@.len(),
            is_table(self@),
    {
        proof {
            use_type_invariant(self);
        }
        self.samples.len()
    }

    /// The sample in row `index`.
    pub fn sample(&self, index: usize) -> (s: Sample)
        requires
            index < self@.len(),
        ensures
            s == self@[index as int],
    {
        self.samples[index]
    }

    /// The energy column.
    pub fn energies(&self) -> (column: Vec<u64>)
        ensures
            column@ == self@.map_values(|s: Sample| s.energy),
    {
        let mut column: Vec<u64> = Vec::new();
        let n = self.samples.len();
        let mut i: usize = 0;
        while i < n
            invariant
                n == self.samples@.len(),
                i <= n,
                column@ == self.samples@.take(i as int).map_values(|s: Sample| s.energy),
            decreases n - i,
        {
            column.push(self.samples[i].energy);
            assert(column@ =~= self.samples@.take(i + 1).map_values(|s: Sample| s.energy));
            i += 1;
        }
        assert(self.samples@.take(n as int) =~= self.samples@);
        column
    }

    /// The weight column.
    pub fn weights(&self) -> (column: Vec<u64>)
        ensures
            column@ == self@.map_values(|s: Sample| s.weight),
    {
        let mut column: Vec<u64> = Vec::new();
        let n = self.samples.len();
        let mut i: usize = 0;
        while i < n
            invariant
                n == self.samples@.len(),
                i <= n,
                column@ == self.samples@.take(i as int).map_values(|s: Sample| s.weight),
            decreases n - i,
        {
            column.push(self.samples[i].weight);
            assert(column@ =~= self.samples@.take(i + 1).map_values(|s: Sample| s.weight));
            i += 1;
        }
        assert(self.samples@.take(n as int) =~= self.samples@);
        column
    }

    /// A table with the same samples.
    pub fn duplicate(&self) -> (copy: CrossSectionTable)
        ensures
            copy@ == self@,
    {
        proof {
            use_type_invariant(self);
        }
        let copy = self.prefix(self.samples.len());
        assert(self.samples@.take(self.samples@.len() as int) =~= self.samples@);
        copy
    }

    /// The table made of the first `k` samples.
    fn prefix(&self, k: usize) -> (front: CrossSectionTable)
        requires
            k <= self@.len(),
        ensures
            front@ == self@.take(k as int),
    {
        proof {
            use_type_invariant(self);
        }
        let mut samples: Vec<Sample> = Vec::new();
        let mut i: usize = 0;
        while i < k
            invariant
                k <= self.samples@.len(),
                i <= k,
                samples@ == self.samples@.take(i as int),
            decreases k - i,
        {
            samples.push(self.samples[i]);
            assert(samples@ =~= self.samples@.take(i + 1));
            i += 1;
        }
        CrossSectionTable { samples }
    }

    /// The part of the table that a threshold leaves visible: as many
    /// leading samples as there are energies below `threshold`.
    pub fn truncate(&self, threshold: u64) -> (cut: CrossSectionTable)
        ensures
            visible(self@, threshold) <= self@.len(),
            cut@ == self@.take(visible(self@, threshold) as int),
            is_table(cut@),
            forall|i: int| 0 <= i < cut@.len() ==> spec_less_than(#[trigger] cut@[i].energy, threshold),
            forall|i: int|
                cut@.len() <= i < self@.len() ==> !spec_less_than(
                    #[trigger] self@[i].energy,
                    threshold,
                ),
    {
        proof {
            use_type_invariant(self);
            lemma_visible_is_prefix(self@, threshold);
        }
        let n = self.samples.len();
        let mut count: usize = 0;
        let mut i: usize = 0;
        while i < n
            invariant
                n == self.samples@.len(),
                i <= n,
                count <= i,
                count == visible(self.samples@.take(i as int), threshold),
            decreases n - i,
        {
            proof {
                assert(self.samples@.take(i + 1).drop_last() =~= self.samples@.take(i as int));
            }
            if less_than(self.samples[i].energy, threshold) {
                count += 1;
            }
            i += 1;
        }
        assert(self.samples@.take(n as int) =~= self.samples@);
        let cut = self.prefix(count);
        proof {
            use_type_invariant(&cut);
        }
        cut
    }
}

} // verus!
