//! Counters for judging binary classifications.

use vstd::prelude::*;

verus! {

/// The mathematical content of a confusion matrix: how many classifications
/// were recorded, and how they fall into the four cells.
pub struct ConfusionCounts {
    pub count: nat,
    pub true_positive: nat,
    pub true_negative: nat,
    pub false_positive: nat,
    pub false_negative: nat,
}

impl ConfusionCounts {
    /// No classification recorded yet.
    pub open spec fn zero() -> ConfusionCounts {
        ConfusionCounts {
            count: 0,
            true_positive: 0,
            true_negative: 0,
            false_positive: 0,
            false_negative: 0,
        }
    }

    /// The counts after one more classification: the cell chosen by
    /// (`estimated`, `actual`) and the total both grow by one.
    pub open spec fn record(self, estimated: bool, actual: bool) -> ConfusionCounts {
        ConfusionCounts {
            count: self.count + 1,
            true_positive: if estimated && actual {
                self.true_positive + 1
            } else {
                self.true_positive
            },
            true_negative: if !estimated && !actual {
                self.true_negative + 1
            } else {
                self.true_negative
            },
            false_positive: if estimated && !actual {
                self.false_positive + 1
            } else {
                self.false_positive
            },
            false_negative: if !estimated && actual {
                self.false_negative + 1
            } else {
                self.false_negative
            },
        }
    }

    /// The four cells add up to the total.
    pub open spec fn balanced(self) -> bool {
        self.count == self.true_positive + self.true_negative + self.false_positive
            + self.false_negative
    }
}

/// Tallies the outcomes of binary classifications against the truth.
#[derive(Clone, Copy, Debug)]
pub struct ConfusionMatrix {
    count: u32,
    true_positive: u32,
    true_negative: u32,
    false_positive: u32,
    false_negative: u32,
}

impl View for ConfusionMatrix {
    type V = ConfusionCounts;

    closed spec fn view(&self) -> ConfusionCounts {
        ConfusionCounts {
            count: self.count as nat,
            true_positive: self.true_positive as nat,
            true_negative: self.true_negative as nat,
            false_positive: self.false_positive as nat,
            false_negative: self.false_negative as nat,
        }
    }
}

impl ConfusionMatrix {
    #[verifier::type_invariant]
    spec fn cells_add_up(&self) -> bool {
        self.count == self.true_positive + self.true_negative + self.false_positive
            + self.false_negative
    }

    /// An empty matrix.
    pub fn new() -> (matrix: Self)
        ensures
            matrix@ == ConfusionCounts::zero(),
    {
        ConfusionMatrix {
            count: 0,
            true_positive: 0,
            true_negative: 0,
            false_positive: 0,
            false_negative: 0,
        }
    }

    /// Records one classification: `estimated` is what was predicted,
    /// `actual` is the truth.
    pub fn record(&mut self, estimated: bool, actual: bool)
        requires
            old(self)@.count < u32::MAX,
        ensures
            final(self)@ == old(self)@.record(estimated, actual),
    {
        proof {
            use_type_invariant(&*self);
        }
        let hit: u32 = 1;
        let miss: u32 = 0;
        *self = ConfusionMatrix {
            count: self.count + 1,
            true_positive: self.true_positive + (if estimated && actual {
                hit
            } else {
                miss
            }),
            true_negative: self.true_negative + (if !estimated && !actual {
                hit
            } else {
                miss
            }),
            false_positive: self.false_positive + (if estimated && !actual {
                hit
            } else {
                miss
            }),
            false_negative: self.false_negative + (if !estimated && actual {
                hit
            } else {
                miss
            }),
        };
    }

    /// Forgets everything recorded so far.
    pub fn reset(&mut self)
        ensures
            final(self)@ == ConfusionCounts::zero(),
    {
        *self = ConfusionMatrix::new();
    }

    /// Number of classifications recorded; always the sum of the four cells.
    pub fn count(&self) -> (n: u32)
        ensures
            n == self@.count,
            self@.balanced(),
    {
        proof {
            use_type_invariant(self);
        }
        self.count
    }

    /// Predicted positive, actually positive.
    pub fn true_positive(&self) -> (n: u32)
        ensures
            n == self@.true_positive,
    {
        self.true_positive
    }

    /// Predicted negative, actually negative.
    pub fn true_negative(&self) -> (n: u32)
        ensures
            n == self@.true_negative,
    {
        self.true_negative
    }

    /// Predicted positive, actually negative.
    pub fn false_positive(&self) -> (n: u32)
        ensures
            n == self@.false_positive,
    {
        self.false_positive
    }

    /// Predicted negative, actually positive.
    pub fn false_negative(&self) -> (n: u32)
        ensures
            n == self@.false_negative,
    {
        self.false_negative
    }
}

/// One entry of a set of confusion matrices, as contracts see it: the data
/// column it judges, that column's name if it has one, and the counts.
pub struct ConfusionColumn {
    pub column_index: usize,
    pub name: Option<Seq<char>>,
    pub counts: ConfusionCounts,
}

/// One confusion matrix per output of a network, each tied to the data
/// column that holds the expected value.
pub struct ConfusionMatrices {
    matrices: Vec<(usize, Option<String>, ConfusionMatrix)>,
}

impl View for ConfusionMatrices {
    type V = Seq<ConfusionColumn>;

    closed spec fn view(&self) -> Seq<ConfusionColumn> {
        Seq::new(
            self.matrices@.len(),
            |i: int|
                ConfusionColumn {
                    column_index: self.matrices@[i].0,
                    name: match self.matrices@[i].1 {
                        Some(name) => Some(name@),
                        None => None,
                    },
                    counts: self.matrices@[i].2@,
                },
        )
    }
}

/// `str::eq` of the standard library: two string slices are equal exactly
/// when they hold the same characters.
#[verifier::external_body]
fn str_eq(a: &str, b: &str) -> (same: bool)
    ensures
        same == (a@ == b@),
{
    a == b
}

impl ConfusionMatrices {
    /// Position of the first entry for data column `column_index`, or the
    /// number of entries when there is none.
    pub open spec fn position_of_index(columns: Seq<ConfusionColumn>, column_index: usize) -> int
        decreases columns.len(),
    {
        if columns.len() == 0 {
            0
        } else if columns[0].column_index == column_index {
            0
        } else {
            1 + Self::position_of_index(columns.drop_first(), column_index)
        }
    }

    /// Position of the first entry named `name`, or the number of entries
    /// when there is none.
    pub open spec fn position_of_name(columns: Seq<ConfusionColumn>, name: Seq<char>) -> int
        decreases columns.len(),
    {
        if columns.len() == 0 {
            0
        } else if columns[0].name == Some(name) {
            0
        } else {
            1 + Self::position_of_name(columns.drop_first(), name)
        }
    }

    /// A set without entries.
    pub fn new() -> (matrices: Self)
        ensures
            matrices@.len() == 0,
    {
        ConfusionMatrices { matrices: Vec::new() }
    }

    /// Appends an empty matrix for data column `column_index`.
    pub fn add_column(&mut self, column_index: usize, name: Option<String>)
        ensures
            final(self)@ == old(self)@.push(
                ConfusionColumn {
                    column_index,
                    name: match name {
                        Some(name) => Some(name@),
                        None => None,
                    },
                    counts: ConfusionCounts::zero(),
                },
            ),
    {
        self.matrices.push((column_index, name, ConfusionMatrix::new()));
        assert(self@ =~= old(self)@.push(
            ConfusionColumn {
                column_index,
                name: match name {
                    Some(name) => Some(name@),
                    None => None,
                },
                counts: ConfusionCounts::zero(),
            },
        ));
    }

    /// Number of entries.
    pub fn len(&self) -> (n: usize)
        ensures
            n == self@.len(),
    {
        self.matrices.len()
    }

    /// Records one classification in the matrix at position `output_index`;
    /// every other entry stays as it is.
    pub fn record_for_output_index(&mut self, output_index: usize, estimated: bool, actual: bool)
        requires
            output_index < old(self)@.len(),
            old(self)@[output_index as int].counts.count < u32::MAX,
        ensures
            final(self)@ == old(self)@.update(
                output_index as int,
                ConfusionColumn {
                    counts: old(self)@[output_index as int].counts.record(estimated, actual),
                    ..old(self)@[output_index as int]
                },
            ),
    {
        self.matrices[output_index].2.record(estimated, actual);
        assert(self@ =~= old(self)@.update(
            output_index as int,
            ConfusionColumn {
                counts: old(self)@[output_index as int].counts.record(estimated, actual),
                ..old(self)@[output_index as int]
            },
        ));
    }

    /// A copy of the first matrix that judges data column `column_index`.
    pub fn get_for_column_index(&self, column_index: usize) -> (found: Option<ConfusionMatrix>)
        ensures
            match found {
                Some(matrix) => {
                    let at = Self::position_of_index(self@, column_index);
                    at < self@.len() && matrix@ == self@[at].counts
                },
                None => Self::position_of_index(self@, column_index) == self@.len(),
            },
    {
        let mut k: usize = 0;
        assert(self@.skip(0) =~= self@);
        while k < self.matrices.len()
            invariant
                k <= self@.len(),
                self@.len() == self.matrices@.len(),
                Self::position_of_index(self@, column_index) == k + Self::position_of_index(
                    self@.skip(k as int),
                    column_index,
                ),
            decreases self@.len() - k,
        {
            proof {
                let rest = self@.skip(k as int);
                assert(rest[0] == self@[k as int]);
                assert(rest.drop_first() =~= self@.skip(k + 1));
            }
            if self.matrices[k].0 == column_index {
                return Some(self.matrices[k].2);
            }
            k += 1;
        }
        None
    }

    /// A copy of the first matrix whose data column is named `column_name`.
    pub fn get_for_column_name(&self, column_name: &str) -> (found: Option<ConfusionMatrix>)
        ensures
            match found {
                Some(matrix) => {
                    let at = Self::position_of_name(self@, column_name@);
                    at < self@.len() && matrix@ == self@[at].counts
                },
                None => Self::position_of_name(self@, column_name@) == self@.len(),
            },
    {
        let mut k: usize = 0;
        assert(self@.skip(0) =~= self@);
        while k < self.matrices.len()
            invariant
                k <= self@.len(),
                self@.len() == self.matrices@.len(),
                Self::position_of_name(self@, column_name@) == k + Self::position_of_name(
                    self@.skip(k as int),
                    column_name@,
                ),
            decreases self@.len() - k,
        {
            proof {
                let rest = self@.skip(k as int);
                assert(rest[0] == self@[k as int]);
                assert(rest.drop_first() =~= self@.skip(k + 1));
            }
            if let Some(name) = &self.matrices[k].1 {
                if str_eq(name.as_str(), column_name) {
                    return Some(self.matrices[k].2);
                }
            }
            k += 1;
        }
        None
    }
}

} // verus!
