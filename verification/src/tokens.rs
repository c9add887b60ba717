//! Cost models for the token types the comparators use: plain activity
//! labels (control flow) and activity labels annotated with a service-time
//! bin index (timed behavior).

use vstd::prelude::*;

use crate::distance::LevenshteinDistance;

verus! {

/// Unit-cost (0/1) Levenshtein over single characters.
impl LevenshteinDistance for char {
    open spec fn wf(&self) -> bool {
        true
    }

    open spec fn token_eq(&self, other: &char) -> bool {
        self == other
    }

    open spec fn spec_insertion_cost(&self) -> int {
        1
    }

    open spec fn spec_deletion_cost(&self) -> int {
        1
    }

    open spec fn spec_substitution_cost(&self, other: &char) -> int {
        if self == other {
            0
        } else {
            1
        }
    }

    open spec fn spec_scale() -> int {
        1
    }

    open spec fn spec_max_cost() -> int {
        1
    }

    proof fn lemma_cost_bounds(&self, other: &char) {
    }

    proof fn lemma_metric_bounds() {
    }

    fn insertion_cost(&self) -> u64 {
        1
    }

    fn deletion_cost(&self) -> u64 {
        1
    }

    fn substitution_cost(&self, other: &char) -> u64 {
        if *self == *other {
            0
        } else {
            1
        }
    }

    fn eq_token(&self, other: &char) -> bool {
        *self == *other
    }

    fn scale() -> u64 {
        1
    }
}

/// Unit-cost (0/1) Levenshtein over activity labels; two labels are equal
/// when their character sequences are.
impl LevenshteinDistance for String {
    open spec fn wf(&self) -> bool {
        true
    }

    open spec fn token_eq(&self, other: &String) -> bool {
        self@ == other@
    }

    open spec fn spec_insertion_cost(&self) -> int {
        1
    }

    open spec fn spec_deletion_cost(&self) -> int {
        1
    }

    open spec fn spec_substitution_cost(&self, other: &String) -> int {
        if self@ == other@ {
            0
        } else {
            1
        }
    }

    open spec fn spec_scale() -> int {
        1
    }

    open spec fn spec_max_cost() -> int {
        1
    }

    proof fn lemma_cost_bounds(&self, other: &String) {
    }

    proof fn lemma_metric_bounds() {
    }

    fn insertion_cost(&self) -> u64 {
        1
    }

    fn deletion_cost(&self) -> u64 {
        1
    }

    fn substitution_cost(&self, other: &String) -> u64 {
        if *self == *other {
            0
        } else {
            1
        }
    }

    fn eq_token(&self, other: &String) -> bool {
        *self == *other
    }

    fn scale() -> u64 {
        1
    }
}

/// The largest bin index the timed cost model is defined for: three ordered
/// bins, indices 0 through 2. The substitution cost scales the bin distance
/// into [0, 1] by this value.
pub const MAX_BIN_INDEX: usize = 2;

/// Cost model for `(activity, bin)` tokens over the common denominator 4:
///
/// - insertion and deletion cost `(1 + bin) / 2`, so a higher bin is costlier
///   to insert or delete (numerator `2 * (1 + bin)`);
/// - substitution costs `(activity_mismatch + bin_distance / 2) / 2`, a blend
///   of a 0/1 label-mismatch term and the bin distance scaled into [0, 1] by
///   the largest bin index (numerator `2 * mismatch + |bin_1 - bin_2|`).
impl LevenshteinDistance for (String, usize) {
    /// Defined for bins up to the largest bin index.
    open spec fn wf(&self) -> bool {
        self.1 <= MAX_BIN_INDEX
    }

    open spec fn token_eq(&self, other: &(String, usize)) -> bool {
        self.0@ == other.0@ && self.1 == other.1
    }

    open spec fn spec_insertion_cost(&self) -> int {
        2 * (1 + self.1 as int)
    }

    open spec fn spec_deletion_cost(&self) -> int {
        2 * (1 + self.1 as int)
    }

    open spec fn spec_substitution_cost(&self, other: &(String, usize)) -> int {
        (if self.0@ == other.0@ {
            0int
        } else {
            2int
        }) + (if self.1 >= other.1 {
            self.1 - other.1
        } else {
            other.1 - self.1
        })
    }

    open spec fn spec_scale() -> int {
        4
    }

    open spec fn spec_max_cost() -> int {
        6
    }

    proof fn lemma_cost_bounds(&self, other: &(String, usize)) {
    }

    proof fn lemma_metric_bounds() {
    }

    fn insertion_cost(&self) -> u64 {
        2 * (1 + self.1 as u64)
    }

    fn deletion_cost(&self) -> u64 {
        2 * (1 + self.1 as u64)
    }

    fn substitution_cost(&self, other: &(String, usize)) -> u64 {
        let label_cost: u64 = if self.0 == other.0 {
            0
        } else {
            2
        };
        let bin_distance: u64 = if self.1 >= other.1 {
            (self.1 - other.1) as u64
        } else {
            (other.1 - self.1) as u64
        };
        label_cost + bin_distance
    }

    fn eq_token(&self, other: &(String, usize)) -> bool {
        self.0 == other.0 && self.1 == other.1
    }

    fn scale() -> u64 {
        4
    }
}

} // verus!
