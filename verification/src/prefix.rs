//! One row of the range-partitioned prefix table.

use crate::wire::PrefixModel;
use vstd::prelude::*;

verus! {

/// One row of the prefix table: a Huffman-style variable-length `code`
/// standing for the unsigned range `[lower, upper]` of raw wire patterns,
/// an optional run-length jumpstart, and the common divisor of the offsets
/// the row encodes.
#[derive(Clone, Debug, PartialEq)]
pub struct Prefix {
    /// Number of samples of the chunk whose unsigned value lies in the range.
    pub count: usize,
    /// The prefix code identifying this row.
    pub code: Vec<bool>,
    /// Raw wire pattern of the lower bound.
    pub lower: u128,
    /// Raw wire pattern of the upper bound.
    pub upper: u128,
    /// When present, this code emits a run of samples whose length is coded
    /// from this jumpstart.
    pub run_len_jumpstart: Option<usize>,
    /// Common divisor of `(value - lower)` over the samples of this row.
    pub gcd: u128,
}

impl View for Prefix {
    type V = PrefixModel;

    open spec fn view(&self) -> PrefixModel {
        PrefixModel {
            count: self.count as nat,
            code: self.code@,
            lower: self.lower as nat,
            upper: self.upper as nat,
            run_len_jumpstart: match self.run_len_jumpstart {
                Option::None => Option::None,
                Option::Some(j) => Option::Some(j as nat),
            },
            gcd: self.gcd as nat,
        }
    }
}

/// The models of a sequence of rows.
pub open spec fn models_of(ps: Seq<Prefix>) -> Seq<PrefixModel> {
    ps.map_values(|p: Prefix| p@)
}

/// `a` is a prefix of `b`.
pub open spec fn is_prefix_of(a: Seq<bool>, b: Seq<bool>) -> bool {
    a.len() <= b.len() && a == b.subrange(0, a.len() as int)
}

/// No row's code is a prefix of another row's code, so a code stream can be
/// decoded unambiguously. Building such a table is the encoder's
/// responsibility; a decoder may verify it with `validate_prefix_free`.
pub open spec fn prefix_free(ps: Seq<PrefixModel>) -> bool {
    forall|i: int, j: int|
        0 <= i < ps.len() && 0 <= j < ps.len() && i != j ==> !is_prefix_of(
            #[trigger] ps[i].code,
            #[trigger] ps[j].code,
        )
}

/// Whether `a`'s bits are a prefix of `b`'s.
fn code_is_prefix(a: &Vec<bool>, b: &Vec<bool>) -> (r: bool)
    ensures
        r == is_prefix_of(a@, b@),
{
    if a.len() > b.len() {
        return false;
    }
    let mut j: usize = 0;
    while j < a.len()
        invariant
            j <= a@.len(),
            a@.len() <= b@.len(),
            forall|k: int| 0 <= k < j ==> a@[k] == b@[k],
        decreases a@.len() - j,
    {
        if a[j] != b[j] {
            proof {
                assert(b@.subrange(0, a@.len() as int)[j as int] == b@[j as int]);
            }
            return false;
        }
        j = j + 1;
    }
    proof {
        assert(a@ =~= b@.subrange(0, a@.len() as int));
    }
    true
}

/// Check the prefix-freeness invariant of a table: true exactly when no
/// row's code is a prefix of another's.
pub fn validate_prefix_free(prefixes: &Vec<Prefix>) -> (r: bool)
    ensures
        r == prefix_free(models_of(prefixes@)),
{
    let ghost models = models_of(prefixes@);
    let mut i: usize = 0;
    while i < prefixes.len()
        invariant
            i <= prefixes@.len(),
            models == models_of(prefixes@),
            forall|a: int, b: int|
                0 <= a < i && 0 <= b < models.len() && a != b ==> !is_prefix_of(
                    #[trigger] models[a].code,
                    #[trigger] models[b].code,
                ),
        decreases prefixes@.len() - i,
    {
        let mut j: usize = 0;
        while j < prefixes.len()
            invariant
                i < prefixes@.len(),
                j <= prefixes@.len(),
                models == models_of(prefixes@),
                forall|a: int, b: int|
                    0 <= a < i && 0 <= b < models.len() && a != b ==> !is_prefix_of(
                        #[trigger] models[a].code,
                        #[trigger] models[b].code,
                    ),
                forall|b: int|
                    0 <= b < j && b != i ==> !is_prefix_of(
                        models[i as int].code,
                        #[trigger] models[b].code,
                    ),
            decreases prefixes@.len() - j,
        {
            if j != i {
                if code_is_prefix(&prefixes[i].code, &prefixes[j].code) {
                    proof {
                        assert(models[i as int] == prefixes@[i as int]@);
                        assert(models[j as int] == prefixes@[j as int]@);
                        assert(is_prefix_of(models[i as int].code, models[j as int].code));
                    }
                    return false;
                }
            }
            j = j + 1;
        }
        i = i + 1;
    }
    true
}

} // verus!
