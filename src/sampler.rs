//! The weighted draw of one case of a project.

use vstd::prelude::*;
use rand::distributions::Distribution;
use crate::model::{Casedata, Project};

verus! {

#[verifier::external_type_specification]
#[verifier::external_body]
pub struct ExStdRng(rand::rngs::StdRng);

#[verifier::external_type_specification]
#[verifier::external_body]
pub struct ExWeightedError(rand::distributions::WeightedError);

/// The sum of the weights in `w`.
pub open spec fn weight_sum(w: Seq<u64>) -> nat
    decreases w.len(),
{
    if w.len() == 0 {
        0
    } else {
        weight_sum(w.drop_last()) + w.last() as nat
    }
}

/// The weights of a sequence of cases.
pub open spec fn case_weights<N>(cs: Seq<Casedata<N>>) -> Seq<u64> {
    cs.map_values(|c: Casedata<N>| c.weight)
}

/// Whether a case can be drawn from the project: it has cases, their weights
/// do not all vanish, and their sum fits in a `u64`.
pub open spec fn samplable<N>(p: Project<N>) -> bool {
    let w = case_weights(p.outcomes@);
    &&& w.len() > 0
    &&& weight_sum(w) > 0
    &&& weight_sum(w) <= u64::MAX
}

/// Whether `e` describes why no case of `p` can be drawn.
pub open spec fn sampling_fault<N>(p: Project<N>, e: SampleError) -> bool {
    let w = case_weights(p.outcomes@);
    match e {
        SampleError::NoCases => w.len() == 0,
        SampleError::AllWeightsZero => w.len() > 0 && weight_sum(w) == 0,
        SampleError::WeightOverflow => weight_sum(w) > u64::MAX,
    }
}

/// Why no case could be drawn.
#[derive(Debug, Clone, Copy, PartialEq, Eq)]
pub enum SampleError {
    /// The project has no case.
    NoCases,
    /// Every case has weight zero.
    AllWeightsZero,
    /// The weights sum past the largest `u64`.
    WeightOverflow,
}

/// Relies on `rand::distributions::WeightedIndex::new` and its `sample`:
/// building the index fails exactly when there is no weight or every weight
/// is zero; a draw returns the position `i` at which the uniform draw in
/// `[0, total)` meets `w[0] + .. + w[i - 1] <= x < w[0] + .. + w[i]`, so a
/// weight-zero position is never returned.
#[verifier::external_body]
fn weighted_index_sample(w: &Vec<u64>, rng: &mut rand::rngs::StdRng) -> (r: Result<
    usize,
    rand::distributions::WeightedError,
>)
    requires
        weight_sum(w@) <= u64::MAX,
    ensures
        r is Ok <==> (w@.len() > 0 && weight_sum(w@) > 0),
        r matches Ok(i) ==> i < w@.len() && w@[i as int] > 0,
{
    rand::distributions::WeightedIndex::new(w).map(|d| d.sample(rng))
}

proof fn lemma_weight_sum_zero(w: Seq<u64>)
    ensures
        weight_sum(w) == 0 <==> forall|i: int| 0 <= i < w.len() ==> w[i] == 0,
    decreases w.len(),
{
    if w.len() > 0 {
        lemma_weight_sum_zero(w.drop_last());
        if weight_sum(w) == 0 {
            assert forall|i: int| 0 <= i < w.len() implies w[i] == 0 by {
                if i < w.len() - 1 {
                    assert(w[i] == w.drop_last()[i]);
                }
            }
        }
        if forall|i: int| 0 <= i < w.len() ==> w[i] == 0 {
            assert forall|i: int| 0 <= i < w.drop_last().len() implies w.drop_last()[i] == 0 by {
                assert(w.drop_last()[i] == w[i]);
            }
        }
    }
}

impl<N> Project<N> {
    /// Draws the index of one case, each case with probability proportional
    /// to its weight.
    pub fn outcome_selector(&self, rng: &mut rand::rngs::StdRng) -> (r: Result<usize, SampleError>)
        ensures
            r is Ok <==> samplable(*self),
            r matches Ok(j) ==> j < self.outcomes@.len() && self.outcomes@[j as int].weight > 0,
            r == Err::<usize, SampleError>(SampleError::NoCases) <==> self.outcomes@.len() == 0,
            r == Err::<usize, SampleError>(SampleError::AllWeightsZero) <==> (
            self.outcomes@.len() > 0 && weight_sum(case_weights(self.outcomes@)) == 0),
            r == Err::<usize, SampleError>(SampleError::WeightOverflow) <==> weight_sum(
                case_weights(self.outcomes@),
            ) > u64::MAX,
            r matches Err(e) ==> sampling_fault(*self, e),
    {
        let ghost cw = case_weights(self.outcomes@);
        let mut w: Vec<u64> = Vec::new();
        let mut total: u64 = 0;
        let mut k: usize = 0;
        while k < self.outcomes.len()
            invariant
                k <= self.outcomes@.len(),
                cw == case_weights(self.outcomes@),
                w@ == cw.take(k as int),
                total == weight_sum(w@),
            decreases self.outcomes@.len() - k,
        {
            let x = self.outcomes[k].weight;
            assert(w@.push(x).drop_last() == w@);
            proof {
                lemma_weight_sum_prefix_grows(cw, k as int + 1, cw.len() as int);
            }
            if x > u64::MAX - total {
                assert(weight_sum(cw.take(k as int + 1)) > u64::MAX) by {
                    assert(cw.take(k as int + 1) == w@.push(x));
                }
                assert(cw.take(cw.len() as int) == cw);
                return Err(SampleError::WeightOverflow);
            }
            w.push(x);
            total = total + x;
            assert(w@ == cw.take(k as int + 1));
            k = k + 1;
        }
        assert(w@ == cw);
        if w.len() == 0 {
            return Err(SampleError::NoCases);
        }
        if total == 0 {
            return Err(SampleError::AllWeightsZero);
        }
        match weighted_index_sample(&w, rng) {
            Ok(j) => Ok(j),
            Err(_) => Err(SampleError::AllWeightsZero),
        }
    }
}

proof fn lemma_weight_sum_prefix_grows(w: Seq<u64>, a: int, b: int)
    requires
        0 <= a <= b <= w.len(),
    ensures
        weight_sum(w.take(a)) <= weight_sum(w.take(b)),
    decreases b - a,
{
    if a < b {
        lemma_weight_sum_prefix_grows(w, a, b - 1);
        assert(w.take(b).drop_last() == w.take(b - 1));
    }
}

} // verus!
