//! Repetition of independent trials.

use vstd::prelude::*;
use crate::model::{names_view, Project, ProjectList};
use crate::traversal::{explains, realizes, selected_outcome_group, sound, TraversalError};

verus! {

/// Whether `x` is what `f` makes of some realization of `roots`.
pub open spec fn is_trial_value<N, T, F: Fn(Vec<(usize, usize)>) -> T>(
    ps: Seq<Project<N>>,
    roots: Seq<Seq<char>>,
    f: F,
    x: T,
) -> bool {
    exists|g: Vec<(usize, usize)>| realizes(ps, roots, g@) && #[trigger] f.ensures((g,), x)
}

/// Runs `n` trials (none when `n <= 0`), each a fresh realization of
/// `root_projects` drawn from `rng`, and returns what `stat_fn` makes of
/// each, in trial order. The first trial that cannot be drawn ends the run
/// with its error.
pub fn monte_carlo_trials<N, T, F: Fn(Vec<(usize, usize)>) -> T>(
    n: i64,
    root_projects: &Vec<String>,
    pl: &ProjectList<N>,
    rng: &mut rand::rngs::StdRng,
    stat_fn: F,
) -> (r: Result<Vec<T>, TraversalError>)
    requires
        pl.wf(),
        forall|g: Vec<(usize, usize)>|
            realizes(pl.spec_projects(), names_view(root_projects@), g@) ==> #[trigger] stat_fn.requires((g,)),
    ensures
        r matches Ok(v) ==> v@.len() == if n > 0 { n as int } else { 0 },
        r matches Ok(v) ==> forall|k: int|
            0 <= k < v@.len() ==> is_trial_value(pl.spec_projects(), names_view(root_projects@), stat_fn, #[trigger] v@[k]),
        r matches Err(e) ==> explains(pl.spec_projects(), names_view(root_projects@), e),
        sound(pl.spec_projects(), names_view(root_projects@)) ==> r is Ok,
{
    let mut out: Vec<T> = Vec::new();
    let mut k: i64 = 0;
    while k < n
        invariant
            pl.wf(),
            forall|g: Vec<(usize, usize)>|
                realizes(pl.spec_projects(), names_view(root_projects@), g@) ==> #[trigger] stat_fn.requires((g,)),
            0 <= k <= if n > 0 { n } else { 0 },
            out@.len() == k,
            forall|i: int|
                0 <= i < out@.len() ==> is_trial_value(pl.spec_projects(), names_view(root_projects@), stat_fn, #[trigger] out@[i]),
        decreases n - k,
    {
        let group = match selected_outcome_group(root_projects, pl, rng) {
            Ok(g) => g,
            Err(e) => {
                return Err(e);
            },
        };
        let ghost g0 = group;
        let value = stat_fn(group);
        out.push(value);
        proof {
            assert(realizes(pl.spec_projects(), names_view(root_projects@), g0@)
                && stat_fn.ensures((g0,), out@[k as int]));
            assert(is_trial_value(pl.spec_projects(), names_view(root_projects@), stat_fn, out@[k as int]));
        }
        k = k + 1;
    }
    Ok(out)
}

} // verus!
