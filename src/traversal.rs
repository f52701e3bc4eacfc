//! One trial: a case drawn for every project occurrence reached from the
//! roots, following the follow-on projects of each drawn case.

use vstd::prelude::*;
use crate::model::{has_name, is_case, names_unique, names_view, Project, ProjectList};
use crate::sampler::{samplable, sampling_fault, SampleError};

verus! {

/// Why a trial could not be drawn.
#[derive(Debug, PartialEq, Eq)]
pub enum TraversalError {
    /// No project of the registry carries this name.
    UnknownProject(String),
    /// No case of the named project could be drawn.
    Sampling(String, SampleError),
    /// The named project was reached again while its own follow-ons were
    /// being expanded.
    Cycle(String),
}

/// The names of the follow-on projects of case `k` of project `p`.
pub open spec fn leads_to<N>(ps: Seq<Project<N>>, p: int, k: int) -> Seq<Seq<char>> {
    names_view(ps[p].outcomes@[k].outcome_projects@)
}

/// Reads the realization of one occurrence of the project named `name` off
/// the front of `r`: a pair naming that project and a case of positive
/// weight, then the realizations of that case's follow-on projects in order.
/// The result is what follows, or `None` if `r` does not start that way.
pub open spec fn realize_one<N>(ps: Seq<Project<N>>, name: Seq<char>, r: Seq<(usize, usize)>) -> Option<
    Seq<(usize, usize)>,
>
    decreases r.len(), 0nat,
{
    if r.len() == 0 {
        None
    } else {
        let p = r[0].0 as int;
        let k = r[0].1 as int;
        if 0 <= p < ps.len() && ps[p].name@ == name && 0 <= k < ps[p].outcomes@.len()
            && ps[p].outcomes@[k].weight > 0 {
            realize_list(ps, leads_to(ps, p, k), r.drop_first())
        } else {
            None
        }
    }
}

/// Reads the realizations of the projects `names`, one after the other, off
/// the front of `r`.
pub open spec fn realize_list<N>(ps: Seq<Project<N>>, names: Seq<Seq<char>>, r: Seq<(usize, usize)>) -> Option<
    Seq<(usize, usize)>,
>
    decreases r.len(), names.len() + 1,
{
    if names.len() == 0 {
        Some(r)
    } else {
        match realize_one(ps, names[0], r) {
            Some(rest) => if rest.len() < r.len() {
                realize_list(ps, names.drop_first(), rest)
            } else {
                None
            },
            None => None,
        }
    }
}

/// Whether `r` is, pair for pair, one realization of the projects `roots`:
/// every occurrence of a reached project in depth-first order with the
/// index of its drawn case.
pub open spec fn realizes<N>(ps: Seq<Project<N>>, roots: Seq<Seq<char>>, r: Seq<(usize, usize)>) -> bool {
    realize_list(ps, roots, r) == Some(Seq::<(usize, usize)>::empty())
}

/// Whether some case of project `a` names project `b` as a follow-on.
pub open spec fn follows<N>(ps: Seq<Project<N>>, a: int, b: int) -> bool {
    exists|k: int| is_case(ps, a, k) && #[trigger] leads_to(ps, a, k).contains(ps[b].name@)
}

/// Whether `c` is a chain of projects, each a follow-on of the one before.
pub open spec fn is_chain<N>(ps: Seq<Project<N>>, c: Seq<int>) -> bool {
    &&& forall|i: int| 0 <= i < c.len() ==> 0 <= #[trigger] c[i] < ps.len()
    &&& forall|i: int| 0 <= i < c.len() - 1 ==> #[trigger] follows(ps, c[i], c[i + 1])
}

/// Whether the project named `name` leads back to itself through a chain of
/// follow-ons.
pub open spec fn on_cycle<N>(ps: Seq<Project<N>>, name: Seq<char>) -> bool {
    exists|c: Seq<int>|
        #[trigger] is_chain(ps, c) && c.len() >= 2 && c[0] == c.last() && ps[c[0]].name@ == name
}

/// Whether no project leads back to itself.
pub open spec fn acyclic<N>(ps: Seq<Project<N>>) -> bool {
    forall|c: Seq<int>| #[trigger] is_chain(ps, c) && c.len() >= 2 ==> c[0] != c.last()
}

/// Whether `name` is a root or a follow-on of some case.
pub open spec fn referenced<N>(ps: Seq<Project<N>>, roots: Seq<Seq<char>>, name: Seq<char>) -> bool {
    roots.contains(name) || exists|p: int, k: int|
        is_case(ps, p, k) && #[trigger] leads_to(ps, p, k).contains(name)
}

/// Whether a trial can always be drawn: every referenced name resolves,
/// every project can be sampled, and no project leads back to itself.
pub open spec fn sound<N>(ps: Seq<Project<N>>, roots: Seq<Seq<char>>) -> bool {
    &&& forall|n: Seq<char>| #[trigger] referenced(ps, roots, n) ==> has_name(ps, n)
    &&& forall|p: int| 0 <= p < ps.len() ==> samplable(#[trigger] ps[p])
    &&& acyclic(ps)
}

/// What the error says of the registry and the roots.
pub open spec fn explains<N>(ps: Seq<Project<N>>, roots: Seq<Seq<char>>, e: TraversalError) -> bool {
    match e {
        TraversalError::UnknownProject(n) => !has_name(ps, n@) && referenced(ps, roots, n@),
        TraversalError::Sampling(n, e) => exists|p: int|
            0 <= p < ps.len() && ps[p].name@ == n@ && !samplable(#[trigger] ps[p])
                && sampling_fault(ps[p], e),
        TraversalError::Cycle(n) => on_cycle(ps, n@),
    }
}

/// What the ghost path of an expansion under way satisfies: the marked
/// projects are those of the path, and the path is a chain.
pub open spec fn path_ok<N>(ps: Seq<Project<N>>, on_path: Seq<bool>, path: Seq<int>) -> bool {
    &&& on_path.len() == ps.len()
    &&& forall|x: int| 0 <= x < ps.len() ==> (on_path[x] <==> path.contains(x))
    &&& is_chain(ps, path)
}

/// The number of `false` entries.
pub open spec fn count_off(s: Seq<bool>) -> nat
    decreases s.len(),
{
    if s.len() == 0 {
        0
    } else {
        count_off(s.drop_last()) + if s.last() {
            0nat
        } else {
            1nat
        }
    }
}

proof fn lemma_count_off_set(s: Seq<bool>, i: int)
    requires
        0 <= i < s.len(),
        !s[i],
    ensures
        count_off(s.update(i, true)) + 1 == count_off(s),
    decreases s.len(),
{
    let t = s.update(i, true);
    if i < s.len() - 1 {
        lemma_count_off_set(s.drop_last(), i);
        assert(t.drop_last() == s.drop_last().update(i, true));
    } else {
        assert(t.drop_last() == s.drop_last());
    }
}

proof fn lemma_one_append<N>(ps: Seq<Project<N>>, name: Seq<char>, s: Seq<(usize, usize)>, t: Seq<(usize, usize)>)
    ensures
        realize_one(ps, name, s) matches Some(u) ==> u.len() < s.len()
            && realize_one(ps, name, s + t) == Some(u + t),
    decreases s.len(), 0nat,
{
    if s.len() > 0 {
        let p = s[0].0 as int;
        let k = s[0].1 as int;
        assert((s + t).drop_first() == s.drop_first() + t);
        assert((s + t)[0] == s[0]);
        if 0 <= p < ps.len() && 0 <= k < ps[p].outcomes@.len() {
            lemma_list_append(ps, leads_to(ps, p, k), s.drop_first(), t);
        }
    }
}

proof fn lemma_list_append<N>(ps: Seq<Project<N>>, names: Seq<Seq<char>>, s: Seq<(usize, usize)>, t: Seq<(usize, usize)>)
    ensures
        realize_list(ps, names, s) matches Some(u) ==> u.len() <= s.len()
            && realize_list(ps, names, s + t) == Some(u + t),
    decreases s.len(), names.len() + 1,
{
    if names.len() > 0 {
        lemma_one_append(ps, names[0], s, t);
        if let Some(rest) = realize_one(ps, names[0], s) {
            lemma_list_append(ps, names.drop_first(), rest, t);
        }
    }
}

/// A root whose only case leads to exactly one other project, none of whose
/// cases leads anywhere, is realized by exactly two pairs: the root with its
/// single case, then that other project.
pub proof fn lemma_two_level_realization<N>(ps: Seq<Project<N>>, a: int, b: int, r: Seq<(usize, usize)>)
    requires
        names_unique(ps),
        0 <= a < ps.len(),
        0 <= b < ps.len(),
        ps[a].outcomes@.len() == 1,
        leads_to(ps, a, 0) == seq![ps[b].name@],
        forall|k: int| is_case(ps, b, k) ==> (#[trigger] leads_to(ps, b, k)).len() == 0,
        realizes(ps, seq![ps[a].name@], r),
    ensures
        r.len() == 2,
        r[0] == (a as usize, 0usize),
        r[1].0 == b,
{
    let roots = seq![ps[a].name@];
    let rest = realize_one(ps, roots[0], r)->Some_0;
    assert(realize_list(ps, roots.drop_first(), rest) == Some(rest));
    assert(rest.len() == 0);
    let r1 = r.drop_first();
    let p = r[0].0 as int;
    assert(p == a);
    let inner = seq![ps[b].name@];
    assert(realize_list(ps, inner, r1) == Some(rest));
    let rest2 = realize_one(ps, inner[0], r1)->Some_0;
    assert(realize_list(ps, inner.drop_first(), rest2) == Some(rest2));
    let q = r1[0].0 as int;
    let k2 = r1[0].1 as int;
    assert(q == b);
    assert(leads_to(ps, b, k2).len() == 0);
    assert(realize_list(ps, leads_to(ps, b, k2), r1.drop_first()) == Some(r1.drop_first()));
}

/// Whether every pair names a project of the registry and one of its cases
/// of positive weight.
pub open spec fn pairs_valid<N>(ps: Seq<Project<N>>, s: Seq<(usize, usize)>) -> bool {
    forall|i: int|
        0 <= i < s.len() ==> is_case(ps, (#[trigger] s[i]).0 as int, s[i].1 as int)
            && ps[s[i].0 as int].outcomes@[s[i].1 as int].weight > 0
}

proof fn lemma_one_valid<N>(ps: Seq<Project<N>>, name: Seq<char>, s: Seq<(usize, usize)>)
    ensures
        realize_one(ps, name, s) matches Some(u) ==> u.len() <= s.len()
            && u == s.skip(s.len() - u.len())
            && pairs_valid(ps, s.take(s.len() - u.len())),
    decreases s.len(), 0nat,
{
    if s.len() > 0 {
        let p = s[0].0 as int;
        let k = s[0].1 as int;
        if 0 <= p < ps.len() && 0 <= k < ps[p].outcomes@.len() {
            let t = s.drop_first();
            lemma_list_valid(ps, leads_to(ps, p, k), t);
            if let Some(u) = realize_one(ps, name, s) {
                let m = s.len() - u.len();
                assert(u == t.skip(t.len() - u.len()));
                assert(s.skip(m) =~= t.skip(t.len() - u.len()));
                assert forall|i: int| 0 <= i < m implies is_case(ps, (#[trigger] s.take(m)[i]).0 as int, s.take(m)[i].1 as int)
                    && ps[s.take(m)[i].0 as int].outcomes@[s.take(m)[i].1 as int].weight > 0 by {
                    if i > 0 {
                        assert(s.take(m)[i] == t.take(t.len() - u.len())[i - 1]);
                    }
                }
            }
        }
    }
}

proof fn lemma_list_valid<N>(ps: Seq<Project<N>>, names: Seq<Seq<char>>, s: Seq<(usize, usize)>)
    ensures
        realize_list(ps, names, s) matches Some(u) ==> u.len() <= s.len()
            && u == s.skip(s.len() - u.len())
            && pairs_valid(ps, s.take(s.len() - u.len())),
    decreases s.len(), names.len() + 1,
{
    if names.len() == 0 {
        assert(s.skip(0) =~= s);
    } else {
        lemma_one_valid(ps, names[0], s);
        if let Some(rest) = realize_one(ps, names[0], s) {
            lemma_list_valid(ps, names.drop_first(), rest);
            if let Some(u) = realize_list(ps, names, s) {
                let m1 = s.len() - rest.len();
                let m2 = rest.len() - u.len();
                assert(s.skip(s.len() - u.len()) =~= rest.skip(m2));
                assert forall|i: int| 0 <= i < m1 + m2 implies is_case(ps, (#[trigger] s.take(m1 + m2)[i]).0 as int, s.take(m1 + m2)[i].1 as int)
                    && ps[s.take(m1 + m2)[i].0 as int].outcomes@[s.take(m1 + m2)[i].1 as int].weight > 0 by {
                    if i < m1 {
                        assert(s.take(m1 + m2)[i] == s.take(m1)[i]);
                    } else {
                        assert(s.take(m1 + m2)[i] == rest.take(m2)[i - m1]);
                    }
                }
            }
        }
    }
}

/// Every pair of a realization names a project of the registry and one of
/// its cases of positive weight.
pub proof fn lemma_realization_pairs_valid<N>(ps: Seq<Project<N>>, roots: Seq<Seq<char>>, r: Seq<(usize, usize)>)
    requires
        realizes(ps, roots, r),
    ensures
        pairs_valid(ps, r),
{
    lemma_list_valid(ps, roots, r);
    assert(r.take(r.len() as int) =~= r);
}

/// Draws the occurrence of the project `name` and, depth first, of its
/// follow-on projects, appending each (project index, case index) pair to
/// `out`. `on_path` marks the projects whose expansion is under way.
fn expand_one<N>(
    pl: &ProjectList<N>,
    name: &String,
    on_path: &mut Vec<bool>,
    rng: &mut rand::rngs::StdRng,
    out: &mut Vec<(usize, usize)>,
    Ghost(roots): Ghost<Seq<Seq<char>>>,
    Ghost(path): Ghost<Seq<int>>,
) -> (r: Result<(), TraversalError>)
    requires
        pl.wf(),
        path_ok(pl.spec_projects(), old(on_path)@, path),
        referenced(pl.spec_projects(), roots, name@),
        path.len() > 0 ==> exists|k: int|
            is_case(pl.spec_projects(), path.last(), k) && #[trigger] leads_to(
                pl.spec_projects(),
                path.last(),
                k,
            ).contains(name@),
    ensures
        r matches Err(e) ==> explains(pl.spec_projects(), roots, e),
        final(on_path)@ == old(on_path)@,
        final(out)@.len() >= old(out)@.len(),
        final(out)@.take(old(out)@.len() as int) == old(out)@,
        r is Ok ==> realize_one(pl.spec_projects(), name@, final(out)@.skip(old(out)@.len() as int))
            == Some(Seq::<(usize, usize)>::empty()),
    decreases count_off(on_path@), 0nat, 0nat,
{
    let ghost ps = pl.spec_projects();
    let ghost out0 = out@;
    let idx = match pl.find(name) {
        Some(i) => i,
        None => {
            return Err(TraversalError::UnknownProject(name.clone()));
        },
    };
    proof {
        if path.len() > 0 {
            let k = choose|k: int|
                is_case(ps, path.last(), k) && #[trigger] leads_to(ps, path.last(), k).contains(name@);
            assert(leads_to(ps, path.last(), k).contains(ps[idx as int].name@));
            assert(follows(ps, path.last(), idx as int));
        }
    }
    if on_path[idx] {
        proof {
            let q = path.index_of(idx as int);
            let c = path.subrange(q, path.len() as int).push(idx as int);
            assert forall|x: int| 0 <= x < c.len() - 1 implies #[trigger] follows(ps, c[x], c[x + 1]) by {
                if x < c.len() - 2 {
                    assert(c[x] == path[q + x] && c[x + 1] == path[q + x + 1]);
                }
            }
            assert forall|x: int| 0 <= x < c.len() implies 0 <= #[trigger] c[x] < ps.len() by {
                if x < c.len() - 1 {
                    assert(c[x] == path[q + x]);
                }
            }
            assert(is_chain(ps, c));
        }
        return Err(TraversalError::Cycle(name.clone()));
    }
    let project = pl.get(idx);
    let j = match project.outcome_selector(rng) {
        Ok(j) => j,
        Err(e) => {
            return Err(TraversalError::Sampling(name.clone(), e));
        },
    };
    out.push((idx, j));
    let ghost out1 = out@;
    proof {
        lemma_count_off_set(on_path@, idx as int);
    }
    on_path.set(idx, true);
    let next = &project.outcomes[j].outcome_projects;
    let ghost path2 = path.push(idx as int);
    proof {
        assert forall|x: int| 0 <= x < ps.len() implies (on_path@[x] <==> path2.contains(x)) by {
            if x == idx {
                assert(path2[path.len() as int] == x);
            } else if on_path@[x] {
                let q = path.index_of(x);
                assert(path2[q] == x);
            } else if path2.contains(x) {
                let q = path2.index_of(x);
                assert(path[q] == x);
            }
        }
        assert forall|x: int| 0 <= x < path2.len() - 1 implies #[trigger] follows(ps, path2[x], path2[x + 1]) by {
            if x < path.len() - 1 {
                assert(path2[x] == path[x] && path2[x + 1] == path[x + 1]);
            }
        }
        assert forall|x: int| 0 <= x < path2.len() implies 0 <= #[trigger] path2[x] < ps.len() by {
            if x < path.len() {
                assert(path2[x] == path[x]);
            }
        }
        assert(is_chain(ps, path2));
        assert(names_view(next@) == leads_to(ps, path2.last(), j as int));
        assert forall|m: int| 0 <= m < next@.len() implies referenced(ps, roots, #[trigger] next@[m]@) by {
            assert(leads_to(ps, idx as int, j as int)[m] == next@[m]@);
            assert(leads_to(ps, idx as int, j as int).contains(next@[m]@));
        }
    }
    let res = expand_list(pl, next, 0, on_path, rng, out, Ghost(roots), Ghost(path2));
    on_path.set(idx, false);
    proof {
        assert(on_path@ =~= old(on_path)@);
        assert(out1.take(out0.len() as int) == out0);
        assert(out@.take(out0.len() as int) =~= out1.take(out0.len() as int));
        if res is Ok {
            let seg = out@.skip(out0.len() as int);
            assert(names_view(next@).skip(0) =~= leads_to(ps, idx as int, j as int));
            assert(seg.drop_first() =~= out@.skip(out1.len() as int));
            assert(out@.take(out1.len() as int)[out0.len() as int] == out1[out0.len() as int]);
            assert(seg[0] == (idx, j));
        }
    }
    res
}

/// Draws the occurrences of `names[i..]` in order, as `expand_one` does for
/// each.
fn expand_list<N>(
    pl: &ProjectList<N>,
    names: &Vec<String>,
    i: usize,
    on_path: &mut Vec<bool>,
    rng: &mut rand::rngs::StdRng,
    out: &mut Vec<(usize, usize)>,
    Ghost(roots): Ghost<Seq<Seq<char>>>,
    Ghost(path): Ghost<Seq<int>>,
) -> (r: Result<(), TraversalError>)
    requires
        pl.wf(),
        i <= names@.len(),
        path_ok(pl.spec_projects(), old(on_path)@, path),
        forall|m: int| 0 <= m < names@.len() ==> referenced(pl.spec_projects(), roots, #[trigger] names@[m]@),
        path.len() > 0 ==> exists|k: int|
            is_case(pl.spec_projects(), path.last(), k) && names_view(names@) == leads_to(
                pl.spec_projects(),
                path.last(),
                k,
            ),
    ensures
        r matches Err(e) ==> explains(pl.spec_projects(), roots, e),
        final(on_path)@ == old(on_path)@,
        final(out)@.len() >= old(out)@.len(),
        final(out)@.take(old(out)@.len() as int) == old(out)@,
        r is Ok ==> realize_list(
            pl.spec_projects(),
            names_view(names@).skip(i as int),
            final(out)@.skip(old(out)@.len() as int),
        ) == Some(Seq::<(usize, usize)>::empty()),
    decreases count_off(on_path@), 1nat, names@.len() - i,
{
    let ghost ps = pl.spec_projects();
    let ghost out0 = out@;
    if i == names.len() {
        proof {
            assert(out@.skip(out0.len() as int) =~= Seq::<(usize, usize)>::empty());
            assert(names_view(names@).skip(i as int) =~= Seq::<Seq<char>>::empty());
        }
        return Ok(());
    }
    proof {
        if path.len() > 0 {
            let k = choose|k: int|
                is_case(ps, path.last(), k) && names_view(names@) == leads_to(ps, path.last(), k);
            assert(leads_to(ps, path.last(), k)[i as int] == names@[i as int]@);
            assert(leads_to(ps, path.last(), k).contains(names@[i as int]@));
        }
    }
    let first = expand_one(pl, &names[i], on_path, rng, out, Ghost(roots), Ghost(path));
    if first.is_err() {
        return first;
    }
    let ghost out1 = out@;
    let rest = expand_list(pl, names, i + 1, on_path, rng, out, Ghost(roots), Ghost(path));
    proof {
        assert(out@.take(out0.len() as int) =~= out1.take(out0.len() as int));
        if rest is Ok {
            let s1 = out1.skip(out0.len() as int);
            let s2 = out@.skip(out1.len() as int);
            let nv = names_view(names@).skip(i as int);
            assert(out@.skip(out0.len() as int) =~= s1 + s2);
            assert(nv[0] == names@[i as int]@);
            assert(nv.drop_first() =~= names_view(names@).skip(i + 1));
            lemma_one_append(ps, nv[0], s1, s2);
            assert(Seq::<(usize, usize)>::empty() + s2 =~= s2);
        }
    }
    rest
}

/// Draws one realization of the projects `root_projects`: each root and,
/// depth first, every follow-on project of each drawn case, as pairs of
/// project index in the registry and index of the drawn case.
pub fn selected_outcome_group<N>(
    root_projects: &Vec<String>,
    pl: &ProjectList<N>,
    rng: &mut rand::rngs::StdRng,
) -> (r: Result<Vec<(usize, usize)>, TraversalError>)
    requires
        pl.wf(),
    ensures
        r matches Ok(v) ==> realizes(pl.spec_projects(), names_view(root_projects@), v@),
        r matches Err(e) ==> explains(pl.spec_projects(), names_view(root_projects@), e),
        sound(pl.spec_projects(), names_view(root_projects@)) ==> r is Ok,
{
    let ghost ps = pl.spec_projects();
    let ghost roots = names_view(root_projects@);
    let mut on_path: Vec<bool> = Vec::new();
    let n = pl.len();
    let mut k: usize = 0;
    while k < n
        invariant
            k <= n,
            n == pl.spec_projects().len(),
            on_path@.len() == k,
            forall|x: int| 0 <= x < k ==> !on_path@[x],
        decreases n - k,
    {
        on_path.push(false);
        k = k + 1;
    }
    let mut out: Vec<(usize, usize)> = Vec::new();
    proof {
        assert forall|m: int| 0 <= m < root_projects@.len() implies referenced(ps, roots, #[trigger] root_projects@[m]@) by {
            assert(roots[m] == root_projects@[m]@);
        }
    }
    let res = expand_list(pl, root_projects, 0, &mut on_path, rng, &mut out, Ghost(roots), Ghost(Seq::empty()));
    match res {
        Ok(()) => {
            proof {
                assert(out@.skip(0) =~= out@);
                assert(names_view(root_projects@).skip(0) =~= names_view(root_projects@));
            }
            Ok(out)
        },
        Err(e) => {
            proof {
                if sound(ps, roots) {
                    if e is Cycle {
                        let n = e->Cycle_0;
                        let c = choose|c: Seq<int>|
                            #[trigger] is_chain(ps, c) && c.len() >= 2 && c[0] == c.last() && ps[c[0]].name@ == n@;
                        assert(false);
                    }
                }
            }
            Err(e)
        },
    }
}

} // verus!
