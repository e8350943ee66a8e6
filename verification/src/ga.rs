//! The genetic optimizer: weight vectors ("DNA"), descending sort by score,
//! parent selection, uniform crossover with a fixed last component, bounded
//! shrinking mutation, and the generation loop.

use vstd::prelude::*;
use vstd::arithmetic::div_mod::{lemma_div_is_ordered, lemma_div_multiples_vanish_fancy, lemma_fundamental_div_mod};
use vstd::arithmetic::mul::lemma_mul_inequality;
use crate::rng::rng_next_u64;
use crate::sim::run_tetris;

verus! {

/// A weight vector under optimization: the six evaluator weights and the
/// average game score assigned to this exact vector by its last evaluation.
#[derive(Copy, Clone, Debug)]
pub struct DNA {
    pub params: [u64; 6],
    pub score: u64,
}

/// Every score is at least as high as any later one.
pub open spec fn sorted_desc(s: Seq<DNA>) -> bool {
    forall|i: int, j: int| 0 <= i <= j < s.len() ==> #[trigger] s[i].score >= #[trigger] s[j].score
}

/// What crossover and mutation can make of two parents: the score tag comes
/// from the first parent, the last weight never crosses over, every other
/// weight comes from one of the two parents, and a mutation only shrinks.
pub open spec fn child_of(p1: DNA, p2: DNA, c: DNA) -> bool {
    &&& c.score == p1.score
    &&& c.params@[5] <= p1.params@[5]
    &&& forall|k: int| 0 <= k < 5 ==> c.params@[k] <= p1.params@[k] || c.params@[k] <= p2.params@[k]
}

/// Membership in the first `n` slots of a pool.
pub open spec fn from_pool(pool: Seq<DNA>, n: int, d: DNA) -> bool {
    exists|j: int| 0 <= j < n && d == #[trigger] pool[j]
}

/// An offspring of two distinct members of the parent pool.
pub open spec fn offspring_of(ps: Seq<DNA>, c: DNA) -> bool {
    exists|a: int, b: int| #![trigger ps[a], ps[b]] 0 <= a < ps.len() && 0 <= b < ps.len() && a != b && child_of(ps[a], ps[b], c)
}

/// Every weight of the vector lies below the bound.
pub open spec fn params_below(d: DNA, max_val: u64) -> bool {
    forall|k: int| 0 <= k < 6 ==> #[trigger] d.params@[k] < max_val
}

/// How one generation step rebuilds the population: some descending sort of
/// the incoming members is taken; a parent pool of `parents_size` is formed
/// from its top slots, the trailing `resample` of them re-drawn from the
/// pool's own index range; the first `parents_size` outgoing slots are
/// offspring of two distinct pool members and every remaining slot is a fresh
/// unscored vector below `max_val`.
pub open spec fn ga_step_reproduction(
    prev: Seq<DNA>,
    next: Seq<DNA>,
    parents_size: int,
    resample: int,
    max_val: u64,
) -> bool {
    exists|sorted_pop: Seq<DNA>, pool: Seq<DNA>|
        #![trigger sorted_pop.to_multiset(), pool.len()]
        {
            &&& sorted_pop.to_multiset() == prev.to_multiset()
            &&& sorted_pop.len() == prev.len()
            &&& sorted_desc(sorted_pop)
            &&& pool.len() == parents_size
            &&& forall|i: int| 0 <= i < parents_size - resample ==> pool[i] == sorted_pop[i]
            &&& forall|i: int| 0 <= i < parents_size ==> from_pool(sorted_pop, parents_size, #[trigger] pool[i])
            &&& forall|i: int| 0 <= i < parents_size ==> offspring_of(pool, #[trigger] next[i])
            &&& forall|i: int| parents_size <= i < next.len()
                ==> (#[trigger] next[i]).score == 0 && params_below(next[i], max_val)
        }
}

impl DNA {
    /// A fresh random vector: six weights drawn uniformly below `max_val`,
    /// not yet scored.
    pub fn new(max_val: u64, rng: &mut rand::rngs::StdRng) -> (d: DNA)
        requires
            max_val > 0,
        ensures
            forall|i: int| 0 <= i < 6 ==> #[trigger] d.params@[i] < max_val,
            d.score == 0,
    {
        let p0 = rng_next_u64(rng) % max_val;
        let p1 = rng_next_u64(rng) % max_val;
        let p2 = rng_next_u64(rng) % max_val;
        let p3 = rng_next_u64(rng) % max_val;
        let p4 = rng_next_u64(rng) % max_val;
        let p5 = rng_next_u64(rng) % max_val;
        DNA { params: [p0, p1, p2, p3, p4, p5], score: 0 }
    }
}

/// Sort the population by score, highest first; the members themselves are
/// only rearranged.
pub fn sort_by_score_desc(pop: &mut Vec<DNA>)
    ensures
        final(pop)@.len() == old(pop)@.len(),
        sorted_desc(final(pop)@),
        final(pop)@.to_multiset() == old(pop)@.to_multiset(),
{
    broadcast use vstd::seq_lib::group_to_multiset_ensures;
    broadcast use vstd::seq_lib::to_multiset_update;

    let mut i: usize = 1;
    while i < pop.len()
        invariant
            pop@.len() == old(pop)@.len(),
            1 <= i,
            pop@.len() == 0 || (i <= pop@.len() && sorted_desc(pop@.subrange(0, i as int))),
            pop@.to_multiset() == old(pop)@.to_multiset(),
        decreases pop@.len() - i,
    {
        proof {
            assert forall|a: int, b: int| 0 <= a <= b < i implies pop@[a].score >= pop@[b].score by {
                assert(pop@.subrange(0, i as int)[a] == pop@[a]);
                assert(pop@.subrange(0, i as int)[b] == pop@[b]);
            }
        }
        let mut j: usize = i;
        while j > 0 && pop[j - 1].score < pop[j].score
            invariant
                pop@.len() == old(pop)@.len(),
                1 <= i < pop@.len(),
                0 <= j <= i,
                forall|a: int, b: int|
                    0 <= a <= b <= i && a != j && b != j ==> #[trigger] pop@[a].score >= #[trigger] pop@[b].score,
                forall|b: int| j < b <= i ==> pop@[j as int].score >= #[trigger] pop@[b].score,
                pop@.to_multiset() == old(pop)@.to_multiset(),
            decreases j,
        {
            let ghost before = pop@;
            let hi = pop[j - 1];
            let lo = pop[j];
            pop[j - 1] = lo;
            pop[j] = hi;
            proof {
                assert(pop@ == before.update(j - 1, lo).update(j as int, hi));
                assert(before[j - 1] == hi && before[j as int] == lo);
                assert(before.contains(hi));
                assert(before.update(j - 1, lo)[j as int] == lo);
                vstd::seq_lib::to_multiset_update(before, j - 1, lo);
                vstd::seq_lib::to_multiset_update(before.update(j - 1, lo), j as int, hi);
                assert(before.update(j - 1, lo).to_multiset()
                    == before.to_multiset().insert(lo).remove(hi));
                assert(pop@.to_multiset()
                    == before.to_multiset().insert(lo).remove(hi).insert(hi).remove(lo));
                before.to_multiset_ensures();
                assert(before.contains(hi) ==> before.to_multiset().count(hi) > 0);
                assert(before.to_multiset().count(hi) > 0);
                assert(pop@.to_multiset() =~= before.to_multiset());
            }
            j -= 1;
        }
        proof {
            assert(sorted_desc(pop@.subrange(0, i + 1))) by {
                assert forall|a: int, b: int| 0 <= a <= b <= i implies pop@[a].score >= pop@[b].score by {
                    if a == j as int || b == j as int {
                        if j > 0 {
                            assert(pop@[j - 1].score >= pop@[j as int].score);
                        }
                    }
                }
            }
        }
        i += 1;
    }
    proof {
        if pop@.len() > 0 {
            assert(pop@.subrange(0, pop@.len() as int) =~= pop@);
        }
    }
}

/// The parent pool: the top of the (sorted) population, with the trailing
/// `resample` slots replaced by members drawn at random from the pool's own
/// index range, reintroducing diversity.
pub fn choose_parents(pop: &Vec<DNA>, parents_size: usize, resample: usize, rng: &mut rand::rngs::StdRng) -> (parents: Vec<DNA>)
    requires
        1 <= parents_size <= pop@.len(),
        resample <= parents_size,
    ensures
        parents@.len() == parents_size,
        forall|i: int| 0 <= i < parents_size - resample ==> parents@[i] == pop@[i],
        forall|i: int| 0 <= i < parents_size ==> from_pool(pop@, parents_size as int, #[trigger] parents@[i]),
{
    let mut parents: Vec<DNA> = Vec::new();
    let mut idx: usize = 0;
    while idx < parents_size
        invariant
            parents_size <= pop@.len(),
            idx <= parents_size,
            parents@.len() == idx,
            forall|i: int| 0 <= i < idx ==> parents@[i] == pop@[i],
        decreases parents_size - idx,
    {
        parents.push(pop[idx]);
        idx += 1;
    }
    proof {
        assert forall|i: int| 0 <= i < parents_size implies from_pool(pop@, parents_size as int, #[trigger] parents@[i]) by {
            assert(parents@[i] == pop@[i]);
        }
    }

    let mut idx2: usize = parents_size - resample;
    while idx2 < parents_size
        invariant
            1 <= parents_size <= pop@.len(),
            resample <= parents_size,
            parents_size - resample <= idx2 <= parents_size,
            parents@.len() == parents_size,
            forall|i: int| 0 <= i < parents_size - resample ==> parents@[i] == pop@[i],
            forall|i: int| 0 <= i < parents_size ==> from_pool(pop@, parents_size as int, #[trigger] parents@[i]),
        decreases parents_size - idx2,
    {
        let pick = (rng_next_u64(rng) % parents_size as u64) as usize;
        parents[idx2] = pop[pick];
        proof {
            assert(parents@[idx2 as int] == pop@[pick as int]);
        }
        idx2 += 1;
    }
    parents
}

/// Uniform crossover: the child starts as the first parent (score tag
/// included); each of the first five weights independently has an even chance
/// to come from the second parent instead. The sixth weight never crosses.
pub fn crossover(p1: &DNA, p2: &DNA, rng: &mut rand::rngs::StdRng) -> (child: DNA)
    ensures
        child.score == p1.score,
        child.params@[5] == p1.params@[5],
        forall|k: int| 0 <= k < 5
            ==> #[trigger] child.params@[k] == p1.params@[k] || child.params@[k] == p2.params@[k],
{
    let c0 = if rng_next_u64(rng) % 2 == 0 { p2.params[0] } else { p1.params[0] };
    let c1 = if rng_next_u64(rng) % 2 == 0 { p2.params[1] } else { p1.params[1] };
    let c2 = if rng_next_u64(rng) % 2 == 0 { p2.params[2] } else { p1.params[2] };
    let c3 = if rng_next_u64(rng) % 2 == 0 { p2.params[3] } else { p1.params[3] };
    let c4 = if rng_next_u64(rng) % 2 == 0 { p2.params[4] } else { p1.params[4] };
    DNA { params: [c0, c1, c2, c3, c4, p1.params[5]], score: p1.score }
}

/// With probability `1 / mutation_probability`, shrink one weight, chosen
/// uniformly, to a random fraction of itself: up to a quarter for a rare
/// large mutation, up to a twentieth otherwise. A perturbation that would be
/// negative is discarded, leaving the weight unchanged.
pub fn mutate(d: &mut DNA, mutation_probability: u64, rng: &mut rand::rngs::StdRng)
    requires
        mutation_probability > 0,
    ensures
        final(d).score == old(d).score,
        forall|i: int| 0 <= i < 6
            ==> final(d).params@[i] == old(d).params@[i]
                || #[trigger] final(d).params@[i] <= old(d).params@[i] / 4,
        forall|i: int, j: int| 0 <= i < j < 6
            ==> final(d).params@[i] == old(d).params@[i] || final(d).params@[j] == old(d).params@[j],
{
    if rng_next_u64(rng) % mutation_probability == 0 {
        let param_idx = (rng_next_u64(rng) % 6) as usize;
        // A larger mutation in a third of the cases.
        let bound: u64 = if rng_next_u64(rng) % 3 == 0 { 250_000 } else { 50_000 };
        // The factor is uniform over [-bound, bound] millionths; a negative
        // factor makes the new value negative, which is discarded (for a
        // weight of zero the outcome is zero either way).
        if rng_next_u64(rng) % 2 == 0 {
            let millionths = rng_next_u64(rng) % (bound + 1);
            let value = d.params[param_idx];
            proof {
                assert(value as u128 * millionths as u128 <= u64::MAX as u128 * 250_000)
                    by (nonlinear_arith)
                    requires
                        value as u128 <= u64::MAX as u128,
                        millionths as u128 <= 250_000;
            }
            let wide: u128 = value as u128 * millionths as u128;
            let frac: u128 = wide / 1_000_000;
            proof {
                lemma_mul_inequality(millionths as int, 250_000, value as int);
                assert(wide as int == millionths as int * value as int) by (nonlinear_arith)
                    requires wide as int == value as int * millionths as int;
                lemma_div_is_ordered(millionths as int * value as int, 250_000 * value as int, 1_000_000);
                // (250000 * v) / 1000000 is exactly v / 4.
                lemma_fundamental_div_mod(value as int, 4);
                assert(250_000 * value as int == 1_000_000 * (value as int / 4) + 250_000 * (value as int % 4));
                lemma_div_multiples_vanish_fancy(value as int / 4, 250_000 * (value as int % 4), 1_000_000);
                assert(250_000 * value as int / 1_000_000 == value as int / 4);
                assert(frac <= value as int / 4);
            }
            let new_val = frac as u64;
            let mut params = d.params;
            if param_idx == 0 {
                params = [new_val, params[1], params[2], params[3], params[4], params[5]];
            } else if param_idx == 1 {
                params = [params[0], new_val, params[2], params[3], params[4], params[5]];
            } else if param_idx == 2 {
                params = [params[0], params[1], new_val, params[3], params[4], params[5]];
            } else if param_idx == 3 {
                params = [params[0], params[1], params[2], new_val, params[4], params[5]];
            } else if param_idx == 4 {
                params = [params[0], params[1], params[2], params[3], new_val, params[5]];
            } else {
                params = [params[0], params[1], params[2], params[3], params[4], new_val];
            }
            d.params = params;
        }
    }
}

/// Build the next generation in place: the first `parents.len()` slots become
/// crossover-plus-mutation offspring of two distinct parents, every remaining
/// slot a fresh random vector.
pub fn next_generation(
    pop: &mut Vec<DNA>,
    parents: &Vec<DNA>,
    max_val: u64,
    mutation_probability: u64,
    rng: &mut rand::rngs::StdRng,
)
    requires
        2 <= parents@.len() <= old(pop)@.len(),
        max_val > 0,
        mutation_probability > 0,
    ensures
        final(pop)@.len() == old(pop)@.len(),
        forall|i: int| 0 <= i < parents@.len() ==> offspring_of(parents@, #[trigger] final(pop)@[i]),
        forall|i: int| parents@.len() <= i < final(pop)@.len() ==> {
            &&& (#[trigger] final(pop)@[i]).score == 0
            &&& forall|k: int| 0 <= k < 6 ==> #[trigger] final(pop)@[i].params@[k] < max_val
        },
{
    let parents_size = parents.len();
    let mut idx: usize = 0;
    while idx < parents_size
        invariant
            2 <= parents_size == parents@.len() <= pop@.len(),
            pop@.len() == old(pop)@.len(),
            max_val > 0,
            mutation_probability > 0,
            idx <= parents_size,
            forall|i: int| 0 <= i < idx ==> offspring_of(parents@, #[trigger] pop@[i]),
        decreases parents_size - idx,
    {
        // Two distinct parents, both uniform over the pool.
        let parent1_idx = (rng_next_u64(rng) % parents_size as u64) as usize;
        let draw = (rng_next_u64(rng) % (parents_size as u64 - 1)) as usize;
        let parent2_idx = if draw >= parent1_idx { draw + 1 } else { draw };

        let mut child = crossover(&parents[parent1_idx], &parents[parent2_idx], rng);
        mutate(&mut child, mutation_probability, rng);
        proof {
            assert(child_of(parents@[parent1_idx as int], parents@[parent2_idx as int], child));
        }
        pop[idx] = child;
        idx += 1;
    }

    let pop_size = pop.len();
    let mut idx2: usize = parents_size;
    while idx2 < pop_size
        invariant
            2 <= parents_size == parents@.len(),
            pop@.len() == old(pop)@.len(),
            pop_size == pop@.len(),
            parents_size <= idx2 <= pop_size,
            max_val > 0,
            mutation_probability > 0,
            forall|i: int| 0 <= i < parents_size ==> offspring_of(parents@, #[trigger] pop@[i]),
            forall|i: int| parents_size <= i < idx2 ==> {
                &&& (#[trigger] pop@[i]).score == 0
                &&& forall|k: int| 0 <= k < 6 ==> #[trigger] pop@[i].params@[k] < max_val
            },
        decreases pop_size - idx2,
    {
        let fresh = DNA::new(max_val, rng);
        pop[idx2] = fresh;
        idx2 += 1;
    }
}

/// Evaluate every member: its score becomes the average score of
/// `run_amount` simulated games played with its weights.
pub fn evaluate_population(pop: &mut Vec<DNA>, run_amount: usize)
    requires
        1 <= run_amount <= u32::MAX,
    ensures
        final(pop)@.len() == old(pop)@.len(),
        forall|i: int| 0 <= i < final(pop)@.len()
            ==> (#[trigger] final(pop)@[i]).params == old(pop)@[i].params,
        forall|i: int| 0 <= i < final(pop)@.len()
            ==> (#[trigger] final(pop)@[i]).score <= 41 * crate::sim::STEP_LIMIT,
{
    let mut idx: usize = 0;
    while idx < pop.len()
        invariant
            1 <= run_amount <= u32::MAX,
            pop@.len() == old(pop)@.len(),
            idx <= pop@.len(),
            forall|i: int| 0 <= i < pop@.len() ==> (#[trigger] pop@[i]).params == old(pop)@[i].params,
            forall|i: int| 0 <= i < idx ==> (#[trigger] pop@[i]).score <= 41 * crate::sim::STEP_LIMIT,
        decreases pop@.len() - idx,
    {
        let mut member = pop[idx];
        member.score = run_tetris(run_amount, true, member.params) as u64;
        pop[idx] = member;
        idx += 1;
    }
}

/// One generation step over an already evaluated population: sort it, fold
/// the leader into the best-ever vector, select parents, and reproduce. The
/// best-ever score never decreases and ends at least as high as every
/// evaluated member's score.
pub fn ga_step(
    pop: &mut Vec<DNA>,
    best: &mut DNA,
    parents_size: usize,
    resample: usize,
    max_val: u64,
    mutation_probability: u64,
    rng: &mut rand::rngs::StdRng,
)
    requires
        2 <= parents_size <= old(pop)@.len(),
        resample <= parents_size,
        max_val > 0,
        mutation_probability > 0,
    ensures
        final(pop)@.len() == old(pop)@.len(),
        final(best).score >= old(best).score,
        forall|i: int| 0 <= i < old(pop)@.len() ==> final(best).score >= (#[trigger] old(pop)@[i]).score,
        *final(best) == *old(best) || old(pop)@.contains(*final(best)),
        ga_step_reproduction(old(pop)@, final(pop)@, parents_size as int, resample as int, max_val),
        (forall|i: int| 0 <= i < old(pop)@.len() ==> params_below(#[trigger] old(pop)@[i], max_val))
            ==> forall|i: int| 0 <= i < final(pop)@.len() ==> params_below(#[trigger] final(pop)@[i], max_val),
{
    broadcast use vstd::seq_lib::group_to_multiset_ensures;

    let ghost before = pop@;
    sort_by_score_desc(pop);
    proof {
        assert forall|i: int| 0 <= i < before.len() implies pop@[0].score >= (#[trigger] before[i]).score by {
            assert(before.to_multiset().contains(before[i]));
            assert(pop@.to_multiset().contains(before[i]));
            assert(pop@.contains(before[i]));
            let j = choose|j: int| 0 <= j < pop@.len() && pop@[j] == before[i];
            assert(pop@[0].score >= pop@[j].score);
        }
        // Every sorted member is an incoming member, so weight bounds carry.
        assert forall|i: int| 0 <= i < pop@.len()
            && (forall|k: int| 0 <= k < before.len() ==> params_below(#[trigger] before[k], max_val))
            implies params_below(#[trigger] pop@[i], max_val) by {
            assert(pop@.contains(pop@[i]));
            assert(pop@.to_multiset().contains(pop@[i]));
            assert(before.to_multiset().contains(pop@[i]));
            assert(before.contains(pop@[i]));
            let k = choose|k: int| 0 <= k < before.len() && before[k] == pop@[i];
            assert(params_below(before[k], max_val));
        }
    }
    let ghost sorted_snapshot = pop@;
    if pop[0].score > best.score {
        *best = pop[0];
        proof {
            assert(sorted_snapshot.contains(sorted_snapshot[0]));
            assert(sorted_snapshot.to_multiset().contains(sorted_snapshot[0]));
            assert(before.to_multiset().contains(sorted_snapshot[0]));
            assert(before.contains(*best));
        }
    }
    let parents = choose_parents(pop, parents_size, resample, rng);
    next_generation(pop, &parents, max_val, mutation_probability, rng);
    proof {
        // The sorted population and the selected pool witness the
        // reproduction shape of the outgoing population.
        assert(sorted_snapshot.to_multiset() == old(pop)@.to_multiset());
        assert(parents@.len() == parents_size);
        assert(ga_step_reproduction(old(pop)@, pop@, parents_size as int, resample as int, max_val));

        // Weight bounds carry from the pool into every offspring.
        if forall|i: int| 0 <= i < old(pop)@.len() ==> params_below(#[trigger] old(pop)@[i], max_val) {
            assert forall|i: int| 0 <= i < parents@.len() implies params_below(#[trigger] parents@[i], max_val) by {
                assert(from_pool(sorted_snapshot, parents_size as int, parents@[i]));
                let j = choose|j: int| 0 <= j < parents_size && parents@[i] == sorted_snapshot[j];
                assert(params_below(sorted_snapshot[j], max_val));
            }
            assert forall|i: int| 0 <= i < pop@.len() implies params_below(#[trigger] pop@[i], max_val) by {
                if i < parents_size {
                    assert(offspring_of(parents@, pop@[i]));
                    let (a, b) = choose|a: int, b: int|
                        #![trigger parents@[a], parents@[b]]
                        0 <= a < parents@.len() && 0 <= b < parents@.len() && a != b
                            && child_of(parents@[a], parents@[b], pop@[i]);
                    assert(params_below(parents@[a], max_val));
                    assert(params_below(parents@[b], max_val));
                    assert forall|k: int| 0 <= k < 6 implies #[trigger] pop@[i].params@[k] < max_val by {
                        if k < 5 {
                            assert(pop@[i].params@[k] <= parents@[a].params@[k]
                                || pop@[i].params@[k] <= parents@[b].params@[k]);
                        } else {
                            assert(pop@[i].params@[5] <= parents@[a].params@[5]);
                        }
                    }
                }
            }
        }
    }
}

/// The optimizer loop: from a random population, evaluate, select and
/// reproduce until the best score reaches the target or the generation cap.
/// The returned vector's weights stay below `max_val` (all members ever bred
/// do), and its score is either the untouched initial zero or the average
/// game score of an evaluated member, so it never exceeds the simulation's
/// own bound.
pub fn run_ga(
    pop_size: usize,
    parents_size: usize,
    resample: usize,
    max_val: u64,
    target_score: u64,
    max_generation: u64,
    mutation_probability: u64,
    run_amount: usize,
    rng: &mut rand::rngs::StdRng,
) -> (best: DNA)
    requires
        2 <= parents_size <= pop_size,
        resample <= parents_size,
        max_val > 0,
        mutation_probability > 0,
        1 <= run_amount <= u32::MAX,
    ensures
        params_below(best, max_val),
        best.score <= 41 * crate::sim::STEP_LIMIT,
{
    let mut population: Vec<DNA> = Vec::new();
    let mut i: usize = 0;
    while i < pop_size
        invariant
            max_val > 0,
            i <= pop_size,
            population@.len() == i,
            forall|k: int| 0 <= k < i ==> params_below(#[trigger] population@[k], max_val),
        decreases pop_size - i,
    {
        let fresh = DNA::new(max_val, rng);
        population.push(fresh);
        i += 1;
    }

    let mut best = DNA { params: [0, 0, 0, 0, 0, 0], score: 0 };
    let mut generation: u64 = 0;

    while best.score < target_score && generation < max_generation
        invariant
            2 <= parents_size <= pop_size,
            resample <= parents_size,
            max_val > 0,
            mutation_probability > 0,
            1 <= run_amount <= u32::MAX,
            population@.len() == pop_size,
            generation <= max_generation,
            forall|k: int| 0 <= k < pop_size ==> params_below(#[trigger] population@[k], max_val),
            params_below(best, max_val),
            best.score <= 41 * crate::sim::STEP_LIMIT,
        decreases max_generation - generation,
    {
        generation += 1;
        let ghost pre_eval = population@;
        evaluate_population(&mut population, run_amount);
        proof {
            assert forall|k: int| 0 <= k < pop_size implies params_below(#[trigger] population@[k], max_val) by {
                assert(population@[k].params == pre_eval[k].params);
                assert(params_below(pre_eval[k], max_val));
            }
        }
        let ghost evaluated = population@;
        let ghost best_before = best;
        ga_step(&mut population, &mut best, parents_size, resample, max_val, mutation_probability, rng);
        proof {
            if best != best_before {
                assert(evaluated.contains(best));
                let k = choose|k: int| 0 <= k < evaluated.len() && evaluated[k] == best;
                assert(evaluated[k].score <= 41 * crate::sim::STEP_LIMIT);
                assert(params_below(evaluated[k], max_val));
            }
        }
    }
    best
}

} // verus!
