//! The evolving population: a fixed-size collection of candidates, the
//! fitness-proportional mating pool derived from it, and the state of the
//! search (generation counter, best candidate so far, termination flag).

use vstd::prelude::*;
use vstd::arithmetic::div_mod::{lemma_div_is_ordered, lemma_div_multiples_vanish};
use vstd::arithmetic::mul::lemma_mul_inequality;
use vstd::string::StrSliceExecFns;
use crate::dna::{DNA, DnaView, crossed, dna_views, is_chromosome, match_count};
use crate::rng::rand_below;
use crate::RATE_DENOM;

verus! {

/// A configuration the search cannot run with, rejected at construction.
#[derive(Clone, Copy, Debug, PartialEq, Eq, Structural)]
pub enum ConfigError {
    /// The target phrase is empty.
    EmptyTarget,
    /// The requested population size is zero.
    ZeroPopulation,
    /// The mutation rate exceeds [`RATE_DENOM`], i.e. a probability above 1.
    RateOutOfRange,
}

/// How many copies of a candidate with the given score enter the mating
/// pool: its fitness fraction scaled to a whole number of hundredths.
pub open spec fn copies_of(score: nat, tlen: nat) -> nat
    recommends
        tlen > 0,
{
    (score * 100) / tlen
}

/// `n` copies of one candidate.
pub open spec fn rep(v: DnaView, n: nat) -> Seq<DnaView> {
    Seq::new(n, |j: int| v)
}

/// The mating pool that fitness-proportional selection builds from the
/// given candidates: each candidate in order, repeated `copies_of` times.
pub open spec fn pool_of(dnas: Seq<DnaView>, tlen: nat) -> Seq<DnaView>
    decreases dnas.len(),
{
    if dnas.len() == 0 {
        Seq::empty()
    } else {
        pool_of(dnas.drop_last(), tlen) + rep(dnas.last(), copies_of(dnas.last().score, tlen))
    }
}

/// `k` is the position of the best candidate under the tie-break rule:
/// no candidate scores higher, and every earlier candidate scores strictly
/// lower (the first occurrence of the maximum wins).
pub open spec fn is_first_best(dnas: Seq<DnaView>, k: int) -> bool {
    &&& 0 <= k < dnas.len()
    &&& forall|j: int| 0 <= j < dnas.len() ==> (#[trigger] dnas[j]).score <= dnas[k].score
    &&& forall|j: int| 0 <= j < k ==> (#[trigger] dnas[j]).score < dnas[k].score
}

/// Where a parent may come from: the mating pool when it has members, and
/// otherwise — every candidate having scored zero — uniformly from the
/// prior generation itself.
pub open spec fn parent_src(pool: Seq<DnaView>, fallback: Seq<DnaView>, v: DnaView) -> bool {
    if pool.len() > 0 {
        pool.contains(v)
    } else {
        fallback.contains(v)
    }
}

/// The shape reproduction gives a child genome `out` from parents `a` and
/// `b`: a single-point splice at some midpoint `m`, each position then
/// either kept or replaced by a random alphabet character; at mutation
/// rate 0 the child is exactly the splice.
pub open spec fn child_shape(a: Seq<char>, b: Seq<char>, out: Seq<char>, m: int, rate: u64) -> bool {
    &&& out.len() == a.len()
    &&& 0 <= m < a.len()
    &&& (rate == 0 ==> out == crossed(a, b, m))
    &&& forall|i: int|
        0 <= i < out.len() ==> (#[trigger] out[i]) == crossed(a, b, m)[i] || is_chromosome(out[i])
}

/// `v` is a candidate that one reproduction step of population `p` could
/// have produced: two parents drawn from `p`'s mating pool (or from its
/// candidates when the pool is empty), spliced and mutated.
pub open spec fn child_of(p: Population, v: DnaView) -> bool {
    exists|pa: DnaView, pb: DnaView, m: int|
        {
            &&& parent_src(dna_views(p.mating_pool@), dna_views(p.dnas@), pa)
            &&& parent_src(dna_views(p.mating_pool@), dna_views(p.dnas@), pb)
            &&& child_shape(pa.genes, pb.genes, v.genes, m, p.mutation_rate)
        }
}

/// The population and the state of the search. `generations` counts the
/// reproduction steps taken; `best_phrase` and `best_score` record the top
/// candidate of the latest evaluation (fitness `best_score / target
/// length`); `is_finished` is set once that fitness reaches exactly 1 and
/// is never unset. `mutation_rate` is a probability numerator over
/// [`RATE_DENOM`].
pub struct Population {
    pub dnas: Vec<DNA>,
    pub mating_pool: Vec<DNA>,
    pub generations: usize,
    pub is_finished: bool,
    pub target: String,
    pub mutation_rate: u64,
    pub best_phrase: Option<String>,
    pub best_score: usize,
}

impl Population {
    /// The candidate invariant: a genome of the target's length and a
    /// score that cannot exceed it.
    pub open spec fn dna_ok(&self, v: DnaView) -> bool {
        v.genes.len() == self.target@.len() && v.score <= self.target@.len()
    }

    /// Well-formedness: a non-empty target, at least one candidate, every
    /// candidate and pool member of the target's genome length with a
    /// score within bounds, and a mutation rate that is a probability.
    pub open spec fn wf(&self) -> bool {
        &&& self.target@.len() >= 1
        &&& self.dnas@.len() >= 1
        &&& forall|i: int| 0 <= i < self.dnas@.len() ==> self.dna_ok((#[trigger] self.dnas@[i])@)
        &&& forall|i: int|
            0 <= i < self.mating_pool@.len() ==> self.dna_ok((#[trigger] self.mating_pool@[i])@)
        &&& self.mutation_rate <= RATE_DENOM
    }

    /// Build a population of `max_population` random candidates for the
    /// given target. Degenerate configurations are rejected: an empty
    /// target, a zero population size, or a mutation rate above certainty,
    /// checked in that order.
    pub fn new(target: String, mutation_rate: u64, max_population: usize) -> (r: Result<
        Population,
        ConfigError,
    >)
        ensures
            (r is Err) <==> (target@.len() == 0 || max_population == 0 || mutation_rate
                > RATE_DENOM),
            (r == Result::<Population, ConfigError>::Err(ConfigError::EmptyTarget)) <==> target@.len() == 0,
            (r == Result::<Population, ConfigError>::Err(ConfigError::ZeroPopulation)) <==> (
            target@.len() >= 1 && max_population == 0),
            (r == Result::<Population, ConfigError>::Err(ConfigError::RateOutOfRange)) <==> (
            target@.len() >= 1 && max_population >= 1 && mutation_rate > RATE_DENOM),
            r matches Ok(p) ==> {
                &&& p.wf()
                &&& p.dnas@.len() == max_population
                &&& forall|i: int|
                    0 <= i < max_population ==> (#[trigger] p.dnas@[i])@.score == 0
                        && p.dnas@[i]@.genes.len() == target@.len()
                &&& p.mating_pool@.len() == 0
                &&& p.generations == 0
                &&& !p.is_finished
                &&& p.target == target
                &&& p.mutation_rate == mutation_rate
                &&& p.best_phrase is None
                &&& p.best_score == 0
            },
    {
        let tlen = target.as_str().unicode_len();
        if tlen == 0 {
            return Err(ConfigError::EmptyTarget);
        }
        if max_population == 0 {
            return Err(ConfigError::ZeroPopulation);
        }
        if mutation_rate > RATE_DENOM {
            return Err(ConfigError::RateOutOfRange);
        }
        let mut dnas: Vec<DNA> = Vec::new();
        let mut i: usize = 0;
        while i < max_population
            invariant
                i <= max_population,
                tlen == target@.len(),
                dnas@.len() == i,
                forall|j: int|
                    0 <= j < i ==> (#[trigger] dnas@[j])@.score == 0 && dnas@[j]@.genes.len()
                        == tlen,
            decreases max_population - i,
        {
            dnas.push(DNA::new(tlen));
            i = i + 1;
        }
        Ok(
            Population {
                dnas,
                mating_pool: Vec::new(),
                generations: 0,
                is_finished: false,
                target,
                mutation_rate,
                best_phrase: None,
                best_score: 0,
            },
        )
    }

    /// Score every candidate against the target: each candidate's score
    /// becomes the number of genome positions matching the target phrase.
    /// Genomes and all other state are untouched.
    pub fn calc_fitness(&mut self)
        requires
            old(self).wf(),
        ensures
            final(self).wf(),
            final(self).dnas@.len() == old(self).dnas@.len(),
            forall|i: int|
                0 <= i < old(self).dnas@.len() ==> {
                    &&& (#[trigger] final(self).dnas@[i])@.genes == old(self).dnas@[i]@.genes
                    &&& final(self).dnas@[i]@.score == match_count(
                        old(self).dnas@[i]@.genes,
                        old(self).target@,
                    )
                },
            final(self).mating_pool == old(self).mating_pool,
            final(self).generations == old(self).generations,
            final(self).is_finished == old(self).is_finished,
            final(self).target == old(self).target,
            final(self).mutation_rate == old(self).mutation_rate,
            final(self).best_phrase == old(self).best_phrase,
            final(self).best_score == old(self).best_score,
    {
        let n = self.dnas.len();
        let mut i: usize = 0;
        while i < n
            invariant
                i <= n,
                old(self).wf(),
                n == self.dnas@.len() == old(self).dnas@.len(),
                self.mating_pool == old(self).mating_pool,
                self.generations == old(self).generations,
                self.is_finished == old(self).is_finished,
                self.target == old(self).target,
                self.mutation_rate == old(self).mutation_rate,
                self.best_phrase == old(self).best_phrase,
                self.best_score == old(self).best_score,
                forall|j: int| i <= j < n ==> self.dnas@[j] == old(self).dnas@[j],
                forall|j: int|
                    0 <= j < i ==> {
                        &&& (#[trigger] self.dnas@[j])@.genes == old(self).dnas@[j]@.genes
                        &&& self.dnas@[j]@.score == match_count(
                            old(self).dnas@[j]@.genes,
                            old(self).target@,
                        )
                        &&& self.dnas@[j]@.score <= old(self).target@.len()
                    },
            decreases n - i,
        {
            proof {
                crate::dna::lemma_fitness_bounds(self.dnas@[i as int]@.genes, self.target@);
            }
            let s = crate::dna::count_matches(&self.dnas[i].genes, self.target.as_str());
            let d = &mut self.dnas[i];
            d.score = s;
            i = i + 1;
        }
    }

    /// Rebuild the mating pool from the current generation alone: the pool
    /// is reset, then each candidate enters it `copies_of` times — its
    /// fitness fraction in whole hundredths — so selection pressure never
    /// carries over from earlier generations.
    pub fn natural_selection(&mut self)
        requires
            old(self).wf(),
        ensures
            final(self).wf(),
            dna_views(final(self).mating_pool@) == pool_of(
                dna_views(old(self).dnas@),
                old(self).target@.len(),
            ),
            final(self).dnas == old(self).dnas,
            final(self).generations == old(self).generations,
            final(self).is_finished == old(self).is_finished,
            final(self).target == old(self).target,
            final(self).mutation_rate == old(self).mutation_rate,
            final(self).best_phrase == old(self).best_phrase,
            final(self).best_score == old(self).best_score,
    {
        let tlen = self.target.as_str().unicode_len();
        let mut pool: Vec<DNA> = Vec::new();
        let n = self.dnas.len();
        let mut i: usize = 0;
        while i < n
            invariant
                i <= n,
                *self == *old(self),
                old(self).wf(),
                n == self.dnas@.len(),
                tlen == self.target@.len(),
                dna_views(pool@) == pool_of(
                    dna_views(self.dnas@).take(i as int),
                    self.target@.len(),
                ),
                forall|j: int| 0 <= j < pool@.len() ==> self.dna_ok((#[trigger] pool@[j])@),
            decreases n - i,
        {
            let score = self.dnas[i].score;
            proof {
                assert(self.dna_ok(self.dnas@[i as int]@));
                lemma_mul_inequality(score as int, tlen as int, 100);
                lemma_div_is_ordered((score as int) * 100, (tlen as int) * 100, tlen as int);
                lemma_div_multiples_vanish(100, tlen as int);
                assert(((score as int) * 100) / (tlen as int) <= 100);
            }
            let copies128: u128 = (score as u128) * 100 / (tlen as u128);
            let copies: usize = copies128 as usize;
            let ghost pool_before = dna_views(pool@);
            let mut k: usize = 0;
            while k < copies
                invariant
                    k <= copies,
                    i < n,
                    *self == *old(self),
                    old(self).wf(),
                    n == self.dnas@.len(),
                    dna_views(pool@) == pool_before + rep(self.dnas@[i as int]@, k as nat),
                    forall|j: int| 0 <= j < pool@.len() ==> self.dna_ok((#[trigger] pool@[j])@),
                decreases copies - k,
            {
                let d = self.dnas[i].duplicate();
                let ghost pool_snap = pool@;
                pool.push(d);
                proof {
                    let v = self.dnas@[i as int]@;
                    assert(self.dna_ok(v));
                    crate::dna::lemma_views_push(pool_snap, d);
                    assert(rep(v, (k + 1) as nat) =~= rep(v, k as nat).push(v));
                    assert(pool_before + rep(v, (k + 1) as nat) =~= (pool_before + rep(
                        v,
                        k as nat,
                    )).push(v));
                    assert(dna_views(pool@) == pool_before + rep(v, (k + 1) as nat));
                }
                k = k + 1;
            }
            proof {
                let views = dna_views(self.dnas@);
                assert(views.take(i + 1).drop_last() =~= views.take(i as int));
                assert(views.take(i + 1).last() == views[i as int]);
                assert(copies as nat == copies_of(self.dnas@[i as int]@.score, tlen as nat));
                assert(dna_views(pool@) =~= pool_of(views.take(i + 1), self.target@.len()));
            }
            i = i + 1;
        }
        proof {
            assert(dna_views(self.dnas@).take(n as int) =~= dna_views(self.dnas@));
        }
        self.mating_pool = pool;
    }

    /// Replace every slot of the population by a child bred from two
    /// parents drawn at random from the mating pool (or, when the pool is
    /// empty, from the prior generation itself), spliced at a random
    /// midpoint and mutated at the configured rate. The prior generation
    /// is read, never corrupted, while the children are built; the
    /// generation counter grows by exactly one.
    pub fn generate(&mut self)
        requires
            old(self).wf(),
            old(self).generations < usize::MAX,
        ensures
            final(self).wf(),
            final(self).generations == old(self).generations + 1,
            final(self).dnas@.len() == old(self).dnas@.len(),
            forall|s: int|
                0 <= s < final(self).dnas@.len() ==> {
                    &&& (#[trigger] final(self).dnas@[s])@.genes.len() == old(self).target@.len()
                    &&& final(self).dnas@[s]@.score == 0
                    &&& child_of(*old(self), final(self).dnas@[s]@)
                },
            final(self).mating_pool == old(self).mating_pool,
            final(self).is_finished == old(self).is_finished,
            final(self).target == old(self).target,
            final(self).mutation_rate == old(self).mutation_rate,
            final(self).best_phrase == old(self).best_phrase,
            final(self).best_score == old(self).best_score,
    {
        let n = self.dnas.len();
        let mut children: Vec<DNA> = Vec::new();
        let mut slot: usize = 0;
        while slot < n
            invariant
                slot <= n,
                *self == *old(self),
                old(self).wf(),
                n == self.dnas@.len(),
                children@.len() == slot,
                forall|j: int|
                    0 <= j < slot ==> {
                        &&& (#[trigger] children@[j])@.genes.len() == self.target@.len()
                        &&& children@[j]@.score == 0
                        &&& child_of(*old(self), children@[j]@)
                    },
            decreases n - slot,
        {
            let pa = pick_parent(&self.mating_pool, &self.dnas);
            let pb = pick_parent(&self.mating_pool, &self.dnas);
            proof {
                lemma_parent_ok(*self, pa@);
                lemma_parent_ok(*self, pb@);
            }
            let child = pa.crossover(pb);
            let mutated_child = child.mutate(self.mutation_rate);
            proof {
                let m = choose|m: int|
                    0 <= m < pa@.genes.len() && child@.genes == crossed(pa@.genes, pb@.genes, m);
                assert(child_shape(pa@.genes, pb@.genes, mutated_child@.genes, m, self.mutation_rate));
                assert(child_of(*old(self), mutated_child@));
            }
            children.push(mutated_child);
            slot = slot + 1;
        }
        self.dnas = children;
        self.generations = self.generations + 1;
    }

    /// Record the best candidate of the current generation — the first one
    /// of maximal score, earlier candidates winning ties — as `best_phrase`
    /// and `best_score`, and finish the search exactly when that candidate
    /// matches the target at every position.
    pub fn evalute(&mut self)
        requires
            old(self).wf(),
        ensures
            final(self).wf(),
            final(self).dnas == old(self).dnas,
            final(self).mating_pool == old(self).mating_pool,
            final(self).generations == old(self).generations,
            final(self).target == old(self).target,
            final(self).mutation_rate == old(self).mutation_rate,
            exists|k: int|
                {
                    &&& is_first_best(dna_views(old(self).dnas@), k)
                    &&& final(self).best_score == old(self).dnas@[k]@.score
                    &&& (final(self).best_phrase matches Some(p) && p@ == old(
                        self,
                    ).dnas@[k]@.genes)
                    &&& final(self).is_finished == (old(self).is_finished || old(
                        self,
                    ).dnas@[k]@.score == old(self).target@.len())
                },
    {
        let n = self.dnas.len();
        let mut best: usize = 0;
        let mut i: usize = 1;
        while i < n
            invariant
                1 <= i <= n,
                best < i,
                *self == *old(self),
                n == self.dnas@.len(),
                forall|j: int|
                    0 <= j < i ==> (#[trigger] self.dnas@[j])@.score <= self.dnas@[
                        best as int
                    ]@.score,
                forall|j: int|
                    0 <= j < best ==> (#[trigger] self.dnas@[j])@.score < self.dnas@[
                        best as int
                    ]@.score,
            decreases n - i,
        {
            if self.dnas[i].score > self.dnas[best].score {
                best = i;
            }
            i = i + 1;
        }
        let phrase = self.dnas[best].get_phrase();
        let bscore = self.dnas[best].score;
        let tlen = self.target.as_str().unicode_len();
        self.best_phrase = Some(phrase);
        self.best_score = bscore;
        if bscore == tlen {
            self.is_finished = true;
        }
        proof {
            assert(is_first_best(dna_views(old(self).dnas@), best as int));
        }
    }
}

/// Draw one parent: uniformly from the mating pool when it has members,
/// and otherwise uniformly from the prior generation.
fn pick_parent<'a>(pool: &'a Vec<DNA>, fallback: &'a Vec<DNA>) -> (r: &'a DNA)
    requires
        fallback@.len() >= 1,
    ensures
        parent_src(dna_views(pool@), dna_views(fallback@), r@),
{
    if pool.len() >= 1 {
        let i = rand_below(pool.len());
        let r = &pool[i];
        proof {
            assert(dna_views(pool@)[i as int] == r@);
        }
        r
    } else {
        let i = rand_below(fallback.len());
        let r = &fallback[i];
        proof {
            assert(dna_views(pool@).len() == 0);
            assert(dna_views(fallback@)[i as int] == r@);
        }
        r
    }
}

/// A parent drawn for reproduction satisfies the candidate invariant of
/// its population: its genome has the target's length.
proof fn lemma_parent_ok(p: Population, v: DnaView)
    requires
        p.wf(),
        parent_src(dna_views(p.mating_pool@), dna_views(p.dnas@), v),
    ensures
        p.dna_ok(v),
{
    if dna_views(p.mating_pool@).len() > 0 {
        let i = choose|i: int|
            0 <= i < dna_views(p.mating_pool@).len() && dna_views(p.mating_pool@)[i] == v;
        assert(p.dna_ok(p.mating_pool@[i]@));
    } else {
        let i = choose|i: int| 0 <= i < dna_views(p.dnas@).len() && dna_views(p.dnas@)[i] == v;
        assert(p.dna_ok(p.dnas@[i]@));
    }
}

/// Law: the mating pool built by selection reflects only the generation it
/// was built from — every entry of the pool equals one of that
/// generation's candidates.
pub proof fn lemma_pool_only_current(dnas: Seq<DnaView>, tlen: nat)
    ensures
        forall|k: int|
            0 <= k < pool_of(dnas, tlen).len() ==> exists|i: int|
                0 <= i < dnas.len() && #[trigger] pool_of(dnas, tlen)[k] == dnas[i],
    decreases dnas.len(),
{
    if dnas.len() > 0 {
        lemma_pool_only_current(dnas.drop_last(), tlen);
        let front = pool_of(dnas.drop_last(), tlen);
        let whole = pool_of(dnas, tlen);
        assert forall|k: int| 0 <= k < whole.len() implies exists|i: int|
            0 <= i < dnas.len() && #[trigger] whole[k] == dnas[i] by {
            if k < front.len() {
                let i = choose|i: int|
                    0 <= i < dnas.drop_last().len() && #[trigger] front[k] == dnas.drop_last()[i];
                assert(whole[k] == front[k]);
                assert(dnas.drop_last()[i] == dnas[i]);
                assert(whole[k] == dnas[i]);
            } else {
                assert(whole[k] == dnas.last());
                assert(whole[k] == dnas[dnas.len() - 1]);
            }
        }
    }
}

} // verus!
