//! A single candidate of the search: a genome of characters together with
//! the integer score it earned against the target phrase.

use vstd::prelude::*;
use crate::rng::rand_below;
use crate::RATE_DENOM;

verus! {

/// Mathematical model of a candidate: its score and its genome.
pub struct DnaView {
    pub score: nat,
    pub genes: Seq<char>,
}

/// One candidate genome. `score` is the number of positions at which
/// `genes` matched the target when the candidate was last scored; the
/// conventional fitness fraction is `score / target length`. A fresh
/// candidate carries score 0.
#[derive(Clone, Debug, PartialEq)]
pub struct DNA {
    pub score: usize,
    pub genes: Vec<char>,
}

impl View for DNA {
    type V = DnaView;

    open spec fn view(&self) -> DnaView {
        DnaView { score: self.score as nat, genes: self.genes@ }
    }
}

/// The models of a sequence of candidates, in order.
pub open spec fn dna_views(s: Seq<DNA>) -> Seq<DnaView> {
    s.map_values(|d: DNA| d@)
}

/// Appending a candidate appends its model.
pub proof fn lemma_views_push(s: Seq<DNA>, d: DNA)
    ensures
        dna_views(s.push(d)) == dna_views(s).push(d@),
{
    assert(dna_views(s.push(d)) =~= dna_views(s).push(d@));
}

/// The characters a random draw can produce: space, period, and the code
/// points 65 through 122 (upper case, some punctuation, lower case).
pub open spec fn is_chromosome(c: char) -> bool {
    c == ' ' || c == '.' || (65 <= c as int && c as int <= 122)
}

/// Number of positions `i < n` at which `genes` and `target` agree.
pub open spec fn match_count_upto(genes: Seq<char>, target: Seq<char>, n: int) -> nat
    decreases n,
{
    if n <= 0 {
        0
    } else {
        match_count_upto(genes, target, n - 1) + (if genes[n - 1] == target[n - 1] {
            1nat
        } else {
            0nat
        })
    }
}

/// Number of positions at which `genes` and `target` agree, over the whole
/// genome.
pub open spec fn match_count(genes: Seq<char>, target: Seq<char>) -> nat
    recommends
        genes.len() == target.len(),
{
    match_count_upto(genes, target, genes.len() as int)
}

/// Single-point splice: the prefix of `a` up to `m` followed by the suffix
/// of `b` from `m` on.
pub open spec fn crossed(a: Seq<char>, b: Seq<char>, m: int) -> Seq<char>
    recommends
        a.len() == b.len(),
        0 <= m <= a.len(),
{
    a.subrange(0, m) + b.subrange(m, b.len() as int)
}

/// Pointwise mutation: position `i` is replaced by `repls[i]` exactly when
/// `draws[i] < rate`, and kept otherwise.
pub open spec fn mutated(genes: Seq<char>, draws: Seq<u64>, repls: Seq<char>, rate: u64) -> Seq<
    char,
>
    recommends
        draws.len() == genes.len(),
        repls.len() == genes.len(),
{
    Seq::new(genes.len(), |i: int| if draws[i] < rate {
        repls[i]
    } else {
        genes[i]
    })
}

/// Relies on `String: FromIterator<char>` (reached through `collect`): the
/// returned string holds exactly the characters of the iterator, in order.
#[verifier::external_body]
fn chars_to_string(genes: &Vec<char>) -> (s: String)
    ensures
        s@ == genes@,
{
    genes.iter().collect()
}

impl DNA {
    /// Draw one random character of the genome alphabet: a raw value in
    /// `63..123` whose two reserved low values stand for space and period,
    /// while every other value is its own code point.
    pub fn gen_chromosome() -> (c: char)
        ensures
            is_chromosome(c),
    {
        let raw: usize = rand_below(60);
        let x: u8 = (raw as u8) + 63;
        if x == 63 {
            ' '
        } else if x == 64 {
            '.'
        } else {
            x as char
        }
    }

    /// A genome of `genec` independently drawn random characters.
    pub fn construct_genes(genec: usize) -> (genes: Vec<char>)
        ensures
            genes@.len() == genec,
            forall|i: int| 0 <= i < genec ==> is_chromosome(genes@[i]),
    {
        let mut genes: Vec<char> = Vec::new();
        let mut i: usize = 0;
        while i < genec
            invariant
                i <= genec,
                genes@.len() == i,
                forall|j: int| 0 <= j < i ==> is_chromosome(genes@[j]),
            decreases genec - i,
        {
            genes.push(Self::gen_chromosome());
            i = i + 1;
        }
        genes
    }

    /// A fresh candidate: score 0 and a random genome of length `genec`.
    pub fn new(genec: usize) -> (d: DNA)
        ensures
            d@.score == 0,
            d@.genes.len() == genec,
            forall|i: int| 0 <= i < genec ==> is_chromosome(d@.genes[i]),
    {
        DNA { score: 0, genes: Self::construct_genes(genec) }
    }

    /// An exact copy of this candidate.
    pub fn duplicate(&self) -> (d: DNA)
        ensures
            d@ == self@,
    {
        let genes = self.genes.clone();
        proof {
            assert(genes@ =~= self.genes@);
        }
        DNA { score: self.score, genes }
    }

    /// Score this candidate: `score` becomes the number of positions at
    /// which the genome matches the target. The genome itself is untouched.
    pub fn calc_fitness(&mut self, target: &str)
        requires
            old(self).genes@.len() == target@.len(),
        ensures
            final(self)@.genes == old(self)@.genes,
            final(self)@.score == match_count(old(self)@.genes, target@),
            final(self)@.score <= target@.len(),
    {
        self.score = count_matches(&self.genes, target);
        proof {
            lemma_match_count_upto_bounds(self.genes@, target@, self.genes@.len() as int);
        }
    }

    /// The genome joined as a string. The result is a function of the
    /// genome alone, so any two calls return the same string.
    pub fn get_phrase(&self) -> (s: String)
        ensures
            s@ == self@.genes,
    {
        chars_to_string(&self.genes)
    }

    /// Splice this genome with a partner's at the given midpoint: the
    /// child's genome keeps this candidate's characters before `midpoint`
    /// and takes the partner's from `midpoint` on. Neither parent is
    /// touched; the child is unscored.
    pub fn crossover_at(&self, partner: &DNA, midpoint: usize) -> (child: DNA)
        requires
            self.genes@.len() == partner.genes@.len(),
            midpoint <= self.genes@.len(),
        ensures
            child@.genes == crossed(self@.genes, partner@.genes, midpoint as int),
            child@.genes.len() == self@.genes.len(),
            child@.score == 0,
    {
        let n = self.genes.len();
        let mut genes: Vec<char> = Vec::new();
        let mut i: usize = 0;
        while i < midpoint
            invariant
                i <= midpoint <= n,
                n == self.genes@.len() == partner.genes@.len(),
                genes@ =~= self.genes@.subrange(0, i as int),
            decreases midpoint - i,
        {
            genes.push(self.genes[i]);
            i = i + 1;
        }
        while i < n
            invariant
                midpoint <= i <= n,
                n == self.genes@.len() == partner.genes@.len(),
                genes@ =~= self.genes@.subrange(0, midpoint as int) + partner.genes@.subrange(
                    midpoint as int,
                    i as int,
                ),
            decreases n - i,
        {
            genes.push(partner.genes[i]);
            i = i + 1;
        }
        proof {
            assert(genes@ =~= crossed(self@.genes, partner@.genes, midpoint as int));
        }
        DNA { score: 0, genes }
    }

    /// Splice this genome with a partner's at a random midpoint drawn
    /// uniformly from `[0, length)`.
    pub fn crossover(&self, partner: &DNA) -> (child: DNA)
        requires
            self.genes@.len() == partner.genes@.len(),
            self.genes@.len() >= 1,
        ensures
            child@.genes.len() == self@.genes.len(),
            child@.score == 0,
            exists|m: int|
                0 <= m < self@.genes.len() && child@.genes == crossed(
                    self@.genes,
                    partner@.genes,
                    m,
                ),
    {
        let midpoint = rand_below(self.genes.len());
        let child = self.crossover_at(partner, midpoint);
        proof {
            assert(0 <= (midpoint as int) < self@.genes.len() && child@.genes == crossed(
                self@.genes,
                partner@.genes,
                midpoint as int,
            ));
        }
        child
    }

    /// Mutate the genome: each position is independently replaced by a
    /// fresh random character with probability `mutation_rate` out of
    /// [`RATE_DENOM`]. The score is carried over unchanged, so a zero rate
    /// leaves the candidate as it was.
    pub fn mutate(&self, mutation_rate: u64) -> (out: DNA)
        ensures
            out@.genes.len() == self@.genes.len(),
            out@.score == self@.score,
            mutation_rate == 0 ==> out@.genes == self@.genes,
            forall|i: int|
                0 <= i < out@.genes.len() ==> out@.genes[i] == self@.genes[i] || is_chromosome(
                    out@.genes[i],
                ),
            mutation_rate >= RATE_DENOM ==> forall|i: int|
                0 <= i < out@.genes.len() ==> is_chromosome(out@.genes[i]),
    {
        let n = self.genes.len();
        let denom: usize = 1000000;
        let mut draws: Vec<u64> = Vec::new();
        let mut repls: Vec<char> = Vec::new();
        let mut i: usize = 0;
        while i < n
            invariant
                i <= n,
                denom == 1000000,
                draws@.len() == i,
                repls@.len() == i,
                forall|j: int| 0 <= j < i ==> draws@[j] < RATE_DENOM,
                forall|j: int| 0 <= j < i ==> is_chromosome(repls@[j]),
            decreases n - i,
        {
            let d: usize = rand_below(denom);
            draws.push(d as u64);
            repls.push(Self::gen_chromosome());
            i = i + 1;
        }
        let genes = mutate_genes(&self.genes, &draws, &repls, mutation_rate);
        proof {
            if mutation_rate == 0 {
                assert(genes@ =~= self.genes@);
            }
        }
        DNA { score: self.score, genes }
    }
}

/// Number of positions at which `genes` matches `target`.
pub fn count_matches(genes: &Vec<char>, target: &str) -> (n: usize)
    requires
        genes@.len() == target@.len(),
    ensures
        n == match_count(genes@, target@),
{
    let len = genes.len();
    let mut n: usize = 0;
    let mut i: usize = 0;
    while i < len
        invariant
            i <= len,
            len == genes@.len() == target@.len(),
            n == match_count_upto(genes@, target@, i as int),
            n <= i,
        decreases len - i,
    {
        proof {
            lemma_match_count_upto_bounds(genes@, target@, i as int);
        }
        if genes[i] == target.get_char(i) {
            n = n + 1;
        }
        i = i + 1;
    }
    n
}

/// Apply one round of pointwise mutation: position `i` of the result is
/// `repls[i]` exactly when `draws[i] < rate`, and `genes[i]` otherwise.
pub fn mutate_genes(genes: &Vec<char>, draws: &Vec<u64>, repls: &Vec<char>, rate: u64) -> (out: Vec<
    char,
>)
    requires
        draws@.len() == genes@.len(),
        repls@.len() == genes@.len(),
    ensures
        out@ == mutated(genes@, draws@, repls@, rate),
{
    let n = genes.len();
    let mut out: Vec<char> = Vec::new();
    let mut i: usize = 0;
    while i < n
        invariant
            i <= n,
            n == genes@.len() == draws@.len() == repls@.len(),
            out@.len() == i,
            forall|j: int| 0 <= j < i ==> out@[j] == mutated(genes@, draws@, repls@, rate)[j],
        decreases n - i,
    {
        if draws[i] < rate {
            out.push(repls[i]);
        } else {
            out.push(genes[i]);
        }
        i = i + 1;
    }
    proof {
        assert(out@ =~= mutated(genes@, draws@, repls@, rate));
    }
    out
}

/// The running match count over a prefix never exceeds the prefix length,
/// is exactly the length when the prefix agrees everywhere, and is zero
/// when it agrees nowhere.
proof fn lemma_match_count_upto_bounds(genes: Seq<char>, target: Seq<char>, n: int)
    requires
        0 <= n,
    ensures
        match_count_upto(genes, target, n) <= n,
        (forall|i: int| 0 <= i < n ==> genes[i] == target[i]) ==> match_count_upto(
            genes,
            target,
            n,
        ) == n,
        (forall|i: int| 0 <= i < n ==> genes[i] != target[i]) ==> match_count_upto(
            genes,
            target,
            n,
        ) == 0,
    decreases n,
{
    if n > 0 {
        lemma_match_count_upto_bounds(genes, target, n - 1);
    }
}

/// Law: fitness is a fraction in `[0, 1]`. For genomes of the target's
/// length the match count never exceeds the target's length (so the score
/// over the length is at most 1 and at least 0); a genome identical to the
/// target scores exactly the full length (fitness exactly 1); a genome
/// matching at no position scores exactly 0.
pub proof fn lemma_fitness_bounds(genes: Seq<char>, target: Seq<char>)
    requires
        genes.len() == target.len(),
    ensures
        match_count(genes, target) <= target.len(),
        genes == target ==> match_count(genes, target) == target.len(),
        (forall|i: int| 0 <= i < genes.len() ==> genes[i] != target[i]) ==> match_count(
            genes,
            target,
        ) == 0,
{
    lemma_match_count_upto_bounds(genes, target, genes.len() as int);
}

/// Law: crossover preserves genome length at every valid midpoint, and at
/// the extremes a midpoint of 0 is full replacement by the partner while a
/// midpoint of the whole length keeps the original genome.
pub proof fn lemma_crossover_bounds(a: Seq<char>, b: Seq<char>, m: int)
    requires
        a.len() == b.len(),
        0 <= m <= a.len(),
    ensures
        crossed(a, b, m).len() == a.len(),
        m == 0 ==> crossed(a, b, m) == b,
        m == a.len() ==> crossed(a, b, m) == a,
{
    if m == 0 {
        assert(crossed(a, b, m) =~= b);
    }
    if m == a.len() {
        assert(crossed(a, b, m) =~= a);
    }
}

/// Law: mutation at rate 0 is a no-op on the genome.
pub proof fn lemma_mutate_zero_rate(genes: Seq<char>, draws: Seq<u64>, repls: Seq<char>)
    requires
        draws.len() == genes.len(),
        repls.len() == genes.len(),
    ensures
        mutated(genes, draws, repls, 0) == genes,
{
    assert(mutated(genes, draws, repls, 0) =~= genes);
}

/// Law: reading the phrase is deterministic — it is a function of the
/// genome alone, so two reads of an unmutated candidate are identical.
pub proof fn lemma_get_phrase_deterministic(d: DNA, s1: Seq<char>, s2: Seq<char>)
    requires
        s1 == d@.genes,
        s2 == d@.genes,
    ensures
        s1 == s2,
{
}

/// Law: mutation at a rate no draw can reach replaces every position, so
/// the result is exactly the sequence of replacement characters.
pub proof fn lemma_mutate_full_rate(genes: Seq<char>, draws: Seq<u64>, repls: Seq<char>, rate: u64)
    requires
        draws.len() == genes.len(),
        repls.len() == genes.len(),
        forall|i: int| 0 <= i < draws.len() ==> draws[i] < rate,
    ensures
        mutated(genes, draws, repls, rate) == repls,
{
    assert(mutated(genes, draws, repls, rate) =~= repls);
}

} // verus!
