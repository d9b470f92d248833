use vstd::prelude::*;

use crate::ai::{best_upto, eval, OFFSETS, TURNS};
use crate::blocks::BlockShape;
use crate::game::{collides, landed, landing, shape_of, Game};
use crate::rng::{random_range, random_u8, shuffle_vec};

verus! {

/// Number of individuals in a population.
pub const POPULATION: usize = 20;

/// Number of generations a training run goes through.
pub const GENERATION_MAX: usize = 20;

/// A simulated game ends once this many lines have been cleared.
pub const LINE_COUNT_MAX: usize = 256;

/// Shares of the next generation, in percent, made by each operator.
pub const CROSSOVER_RATE: usize = 70;
pub const MUTATION_RATE: usize = 10;
pub const SELECTION_RATE: usize = 20;

/// The board features a genome weighs.
#[derive(Clone, Copy, Debug, PartialEq, Eq, Structural)]
pub enum GenomeKind {
    Line,
    HeightMax,
    HeightDiff,
    DeadSpace,
}

/// Four weights, one per `GenomeKind`, in the order of its variants.
pub type GenoSeq = [u8; 4];

pub open spec fn kind_index(kind: GenomeKind) -> int {
    match kind {
        GenomeKind::Line => 0,
        GenomeKind::HeightMax => 1,
        GenomeKind::HeightDiff => 2,
        GenomeKind::DeadSpace => 3,
    }
}

/// The weight that `geno` gives to the feature `kind`.
pub fn gene(geno: &GenoSeq, kind: GenomeKind) -> (r: u8)
    ensures
        r == geno[kind_index(kind)],
{
    match kind {
        GenomeKind::Line => geno[0],
        GenomeKind::HeightMax => geno[1],
        GenomeKind::HeightDiff => geno[2],
        GenomeKind::DeadSpace => geno[3],
    }
}

/// A genome with the fitness its last simulated game reached.
#[derive(Clone, Copy, Debug)]
pub struct Individual {
    pub geno: GenoSeq,
    pub score: usize,
}

/// How many genomes of the next generation each operator makes.
#[derive(Clone, Copy, Debug, PartialEq, Eq, Structural)]
pub struct OperatorSizes {
    pub crossover: usize,
    pub mutation: usize,
    pub selection: usize,
}

/// Why a set of reproduction rates is refused.
#[derive(Clone, Copy, Debug, PartialEq, Eq, Structural)]
pub enum RateError {
    /// The three rates do not add up to 100 percent.
    RatesNotHundred,
    /// The three sizes do not add up to the population size.
    SizesMismatch,
}

pub open spec fn share(population: int, rate: int) -> int {
    population * rate / 100
}

/// Splits a population into the numbers of genomes that crossover, mutation and
/// selection make, each `population * rate / 100`; refuses rates that do not add
/// up to 100, or sizes that do not add up to the population.
pub fn operator_sizes(
    population: usize,
    crossover_rate: usize,
    mutation_rate: usize,
    selection_rate: usize,
) -> (r: Result<OperatorSizes, RateError>)
    requires
        population <= usize::MAX / 100,
    ensures
        crossover_rate + mutation_rate + selection_rate != 100 ==> r == Err::<OperatorSizes, RateError>(RateError::RatesNotHundred),
        crossover_rate + mutation_rate + selection_rate == 100 ==> {
            let c = share(population as int, crossover_rate as int);
            let m = share(population as int, mutation_rate as int);
            let s = share(population as int, selection_rate as int);
            if c + m + s == population {
                r == Ok::<OperatorSizes, RateError>(OperatorSizes { crossover: c as usize, mutation: m as usize, selection: s as usize })
            } else {
                r == Err::<OperatorSizes, RateError>(RateError::SizesMismatch)
            }
        },
{
    if crossover_rate > 100 || mutation_rate > 100 || selection_rate > 100
        || crossover_rate + mutation_rate + selection_rate != 100 {
        return Err(RateError::RatesNotHundred);
    }
    assert(population * crossover_rate <= population * 100) by (nonlinear_arith)
        requires crossover_rate <= 100;
    assert(population * mutation_rate <= population * 100) by (nonlinear_arith)
        requires mutation_rate <= 100;
    assert(population * selection_rate <= population * 100) by (nonlinear_arith)
        requires selection_rate <= 100;
    let c = population * crossover_rate / 100;
    let m = population * mutation_rate / 100;
    let s = population * selection_rate / 100;
    assert(c <= population && m <= population && s <= population) by (nonlinear_arith)
        requires
            c == population * crossover_rate / 100,
            m == population * mutation_rate / 100,
            s == population * selection_rate / 100,
            crossover_rate <= 100, mutation_rate <= 100, selection_rate <= 100;
    if c + m + s != population {
        return Err(RateError::SizesMismatch);
    }
    Ok(OperatorSizes { crossover: c, mutation: m, selection: s })
}

/// The inclusive range `start ..= end` of `x` and `y` exchanged (nothing when
/// `start > end`).
pub open spec fn swapped_gene(x: GenoSeq, y: GenoSeq, start: int, end: int, k: int) -> u8 {
    if start <= k <= end { y[k] } else { x[k] }
}

/// Exchanges the coefficients at positions `start ..= end` between `x` and `y`.
pub fn mem_swap_range(x: &mut GenoSeq, y: &mut GenoSeq, start: usize, end: usize)
    requires
        start > end || end < 4,
    ensures
        forall|k: int| 0 <= k < 4 ==> #[trigger] final(x)[k] == swapped_gene(*old(x), *old(y), start as int, end as int, k),
        forall|k: int| 0 <= k < 4 ==> #[trigger] final(y)[k] == swapped_gene(*old(y), *old(x), start as int, end as int, k),
{
    let ghost x0 = *x;
    let ghost y0 = *y;
    let mut i: usize = start;
    while i <= end
        invariant
            start > end || end < 4,
            start <= i,
            start <= end ==> i <= end + 1,
            start > end ==> i == start,
            forall|k: int| 0 <= k < 4 ==> #[trigger] x[k] == (if start <= k < i { y0[k] } else { x0[k] }),
            forall|k: int| 0 <= k < 4 ==> #[trigger] y[k] == (if start <= k < i { x0[k] } else { y0[k] }),
        decreases end + 1 - i,
    {
        assert(i < 4);
        let t = x[i];
        x[i] = y[i];
        y[i] = t;
        i = i + 1;
    }
    assert(x0 == *old(x) && y0 == *old(y));
    assert forall|k: int| 0 <= k < 4 implies #[trigger] x[k] == swapped_gene(x0, y0, start as int, end as int, k) by {
        if start <= k <= end {
            assert(k < i);
        }
    }
    assert forall|k: int| 0 <= k < 4 implies #[trigger] y[k] == swapped_gene(y0, x0, start as int, end as int, k) by {
        if start <= k <= end {
            assert(k < i);
        }
    }
}


/// `out` is `pool` with its genomes paired by position, `2i` with `2i + 1`, and
/// the coefficients `pts[i].0 ..= pts[i].1` exchanged within pair `i`; an
/// unpaired last genome stays as it is.
pub open spec fn is_crossed(pool: Seq<GenoSeq>, pts: Seq<(usize, usize)>, out: Seq<GenoSeq>) -> bool {
    &&& pts.len() == pool.len() / 2
    &&& out.len() == pool.len()
    &&& forall|i: int, k: int| 0 <= i < pts.len() && 0 <= k < 4 ==> {
        &&& #[trigger] out[2 * i][k] == swapped_gene(pool[2 * i], pool[2 * i + 1], pts[i].0 as int, pts[i].1 as int, k)
        &&& out[2 * i + 1][k] == swapped_gene(pool[2 * i + 1], pool[2 * i], pts[i].0 as int, pts[i].1 as int, k)
    }
    &&& forall|j: int| 2 * pts.len() <= j < pool.len() ==> #[trigger] out[j] == pool[j]
}

/// Crossover points of a pair: `p1 <= p2`, both genome positions.
pub open spec fn valid_points(pts: Seq<(usize, usize)>) -> bool {
    forall|i: int| 0 <= i < pts.len() ==> #[trigger] pts[i].0 <= pts[i].1 && pts[i].1 < 4
}

/// Pairs `genos` up by position, `2i` with `2i + 1`, and exchanges within pair
/// `i` the coefficients `points[i].0 ..= points[i].1`; an unpaired last genome
/// stays as it is.
pub fn cross_pairs(genos: &mut Vec<GenoSeq>, points: &Vec<(usize, usize)>)
    requires
        points.len() == old(genos).len() / 2,
        forall|i: int| 0 <= i < points.len() ==> #[trigger] points[i].1 < 4,
    ensures
        is_crossed(old(genos)@, points@, final(genos)@),
{
    let ghost g0 = genos@;
    let n = points.len();
    let mut i: usize = 0;
    while i < n
        invariant
            n == points.len(),
            n == g0.len() / 2,
            genos.len() == g0.len(),
            0 <= i <= n,
            forall|p: int| 0 <= p < points.len() ==> #[trigger] points[p].1 < 4,
            forall|p: int, k: int| 0 <= p < i && 0 <= k < 4 ==>
                #[trigger] genos[2 * p][k] == swapped_gene(g0[2 * p], g0[2 * p + 1], points[p].0 as int, points[p].1 as int, k),
            forall|p: int, k: int| 0 <= p < i && 0 <= k < 4 ==>
                #[trigger] genos[2 * p + 1][k] == swapped_gene(g0[2 * p + 1], g0[2 * p], points[p].0 as int, points[p].1 as int, k),
            forall|j: int| 2 * i <= j < g0.len() ==> #[trigger] genos[j] == g0[j],
        decreases n - i,
    {
        let (p1, p2) = points[i];
        let mut a = genos[2 * i];
        let mut b = genos[2 * i + 1];
        mem_swap_range(&mut a, &mut b, p1, p2);
        let ghost before = genos@;
        genos.set(2 * i, a);
        genos.set(2 * i + 1, b);
        proof {
            assert forall|p: int, k: int| 0 <= p < i + 1 && 0 <= k < 4 implies
                #[trigger] genos[2 * p][k] == swapped_gene(g0[2 * p], g0[2 * p + 1], points[p].0 as int, points[p].1 as int, k) by {
                if p < i {
                    assert(genos[2 * p] == before[2 * p]);
                } else {
                    assert(before[2 * p] == g0[2 * p] && before[2 * p + 1] == g0[2 * p + 1]);
                    assert(genos[2 * p][k] == a[k]);
                }
            }
            assert forall|p: int, k: int| 0 <= p < i + 1 && 0 <= k < 4 implies
                #[trigger] genos[2 * p + 1][k] == swapped_gene(g0[2 * p + 1], g0[2 * p], points[p].0 as int, points[p].1 as int, k) by {
                if p < i {
                    assert(genos[2 * p + 1] == before[2 * p + 1]);
                } else {
                    assert(before[2 * p] == g0[2 * p] && before[2 * p + 1] == g0[2 * p + 1]);
                    assert(genos[2 * p + 1][k] == b[k]);
                }
            }
        }
        i = i + 1;
    }
}

/// Individual `i` comes before individual `j` in the elite order: a higher
/// fitness first, and among equal fitness the earlier position first.
pub open spec fn ranks_before(s: Seq<Individual>, i: int, j: int) -> bool {
    s[i].score > s[j].score || (s[i].score == s[j].score && i < j)
}

/// `ord` lists every position of `s` once, sorted by descending fitness, ties
/// kept in their original order (a stable sort).
pub open spec fn is_rank_order(s: Seq<Individual>, ord: Seq<usize>) -> bool {
    &&& ord.len() == s.len()
    &&& forall|a: int| 0 <= a < ord.len() ==> #[trigger] ord[a] < s.len()
    &&& forall|a: int, b: int| 0 <= a < b < ord.len() ==> ranks_before(s, #[trigger] ord[a] as int, #[trigger] ord[b] as int)
    &&& forall|m: usize| m < s.len() ==> #[trigger] ord.contains(m)
}

/// The positions of `inds` sorted by descending fitness, ties in original order.
pub fn elite_order(inds: &Vec<Individual>) -> (r: Vec<usize>)
    ensures
        is_rank_order(inds@, r@),
{
    let ghost s = inds@;
    let mut ord: Vec<usize> = Vec::new();
    let mut i: usize = 0;
    while i < inds.len()
        invariant
            s == inds@,
            0 <= i <= s.len(),
            ord.len() == i,
            forall|a: int| 0 <= a < ord.len() ==> #[trigger] ord[a] < i,
            forall|a: int, b: int| 0 <= a < b < ord.len() ==> ranks_before(s, #[trigger] ord[a] as int, #[trigger] ord[b] as int),
            forall|m: usize| m < i ==> #[trigger] ord@.contains(m),
        decreases s.len() - i,
    {
        let score = inds[i].score;
        let mut pos: usize = 0;
        while pos < ord.len() && inds[ord[pos]].score >= score
            invariant
                s == inds@,
                i < s.len(),
                score == s[i as int].score,
                0 <= pos <= ord.len(),
                ord.len() == i,
                forall|a: int| 0 <= a < ord.len() ==> #[trigger] ord[a] < i,
                forall|a: int| 0 <= a < pos ==> ranks_before(s, #[trigger] ord[a] as int, i as int),
            decreases ord.len() - pos,
        {
            pos = pos + 1;
        }
        let ghost old_ord = ord@;
        proof {
            assert forall|a: int| pos <= a < old_ord.len() implies ranks_before(s, i as int, #[trigger] old_ord[a] as int) by {
                if a > pos {
                    assert(ranks_before(s, old_ord[pos as int] as int, old_ord[a] as int));
                }
            }
        }
        ord.insert(pos, i);
        proof {
            let o = ord@;
            assert(o == old_ord.insert(pos as int, i));
            assert forall|a: int, b: int| 0 <= a < b < o.len() implies ranks_before(s, #[trigger] o[a] as int, #[trigger] o[b] as int) by {
                if a < pos && b > pos {
                    assert(o[a] == old_ord[a]);
                    assert(o[b] == old_ord[b - 1]);
                } else if a < pos && b < pos {
                    assert(o[a] == old_ord[a]);
                    assert(o[b] == old_ord[b]);
                } else if a > pos {
                    assert(o[a] == old_ord[a - 1]);
                    assert(o[b] == old_ord[b - 1]);
                    assert(ranks_before(s, old_ord[a - 1] as int, old_ord[b - 1] as int));
                }
            }
            assert forall|m: usize| m < i + 1 implies #[trigger] o.contains(m) by {
                if m == i {
                    assert(o[pos as int] == m);
                } else {
                    assert(old_ord.contains(m));
                    let a = choose|a: int| 0 <= a < old_ord.len() && old_ord[a] == m;
                    if a < pos {
                        assert(o[a] == m);
                    } else {
                        assert(o[a + 1] == m);
                    }
                }
            }
        }
        i = i + 1;
    }
    ord
}

/// Elitism: the genomes of the `count` fittest individuals, fittest first, ties
/// in original order.
pub fn selection(inds: &Vec<Individual>, count: usize) -> (r: Vec<GenoSeq>)
    requires
        count <= inds.len(),
    ensures
        selection_result(inds@, count as int, r@),
{
    let ord = elite_order(inds);
    let mut r: Vec<GenoSeq> = Vec::new();
    let mut a: usize = 0;
    while a < count
        invariant
            count <= inds.len(),
            is_rank_order(inds@, ord@),
            0 <= a <= count,
            r.len() == a,
            forall|b: int| 0 <= b < a ==> #[trigger] r[b] == inds@[ord[b] as int].geno,
        decreases count - a,
    {
        r.push(inds[ord[a]].geno);
        a = a + 1;
    }
    assert(is_rank_order(inds@, ord@));
    r
}

/// Along an elite order fitness never rises, and where all fitness values
/// differ it strictly falls.
pub proof fn lemma_rank_order_descending(s: Seq<Individual>, ord: Seq<usize>)
    requires
        is_rank_order(s, ord),
    ensures
        forall|a: int, b: int| 0 <= a < b < ord.len() ==> s[#[trigger] ord[a] as int].score >= s[#[trigger] ord[b] as int].score,
        (forall|i: int, j: int| 0 <= i < j < s.len() ==> #[trigger] s[i].score != #[trigger] s[j].score) ==>
            forall|a: int, b: int| 0 <= a < b < ord.len() ==> s[#[trigger] ord[a] as int].score > s[#[trigger] ord[b] as int].score,
{
    if forall|i: int, j: int| 0 <= i < j < s.len() ==> #[trigger] s[i].score != #[trigger] s[j].score {
        assert forall|a: int, b: int| 0 <= a < b < ord.len() implies s[#[trigger] ord[a] as int].score > s[#[trigger] ord[b] as int].score by {
            let (i, j) = (ord[a] as int, ord[b] as int);
            assert(ranks_before(s, i, j));
            if i < j {
                assert(s[i].score != s[j].score);
            } else {
                assert(s[j].score != s[i].score);
            }
        }
    }
}

/// The first place of an elite order holds an individual of the highest fitness.
pub proof fn lemma_rank_order_first_is_fittest(s: Seq<Individual>, ord: Seq<usize>)
    requires
        is_rank_order(s, ord),
        s.len() > 0,
    ensures
        forall|m: usize| m < s.len() ==> s[ord[0] as int].score >= #[trigger] s[m as int].score,
{
    assert forall|m: usize| m < s.len() implies s[ord[0] as int].score >= #[trigger] s[m as int].score by {
        assert(ord.contains(m));
        let a = choose|a: int| 0 <= a < ord.len() && ord[a] == m;
        if a > 0 {
            assert(ranks_before(s, ord[0] as int, ord[a] as int));
        }
    }
}


/// Value `v` stands at position `k` of some genome of `s`.
pub open spec fn gene_from(s: Seq<Individual>, k: int, v: u8) -> bool {
    exists|j: int| 0 <= j < s.len() && #[trigger] s[j].geno[k] == v
}

/// Every coefficient of `g` comes from the same position of some genome of `s`.
pub open spec fn inherits(s: Seq<Individual>, g: GenoSeq) -> bool {
    forall|k: int| 0 <= k < 4 ==> #[trigger] gene_from(s, k, g[k])
}

/// `g` equals some genome of `s` in all positions but at most one.
pub open spec fn one_gene_from(s: Seq<Individual>, g: GenoSeq) -> bool {
    exists|j: int, m: int| 0 <= j < s.len() && 0 <= m < 4 && #[trigger] agrees_except(g, s[j].geno, m)
}

/// `g` and `h` agree at every position but `m`.
pub open spec fn agrees_except(g: GenoSeq, h: GenoSeq, m: int) -> bool {
    forall|k: int| 0 <= k < 4 && k != m ==> #[trigger] g[k] == h[k]
}

/// `g` is the genome of some individual of `s`.
pub open spec fn is_genome_of(s: Seq<Individual>, g: GenoSeq) -> bool {
    exists|j: int| 0 <= j < s.len() && #[trigger] s[j].geno == g
}

/// The genomes of `s`, in order.
pub open spec fn genomes(s: Seq<Individual>) -> Seq<GenoSeq> {
    Seq::new(s.len(), |j: int| s[j].geno)
}

/// `pool` holds the genomes of `s`, each as often as there, in some order.
pub open spec fn same_genomes(pool: Seq<GenoSeq>, s: Seq<Individual>) -> bool {
    pool.to_multiset() == genomes(s).to_multiset()
}

/// How crossover made `r`: `pool` is the parents' genomes reordered, `crossed`
/// is `pool` crossed pairwise at the points `pts`, and `r` is the first
/// `r.len()` genomes of `mixed`, a reordering of `crossed`.
pub open spec fn crossover_trace(
    s: Seq<Individual>,
    pool: Seq<GenoSeq>,
    pts: Seq<(usize, usize)>,
    crossed: Seq<GenoSeq>,
    mixed: Seq<GenoSeq>,
    r: Seq<GenoSeq>,
) -> bool {
    &&& same_genomes(pool, s)
    &&& valid_points(pts)
    &&& is_crossed(pool, pts, crossed)
    &&& mixed.to_multiset() == crossed.to_multiset()
    &&& r.len() <= mixed.len()
    &&& r == mixed.take(r.len() as int)
}

/// `r` is a possible result of crossover on `s` that keeps `count` genomes.
pub open spec fn crossover_result(s: Seq<Individual>, count: int, r: Seq<GenoSeq>) -> bool {
    &&& r.len() == count
    &&& exists|pool: Seq<GenoSeq>, pts: Seq<(usize, usize)>, crossed: Seq<GenoSeq>, mixed: Seq<GenoSeq>|
        #[trigger] crossover_trace(s, pool, pts, crossed, mixed, r)
}

/// `g` is `h` with at most one coefficient changed.
pub open spec fn mutated_from(g: GenoSeq, h: GenoSeq) -> bool {
    exists|m: int| 0 <= m < 4 && #[trigger] agrees_except(g, h, m)
}

/// `r` is a possible result of mutation on `s` that keeps `count` genomes:
/// `pool` is the parents' genomes reordered, and each `r[a]` agrees with
/// `pool[a]` in every position but one.
pub open spec fn mutation_result(s: Seq<Individual>, count: int, r: Seq<GenoSeq>) -> bool {
    &&& r.len() == count
    &&& exists|pool: Seq<GenoSeq>| {
        &&& #[trigger] same_genomes(pool, s)
        &&& count <= pool.len()
        &&& forall|a: int| 0 <= a < count ==> #[trigger] mutated_from(r[a], pool[a])
    }
}

/// `r` is the result of selection on `s` keeping `count` genomes: those of the
/// first `count` individuals of the elite order.
pub open spec fn selection_result(s: Seq<Individual>, count: int, r: Seq<GenoSeq>) -> bool {
    &&& r.len() == count
    &&& exists|ord: Seq<usize>| {
        &&& #[trigger] is_rank_order(s, ord)
        &&& forall|a: int| 0 <= a < count ==> #[trigger] r[a] == s[ord[a] as int].geno
    }
}

/// The genomes of `inds`, in order.
pub fn genomes_of(inds: &Vec<Individual>) -> (r: Vec<GenoSeq>)
    ensures
        r@ == genomes(inds@),
        r.len() == inds.len(),
        forall|j: int| 0 <= j < r.len() ==> #[trigger] r[j] == inds@[j].geno,
{
    let mut r: Vec<GenoSeq> = Vec::new();
    let mut j: usize = 0;
    while j < inds.len()
        invariant
            0 <= j <= inds.len(),
            r.len() == j,
            forall|b: int| 0 <= b < j ==> #[trigger] r[b] == inds@[b].geno,
        decreases inds.len() - j,
    {
        r.push(inds[j].geno);
        j = j + 1;
    }
    assert(r@ =~= genomes(inds@));
    r
}

proof fn lemma_shuffle_contains<A>(before: Seq<A>, after: Seq<A>)
    requires
        after.to_multiset() == before.to_multiset(),
    ensures
        forall|j: int| 0 <= j < after.len() ==> #[trigger] before.contains(after[j]),
{
    broadcast use vstd::seq_lib::group_to_multiset_ensures;
    assert forall|j: int| 0 <= j < after.len() implies #[trigger] before.contains(after[j]) by {
        let v = after[j];
        assert(after.contains(v));
        assert(after.to_multiset().count(v) > 0);
    }
}

/// Crossover: shuffles the genomes of `inds`, pairs them by position, exchanges
/// a random inclusive range `p1 ..= p2` within each pair, shuffles again and
/// keeps `count` of them. Each coefficient of a result comes from the same
/// position of some parent.
pub fn crossover(inds: &Vec<Individual>, count: usize) -> (r: Vec<GenoSeq>)
    requires
        count <= inds.len(),
    ensures
        crossover_result(inds@, count as int, r@),
        forall|a: int| 0 <= a < r.len() ==> inherits(inds@, #[trigger] r[a]),
{
    let ghost s = inds@;
    let mut genos = genomes_of(inds);
    proof {
        assert forall|j: int| 0 <= j < genos.len() implies inherits(s, #[trigger] genos[j]) by {
            assert forall|k: int| 0 <= k < 4 implies #[trigger] gene_from(s, k, genos[j][k]) by {
                assert(s[j].geno[k] == genos[j][k]);
            }
        }
    }
    let ghost g0 = genos@;
    shuffle_vec(&mut genos);
    proof {
        lemma_shuffle_contains(g0, genos@);
        assert forall|j: int| 0 <= j < genos.len() implies inherits(s, #[trigger] genos[j]) by {
            assert(g0.contains(genos[j]));
        }
    }
    let half = genos.len() / 2;
    let mut points: Vec<(usize, usize)> = Vec::new();
    let mut i: usize = 0;
    while i < half
        invariant
            0 <= i <= half,
            points.len() == i,
            valid_points(points@),
        decreases half - i,
    {
        let p1 = random_range(0, 4);
        let p2 = random_range(p1, 4);
        points.push((p1, p2));
        i = i + 1;
    }
    let ghost g1 = genos@;
    proof {
        assert forall|p: int| 0 <= p < points.len() implies #[trigger] points[p].1 < 4 by {
            assert(points@[p].0 <= points@[p].1 && points@[p].1 < 4);
        }
    }
    cross_pairs(&mut genos, &points);
    proof {
        assert forall|j: int| 0 <= j < genos.len() implies inherits(s, #[trigger] genos[j]) by {
            if j >= 2 * points.len() {
                assert(genos[j] == g1[j]);
            } else {
                let p = j / 2;
                assert forall|k: int| 0 <= k < 4 implies #[trigger] gene_from(s, k, genos[j][k]) by {
                    assert(inherits(s, g1[2 * p]));
                    assert(inherits(s, g1[2 * p + 1]));
                    assert(gene_from(s, k, g1[2 * p][k]));
                    assert(gene_from(s, k, g1[2 * p + 1][k]));
                    if j == 2 * p {
                        assert(genos[2 * p][k] == swapped_gene(g1[2 * p], g1[2 * p + 1], points[p].0 as int, points[p].1 as int, k));
                    } else {
                        assert(j == 2 * p + 1);
                        assert(genos[2 * p][k] == swapped_gene(g1[2 * p], g1[2 * p + 1], points[p].0 as int, points[p].1 as int, k));
                        assert(genos[2 * p + 1][k] == swapped_gene(g1[2 * p + 1], g1[2 * p], points[p].0 as int, points[p].1 as int, k));
                    }
                }
            }
        }
    }
    let ghost g2 = genos@;
    shuffle_vec(&mut genos);
    proof {
        lemma_shuffle_contains(g2, genos@);
        assert forall|j: int| 0 <= j < genos.len() implies inherits(s, #[trigger] genos[j]) by {
            assert(g2.contains(genos[j]));
        }
    }
    let ghost g3 = genos@;
    genos.truncate(count);
    proof {
        assert(genos@ =~= g3.take(count as int));
        assert(crossover_trace(s, g1, points@, g2, g3, genos@));
    }
    genos
}

/// Mutation: shuffles the genomes of `inds`, keeps `count` of them, and sets one
/// randomly chosen coefficient of each to a fresh random value.
pub fn mutation(inds: &Vec<Individual>, count: usize) -> (r: Vec<GenoSeq>)
    requires
        count <= inds.len(),
    ensures
        mutation_result(inds@, count as int, r@),
        forall|a: int| 0 <= a < r.len() ==> one_gene_from(inds@, #[trigger] r[a]),
{
    let ghost s = inds@;
    let mut genos = genomes_of(inds);
    let ghost g0 = genos@;
    shuffle_vec(&mut genos);
    proof {
        assert forall|j: int| 0 <= j < g0.len() implies is_genome_of(s, #[trigger] g0[j]) by {
            assert(s[j].geno == g0[j]);
        }
        lemma_shuffle_contains(g0, genos@);
        assert forall|j: int| 0 <= j < genos.len() implies is_genome_of(s, #[trigger] genos[j]) by {
            assert(g0.contains(genos[j]));
        }
    }
    let mut r: Vec<GenoSeq> = Vec::new();
    let mut a: usize = 0;
    while a < count
        invariant
            count <= genos.len(),
            0 <= a <= count,
            r.len() == a,
            forall|j: int| 0 <= j < genos.len() ==> is_genome_of(s, #[trigger] genos[j]),
            forall|b: int| 0 <= b < a ==> one_gene_from(s, #[trigger] r[b]),
            forall|b: int| 0 <= b < a ==> #[trigger] mutated_from(r[b], genos[b]),
        decreases count - a,
    {
        let mut g = genos[a];
        let idx = random_range(0, 4);
        let v = random_u8();
        g[idx] = v;
        proof {
            let g0a = genos[a as int];
            assert(is_genome_of(s, g0a));
            let j = choose|j: int| 0 <= j < s.len() && s[j].geno == g0a;
            assert(agrees_except(g, s[j].geno, idx as int));
            assert(agrees_except(g, g0a, idx as int));
        }
        r.push(g);
        a = a + 1;
    }
    proof {
        assert(same_genomes(genos@, s));
    }
    r
}


/// `inds` holds an individual of the highest fitness whose genome is in `genos`.
pub open spec fn keeps_a_fittest(s: Seq<Individual>, genos: Seq<GenoSeq>) -> bool {
    exists|b: int|
        0 <= b < s.len() && (forall|m: int| 0 <= m < s.len() ==> s[b].score >= #[trigger] s[m].score)
            && #[trigger] genos.contains(s[b].geno)
}

/// The genomes of the next generation: the outputs of crossover, mutation and
/// selection, in the sizes given, concatenated and shuffled. Every genome that
/// selection keeps is among them, so whenever selection keeps at least one, a
/// fittest individual's genome is among them.
pub fn gen_next_generation(inds: &Vec<Individual>, sizes: OperatorSizes) -> (r: Vec<GenoSeq>)
    requires
        sizes.crossover <= inds.len(),
        sizes.mutation <= inds.len(),
        sizes.selection <= inds.len(),
    ensures
        r.len() == sizes.crossover + sizes.mutation + sizes.selection,
        exists|c: Seq<GenoSeq>, m: Seq<GenoSeq>, e: Seq<GenoSeq>| {
            &&& #[trigger] crossover_result(inds@, sizes.crossover as int, c)
            &&& #[trigger] mutation_result(inds@, sizes.mutation as int, m)
            &&& #[trigger] selection_result(inds@, sizes.selection as int, e)
            &&& r@.to_multiset() == (c + m + e).to_multiset()
            &&& forall|a: int| 0 <= a < e.len() ==> r@.contains(#[trigger] e[a])
        },
        sizes.selection >= 1 ==> keeps_a_fittest(inds@, r@),
{
    let mut genos = crossover(inds, sizes.crossover);
    let mut mutated = mutation(inds, sizes.mutation);
    let mut elite = selection(inds, sizes.selection);
    let ghost c = genos@;
    let ghost mu = mutated@;
    let ghost e = elite@;
    genos.append(&mut mutated);
    let ghost before_elite = genos@;
    genos.append(&mut elite);
    let ghost g0 = genos@;
    proof {
        if sizes.selection >= 1 {
            let ord = choose|ord: Seq<usize>| {
                &&& is_rank_order(inds@, ord)
                &&& forall|a: int| 0 <= a < sizes.selection ==> #[trigger] e[a] == inds@[ord[a] as int].geno
            };
            lemma_rank_order_first_is_fittest(inds@, ord);
            let b = ord[0] as int;
            assert(e[0] == inds@[b].geno);
            assert(g0[before_elite.len() as int] == e[0]);
            assert(g0.contains(inds@[b].geno));
            assert forall|m: int| 0 <= m < inds@.len() implies inds@[b].score >= #[trigger] inds@[m].score by {
                assert(inds@[b].score >= inds@[m as usize as int].score);
            }
        }
    }
    shuffle_vec(&mut genos);
    proof {
        broadcast use vstd::seq_lib::group_to_multiset_ensures;
        if sizes.selection >= 1 {
            let b = choose|b: int|
                0 <= b < inds@.len() && (forall|m: int| 0 <= m < inds@.len() ==> inds@[b].score >= #[trigger] inds@[m].score)
                    && #[trigger] g0.contains(inds@[b].geno);
            let v = inds@[b].geno;
            assert(g0.to_multiset().count(v) > 0);
            assert(genos@.to_multiset().count(v) > 0);
            assert(genos@.contains(v));
        }
        assert(g0 =~= c + mu + e);
        assert forall|a: int| 0 <= a < e.len() implies genos@.contains(#[trigger] e[a]) by {
            let v = e[a];
            assert(g0[c.len() + mu.len() + a] == v);
            assert(g0.contains(v));
            assert(g0.to_multiset().count(v) > 0);
            assert(genos@.to_multiset().count(v) > 0);
        }
        assert(crossover_result(inds@, sizes.crossover as int, c));
        assert(mutation_result(inds@, sizes.mutation as int, mu));
        assert(selection_result(inds@, sizes.selection as int, e));
    }
    genos
}

/// A population of `n` individuals with random genomes and fitness 0.
pub fn random_population(n: usize) -> (r: Vec<Individual>)
    ensures
        r.len() == n,
        forall|j: int| 0 <= j < n ==> #[trigger] r[j].score == 0,
{
    let mut r: Vec<Individual> = Vec::new();
    let mut j: usize = 0;
    while j < n
        invariant
            0 <= j <= n,
            r.len() == j,
            forall|b: int| 0 <= b < j ==> #[trigger] r[b].score == 0,
        decreases n - j,
    {
        let geno: GenoSeq = [random_u8(), random_u8(), random_u8(), random_u8()];
        r.push(Individual { geno, score: 0 });
        j = j + 1;
    }
    r
}

/// Installs `genos` onto the individuals one for one; fitness is left as it
/// was until the next simulation recomputes it.
pub fn install_genomes(inds: &mut Vec<Individual>, genos: &Vec<GenoSeq>)
    requires
        genos.len() == old(inds).len(),
    ensures
        final(inds).len() == old(inds).len(),
        forall|j: int| 0 <= j < genos.len() ==> #[trigger] final(inds)[j] == (Individual { geno: genos[j], score: old(inds)[j].score }),
{
    let ghost i0 = inds@;
    let mut j: usize = 0;
    while j < genos.len()
        invariant
            genos.len() == i0.len(),
            inds.len() == i0.len(),
            0 <= j <= genos.len(),
            forall|b: int| 0 <= b < j ==> #[trigger] inds[b] == (Individual { geno: genos[b], score: i0[b].score }),
            forall|b: int| j <= b < i0.len() ==> #[trigger] inds[b] == i0[b],
        decreases genos.len() - j,
    {
        let score = inds[j].score;
        inds.set(j, Individual { geno: genos[j], score });
        j = j + 1;
    }
}

/// One move of a simulated training game: the evaluator under `geno` picks
/// the placement, the piece lands and `next` spawns. Returns whether the game
/// goes on: `next` found room and the line target is not yet reached.
pub fn simulation_step(game: &mut Game, geno: &GenoSeq, next: BlockShape) -> (go_on: bool)
    ensures
        final(game)@ == landed(best_upto(old(game)@, *geno, (TURNS * OFFSETS) as nat).0, shape_of(next)),
        go_on == (!collides(final(game)@.field, 5, 0, shape_of(next)) && final(game)@.line < LINE_COUNT_MAX),
{
    *game = eval(game, geno);
    match landing(game, next) {
        Ok(()) => game.line < LINE_COUNT_MAX,
        Err(_) => false,
    }
}

} // verus!
