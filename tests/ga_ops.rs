use tetris_ga::ga::{
    crossover, elite_order, gen_next_generation, gene, genomes_of, install_genomes,
    mem_swap_range, mutation, operator_sizes, random_population, selection, GenoSeq,
    GenomeKind, Individual, OperatorSizes, RateError, CROSSOVER_RATE, MUTATION_RATE,
    POPULATION, SELECTION_RATE,
};

#[test]
fn test_mem_swap_range() {
    let tests = [
        (0..=0, [[5, 2, 3, 4], [1, 6, 7, 8]]),
        (0..=1, [[5, 6, 3, 4], [1, 2, 7, 8]]),
        (1..=1, [[1, 6, 3, 4], [5, 2, 7, 8]]),
        (1..=2, [[1, 6, 7, 4], [5, 2, 3, 8]]),
        (1..=3, [[1, 6, 7, 8], [5, 2, 3, 4]]),
        (0..=3, [[5, 6, 7, 8], [1, 2, 3, 4]]),
    ];
    for (range, [geno1_expect, geno2_expect]) in tests {
        let mut geno1 = [1, 2, 3, 4];
        let mut geno2 = [5, 6, 7, 8];
        mem_swap_range(&mut geno1, &mut geno2, *range.start(), *range.end());
        assert_eq!(geno1, geno1_expect);
        assert_eq!(geno2, geno2_expect);
    }
}

#[test]
fn swap_range_empty_when_start_after_end() {
    let mut a = [1, 2, 3, 4];
    let mut b = [5, 6, 7, 8];
    mem_swap_range(&mut a, &mut b, 3, 1);
    assert_eq!(a, [1, 2, 3, 4]);
    assert_eq!(b, [5, 6, 7, 8]);
}

#[test]
fn gene_reads_by_kind() {
    let g: GenoSeq = [100, 1, 10, 42];
    assert_eq!(gene(&g, GenomeKind::Line), 100);
    assert_eq!(gene(&g, GenomeKind::HeightMax), 1);
    assert_eq!(gene(&g, GenomeKind::HeightDiff), 10);
    assert_eq!(gene(&g, GenomeKind::DeadSpace), 42);
}

#[test]
fn sizes_for_default_rates() {
    let r = operator_sizes(POPULATION, CROSSOVER_RATE, MUTATION_RATE, SELECTION_RATE);
    assert_eq!(r, Ok(OperatorSizes { crossover: 14, mutation: 2, selection: 4 }));
    let s = r.unwrap();
    assert_eq!(s.crossover + s.mutation + s.selection, 20);
}

#[test]
fn sizes_refuse_rates_not_hundred() {
    assert_eq!(operator_sizes(20, 70, 10, 10), Err(RateError::RatesNotHundred));
    assert_eq!(operator_sizes(20, 70, 10, 30), Err(RateError::RatesNotHundred));
}

#[test]
fn sizes_refuse_uneven_partition() {
    // 10 * 33 / 100 = 3, 10 * 33 / 100 = 3, 10 * 34 / 100 = 3: 9 of 10
    assert_eq!(operator_sizes(10, 33, 33, 34), Err(RateError::SizesMismatch));
}

fn ind(geno: GenoSeq, score: usize) -> Individual {
    Individual { geno, score }
}

#[test]
fn elite_order_is_stable_descending() {
    let inds = vec![
        ind([1, 1, 1, 1], 5),
        ind([2, 2, 2, 2], 9),
        ind([3, 3, 3, 3], 5),
        ind([4, 4, 4, 4], 0),
        ind([5, 5, 5, 5], 12),
    ];
    assert_eq!(elite_order(&inds), vec![4, 1, 0, 2, 3]);
}

#[test]
fn selection_keeps_fittest_first() {
    let inds = vec![
        ind([1, 1, 1, 1], 30),
        ind([2, 2, 2, 2], 10),
        ind([3, 3, 3, 3], 50),
        ind([4, 4, 4, 4], 20),
        ind([5, 5, 5, 5], 40),
    ];
    let r = selection(&inds, 3);
    assert_eq!(r, vec![[3, 3, 3, 3], [5, 5, 5, 5], [1, 1, 1, 1]]);
    let scores: Vec<usize> = elite_order(&inds).iter().map(|&i| inds[i].score).collect();
    for w in scores.windows(2) {
        assert!(w[0] > w[1]);
    }
}

#[test]
fn selection_of_none_is_empty() {
    let inds = vec![ind([1, 2, 3, 4], 7)];
    assert!(selection(&inds, 0).is_empty());
}

fn numbered_population(n: usize) -> Vec<Individual> {
    (0..n)
        .map(|i| {
            let b = (i * 10) as u8;
            ind([b, b + 1, b + 2, b + 3], i * 3)
        })
        .collect()
}

#[test]
fn crossover_genes_keep_their_position() {
    let inds = numbered_population(20);
    let r = crossover(&inds, 14);
    assert_eq!(r.len(), 14);
    for g in &r {
        for k in 0..4 {
            assert!(inds.iter().any(|p| p.geno[k] == g[k]));
            assert_eq!(g[k] % 10, k as u8);
        }
    }
}

#[test]
fn mutation_changes_at_most_one_gene() {
    let inds = numbered_population(20);
    let r = mutation(&inds, 2);
    assert_eq!(r.len(), 2);
    for g in &r {
        assert!(inds
            .iter()
            .any(|p| (0..4).filter(|&k| p.geno[k] != g[k]).count() <= 1));
    }
}

#[test]
fn next_generation_keeps_the_fittest_genome() {
    let inds = numbered_population(20);
    let sizes = OperatorSizes { crossover: 14, mutation: 2, selection: 4 };
    let next = gen_next_generation(&inds, sizes);
    assert_eq!(next.len(), 20);
    let best = inds.iter().max_by_key(|i| i.score).unwrap().geno;
    assert!(next.contains(&best));
    for top in selection(&inds, 4) {
        assert!(next.contains(&top));
    }
}

#[test]
fn random_population_starts_unscored() {
    let p = random_population(POPULATION);
    assert_eq!(p.len(), 20);
    assert!(p.iter().all(|i| i.score == 0));
}

#[test]
fn install_keeps_slots_and_fitness() {
    let mut inds = numbered_population(3);
    let genos = vec![[9, 9, 9, 9], [8, 8, 8, 8], [7, 7, 7, 7]];
    install_genomes(&mut inds, &genos);
    assert_eq!(genomes_of(&inds), genos);
    assert_eq!(inds[2].score, 6);
}

#[test]
fn crossover_never_duplicates_a_coefficient() {
    let inds = numbered_population(20);
    let r = crossover(&inds, 14);
    for k in 0..4 {
        let mut seen: Vec<u8> = r.iter().map(|g| g[k]).collect();
        seen.sort();
        seen.dedup();
        assert_eq!(seen.len(), 14);
    }
}

#[test]
fn mutation_takes_distinct_parents() {
    let inds = numbered_population(20);
    let r = mutation(&inds, 10);
    let mut parents: Vec<usize> = r
        .iter()
        .map(|g| {
            inds.iter()
                .position(|p| (0..4).filter(|&k| p.geno[k] == g[k]).count() >= 3)
                .unwrap()
        })
        .collect();
    parents.sort();
    parents.dedup();
    assert_eq!(parents.len(), 10);
}

#[test]
fn next_generation_is_made_of_the_three_parts() {
    let inds = numbered_population(20);
    let sizes = OperatorSizes { crossover: 14, mutation: 2, selection: 4 };
    let next = gen_next_generation(&inds, sizes);
    // every genome keeps each coefficient at its own position
    for g in &next {
        for k in 0..4 {
            if g[k] % 10 != k as u8 {
                // only a mutated coefficient may differ
                assert_eq!((0..4).filter(|&j| g[j] % 10 != j as u8).count(), 1);
            }
        }
    }
}
