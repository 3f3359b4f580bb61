// Scenario checks of the stated behavior: isolated-vertex inclusion,
// cycle size bounds, the two star outcomes, the single clique survivor,
// validator agreement across graph shapes, and the validator's verdicts.

use luby_mis::{
    luby, luby_algo, luby_algo_par_chunck, luby_algo_par_chunck2, luby_checked, luby_seq,
    is_valid_mis,
};

fn cycle(n: usize) -> Vec<Vec<usize>> {
    (0..n).map(|i| vec![(i + 1) % n, (i + n - 1) % n]).collect()
}

fn star(leaves: usize) -> Vec<Vec<usize>> {
    let mut g: Vec<Vec<usize>> = vec![(1..=leaves).collect()];
    for _ in 1..=leaves {
        g.push(vec![0]);
    }
    g
}

fn count(s: &[bool]) -> usize {
    s.iter().filter(|&&b| b).count()
}

#[test]
fn test_isolated_vertices_always_in_mis() {
    // 0-1 is an edge; 2 and 3 have empty neighbor lists.
    let g: Vec<Vec<usize>> = vec![vec![1], vec![0], vec![], vec![]];
    for mis in [luby(&g), luby_seq(&g), luby_algo(&g), luby_algo_par_chunck(&g),
        luby_algo_par_chunck2(&g)] {
        assert!(is_valid_mis(&g, &mis));
        assert!(mis[2], "isolated vertex left out: {:?}", mis);
        assert!(mis[3], "isolated vertex left out: {:?}", mis);
    }

    // A graph of isolated vertices only: all of them are selected.
    let g2: Vec<Vec<usize>> = vec![vec![], vec![], vec![]];
    let mis2 = luby_seq(&g2);
    assert_eq!(mis2, vec![true, true, true]);
}

#[test]
fn test_cycle_of_twenty_size_bounds() {
    // Any maximal independent set of a 20-cycle has between 7 and 10 members.
    let g = cycle(20);
    for mis in [luby_seq(&g), luby_algo(&g), luby_algo_par_chunck(&g),
        luby_algo_par_chunck2(&g)] {
        assert!(is_valid_mis(&g, &mis));
        let c = count(&mis);
        assert!(7 <= c && c <= 10, "cycle MIS size out of bounds: {}", c);
    }
}

#[test]
fn test_star_two_outcomes() {
    let g = star(15);
    let mut center_only = vec![false; 16];
    center_only[0] = true;
    let mut all_leaves = vec![true; 16];
    all_leaves[0] = false;

    // The validator accepts both maximal-independent outcomes of a star.
    assert!(is_valid_mis(&g, &center_only));
    assert!(is_valid_mis(&g, &all_leaves));

    // The engine's output is always one of the two.
    for mis in [luby_seq(&g), luby_algo(&g), luby_algo_par_chunck(&g),
        luby_algo_par_chunck2(&g)] {
        assert!(mis == center_only || mis == all_leaves, "unexpected star MIS: {:?}", mis);
    }
}

#[test]
fn test_clique_keeps_exactly_one() {
    // A clique of 0..5, plus the disjoint path 5-6-7-8.
    let mut g: Vec<Vec<usize>> = Vec::new();
    for i in 0..5 {
        g.push((0..5).filter(|&x| x != i).collect());
    }
    g.push(vec![6]);
    g.push(vec![5, 7]);
    g.push(vec![6, 8]);
    g.push(vec![7]);

    for mis in [luby_seq(&g), luby_algo(&g), luby_algo_par_chunck(&g),
        luby_algo_par_chunck2(&g)] {
        assert!(is_valid_mis(&g, &mis));
        let in_clique = mis[..5].iter().filter(|&&b| b).count();
        assert_eq!(in_clique, 1, "clique must contribute exactly one vertex: {:?}", mis);
    }
}

#[test]
fn test_validator_agreement_across_shapes() {
    let shapes: Vec<Vec<Vec<usize>>> = vec![
        vec![],
        vec![vec![]],
        vec![vec![1], vec![0]],
        vec![vec![1, 2], vec![0, 2], vec![0, 1]],
        vec![vec![1], vec![0], vec![3], vec![2]],
        star(5),
        cycle(7),
        vec![
            vec![1, 2, 3],
            vec![0, 2, 3],
            vec![0, 1, 3],
            vec![0, 1, 2],
        ],
    ];
    for g in &shapes {
        let (mis, ok) = luby_checked(g);
        assert!(ok, "validator rejected the engine's output: {:?}", mis);
        assert!(is_valid_mis(g, &luby(g)));
        assert!(is_valid_mis(g, &luby_seq(g)));
        assert!(is_valid_mis(g, &luby_algo(g)));
        assert!(is_valid_mis(g, &luby_algo_par_chunck(g)));
        assert!(is_valid_mis(g, &luby_algo_par_chunck2(g)));
    }
}

#[test]
fn test_validator_verdicts() {
    let pair: Vec<Vec<usize>> = vec![vec![1], vec![0]];

    // Two adjacent members break independence.
    assert!(!is_valid_mis(&pair, &vec![true, true]));
    // A vertex with no member neighbor breaks maximality.
    assert!(!is_valid_mis(&pair, &vec![false, false]));
    // Either endpoint alone is a maximal independent set.
    assert!(is_valid_mis(&pair, &vec![true, false]));
    assert!(is_valid_mis(&pair, &vec![false, true]));
    // A short membership vector leaves vertices uncovered.
    assert!(!is_valid_mis(&pair, &vec![]));
    // Entries beyond the vertex count have no neighbors and change nothing.
    assert!(is_valid_mis(&pair, &vec![true, false, true]));
    // The empty graph with the empty set is valid.
    let empty: Vec<Vec<usize>> = vec![];
    assert!(is_valid_mis(&empty, &vec![]));
}

#[test]
fn test_dangling_neighbors_are_tolerated() {
    // Entries at or past the vertex count stand for listless vertices:
    // they never block selection, so both vertices here must be chosen.
    let g: Vec<Vec<usize>> = vec![vec![9], vec![9, 9]];
    for mis in [luby_seq(&g), luby_algo(&g), luby_algo_par_chunck(&g),
        luby_algo_par_chunck2(&g)] {
        assert!(is_valid_mis(&g, &mis));
        assert_eq!(mis, vec![true, true]);
    }
}
