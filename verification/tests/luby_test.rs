// The test graphs keep their shapes from letter-labelled adjacency maps:
// vertices are dense indices, a neighbor list per vertex.

use luby_mis::{is_valid_mis, luby_algo, luby_algo_par_chunck, luby_algo_par_chunck2, luby_seq};

fn cycle(n: usize) -> Vec<Vec<usize>> {
    (0..n).map(|i| vec![(i + 1) % n, (i + n - 1) % n]).collect()
}

#[test]
fn test_normal_graph() {
    // A=0, B=1, C=2, D=3, E=4, G=5 (G isolated)
    let graph: Vec<Vec<usize>> = vec![
        vec![1, 2],
        vec![0, 2, 3],
        vec![0, 1, 3],
        vec![1, 2, 4],
        vec![3],
        vec![],
    ];

    let mis_parallel = luby_algo(&graph);
    for node in 0..graph.len() {
        if mis_parallel[node] {
            for &neighbor in &graph[node] {
                assert!(!mis_parallel[neighbor], "Independent set condition violated");
            }
        }
    }
    println!("Test passed with parallel maximal independent set: {:?}", mis_parallel);

    let mis_sequential = luby_seq(&graph);
    for node in 0..graph.len() {
        if mis_sequential[node] {
            for &neighbor in &graph[node] {
                assert!(!mis_sequential[neighbor], "Independent set condition violated");
            }
        }
    }
    println!("Test passed with sequential maximal independent set: {:?}", mis_sequential);
}

#[test]
fn test_cycle_graph() {
    let cycle_graph = cycle(20);

    let mis_parallel = luby_algo(&cycle_graph);
    assert!(
        is_valid_mis(&cycle_graph, &mis_parallel),
        "Cycle Graph MIS is invalid: {:?}",
        mis_parallel
    );
    println!("Test passed with parallel maximal independent set: {:?}", mis_parallel);

    let mis_sequential = luby_seq(&cycle_graph);
    assert!(
        is_valid_mis(&cycle_graph, &mis_sequential),
        "Cycle Graph MIS is invalid: {:?}",
        mis_sequential
    );
    println!("Test passed with sequential maximal independent set: {:?}", mis_sequential);
}

#[test]
fn test_complex_graph() {
    // A=0, B=1, C=2, D=3 form a path; X1..X5 = 4..8 form a clique.
    let mut complex_graph: Vec<Vec<usize>> = vec![vec![1], vec![0, 2], vec![1, 3], vec![2]];
    for i in 4..9 {
        complex_graph.push((4..9).filter(|&x| x != i).collect());
    }

    let mis_parallel = luby_algo(&complex_graph);
    assert!(
        is_valid_mis(&complex_graph, &mis_parallel),
        "Complex Graph MIS is invalid: {:?}",
        mis_parallel
    );
    println!("Test passed with parallel maximal independent set: {:?}", mis_parallel);

    let mis_sequential = luby_seq(&complex_graph);
    assert!(
        is_valid_mis(&complex_graph, &mis_sequential),
        "Complex Graph MIS is invalid: {:?}",
        mis_sequential
    );
    println!("Test passed with sequential maximal independent set: {:?}", mis_sequential);

    let mis_new = luby_algo_par_chunck(&complex_graph);
    assert!(
        is_valid_mis(&complex_graph, &mis_sequential),
        "Complex Graph MIS is invalid: {:?}",
        mis_new
    );
    assert!(
        is_valid_mis(&complex_graph, &mis_new),
        "Complex Graph MIS is invalid: {:?}",
        mis_new
    );
    println!("Test passed with chunked maximal independent set: {:?}", mis_new);
}

#[test]
fn test_star_graph() {
    // Center = 0, leaves L1..L15 = 1..=15.
    let mut star_graph: Vec<Vec<usize>> = vec![(1..=15).collect()];
    for _ in 1..=15 {
        star_graph.push(vec![0]);
    }

    let mis_parallel = luby_algo(&star_graph);
    assert!(
        is_valid_mis(&star_graph, &mis_parallel),
        "Star Graph MIS is invalid: {:?}",
        mis_parallel
    );
    println!("Test passed with parallel maximal independent set: {:?}", mis_parallel);

    let mis_sequential = luby_seq(&star_graph);
    assert!(
        is_valid_mis(&star_graph, &mis_sequential),
        "Star Graph MIS is invalid: {:?}",
        mis_sequential
    );
    println!("Test passed with sequential maximal independent set: {:?}", mis_sequential);
}

#[test]
fn test_large_cycle_graph() {
    let large_cycle_graph = cycle(10_000);

    let mis_parallel = luby_algo(&large_cycle_graph);
    assert!(
        is_valid_mis(&large_cycle_graph, &mis_parallel),
        "Large Cycle Graph MIS is invalid: {:?}",
        mis_parallel
    );

    let mis_seq = luby_seq(&large_cycle_graph);
    assert!(
        is_valid_mis(&large_cycle_graph, &mis_seq),
        "Large Cycle Graph MIS is invalid: {:?}",
        mis_seq
    );

    let mis_chunked = luby_algo_par_chunck(&large_cycle_graph);
    assert!(is_valid_mis(&large_cycle_graph, &mis_chunked));

    let mis_merged = luby_algo_par_chunck2(&large_cycle_graph);
    assert!(is_valid_mis(&large_cycle_graph, &mis_merged));
}
