use std::collections::HashSet;
use std::collections::VecDeque;
use warnet_cli::topology::{create_graph, edge_list, node_count};

fn degrees(n: usize, edges: &[(usize, usize)]) -> Vec<usize> {
    let mut d = vec![0usize; n];
    for &(s, _) in edges {
        d[s] += 1;
    }
    d
}

#[test]
fn generate_node_counts() {
    for n in [0usize, 1, 2, 3, 5, 8, 9, 20] {
        let g = create_graph(n);
        assert_eq!(node_count(&g), n);
    }
}

#[test]
fn empty_and_single_graphs_have_no_edges() {
    assert_eq!(edge_list(&create_graph(0)).len(), 0);
    assert_eq!(edge_list(&create_graph(1)).len(), 0);
}

#[test]
fn no_self_loops_or_duplicate_edges() {
    for n in [0usize, 1, 2, 3, 5, 8, 9, 12, 30] {
        let g = create_graph(n);
        let edges = edge_list(&g);
        let mut seen: HashSet<(usize, usize)> = HashSet::new();
        for &(s, t) in &edges {
            assert!(s < n && t < n);
            assert_ne!(s, t, "self-loop at {} for n={}", s, n);
            assert!(seen.insert((s, t)), "duplicate edge ({}, {}) for n={}", s, t, n);
        }
    }
}

#[test]
fn out_degree_is_min_of_n_minus_one_and_eight() {
    for n in 2usize..=12 {
        let g = create_graph(n);
        let edges = edge_list(&g);
        let expect = std::cmp::min(n - 1, 8);
        for (i, d) in degrees(n, &edges).into_iter().enumerate() {
            assert_eq!(d, expect, "node {} of n={}", i, n);
        }
    }
}

#[test]
fn small_graphs_are_complete() {
    for n in 2usize..=8 {
        let g = create_graph(n);
        let edges: HashSet<(usize, usize)> = edge_list(&g).into_iter().collect();
        for i in 0..n {
            for j in 0..n {
                if i != j {
                    assert!(edges.contains(&(i, j)), "missing ({}, {}) for n={}", i, j, n);
                }
            }
        }
    }
}

#[test]
fn ring_edges_are_present() {
    for n in [2usize, 3, 7, 15] {
        let edges: HashSet<(usize, usize)> = edge_list(&create_graph(n)).into_iter().collect();
        for i in 0..n {
            assert!(edges.contains(&(i, (i + 1) % n)), "ring edge missing at {} for n={}", i, n);
        }
    }
}

#[test]
fn every_node_reaches_every_other() {
    for n in [1usize, 2, 5, 10, 25] {
        let edges = edge_list(&create_graph(n));
        let mut adj = vec![Vec::new(); n];
        for &(s, t) in &edges {
            adj[s].push(t);
        }
        for start in 0..n {
            let mut seen = vec![false; n];
            let mut queue = VecDeque::new();
            seen[start] = true;
            queue.push_back(start);
            while let Some(v) = queue.pop_front() {
                for &w in &adj[v] {
                    if !seen[w] {
                        seen[w] = true;
                        queue.push_back(w);
                    }
                }
            }
            assert!(seen.iter().all(|&b| b), "node {} does not reach all for n={}", start, n);
        }
    }
}
