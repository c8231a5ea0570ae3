use cicada::dag::invert_graph;
use cicada::dag::topological_sort;
use cicada::dag::GraphError;
use cicada::dag::Node;

fn ids_of(level: &Vec<u128>) -> Vec<u128> {
    let mut v = level.clone();
    v.sort();
    v
}

#[test]
fn chain_yields_one_job_per_level() {
    // C depends on B, B depends on A: leveling the inverted graph gives
    // [[A], [B], [C]].
    let a: u128 = 1;
    let b: u128 = 2;
    let c: u128 = 3;
    let nodes = vec![
        Node::new(a, vec![]),
        Node::new(b, vec![a]),
        Node::new(c, vec![b]),
    ];
    let levels = topological_sort(&invert_graph(&nodes)).unwrap();
    assert_eq!(levels, vec![vec![a], vec![b], vec![c]]);
}

#[test]
fn independent_jobs_share_one_level() {
    let a: u128 = 10;
    let b: u128 = 20;
    let nodes = vec![Node::new(a, vec![]), Node::new(b, vec![])];
    let levels = topological_sort(&invert_graph(&nodes)).unwrap();
    assert_eq!(levels.len(), 1);
    assert_eq!(ids_of(&levels[0]), vec![a, b]);
}

#[test]
fn diamond_levels() {
    // B and C depend on A; D depends on B and C.
    let (a, b, c, d): (u128, u128, u128, u128) = (1, 2, 3, 4);
    let nodes = vec![
        Node::new(a, vec![]),
        Node::new(b, vec![a]),
        Node::new(c, vec![a]),
        Node::new(d, vec![b, c]),
    ];
    let levels = topological_sort(&invert_graph(&nodes)).unwrap();
    assert_eq!(levels.len(), 3);
    assert_eq!(levels[0], vec![a]);
    assert_eq!(ids_of(&levels[1]), vec![b, c]);
    assert_eq!(levels[2], vec![d]);
}

#[test]
fn cycle_is_reported() {
    let a: u128 = 1;
    let b: u128 = 2;
    let nodes = vec![Node::new(a, vec![b]), Node::new(b, vec![a])];
    let err = topological_sort(&invert_graph(&nodes)).unwrap_err();
    assert_eq!(err, GraphError::CyclicDependency);
    assert_eq!(err.message(), "cyclical job dependencies detected");
}

#[test]
fn self_cycle_is_reported() {
    let a: u128 = 7;
    let nodes = vec![Node::new(a, vec![a])];
    assert!(topological_sort(&invert_graph(&nodes)).is_err());
}

#[test]
fn empty_graph_has_no_levels() {
    let nodes: Vec<Node> = vec![];
    let levels = topological_sort(&invert_graph(&nodes)).unwrap();
    assert!(levels.is_empty());
}

fn edge_set(nodes: &Vec<Node>) -> Vec<(u128, u128)> {
    let mut edges = vec![];
    for n in nodes {
        for e in n.edges() {
            if !edges.contains(&(n.id(), *e)) {
                edges.push((n.id(), *e));
            }
        }
    }
    edges.sort();
    edges
}

#[test]
fn invert_reverses_every_edge() {
    let (a, b, c): (u128, u128, u128) = (1, 2, 3);
    let nodes = vec![
        Node::new(a, vec![]),
        Node::new(b, vec![a]),
        Node::new(c, vec![a, b]),
    ];
    let inv = invert_graph(&nodes);
    assert_eq!(edge_set(&inv), vec![(a, b), (a, c), (b, c)]);
}

#[test]
fn invert_twice_restores_the_edge_set() {
    let (a, b, c): (u128, u128, u128) = (1, 2, 3);
    let nodes = vec![
        Node::new(a, vec![b, c]),
        Node::new(b, vec![c]),
        Node::new(c, vec![]),
    ];
    let twice = invert_graph(&invert_graph(&nodes));
    assert_eq!(edge_set(&twice), edge_set(&nodes));
    let mut ids: Vec<u128> = twice.iter().map(|n| n.id()).collect();
    ids.sort();
    assert_eq!(ids, vec![a, b, c]);
}

#[test]
fn invert_drops_edges_to_unknown_ids() {
    let a: u128 = 1;
    let nodes = vec![Node::new(a, vec![99])];
    let inv = invert_graph(&nodes);
    assert_eq!(edge_set(&inv), vec![]);
    assert_eq!(inv.len(), 1);
    assert_eq!(inv[0].id(), a);
}
