use trekkie_state::Graph;

#[test]
fn adjacency_and_upstream() {
    let mut g = Graph::new();
    g.add_path(1, 0, 2);
    g.add_path(1, 1, 3);
    g.add_path(4, 0, 3);
    assert_eq!(g.adjacent_paths(1), vec![2, 3]);
    assert_eq!(g.adjacent_paths(3), Vec::<i32>::new());
    assert_eq!(g.upstream(3), vec![1, 4]);
    assert_eq!(g.upstream(1), Vec::<i32>::new());
    assert_eq!(g.destination(1, 1), Some(3));
    assert_eq!(g.destination(1, 2), None);
}

#[test]
fn add_path_replaces_destination() {
    let mut g = Graph::new();
    g.add_path(1, 0, 2);
    g.add_path(1, 0, 5);
    assert_eq!(g.destination(1, 0), Some(5));
    assert_eq!(g.adjacent_paths(1), vec![5]);
    assert_eq!(g.upstream(2), Vec::<i32>::new());
}
