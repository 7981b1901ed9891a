use multigraph::graph::Graph;
use multigraph::graph::GraphType;

#[test]
fn basic() {
    let mut g = Graph::new(GraphType::Undirected);
    assert_eq!(g.create_vertex(&1), Some(1));
    assert_eq!(g.create_vertex(&2), Some(2));
    assert_eq!(g.create_edge(1, 2), Some(1));
    assert_eq!(g.vertex_list, vec![1, 2]);
    assert_eq!(g.edge_list, vec!["1_2".to_string()]);
    assert_eq!(g.create_vertex(&3), Some(3));
    assert_eq!(g.create_edge(1, 3), Some(2));
    assert_eq!(g.create_edge(2, 3), Some(3));
    assert_eq!(g.vertex_list, vec![1, 2, 3]);
    assert_eq!(g.edge_list, vec!["1_2".to_string(), "1_3".to_string(), "2_3".to_string()]);
    assert_eq!(g.create_edge(1, 4), Some(4));
    assert_eq!(g.vertex_list, vec![1, 2, 3, 4]);
    assert_eq!(
        g.edge_list,
        vec!["1_2".to_string(), "1_3".to_string(), "2_3".to_string(), "1_4".to_string()]
    );
    println!("{:?}", g);
}

#[test]
fn name() {
    let g = Graph::new(GraphType::Undirected);
    assert_eq!(g.edgename(1, 2), "1_2".to_string());
    assert_eq!(g.edgename(3, 2), "2_3".to_string());
    assert_eq!(g.edgename(10, 10), "10_10".to_string());
}

#[test]
fn test_add() {
    let mut g = Graph::new(GraphType::Undirected);
    assert_eq!(g.create_edge(1, 2), Some(1));
    assert!(g.get_edge(2, 3).is_none());
    assert_eq!(g.add_edge(1, 2), None);
    assert_eq!(g.get_edge(1, 2).unwrap().count(), 2);
}

#[test]
fn undirected_names_ignore_order() {
    let g = Graph::new(GraphType::Undirected);
    assert_eq!(g.edgename(7, 4), g.edgename(4, 7));
    assert_eq!(g.edgename(7, 4), "4_7".to_string());
}

#[test]
fn directed_names_keep_order() {
    let g = Graph::new(GraphType::Directed);
    assert_eq!(g.edgename(3, 2), "3_2".to_string());
    assert_eq!(g.edgename(2, 3), "2_3".to_string());
    assert_ne!(g.edgename(2, 3), g.edgename(3, 2));
}

#[test]
fn self_loop_name_is_stable() {
    let gu = Graph::new(GraphType::Undirected);
    let gd = Graph::new(GraphType::Directed);
    assert_eq!(gu.edgename(5, 5), "5_5".to_string());
    assert_eq!(gd.edgename(5, 5), "5_5".to_string());
}

#[test]
fn repeated_vertex_is_a_no_op() {
    let mut g = Graph::new(GraphType::Undirected);
    assert_eq!(g.create_vertex(&9), Some(1));
    assert_eq!(g.create_vertex(&9), None);
    assert_eq!(g.vertex_list.len(), 1);
}

#[test]
fn create_edge_never_increments() {
    let mut g = Graph::new(GraphType::Undirected);
    assert_eq!(g.create_edge(1, 2), Some(1));
    assert_eq!(g.create_edge(2, 1), None);
    assert_eq!(g.get_edge(1, 2).unwrap().count(), 1);
    assert_eq!(g.add_edge(2, 1), None);
    assert_eq!(g.get_edge(1, 2).unwrap().count(), 2);
    assert_eq!(g.edge_list.len(), 1);
}

#[test]
fn adjacency_records_both_endpoints() {
    let mut g = Graph::new(GraphType::Undirected);
    assert_eq!(g.add_edge(1, 2), Some(1));
    assert_eq!(g.get_vertex(&1).unwrap().adjacent(), &vec![2]);
    assert_eq!(g.get_vertex(&2).unwrap().adjacent(), &vec![1]);
    assert_eq!(g.add_edge(1, 3), Some(2));
    assert_eq!(g.get_vertex(&1).unwrap().adjacent(), &vec![2, 3]);
    assert_eq!(g.get_vertex(&3).unwrap().adjacent(), &vec![1]);
}

#[test]
fn self_loop_touches_adjacency_twice() {
    let mut g = Graph::new(GraphType::Undirected);
    assert_eq!(g.add_edge(4, 4), Some(1));
    assert_eq!(g.get_vertex(&4).unwrap().adjacent(), &vec![4, 4]);
    assert_eq!(g.get_edge(4, 4).unwrap().count(), 1);
    assert_eq!(g.edge_list, vec!["4_4".to_string()]);
}

#[test]
fn repeated_add_leaves_adjacency_alone() {
    let mut g = Graph::new(GraphType::Undirected);
    assert_eq!(g.add_edge(1, 2), Some(1));
    assert_eq!(g.add_edge(1, 2), None);
    assert_eq!(g.add_edge(2, 1), None);
    assert_eq!(g.get_vertex(&1).unwrap().adjacent(), &vec![2]);
    assert_eq!(g.get_vertex(&2).unwrap().adjacent(), &vec![1]);
    assert_eq!(g.get_edge(1, 2).unwrap().count(), 3);
}

#[test]
fn edge_exists_goes_by_canonical_name() {
    let mut g = Graph::new(GraphType::Undirected);
    assert_eq!(g.add_edge(1, 2), Some(1));
    assert!(g.edge_exists(&"1_2".to_string()));
    assert!(!g.edge_exists(&"2_1".to_string()));
    assert!(!g.edge_exists(&"1_3".to_string()));
}

#[test]
fn directed_orders_are_distinct_edges() {
    let mut g = Graph::new(GraphType::Directed);
    assert_eq!(g.create_edge(1, 2), Some(1));
    assert_eq!(g.create_edge(2, 1), Some(2));
    assert_eq!(g.edge_list, vec!["1_2".to_string(), "2_1".to_string()]);
    assert_eq!(g.get_edge(1, 2).unwrap().count(), 1);
    assert_eq!(g.get_edge(2, 1).unwrap().count(), 1);
}

#[test]
fn large_identifiers_format_in_decimal() {
    let g = Graph::new(GraphType::Undirected);
    assert_eq!(g.edgename(4294967295, 0), "0_4294967295".to_string());
    assert_eq!(g.edgename(100, 99), "99_100".to_string());
}

#[test]
fn edge_records_keep_given_order() {
    let mut g = Graph::new(GraphType::Undirected);
    assert_eq!(g.add_edge(5, 3), Some(1));
    assert_eq!(g.edge_endpoints(0), Some((5, 3)));
    assert_eq!(g.edge_endpoints(1), None);
    let e = g.get_edge(3, 5).unwrap();
    assert_eq!(e.vertex1(), 5);
    assert_eq!(e.vertex2(), 3);
    assert_eq!(e.id(), &"3_5".to_string());
    assert_eq!(g.get_vertex(&5).unwrap().id(), 5);
}

#[test]
fn edge_creation_makes_missing_vertices() {
    let mut g = Graph::new(GraphType::Undirected);
    assert_eq!(g.add_edge(8, 6), Some(1));
    assert_eq!(g.vertex_list, vec![8, 6]);
    assert!(g.get_vertex(&8).is_some());
    assert!(g.get_vertex(&6).is_some());
    assert!(g.get_vertex(&7).is_none());
}
