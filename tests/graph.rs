use graph::Graph;

#[test]
fn can_create_an_indexed_graph() {
    let mut g: Graph<&str, String> = Graph::new();
    g.push_vid("A");
    g.push_vid("B");
    g.push_vid("C");

    g.push_edge("A", "B", "A -> B".to_string());
    g.push_edge("B", "C", "B -> C".to_string());
    g.push_edge("C", "A", "C -> A".to_string());
    g.push_edge("A", "A", "A loop".to_string());

    assert_eq!(g.vertex_count(), 3);
    assert_eq!(
        g.incident_edges(&"A").unwrap(),
        &[("B", "A -> B".to_string()), ("A", "A loop".to_string())]
    );
    assert_eq!(g.incident_edges(&"B").unwrap(), &[("C", "B -> C".to_string())]);
    assert_eq!(g.incident_edges(&"C").unwrap(), &[("A", "C -> A".to_string())]);

    assert_eq!(
        g.map_adjacent("A", |x| x.clone()),
        [("B", "A -> B".to_string()), ("A", "A loop".to_string())]
    );

    assert_eq!(g.map_adjacent("B", |x| x.clone()), [("C", "B -> C".to_string())]);
    assert_eq!(g.map_adjacent("C", |x| x.clone()), [("A", "C -> A".to_string())]);
    assert_eq!(g.get_vertex(&"A"), Some(&()));
    assert_eq!(g.get_vertex(&"B"), Some(&()));
    assert_eq!(g.get_vertex(&"Z"), None);
}

#[test]
fn new_graph_is_empty() {
    let g: Graph<u32, u32> = Graph::new();
    assert_eq!(g.vertex_count(), 0);
    assert!(g.iter_vertices().is_empty());
    assert!(g.iter_edges().is_empty());
    assert!(g.iter_complete_edges().is_empty());
    assert_eq!(g.get_vertex(&1), None);
    assert_eq!(g.get_edge(1, 2), None);
    assert_eq!(g.incident_edges(&1), None);
}

#[test]
fn repushed_vertex_is_counted_once_and_overwritten() {
    let mut g: Graph<u32, (), &str> = Graph::new();
    g.push_vertex(1, "one");
    g.push_vertex(2, "two");
    g.push_vertex(1, "uno");
    g.push_vertex(3, "three");
    g.push_vertex(3, "tres");
    assert_eq!(g.vertex_count(), 3);
    assert_eq!(g.get_vertex(&1), Some(&"uno"));
    assert_eq!(g.get_vertex(&2), Some(&"two"));
    assert_eq!(g.get_vertex(&3), Some(&"tres"));
    assert_eq!(g.get_vertex(&4), None);
}

#[test]
fn push_vertex_leaves_edges_alone() {
    let mut g: Graph<u32, &str, u8> = Graph::new();
    g.push_edge(1, 2, "a");
    g.push_vertex(1, 7);
    assert_eq!(g.incident_edges(&1).unwrap(), &vec![(2, "a")]);
    assert_eq!(g.get_vertex(&1), Some(&7));
}

#[test]
fn iter_vertices_lists_each_vertex_once() {
    let mut g: Graph<u32, (), char> = Graph::new();
    g.push_vertex(5, 'e');
    g.push_vertex(1, 'a');
    g.push_vertex(5, 'f');
    let mut vs: Vec<(u32, char)> = g.iter_vertices().into_iter().map(|(k, v)| (*k, *v)).collect();
    vs.sort();
    assert_eq!(vs, vec![(1, 'a'), (5, 'f')]);
}

#[test]
fn push_edge_appends_last_and_grows_by_one() {
    let mut g: Graph<u32, &str> = Graph::new();
    g.push_edge(1, 2, "x");
    assert_eq!(g.incident_edges(&1).unwrap().len(), 1);
    g.push_edge(1, 3, "y");
    assert_eq!(g.incident_edges(&1).unwrap().len(), 2);
    assert_eq!(g.incident_edges(&1).unwrap().last(), Some(&(3, "y")));
    g.push_edge(1, 2, "x");
    assert_eq!(g.incident_edges(&1).unwrap(), &vec![(2, "x"), (3, "y"), (2, "x")]);
    assert_eq!(g.incident_edges(&2), None);
}

#[test]
fn edges_need_no_vertices() {
    let mut g: Graph<u32, ()> = Graph::new();
    g.push_edge(8, 9, ());
    assert_eq!(g.vertex_count(), 0);
    assert_eq!(g.get_vertex(&8), None);
    assert_eq!(g.get_edge(8, 9), Some(&()));
}

#[test]
fn undirected_edge_goes_both_ways() {
    let mut g: Graph<&str, String> = Graph::new();
    g.push_undirected_edge("a", "b", "ab".to_string());
    assert_eq!(g.incident_edges(&"a").unwrap(), &vec![("b", "ab".to_string())]);
    assert_eq!(g.incident_edges(&"b").unwrap(), &vec![("a", "ab".to_string())]);
    assert_eq!(g.get_edge("a", "b"), Some(&"ab".to_string()));
    assert_eq!(g.get_edge("b", "a"), Some(&"ab".to_string()));
}

#[test]
fn undirected_self_loop_gives_two_entries() {
    let mut g: Graph<u32, u32> = Graph::new();
    g.push_undirected_edge(4, 4, 40);
    assert_eq!(g.incident_edges(&4).unwrap(), &vec![(4, 40), (4, 40)]);
    assert_eq!(g.iter_complete_edges().len(), 2);
}

#[test]
fn get_edge_returns_the_oldest_parallel_edge() {
    let mut g: Graph<u32, &str> = Graph::new();
    g.push_edge(1, 3, "to three");
    g.push_edge(1, 2, "first");
    g.push_edge(1, 2, "second");
    g.push_edge(2, 1, "back");
    assert_eq!(g.get_edge(1, 2), Some(&"first"));
    assert_eq!(g.get_edge(1, 3), Some(&"to three"));
    assert_eq!(g.get_edge(2, 1), Some(&"back"));
    assert_eq!(g.get_edge(1, 4), None);
    assert_eq!(g.get_edge(3, 1), None);
}

#[test]
fn no_outgoing_edges_means_empty_map_and_absent_list() {
    let mut g: Graph<u32, &str> = Graph::new();
    g.push_vid(1);
    g.push_edge(2, 1, "in");
    assert!(g.map_adjacent(1, |x| x.clone()).is_empty());
    assert_eq!(g.incident_edges(&1), None);
    assert!(g.map_adjacent(7, |x| x.1).is_empty());
    assert_eq!(g.incident_edges(&7), None);
}

#[test]
fn map_adjacent_applies_the_function_in_order() {
    let mut g: Graph<u32, u32> = Graph::new();
    g.push_edge(1, 2, 10);
    g.push_edge(1, 3, 20);
    g.push_edge(1, 2, 30);
    assert_eq!(g.map_adjacent(1, |(to, e)| to * 100 + e), vec![210, 320, 230]);
}

#[test]
fn iter_edges_lists_each_source_once() {
    let mut g: Graph<u32, char> = Graph::new();
    g.push_edge(2, 1, 'p');
    g.push_edge(1, 2, 'q');
    g.push_edge(2, 3, 'r');
    let mut es: Vec<(u32, Vec<(u32, char)>)> =
        g.iter_edges().into_iter().map(|(k, l)| (*k, l.clone())).collect();
    es.sort();
    assert_eq!(es, vec![(1, vec![(2, 'q')]), (2, vec![(1, 'p'), (3, 'r')])]);
}

#[test]
fn complete_edges_are_the_pushed_edges() {
    let pushes = vec![(1, 2, 'a'), (2, 3, 'b'), (1, 2, 'a'), (3, 3, 'c'), (1, 4, 'd'), (2, 1, 'e')];
    let mut g: Graph<u32, char> = Graph::new();
    for (f, t, e) in pushes.iter() {
        g.push_edge(*f, *t, *e);
    }
    let out = g.iter_complete_edges();
    let mut got: Vec<(u32, u32, char)> = out.into_iter().map(|(f, t, e)| (*f, *t, *e)).collect();
    let mut want = pushes.clone();
    got.sort();
    want.sort();
    assert_eq!(got, want);
}

#[test]
fn complete_edges_keep_each_source_in_push_order() {
    let mut g: Graph<u32, u32> = Graph::new();
    g.push_edge(1, 9, 3);
    g.push_edge(1, 8, 1);
    g.push_edge(1, 7, 2);
    let got: Vec<(u32, u32, u32)> =
        g.iter_complete_edges().into_iter().map(|(f, t, e)| (*f, *t, *e)).collect();
    assert_eq!(got, vec![(1, 9, 3), (1, 8, 1), (1, 7, 2)]);
}
