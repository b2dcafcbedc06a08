use graph_lib::{DefaultGraphIdType, Graph, GraphError, GraphType, Vertex};

#[test]
fn unique_vertex_id() {
    let mut graph = Graph::<(), ()>::new(GraphType::Undirected);
    graph.add_vertex(Vertex::new(1, None)).unwrap();
    let adding_result = graph.add_vertex(Vertex::new(1, None));

    assert!(
        matches!(adding_result, Err(GraphError::VertexAlreadyExist(_))),
        "serialized graph not equals original graph"
    );
}

#[test]
fn bfs_undirected() {
    const VERTEX_ID_1: DefaultGraphIdType = 1;
    const VERTEX_ID_2: DefaultGraphIdType = 2;
    let mut graph = Graph::<(), ()>::new(GraphType::Undirected);
    graph.add_vertex(Vertex::new(VERTEX_ID_1, None)).unwrap();
    graph.add_vertex(Vertex::new(VERTEX_ID_2, None)).unwrap();
    graph.add_edge(VERTEX_ID_1, VERTEX_ID_2, None).unwrap();

    let vertex_ids: Vec<_> = graph
        .bfs(VERTEX_ID_1)
        .unwrap()
        .iter()
        .map(|(id, _, _)| *id)
        .collect();
    assert!(
        vertex_ids.contains(&VERTEX_ID_1) && vertex_ids.contains(&VERTEX_ID_2),
        "bfs return wrong result"
    );
}

#[test]
fn bfs_directed() {
    const VERTEX_ID_1: DefaultGraphIdType = 1;
    const VERTEX_ID_2: DefaultGraphIdType = 2;
    let mut graph = Graph::<(), ()>::new(GraphType::Directed);
    graph.add_vertex(Vertex::new(VERTEX_ID_1, None)).unwrap();
    graph.add_vertex(Vertex::new(VERTEX_ID_2, None)).unwrap();
    graph.add_edge(VERTEX_ID_1, VERTEX_ID_2, None).unwrap();

    let vertex_ids: Vec<_> = graph
        .bfs(VERTEX_ID_1)
        .unwrap()
        .iter()
        .map(|(id, _, _)| *id)
        .collect();
    assert!(
        vertex_ids.contains(&VERTEX_ID_1) && vertex_ids.contains(&VERTEX_ID_2),
        "bfs return wrong result"
    );
}

#[test]
fn bfs_directed_reverse() {
    const VERTEX_ID_1: DefaultGraphIdType = 1;
    const VERTEX_ID_2: DefaultGraphIdType = 2;
    let mut graph = Graph::<(), ()>::new(GraphType::Directed);
    graph.add_vertex(Vertex::new(VERTEX_ID_1, None)).unwrap();
    graph.add_vertex(Vertex::new(VERTEX_ID_2, None)).unwrap();
    graph.add_edge(VERTEX_ID_2, VERTEX_ID_1, None).unwrap();

    let vertex_ids: Vec<_> = graph
        .bfs(VERTEX_ID_1)
        .unwrap()
        .iter()
        .map(|(id, _, _)| *id)
        .collect();
    assert!(
        vertex_ids.contains(&VERTEX_ID_1) && !vertex_ids.contains(&VERTEX_ID_2),
        "bfs return wrong result"
    );
}

#[test]
fn bfs_delete_edge() {
    const VERTEX_ID_1: DefaultGraphIdType = 1;
    const VERTEX_ID_2: DefaultGraphIdType = 2;
    const VERTEX_ID_3: DefaultGraphIdType = 3;
    let mut graph = Graph::<(), ()>::new(GraphType::Undirected);
    graph.add_vertex(Vertex::new(VERTEX_ID_1, None)).unwrap();
    graph.add_vertex(Vertex::new(VERTEX_ID_2, None)).unwrap();
    graph.add_vertex(Vertex::new(VERTEX_ID_3, None)).unwrap();
    graph.add_edge(VERTEX_ID_1, VERTEX_ID_2, None).unwrap();
    graph.add_edge(VERTEX_ID_2, VERTEX_ID_3, None).unwrap();

    graph.delete_edge(VERTEX_ID_2, VERTEX_ID_3);

    let vertex_ids: Vec<_> = graph
        .bfs(VERTEX_ID_1)
        .unwrap()
        .iter()
        .map(|(id, _, _)| *id)
        .collect();
    assert!(
        vertex_ids.contains(&VERTEX_ID_1) && vertex_ids.contains(&VERTEX_ID_2)
            && !vertex_ids.contains(&VERTEX_ID_3),
        "bfs return wrong result"
    );
}

#[test]
fn bfs_delete_vertex() {
    const VERTEX_ID_1: DefaultGraphIdType = 1;
    const VERTEX_ID_2: DefaultGraphIdType = 2;
    const VERTEX_ID_3: DefaultGraphIdType = 3;
    let mut graph = Graph::<(), ()>::new(GraphType::Undirected);
    graph.add_vertex(Vertex::new(VERTEX_ID_1, None)).unwrap();
    graph.add_vertex(Vertex::new(VERTEX_ID_2, None)).unwrap();
    graph.add_vertex(Vertex::new(VERTEX_ID_3, None)).unwrap();
    graph.add_edge(VERTEX_ID_1, VERTEX_ID_2, None).unwrap();
    graph.add_edge(VERTEX_ID_2, VERTEX_ID_3, None).unwrap();

    graph.delete_vertex(VERTEX_ID_2);

    let vertex_ids: Vec<_> = graph
        .bfs(VERTEX_ID_1)
        .unwrap()
        .iter()
        .map(|(id, _, _)| *id)
        .collect();
    assert!(
        vertex_ids.contains(&VERTEX_ID_1) && !vertex_ids.contains(&VERTEX_ID_2)
            && !vertex_ids.contains(&VERTEX_ID_3),
        "bfs return wrong result"
    );
}

#[test]
fn vertex_neighbours() {
    const VERTEX_ID_1: DefaultGraphIdType = 1;
    const VERTEX_ID_2: DefaultGraphIdType = 2;
    const VERTEX_ID_3: DefaultGraphIdType = 3;
    let mut graph = Graph::<(), ()>::new(GraphType::Undirected);
    graph.add_vertex(Vertex::new(VERTEX_ID_1, None)).unwrap();
    graph.add_vertex(Vertex::new(VERTEX_ID_2, None)).unwrap();
    graph.add_vertex(Vertex::new(VERTEX_ID_3, None)).unwrap();
    graph.add_edge(VERTEX_ID_1, VERTEX_ID_2, None).unwrap();
    graph.add_edge(VERTEX_ID_2, VERTEX_ID_3, None).unwrap();

    let bfs_result = graph.bfs(VERTEX_ID_1).unwrap();
    let vertex_id_2_neighbours = bfs_result
        .iter()
        .find(|(id, _, _)| VERTEX_ID_2 == *id)
        .map(|(_, _, edges)| edges)
        .unwrap();
    assert!(
        vertex_id_2_neighbours.contains(&VERTEX_ID_1)
            && !vertex_id_2_neighbours.contains(&VERTEX_ID_2)
            && vertex_id_2_neighbours.contains(&VERTEX_ID_3),
        "bfs return wrong result"
    );
}

#[test]
fn bfs_missing_start_vertex() {
    let graph = Graph::<(), ()>::new(GraphType::Undirected);
    let result = graph.bfs(7);
    assert!(matches!(result, Err(GraphError::VertexNotFound(7))));
}

#[test]
fn bfs_random_start_empty_graph() {
    let graph = Graph::<String, String>::new(GraphType::Undirected);
    let result = graph.bfs_random_start().unwrap();
    assert!(result.is_empty());
}

#[test]
fn add_edge_missing_endpoints() {
    let mut graph = Graph::<(), ()>::new(GraphType::Undirected);
    graph.add_vertex(Vertex::new(1, None)).unwrap();
    assert!(matches!(
        graph.add_edge(5, 1, None),
        Err(GraphError::VertexNotFound(5))
    ));
    assert!(matches!(
        graph.add_edge(1, 6, None),
        Err(GraphError::VertexNotFound(6))
    ));

    let mut directed = Graph::<(), ()>::new(GraphType::Directed);
    directed.add_vertex(Vertex::new(1, None)).unwrap();
    assert!(matches!(
        directed.add_edge(1, 9, None),
        Err(GraphError::VertexNotFound(9))
    ));
}

#[test]
fn duplicate_edge_is_silent_no_op() {
    let mut graph = Graph::<String, String>::new(GraphType::Undirected);
    graph.add_vertex(Vertex::new(1, None)).unwrap();
    graph.add_vertex(Vertex::new(2, None)).unwrap();
    graph.add_edge(1, 2, Some("first".to_string())).unwrap();
    graph.add_edge(1, 2, Some("second".to_string())).unwrap();
    graph.add_edge(2, 1, None).unwrap();

    let lines = graph.serialize();
    assert_eq!(lines, vec!["1", "2", "#", "1 2 first"]);
}

#[test]
fn delete_absent_vertex_and_edge_is_tolerated() {
    let mut graph = Graph::<(), ()>::new(GraphType::Undirected);
    graph.add_vertex(Vertex::new(1, None)).unwrap();
    graph.delete_vertex(42);
    graph.delete_edge(1, 42);
    graph.delete_edge(42, 43);
    let ids: Vec<_> = graph.bfs(1).unwrap().iter().map(|(id, _, _)| *id).collect();
    assert_eq!(ids, vec![1]);
}

#[test]
fn bfs_skips_dangling_edge_targets() {
    // Deleting `to` in directed mode leaves no reference behind thanks to the
    // scrub; a dangling target can still arise in undirected mode through the
    // partially applied insertion when the second endpoint is missing.
    let mut graph = Graph::<(), ()>::new(GraphType::Undirected);
    graph.add_vertex(Vertex::new(1, None)).unwrap();
    assert!(matches!(
        graph.add_edge(1, 2, None),
        Err(GraphError::VertexNotFound(2))
    ));
    // vertex 1 now carries a record aiming at the absent vertex 2
    let records = graph.bfs(1).unwrap();
    assert_eq!(records.len(), 1);
    assert_eq!(records[0].0, 1);
    assert!(records[0].2.is_empty(), "dangling neighbour must be filtered");
}
