use std::collections::HashSet;

use graph_lib::{Graph, GraphError, GraphType, Vertex};

const TGF_GRAPH: &str = "1 January
2 March
3 April
4 May
5 December
6 June
7 September
#
1 2
3 2
4 3
5 1 Happy New Year!
5 3 April Fools Day
6 3
6 1
7 5
7 6
7 1";

fn tgf_lines() -> Vec<String> {
    TGF_GRAPH.lines().map(|l| l.to_string()).collect()
}

#[test]
fn deserialize_serialize() {
    let graph = Graph::deserialize(&tgf_lines()).unwrap();

    let serialized_lines = graph.serialize();

    let mut original_lines = HashSet::new();
    let mut serialized = HashSet::new();
    original_lines.extend(TGF_GRAPH.lines().map(|l| l.to_string()));
    serialized.extend(serialized_lines.into_iter());

    assert!(
        original_lines == serialized,
        "serialized graph not equals original graph"
    );
}

#[test]
fn tgf_example_scenario() {
    let graph = Graph::deserialize(&tgf_lines()).unwrap();
    let records = graph.bfs_random_start().unwrap();

    let ids: Vec<u32> = records.iter().map(|(id, _, _)| *id).collect();
    let unique: HashSet<u32> = ids.iter().copied().collect();
    assert_eq!(ids.len(), 7, "every vertex visited exactly once");
    assert_eq!(unique.len(), 7);
    for id in 1..=7u32 {
        assert!(unique.contains(&id));
    }

    let record_1 = records.iter().find(|(id, _, _)| *id == 1).unwrap();
    assert_eq!(record_1.1, Some(&"January".to_string()));
    assert!(record_1.2.contains(&5));
    assert!(record_1.2.contains(&7));
}

#[test]
fn serialize_empty_graph() {
    let graph = Graph::<String, String>::new(GraphType::Undirected);
    assert_eq!(graph.serialize(), vec!["#"]);
}

#[test]
fn serialize_exact_lines() {
    let mut graph = Graph::<String, String>::new(GraphType::Undirected);
    graph
        .add_vertex(Vertex::new(1, Some("alpha beta".to_string())))
        .unwrap();
    graph.add_vertex(Vertex::new(2, None)).unwrap();
    graph.add_vertex(Vertex::new(30, None)).unwrap();
    graph.add_edge(1, 2, Some("x y".to_string())).unwrap();
    graph.add_edge(30, 1, None).unwrap();

    assert_eq!(
        graph.serialize(),
        vec!["1 alpha beta", "2", "30", "#", "1 2 x y", "30 1"]
    );
}

#[test]
fn deserialize_rejects_duplicate_vertex() {
    let lines: Vec<String> = vec!["1".to_string(), "1".to_string(), "#".to_string()];
    assert!(matches!(
        Graph::deserialize(&lines),
        Err(GraphError::VertexAlreadyExist(1))
    ));
}

#[test]
fn deserialize_rejects_missing_edge_endpoint() {
    let lines: Vec<String> = vec![
        "1".to_string(),
        "2".to_string(),
        "#".to_string(),
        "1 3".to_string(),
    ];
    assert!(matches!(
        Graph::deserialize(&lines),
        Err(GraphError::VertexNotFound(3))
    ));
}

#[test]
fn deserialize_rejects_missing_vertex_token() {
    let lines: Vec<String> = vec!["".to_string()];
    match Graph::deserialize(&lines) {
        Err(GraphError::ParseVertexId(l)) => assert_eq!(l, ""),
        other => panic!("expected ParseVertexId, got {:?}", other),
    }
}

#[test]
fn deserialize_rejects_non_numeric_vertex_id() {
    let lines: Vec<String> = vec!["abc January".to_string()];
    match Graph::deserialize(&lines) {
        Err(GraphError::WrongVertexIdType(l)) => assert_eq!(l, "abc January"),
        other => panic!("expected WrongVertexIdType, got {:?}", other),
    }
}

#[test]
fn deserialize_rejects_short_edge_line() {
    let lines: Vec<String> = vec!["1".to_string(), "#".to_string(), "1".to_string()];
    match Graph::deserialize(&lines) {
        Err(GraphError::ParseVertexId(l)) => assert_eq!(l, "1"),
        other => panic!("expected ParseVertexId, got {:?}", other),
    }
}

#[test]
fn deserialize_identifier_bounds() {
    let max_line = format!("{}", u32::MAX);
    let lines: Vec<String> = vec![max_line, "#".to_string()];
    let graph = Graph::deserialize(&lines).unwrap();
    let ids: Vec<u32> = graph
        .bfs(u32::MAX)
        .unwrap()
        .iter()
        .map(|(id, _, _)| *id)
        .collect();
    assert_eq!(ids, vec![u32::MAX]);

    let too_big: Vec<String> = vec!["4294967296".to_string()];
    match Graph::deserialize(&too_big) {
        Err(GraphError::WrongVertexIdType(l)) => assert_eq!(l, "4294967296"),
        other => panic!("expected WrongVertexIdType, got {:?}", other),
    }
}

#[test]
fn deserialized_graph_is_undirected() {
    let lines: Vec<String> = vec![
        "1".to_string(),
        "2".to_string(),
        "#".to_string(),
        "1 2".to_string(),
    ];
    let graph = Graph::deserialize(&lines).unwrap();
    let from_2: Vec<u32> = graph.bfs(2).unwrap().iter().map(|(id, _, _)| *id).collect();
    assert!(from_2.contains(&1), "edges read back are symmetric");
}

#[test]
fn value_rest_keeps_inner_spacing() {
    let lines: Vec<String> = vec!["7 a  b".to_string(), "#".to_string()];
    let graph = Graph::deserialize(&lines).unwrap();
    assert_eq!(graph.serialize(), vec!["7 a  b", "#"]);
}
