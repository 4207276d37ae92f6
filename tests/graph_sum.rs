use std::collections::HashMap;

use graph_exec::graph::Graph;
use graph_exec::udf::{GraphSum, SumError};
use graph_exec::vertex::{Data, LocalVertex, RemoteVertex, Vertex, VertexType};

fn local(id: u32, parents: &[u32], children: &[u32], value: isize) -> Vertex<isize> {
    Vertex { id, v_type: VertexType::Local(LocalVertex::create_vertex(parents, children, Data(value))) }
}

fn borrowed(id: u32, parents: &[u32], children: &[u32], value: isize) -> Vertex<isize> {
    Vertex {
        id,
        v_type: VertexType::Borrowed(LocalVertex::create_vertex(parents, children, Data(value))),
    }
}

fn remote(id: u32, machine: u32) -> Vertex<isize> {
    Vertex { id, v_type: VertexType::Remote(RemoteVertex::new(machine)) }
}

fn graph_of(vertices: Vec<Vertex<isize>>) -> Graph<isize> {
    let mut g = Graph::new();
    for v in vertices {
        assert!(g.insert_vertex(v).is_ok());
    }
    g
}

fn chain(n: u32, value: isize) -> Graph<isize> {
    let mut vs = Vec::new();
    for i in 0..n {
        let children: Vec<u32> = if i + 1 < n { vec![i + 1] } else { vec![] };
        vs.push(local(i, &[], &children, value));
    }
    graph_of(vs)
}

#[test]
fn leaf_local_vertex_returns_its_payload() {
    let g = graph_of(vec![local(1, &[], &[], 17)]);
    let v = g.get(&1).unwrap();
    assert_eq!(v.apply_function(&GraphSum, &g, None, &HashMap::new(), 1), Ok(17));
}

#[test]
fn leaf_borrowed_vertex_returns_its_payload() {
    let g = graph_of(vec![borrowed(1, &[], &[], -5)]);
    assert_eq!(GraphSum.sum_from(&g, 1, Some(3), &HashMap::new()), Ok(-5));
}

#[test]
fn chain_of_equal_values_sums_to_length_times_value() {
    for n in 1..=12u32 {
        let g = chain(n, 7);
        assert_eq!(GraphSum.sum_from(&g, 0, None, &HashMap::new()), Ok(7 * n as isize));
    }
}

#[test]
fn tree_sums_every_payload() {
    let g = graph_of(vec![
        local(1, &[], &[2, 3], 1),
        local(2, &[1], &[4], 10),
        borrowed(3, &[1], &[], 100),
        local(4, &[2], &[], 1000),
    ]);
    assert_eq!(GraphSum.sum_from(&g, 1, None, &HashMap::new()), Ok(1111));
    assert_eq!(GraphSum.sum_from(&g, 2, None, &HashMap::new()), Ok(1010));
}

#[test]
fn remote_child_needs_its_result_then_uses_it() {
    let g = graph_of(vec![local(1, &[], &[2, 3], 5), remote(2, 7), local(3, &[1], &[], 6)]);
    let mut known = HashMap::new();
    assert_eq!(
        GraphSum.sum_from(&g, 1, None, &known),
        Err(SumError::RemoteResultNeeded { vertex: 2, machine: 7 })
    );
    known.insert(2, 30);
    assert_eq!(GraphSum.sum_from(&g, 1, None, &known), Ok(41));
}

#[test]
fn identical_graphs_give_identical_sums() {
    let build = || {
        graph_of(vec![local(1, &[], &[2, 3], 3), local(2, &[1], &[3], -4), local(3, &[1, 2], &[], 9)])
    };
    let g1 = build();
    let g2 = build();
    let a = GraphSum.sum_from(&g1, 1, None, &HashMap::new());
    let b = GraphSum.sum_from(&g2, 1, None, &HashMap::new());
    assert_eq!(a, b);
    assert_eq!(a, Ok(3 - 4 + 9 + 9));
}

#[test]
fn missing_child_is_reported() {
    let g = graph_of(vec![local(1, &[], &[9], 1)]);
    assert_eq!(GraphSum.sum_from(&g, 1, None, &HashMap::new()), Err(SumError::MissingVertex(9)));
    assert_eq!(GraphSum.sum_from(&g, 5, None, &HashMap::new()), Err(SumError::MissingVertex(5)));
}

#[test]
fn missing_payload_is_reported() {
    let lv = LocalVertex::new(Default::default(), Default::default(), Default::default(), None);
    let g = graph_of(vec![Vertex { id: 1, v_type: VertexType::Local(lv) }]);
    assert_eq!(GraphSum.sum_from(&g, 1, None, &HashMap::new()), Err(SumError::MissingPayload(1)));
}

#[test]
fn overflow_is_reported() {
    let g = graph_of(vec![local(1, &[], &[2], isize::MAX), local(2, &[1], &[], 1)]);
    assert_eq!(GraphSum.sum_from(&g, 1, None, &HashMap::new()), Err(SumError::Overflow(1)));
    let g = graph_of(vec![local(1, &[], &[2], isize::MAX), local(2, &[1], &[], -1)]);
    assert_eq!(GraphSum.sum_from(&g, 1, None, &HashMap::new()), Ok(isize::MAX - 1));
}

#[test]
fn cycle_runs_out_of_depth() {
    let g = graph_of(vec![local(1, &[2], &[2], 1), local(2, &[1], &[1], 1)]);
    assert!(matches!(
        GraphSum.sum_from(&g, 1, None, &HashMap::new()),
        Err(SumError::DepthExceeded(_))
    ));
}

#[test]
fn zero_depth_is_reported() {
    let g = graph_of(vec![local(1, &[], &[], 1)]);
    let v = g.get(&1).unwrap();
    assert_eq!(GraphSum.execute(v, &g, None, &HashMap::new(), 0), Err(SumError::DepthExceeded(1)));
}

#[test]
fn duplicate_vertex_is_refused() {
    let mut g = graph_of(vec![local(1, &[], &[], 1)]);
    let back = g.insert_vertex(local(1, &[], &[], 2)).err().unwrap();
    assert_eq!(back.id, 1);
    assert_eq!(g.len(), 1);
    assert_eq!(GraphSum.sum_from(&g, 1, None, &HashMap::new()), Ok(1));
}

#[test]
fn missing_child_is_reported_before_remote_siblings() {
    let g = graph_of(vec![local(1, &[], &[2, 9], 1), remote(2, 4)]);
    let v = g.get(&1).unwrap();
    assert_eq!(
        v.apply_function(&GraphSum, &g, None, &HashMap::new(), 3),
        Err(SumError::MissingVertex(9))
    );
}

#[test]
fn first_call_on_an_empty_table_succeeds() {
    let remote = RemoteVertex::new(6);
    let mut pending: graph_exec::rpc::PendingTable<u8> = graph_exec::rpc::PendingTable::new();
    assert!(remote.start_execute(1, &mut pending, 0, &vec![]).is_ok());
}
