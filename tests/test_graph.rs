use rusty_links::graph::{merge_all_rl_graphs, CallGraph, RLEdge, RLGraphEdge, RLGraphIndex, RLIndex, RLNode};
use rusty_links::ir::SymbolId;
use rusty_links::text::{decimal, parse_u32};
use rusty_links::text_mod::TextMod;
use rusty_links::weights::{CallKindMultiplier, OperandMultiplier};

fn node(krate: u32, index: u32, path: &str) -> RLNode {
    RLNode::create(
        SymbolId { krate, index },
        None,
        &format!("DefId({}:{} ~ crate_a[132e]::{})", krate, index, path),
    )
}

fn edge(n: usize) -> RLEdge {
    RLEdge::create((CallKindMultiplier::Function, vec![(OperandMultiplier::Move, 1); n]))
}

/// a -> b, a -> c, b -> c
fn sample() -> CallGraph {
    let mut g = CallGraph::new();
    let a = g.rl_add_node(node(0, 1, "main"));
    let b = g.rl_add_node(node(0, 2, "add"));
    let c = g.rl_add_node(node(0, 3, "sub"));
    g.rl_add_edge(a, b, edge(2));
    g.rl_add_edge(a, c, edge(1));
    g.rl_add_edge(b, c, edge(0));
    g
}

fn edges_of(g: &CallGraph) -> Vec<(usize, usize, usize)> {
    (0..g.edge_count()).map(|i| {
        let (s, t, e) = g.edge(i);
        (s, t, e.arg_weights.len())
    }).collect()
}

fn nodes_of(g: &CallGraph) -> Vec<String> {
    (0..g.node_count()).map(|i| g.node(i).def_id_str.clone()).collect()
}

#[test]
fn add_node_is_idempotent() {
    let mut g = CallGraph::new();
    let a = g.rl_add_node(node(0, 4, "add"));
    let b = g.rl_add_node(node(0, 4, "add"));
    assert_eq!(a, b);
    assert_eq!(g.node_count(), 1);
}

#[test]
fn add_edge_keeps_parallel_edges() {
    let mut g = CallGraph::new();
    let a = g.rl_add_node(node(0, 1, "main"));
    let b = g.rl_add_node(node(0, 2, "add"));
    g.rl_add_edge(a, b, edge(1));
    g.rl_add_edge(a, b, edge(1));
    assert_eq!(g.edge_count(), 2);
}

#[test]
fn merge_into_empty_reproduces_the_graph() {
    let g = sample();
    let mut m = CallGraph::new();
    m.merge(&g);
    assert_eq!(nodes_of(&m), nodes_of(&g));
    assert_eq!(edges_of(&m), edges_of(&g));
}

#[test]
fn merge_into_itself_twice_adds_no_node() {
    let g = sample();
    let mut once = sample();
    once.merge(&g);
    let mut twice = sample();
    twice.merge(&g);
    twice.merge(&g);
    assert_eq!(nodes_of(&once), nodes_of(&g));
    assert_eq!(nodes_of(&twice), nodes_of(&g));
    assert_eq!(once.edge_count(), 6);
    assert_eq!(twice.edge_count(), 9);
}

#[test]
fn merge_looks_endpoints_up_by_identity() {
    // Unit 1: main -> add, with add declared in crate_a and seen as 20:4.
    let mut u1 = CallGraph::new();
    let main = u1.rl_add_node(node(0, 1, "main"));
    let add = u1.rl_add_node(node(20, 4, "add"));
    u1.rl_add_edge(main, add, edge(1));
    // Unit 2: crate_a itself, where add is 0:4 and calls sub.
    let mut u2 = CallGraph::new();
    let add2 = u2.rl_add_node(node(0, 4, "add"));
    let sub = u2.rl_add_node(node(0, 5, "sub"));
    u2.rl_add_edge(add2, sub, edge(2));
    let merged = merge_all_rl_graphs(&vec![u1, u2]).unwrap();
    assert_eq!(merged.node_count(), 3);
    assert_eq!(edges_of(&merged), vec![(0, 1, 1), (1, 2, 2)]);
}

#[test]
fn nodes_from_different_units_are_equal() {
    let a = node(20, 4, "add");
    let b = node(0, 4, "add");
    assert!(a == b);
    assert!(a != node(0, 4, "sub"));
    let mut p = node(0, 4, "add");
    p.promoted = Some(1);
    assert!(a != p);
}

#[test]
fn statically_unknown_node_has_its_marker() {
    let n = RLNode::create(SymbolId { krate: 0, index: 0 }, None, &"ignored".to_string());
    assert_eq!(n.def_id_str(), "STATICALLY_UNKNOWN");
    assert_eq!(n.promoted(), None);
}

#[test]
fn node_serialization_round_trips() {
    let mut n = node(20, 4, "add");
    n.def_id_str = "DefId(20:4 ~ crate_a[132e]::m::add)".to_string();
    let s = n.serialize();
    assert_eq!(s, "20:4:4294967295:DefId(20:4 ~ crate_a[132e]::m::add)");
    let back = RLNode::deserialize(&s).unwrap();
    assert_eq!(back.def_id, n.def_id);
    assert_eq!(back.promoted, None);
    assert_eq!(back.def_id_str, n.def_id_str);

    let mut p = node(3, 0, "f");
    p.promoted = Some(2);
    let s = p.serialize();
    assert_eq!(s, "3:STATICALLY_UNKNOWN:2:DefId(3:0 ~ crate_a[132e]::f)");
    let back = RLNode::deserialize(&s).unwrap();
    assert_eq!(back.def_id, SymbolId { krate: 3, index: 0 });
    assert_eq!(back.promoted, Some(2));
    assert_eq!(back.def_id_str, p.def_id_str);
}

#[test]
fn malformed_node_text_is_rejected() {
    assert!(RLNode::deserialize("1:2").is_none());
    assert!(RLNode::deserialize("x:2:3:s").is_none());
    assert!(RLNode::deserialize("1:2:4294967296:s").is_none());
    assert!(RLNode::deserialize(":2:3:s").is_none());
}

#[test]
fn decimal_numerals() {
    assert_eq!(decimal(0), "0");
    assert_eq!(decimal(4294967295), "4294967295");
    assert_eq!(parse_u32("0042"), Some(42));
    assert_eq!(parse_u32("4294967295"), Some(u32::MAX));
    assert_eq!(parse_u32("4294967296"), None);
    assert_eq!(parse_u32(""), None);
    assert_eq!(parse_u32("1a"), None);
}

#[test]
fn edge_total_weight_sums_argument_weights() {
    assert_eq!(edge(3).total_weight(), 3);
    assert_eq!(edge(0).total_weight(), 0);
    let e = RLEdge::create((CallKindMultiplier::Method, vec![(OperandMultiplier::Copy, 2), (OperandMultiplier::Constant, 5)]));
    assert_eq!(e.total_weight(), 7);
}

#[test]
fn dot_export_labels_nodes_and_edges() {
    let dot = sample().as_dot_str();
    assert!(dot.contains("0 -> 1"));
    assert!(dot.contains("0 -> 2"));
    assert!(dot.contains("1 -> 2"));
    assert!(dot.contains("label=\"2.00\""));
    assert!(dot.contains("i0: DefId(0:1 ~ crate_a[132e]::main) - None"));
}

#[test]
fn index_round_trips() {
    let i = <RLIndex as RLGraphIndex>::create(7);
    assert_eq!(i.value(), 7);
}

#[test]
fn text_mod_wraps_in_escapes() {
    assert_eq!(TextMod::Green.apply("hi"), "\x1b[32mhi\x1b[0m");
    assert_eq!(TextMod::Blue.apply(""), "\x1b[34m\x1b[0m");
}

#[test]
fn edge_serialization_round_trips() {
    let e = RLEdge::create((
        CallKindMultiplier::Method,
        vec![(OperandMultiplier::Move, 1), (OperandMultiplier::Constant, 12)],
    ));
    let s = e.serialize();
    assert_eq!(s, "Method|Move:1,Constant:12");
    let back = RLEdge::deserialize(&s).unwrap();
    assert_eq!(back.call_multiplier, CallKindMultiplier::Method);
    assert_eq!(back.arg_weights, e.arg_weights);

    let empty = RLEdge::create((CallKindMultiplier::Closure, vec![]));
    assert_eq!(empty.serialize(), "Closure|");
    let back = RLEdge::deserialize("Closure|").unwrap();
    assert_eq!(back.call_multiplier, CallKindMultiplier::Closure);
    assert!(back.arg_weights.is_empty());
}

#[test]
fn malformed_edge_text_is_rejected() {
    assert!(RLEdge::deserialize("Function").is_none());
    assert!(RLEdge::deserialize("Nope|Move:1").is_none());
    assert!(RLEdge::deserialize("Function|Move").is_none());
    assert!(RLEdge::deserialize("Function|Bad:1").is_none());
    assert!(RLEdge::deserialize("Function|Move:1,Copy:x").is_none());
}
