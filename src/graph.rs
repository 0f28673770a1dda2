//! The call graph: nodes for callable entities, weighted edges for calls,
//! with cross-unit merge. Storage is a petgraph `DiGraph`.
use vstd::prelude::*;
use crate::context::CallKind;
use crate::ir::SymbolId;
use crate::weights::{CallKindMultiplier, OperandMultiplier};
use crate::text::{dec, decimal, find_char, split_first, lemma_split_first_concat};
use rustworkx_core::petgraph::dot::{Config, Dot};
use rustworkx_core::petgraph::visit::EdgeRef;
use rustworkx_core::petgraph::graph::{DiGraph, NodeIndex};

verus! {

#[verifier::external_type_specification]
#[verifier::external_body]
#[verifier::reject_recursive_types(N)]
#[verifier::reject_recursive_types(E)]
#[verifier::reject_recursive_types(D)]
#[verifier::reject_recursive_types(Ix)]
pub struct ExGraph<N, E, D, Ix>(rustworkx_core::petgraph::graph::Graph<N, E, D, Ix>);

#[verifier::external_type_specification]
#[verifier::external_body]
pub struct ExDirected(rustworkx_core::petgraph::Directed);

/// The node weights of a graph, in index order.
pub uninterp spec fn graph_nodes(g: DiGraph<RLNode, RLEdge>) -> Seq<RLNode>;

/// The edges of a graph, in index order, as (source, target, weight).
pub uninterp spec fn graph_edges(g: DiGraph<RLNode, RLEdge>) -> Seq<(usize, usize, RLEdge)>;

/// The largest node or edge count that a graph with `u32` indices holds:
/// `u32::MAX` is its reserved end index.
pub open spec fn index_limit() -> nat {
    u32::MAX as nat
}

/// Relies on petgraph's `Graph::new`: a graph without nodes or edges.
#[verifier::external_body]
fn graph_new() -> (r: DiGraph<RLNode, RLEdge>)
    ensures
        graph_nodes(r) == Seq::<RLNode>::empty(),
        graph_edges(r) == Seq::<(usize, usize, RLEdge)>::empty(),
{
    DiGraph::new()
}

/// Relies on petgraph's `Graph::add_node`: appends the weight at index
/// `node_count()`; it panics only when that index is the end index.
#[verifier::external_body]
fn graph_add_node(g: &mut DiGraph<RLNode, RLEdge>, n: RLNode) -> (r: usize)
    requires
        graph_nodes(*old(g)).len() < index_limit(),
    ensures
        r == graph_nodes(*old(g)).len(),
        graph_nodes(*final(g)) == graph_nodes(*old(g)).push(n),
        graph_edges(*final(g)) == graph_edges(*old(g)),
{
    g.add_node(n).index()
}

/// Relies on petgraph's `Graph::add_edge`: appends the edge; it panics
/// only when an endpoint does not exist or the edge index is the end index.
#[verifier::external_body]
fn graph_add_edge(g: &mut DiGraph<RLNode, RLEdge>, a: usize, b: usize, e: RLEdge)
    requires
        a < graph_nodes(*old(g)).len(),
        b < graph_nodes(*old(g)).len(),
        graph_edges(*old(g)).len() < index_limit(),
    ensures
        graph_nodes(*final(g)) == graph_nodes(*old(g)),
        graph_edges(*final(g)) == graph_edges(*old(g)).push((a, b, e)),
{
    g.add_edge(NodeIndex::new(a), NodeIndex::new(b), e);
}

/// Relies on petgraph's `Graph::node_count`: the number of nodes.
#[verifier::external_body]
fn graph_node_count(g: &DiGraph<RLNode, RLEdge>) -> (r: usize)
    ensures
        r == graph_nodes(*g).len(),
{
    g.node_count()
}

/// Relies on petgraph's `Graph::edge_count`: the number of edges.
#[verifier::external_body]
fn graph_edge_count(g: &DiGraph<RLNode, RLEdge>) -> (r: usize)
    ensures
        r == graph_edges(*g).len(),
{
    g.edge_count()
}

/// Relies on petgraph's `Graph::node_weight`: the weight at index `i`.
#[verifier::external_body]
fn graph_node(g: &DiGraph<RLNode, RLEdge>, i: usize) -> (r: &RLNode)
    requires
        i < graph_nodes(*g).len(),
    ensures
        *r == graph_nodes(*g)[i as int],
{
    g.node_weight(NodeIndex::new(i)).unwrap()
}

/// Relies on petgraph's `Graph::raw_edges`: the edge at index `i`, with
/// its source and target.
#[verifier::external_body]
fn graph_edge(g: &DiGraph<RLNode, RLEdge>, i: usize) -> (r: (usize, usize, &RLEdge))
    requires
        i < graph_edges(*g).len(),
    ensures
        r.0 == graph_edges(*g)[i as int].0,
        r.1 == graph_edges(*g)[i as int].1,
        *r.2 == graph_edges(*g)[i as int].2,
{
    let e = &g.raw_edges()[i];
    (e.source().index(), e.target().index(), &e.weight)
}

} // verus!
verus! {

/// The part of a canonical identifier string that does not depend on the
/// unit that saw it: what follows the first `~`, or the whole string.
pub open spec fn identity_key(s: Seq<char>) -> Seq<char> {
    match split_first(s, '~') {
        Some(p) => p.1,
        None => s,
    }
}

/// The symbol that stands for a callee that is not known statically.
pub open spec fn statically_unknown_id() -> SymbolId {
    SymbolId { krate: 0, index: 0 }
}

pub open spec fn statically_unknown_str() -> Seq<char> {
    "STATICALLY_UNKNOWN"@
}

/// A node: a callable entity, identified by its symbol and the promoted
/// constant if any, with its canonical identifier string.
#[derive(Debug)]
pub struct RLNode {
    pub def_id: SymbolId,
    pub promoted: Option<u32>,
    pub def_id_str: String,
}

impl RLNode {
    /// Whether two nodes stand for the same entity, in whichever unit each was built.
    pub open spec fn same(self, other: RLNode) -> bool {
        identity_key(self.def_id_str@) == identity_key(other.def_id_str@) && self.promoted == other.promoted
    }

    /// A node for `def_id`, whose canonical string is `repr`, or
    /// `STATICALLY_UNKNOWN` for the statically unknown symbol.
    pub fn create(def_id: SymbolId, promoted: Option<u32>, repr: &String) -> (r: RLNode)
        ensures
            r.def_id == def_id,
            r.promoted == promoted,
            r.def_id_str@ == (if def_id == statically_unknown_id() { statically_unknown_str() } else { repr@ }),
    {
        let def_id_str = if def_id.krate == 0 && def_id.index == 0 {
            String::from_str("STATICALLY_UNKNOWN")
        } else {
            repr.clone()
        };
        RLNode { def_id, promoted, def_id_str }
    }

    pub fn def_id_str(&self) -> (r: String)
        ensures
            r@ == self.def_id_str@,
    {
        self.def_id_str.clone()
    }

    pub fn promoted(&self) -> (r: Option<u32>)
        ensures
            r == self.promoted,
    {
        self.promoted
    }

    /// A copy of this node.
    pub fn duplicate(&self) -> (r: RLNode)
        ensures
            r == *self,
    {
        RLNode { def_id: self.def_id, promoted: self.promoted, def_id_str: self.def_id_str.clone() }
    }

    /// The unit-independent part of the canonical string.
    pub fn identity(&self) -> (r: String)
        ensures
            r@ == identity_key(self.def_id_str@),
    {
        let s = self.def_id_str.as_str();
        let n = s.unicode_len();
        match find_char(s, '~') {
            Some(i) => String::from_str(s.substring_char(i + 1, n)),
            None => self.def_id_str.clone(),
        }
    }

    pub fn same_as(&self, other: &RLNode) -> (r: bool)
        ensures
            r == self.same(*other),
    {
        self.promoted == other.promoted && self.identity() == other.identity()
    }
}

impl PartialEq for RLNode {
    fn eq(&self, other: &RLNode) -> (r: bool) {
        self.same_as(other)
    }
}

impl vstd::std_specs::cmp::PartialEqSpecImpl for RLNode {
    open spec fn obeys_eq_spec() -> bool {
        true
    }

    open spec fn eq_spec(&self, other: &RLNode) -> bool {
        self.same(*other)
    }
}

/// An edge: the multiplier of the call kind and, per argument, its operand
/// kind and weight.
#[derive(Debug)]
pub struct RLEdge {
    pub call_multiplier: CallKindMultiplier,
    pub arg_weights: Vec<(OperandMultiplier, u32)>,
}

/// The sum of the weights of `ws`.
pub open spec fn weight_sum(ws: Seq<(OperandMultiplier, u32)>) -> nat
    decreases ws.len(),
{
    if ws.len() == 0 {
        0
    } else {
        (weight_sum(ws.drop_last()) + ws.last().1) as nat
    }
}

impl RLEdge {
    pub open spec fn view(self) -> (CallKindMultiplier, Seq<(OperandMultiplier, u32)>) {
        (self.call_multiplier, self.arg_weights@)
    }

    /// The edge's total weight: the sum of its argument weights, scaled by
    /// the call-kind multiplier.
    pub open spec fn spec_total_weight(self) -> nat {
        (self.call_multiplier.spec_value() * weight_sum(self.arg_weights@)) as nat
    }

    pub fn duplicate(&self) -> (r: RLEdge)
        ensures
            r@ == self@,
    {
        let mut ws: Vec<(OperandMultiplier, u32)> = Vec::new();
        let mut i: usize = 0;
        while i < self.arg_weights.len()
            invariant
                i <= self.arg_weights@.len(),
                ws@ == self.arg_weights@.subrange(0, i as int),
            decreases self.arg_weights@.len() - i,
        {
            ws.push(self.arg_weights[i]);
            i = i + 1;
            assert(ws@ =~= self.arg_weights@.subrange(0, i as int));
        }
        assert(ws@ =~= self.arg_weights@);
        RLEdge { call_multiplier: self.call_multiplier, arg_weights: ws }
    }

    /// The total weight, or `u64::MAX` for an edge with more than
    /// `u32::MAX` arguments.
    pub fn total_weight(&self) -> (r: u64)
        ensures
            self.arg_weights@.len() <= u32::MAX ==> r == self.spec_total_weight(),
            self.arg_weights@.len() > u32::MAX ==> r == u64::MAX,
    {
        if self.arg_weights.len() > u32::MAX as usize {
            return u64::MAX;
        }
        let mut sum: u64 = 0;
        let mut i: usize = 0;
        while i < self.arg_weights.len()
            invariant
                i <= self.arg_weights@.len() <= u32::MAX,
                sum == weight_sum(self.arg_weights@.subrange(0, i as int)),
                sum <= i * (u32::MAX as nat),
            decreases self.arg_weights@.len() - i,
        {
            let ghost pre = self.arg_weights@.subrange(0, i as int);
            let ghost next = self.arg_weights@.subrange(0, i + 1);
            assert(next.drop_last() =~= pre);
            assert(next.last() == self.arg_weights@[i as int]);
            let w = self.arg_weights[i].1;
            proof {
                let k = i as nat;
                let mx = u32::MAX as nat;
                assert(k + 1 <= mx);
                assert((k + 1) * mx == k * mx + mx) by (nonlinear_arith);
                assert((k + 1) * mx <= mx * mx) by (nonlinear_arith)
                    requires k + 1 <= mx;
                assert(mx * mx < u64::MAX) by (nonlinear_arith)
                    requires mx == u32::MAX;
            }
            sum = sum + w as u64;
            i = i + 1;
        }
        assert(self.arg_weights@.subrange(0, i as int) =~= self.arg_weights@);
        assert(self.call_multiplier.spec_value() == 1);
        sum
    }
}

/// Builds edges from a call-kind multiplier and argument weights.
pub trait RLGraphEdge: Sized {
    spec fn spec_parts(&self) -> (CallKindMultiplier, Seq<(OperandMultiplier, u32)>);

    fn create(edge: (CallKindMultiplier, Vec<(OperandMultiplier, u32)>)) -> (r: Self)
        ensures
            r.spec_parts() == (edge.0, edge.1@);
}

impl RLGraphEdge for RLEdge {
    open spec fn spec_parts(&self) -> (CallKindMultiplier, Seq<(OperandMultiplier, u32)>) {
        self@
    }

    fn create(edge: (CallKindMultiplier, Vec<(OperandMultiplier, u32)>)) -> (r: RLEdge) {
        let (call_multiplier, arg_weights) = edge;
        RLEdge { call_multiplier, arg_weights }
    }
}

/// The index of a node in a graph.
#[derive(Clone, Copy, Debug, PartialEq, Eq, Structural, Hash, PartialOrd, Ord, Default)]
pub struct RLIndex {
    pub index: usize,
}

/// Indices built from and read back as `usize`.
pub trait RLGraphIndex: Sized {
    spec fn spec_value(&self) -> usize;

    fn create(value: usize) -> (r: Self)
        ensures
            r.spec_value() == value;

    fn value(&self) -> (r: usize)
        ensures
            r == self.spec_value();
}

impl RLGraphIndex for RLIndex {
    open spec fn spec_value(&self) -> usize {
        self.index
    }

    fn create(value: usize) -> (r: RLIndex) {
        RLIndex { index: value }
    }

    fn value(&self) -> (r: usize) {
        self.index
    }
}

/// An edge as the contracts see it: source, target, and the edge's view.
pub type EdgeView = (usize, usize, (CallKindMultiplier, Seq<(OperandMultiplier, u32)>));

pub open spec fn edge_view(e: (usize, usize, RLEdge)) -> EdgeView {
    (e.0, e.1, e.2@)
}

pub open spec fn edge_views(es: Seq<(usize, usize, RLEdge)>) -> Seq<EdgeView> {
    es.map_values(|e: (usize, usize, RLEdge)| edge_view(e))
}

/// Some node of `ns` stands for the same entity as `n`.
pub open spec fn has_same(ns: Seq<RLNode>, n: RLNode) -> bool {
    exists|i: int| 0 <= i < ns.len() && (#[trigger] ns[i]).same(n)
}

/// `ns` with `n` appended, unless it already stands for `n`'s entity.
pub open spec fn insert_node(ns: Seq<RLNode>, n: RLNode) -> Seq<RLNode> {
    if has_same(ns, n) {
        ns
    } else {
        ns.push(n)
    }
}

/// `ns` with the nodes of `ms` inserted in order.
pub open spec fn union_nodes(ns: Seq<RLNode>, ms: Seq<RLNode>) -> Seq<RLNode>
    decreases ms.len(),
{
    if ms.len() == 0 {
        ns
    } else {
        insert_node(union_nodes(ns, ms.drop_last()), ms.last())
    }
}

/// No two nodes stand for the same entity.
pub open spec fn distinct_nodes(ns: Seq<RLNode>) -> bool {
    forall|i: int, j: int| 0 <= i < ns.len() && 0 <= j < ns.len() && i != j ==> !(#[trigger] ns[i]).same(#[trigger] ns[j])
}

/// Every edge's endpoints are below `n`.
pub open spec fn edges_within(es: Seq<EdgeView>, n: nat) -> bool {
    forall|k: int| 0 <= k < es.len() ==> (#[trigger] es[k]).0 < n && es[k].1 < n
}

/// `r` is the edge `b` of the graph with nodes `bn`, carried over to the
/// graph with nodes `rn`.
pub open spec fn carried_edge(rn: Seq<RLNode>, bn: Seq<RLNode>, b: EdgeView, r: EdgeView) -> bool {
    &&& r.2 == b.2
    &&& r.0 < rn.len() && r.1 < rn.len() && b.0 < bn.len() && b.1 < bn.len()
    &&& rn[r.0 as int].same(bn[b.0 as int])
    &&& rn[r.1 as int].same(bn[b.1 as int])
}

/// Merging the graph `(bn, be)` into `(an, ae)` gives `(rn, re)`: the nodes
/// are united by identity, and each edge of the second graph is appended
/// with its endpoints looked up by identity.
pub open spec fn merged(
    an: Seq<RLNode>,
    ae: Seq<EdgeView>,
    bn: Seq<RLNode>,
    be: Seq<EdgeView>,
    rn: Seq<RLNode>,
    re: Seq<EdgeView>,
) -> bool {
    &&& rn == union_nodes(an, bn)
    &&& re.len() == ae.len() + be.len()
    &&& re.subrange(0, ae.len() as int) == ae
    &&& forall|k: int| 0 <= k < be.len() ==> carried_edge(rn, bn, be[k], #[trigger] re[ae.len() + k])
}

pub proof fn lemma_union_grows(ns: Seq<RLNode>, ms: Seq<RLNode>)
    ensures
        ns.len() <= union_nodes(ns, ms).len() <= ns.len() + ms.len(),
        forall|i: int| 0 <= i < ns.len() ==> #[trigger] union_nodes(ns, ms)[i] == ns[i],
    decreases ms.len(),
{
    if ms.len() > 0 {
        lemma_union_grows(ns, ms.drop_last());
    }
}

pub proof fn lemma_union_covers(ns: Seq<RLNode>, ms: Seq<RLNode>, k: int)
    requires
        0 <= k < ms.len(),
    ensures
        has_same(union_nodes(ns, ms), ms[k]),
    decreases ms.len(),
{
    let u = union_nodes(ns, ms.drop_last());
    if k == ms.len() - 1 {
        if !has_same(u, ms.last()) {
            assert(u.push(ms.last())[u.len() as int].same(ms[k]));
        }
    } else {
        lemma_union_covers(ns, ms.drop_last(), k);
        assert(ms.drop_last()[k] == ms[k]);
        let i = choose|i: int| 0 <= i < u.len() && (#[trigger] u[i]).same(ms[k]);
        assert(union_nodes(ns, ms)[i] == u[i]);
    }
}

pub proof fn lemma_insert_distinct(ns: Seq<RLNode>, n: RLNode)
    requires
        distinct_nodes(ns),
    ensures
        distinct_nodes(insert_node(ns, n)),
{
    if !has_same(ns, n) {
        let r = ns.push(n);
        assert forall|i: int, j: int| 0 <= i < r.len() && 0 <= j < r.len() && i != j implies !(#[trigger] r[i]).same(
            #[trigger] r[j],
        ) by {
            if i == ns.len() {
                assert(!ns[j].same(n));
            } else if j == ns.len() {
                assert(!ns[i].same(n));
            }
        }
    }
}

pub proof fn lemma_union_distinct(ns: Seq<RLNode>, ms: Seq<RLNode>)
    requires
        distinct_nodes(ns),
    ensures
        distinct_nodes(union_nodes(ns, ms)),
    decreases ms.len(),
{
    if ms.len() > 0 {
        lemma_union_distinct(ns, ms.drop_last());
        lemma_insert_distinct(union_nodes(ns, ms.drop_last()), ms.last());
    }
}

/// A graph: a petgraph `DiGraph` whose nodes stand for distinct entities.
pub struct CallGraph {
    graph: DiGraph<RLNode, RLEdge>,
}

impl CallGraph {
    /// The node weights, in index order.
    pub closed spec fn nodes(&self) -> Seq<RLNode> {
        graph_nodes(self.graph)
    }

    /// The edges, in index order, with their weights.
    pub closed spec fn raw_edges(&self) -> Seq<(usize, usize, RLEdge)> {
        graph_edges(self.graph)
    }

    pub open spec fn edges(&self) -> Seq<EdgeView> {
        edge_views(self.raw_edges())
    }

    pub open spec fn wf(&self) -> bool {
        &&& distinct_nodes(self.nodes())
        &&& edges_within(self.edges(), self.nodes().len())
        &&& self.nodes().len() <= index_limit()
        &&& self.edges().len() <= index_limit()
    }

    /// An empty graph.
    pub fn new() -> (r: CallGraph)
        ensures
            r.wf(),
            r.nodes().len() == 0,
            r.edges().len() == 0,
    {
        let g = CallGraph { graph: graph_new() };
        assert(g.edges() =~= Seq::<EdgeView>::empty());
        g
    }

    pub fn node_count(&self) -> (r: usize)
        ensures
            r == self.nodes().len(),
    {
        graph_node_count(&self.graph)
    }

    pub fn edge_count(&self) -> (r: usize)
        ensures
            r == self.edges().len(),
    {
        graph_edge_count(&self.graph)
    }

    pub fn node(&self, i: usize) -> (r: &RLNode)
        requires
            i < self.nodes().len(),
        ensures
            *r == self.nodes()[i as int],
    {
        graph_node(&self.graph, i)
    }

    /// The edge at index `i`: source, target and weight.
    pub fn edge(&self, i: usize) -> (r: (usize, usize, &RLEdge))
        requires
            i < self.edges().len(),
        ensures
            (r.0, r.1, r.2@) == self.edges()[i as int],
    {
        graph_edge(&self.graph, i)
    }

    /// The index of a node that stands for the same entity as `n`, if any.
    pub fn find_node(&self, n: &RLNode) -> (r: Option<usize>)
        ensures
            match r {
                Some(i) => i < self.nodes().len() && self.nodes()[i as int].same(*n),
                None => !has_same(self.nodes(), *n),
            },
    {
        let count = graph_node_count(&self.graph);
        let mut i: usize = 0;
        while i < count
            invariant
                count == self.nodes().len(),
                i <= count,
                forall|j: int| 0 <= j < i ==> !(#[trigger] self.nodes()[j]).same(*n),
            decreases count - i,
        {
            if graph_node(&self.graph, i).same_as(n) {
                return Some(i);
            }
            i = i + 1;
        }
        None
    }

    /// Adds `node` unless a node for the same entity is there; returns the
    /// index of the node for that entity.
    pub fn rl_add_node(&mut self, node: RLNode) -> (r: RLIndex)
        requires
            old(self).wf(),
            old(self).nodes().len() < index_limit(),
        ensures
            final(self).wf(),
            final(self).nodes() == insert_node(old(self).nodes(), node),
            final(self).edges() == old(self).edges(),
            r.index < final(self).nodes().len(),
            final(self).nodes()[r.index as int].same(node),
    {
        proof {
            lemma_insert_distinct(self.nodes(), node);
        }
        match self.find_node(&node) {
            Some(i) => RLIndex { index: i },
            None => {
                let ghost n = node;
                let i = graph_add_node(&mut self.graph, node);
                assert(self.nodes()[i as int] == n);
                RLIndex { index: i }
            },
        }
    }

    /// Adds an edge from `source` to `target`; parallel edges are kept.
    pub fn rl_add_edge(&mut self, source: RLIndex, target: RLIndex, edge: RLEdge)
        requires
            old(self).wf(),
            source.index < old(self).nodes().len(),
            target.index < old(self).nodes().len(),
            old(self).edges().len() < index_limit(),
        ensures
            final(self).wf(),
            final(self).nodes() == old(self).nodes(),
            final(self).edges() == old(self).edges().push((source.index, target.index, edge@)),
    {
        let ghost e = edge;
        let ghost old_edges = graph_edges(self.graph);
        graph_add_edge(&mut self.graph, source.index, target.index, edge);
        assert(self.edges() =~= edge_views(old_edges).push((source.index, target.index, e@)));
    }

    /// Unites `other`'s nodes with this graph's by identity, then carries
    /// each of `other`'s edges over, its endpoints looked up by identity.
    pub fn merge(&mut self, other: &CallGraph)
        requires
            old(self).wf(),
            other.wf(),
            old(self).nodes().len() + other.nodes().len() < index_limit(),
            old(self).edges().len() + other.edges().len() <= index_limit(),
        ensures
            final(self).wf(),
            merged(old(self).nodes(), old(self).edges(), other.nodes(), other.edges(), final(self).nodes(), final(self).edges()),
    {
        let ghost an = self.nodes();
        let ghost ae = self.edges();
        let ghost bn = other.nodes();
        let ghost be = other.edges();
        let count = other.node_count();
        let mut i: usize = 0;
        while i < count
            invariant
                count == bn.len(),
                i <= count,
                bn == other.nodes(),
                self.wf(),
                self.nodes() == union_nodes(an, bn.take(i as int)),
                self.edges() == ae,
                an.len() + bn.len() < index_limit(),
            decreases count - i,
        {
            proof {
                lemma_union_grows(an, bn.take(i as int));
            }
            let n = other.node(i).duplicate();
            self.rl_add_node(n);
            assert(bn.take(i + 1).drop_last() =~= bn.take(i as int));
            i = i + 1;
        }
        assert(bn.take(count as int) =~= bn);
        let ghost rn = self.nodes();
        proof {
            lemma_union_grows(an, bn);
        }
        let ecount = other.edge_count();
        let mut j: usize = 0;
        while j < ecount
            invariant
                ecount == be.len(),
                j <= ecount,
                bn == other.nodes(),
                be == other.edges(),
                other.wf(),
                self.wf(),
                self.nodes() == rn,
                rn == union_nodes(an, bn),
                self.edges().len() == ae.len() + j,
                self.edges().subrange(0, ae.len() as int) == ae,
                ae.len() + be.len() <= index_limit(),
                forall|k: int| 0 <= k < j ==> carried_edge(rn, bn, be[k], #[trigger] self.edges()[ae.len() + k]),
            decreases ecount - j,
        {
            let (s, t, e) = other.edge(j);
            proof {
                lemma_union_covers(an, bn, s as int);
                lemma_union_covers(an, bn, t as int);
            }
            let si = self.find_node(other.node(s));
            let ti = self.find_node(other.node(t));
            match (si, ti) {
                (Some(si), Some(ti)) => {
                    let ghost before = self.edges();
                    let e2 = e.duplicate();
                    self.rl_add_edge(RLIndex { index: si }, RLIndex { index: ti }, e2);
                    assert(self.edges().subrange(0, ae.len() as int) =~= before.subrange(0, ae.len() as int));
                    assert forall|k: int| 0 <= k < j + 1 implies carried_edge(rn, bn, be[k], #[trigger] self.edges()[ae.len() + k]) by {
                        if k < j {
                            assert(self.edges()[ae.len() + k] == before[ae.len() + k]);
                        }
                    }
                },
                _ => {
                    assert(false);
                },
            }
            j = j + 1;
        }
    }
}

pub proof fn lemma_union_of_distinct(ms: Seq<RLNode>)
    requires
        distinct_nodes(ms),
    ensures
        union_nodes(Seq::<RLNode>::empty(), ms) == ms,
    decreases ms.len(),
{
    if ms.len() > 0 {
        let d = ms.drop_last();
        assert forall|i: int, j: int| 0 <= i < d.len() && 0 <= j < d.len() && i != j implies !(#[trigger] d[i]).same(
            #[trigger] d[j],
        ) by {
            assert(d[i] == ms[i] && d[j] == ms[j]);
        }
        lemma_union_of_distinct(d);
        if has_same(d, ms.last()) {
            let i = choose|i: int| 0 <= i < d.len() && (#[trigger] d[i]).same(ms.last());
            assert(ms[i].same(ms[ms.len() - 1]));
        }
        assert(d.push(ms.last()) =~= ms);
    }
}

pub proof fn lemma_union_absorbs(ns: Seq<RLNode>, ms: Seq<RLNode>)
    requires
        forall|k: int| 0 <= k < ms.len() ==> has_same(ns, #[trigger] ms[k]),
    ensures
        union_nodes(ns, ms) == ns,
    decreases ms.len(),
{
    if ms.len() > 0 {
        let d = ms.drop_last();
        assert forall|k: int| 0 <= k < d.len() implies has_same(ns, #[trigger] d[k]) by {
            assert(d[k] == ms[k]);
        }
        lemma_union_absorbs(ns, d);
        assert(has_same(ns, ms[ms.len() - 1]));
    }
}

/// Edges carried into a graph whose nodes are the source graph's own,
/// distinct nodes keep their endpoints.
pub proof fn lemma_carried_into_same_nodes(ns: Seq<RLNode>, b: EdgeView, r: EdgeView)
    requires
        distinct_nodes(ns),
        carried_edge(ns, ns, b, r),
    ensures
        r == b,
{
    if r.0 != b.0 {
        assert(!ns[r.0 as int].same(ns[b.0 as int]));
    }
    if r.1 != b.1 {
        assert(!ns[r.1 as int].same(ns[b.1 as int]));
    }
}

/// Merging a graph into an empty graph reproduces it: the same nodes in
/// the same order and the same edges.
pub proof fn lemma_merge_into_empty(
    bn: Seq<RLNode>,
    be: Seq<EdgeView>,
    rn: Seq<RLNode>,
    re: Seq<EdgeView>,
)
    requires
        distinct_nodes(bn),
        edges_within(be, bn.len()),
        merged(Seq::<RLNode>::empty(), Seq::<EdgeView>::empty(), bn, be, rn, re),
    ensures
        rn == bn,
        re == be,
{
    lemma_union_of_distinct(bn);
    assert forall|k: int| 0 <= k < be.len() implies re[k] == be[k] by {
        assert(carried_edge(rn, bn, be[k], re[0 + k]));
        lemma_carried_into_same_nodes(bn, be[k], re[k]);
    }
    assert(re =~= be);
}

/// Merging a graph into itself adds no node and appends a copy of each of
/// its edges; merging it in a second time again adds no node and appends
/// the edges once more.
pub proof fn lemma_merge_self_idempotent(
    gn: Seq<RLNode>,
    ge: Seq<EdgeView>,
    r1n: Seq<RLNode>,
    r1e: Seq<EdgeView>,
    r2n: Seq<RLNode>,
    r2e: Seq<EdgeView>,
)
    requires
        distinct_nodes(gn),
        edges_within(ge, gn.len()),
        merged(gn, ge, gn, ge, r1n, r1e),
        merged(r1n, r1e, gn, ge, r2n, r2e),
    ensures
        r1n == gn,
        r2n == r1n,
        r1e == ge + ge,
        r2e == r1e + ge,
{
    assert forall|k: int| 0 <= k < gn.len() implies has_same(gn, #[trigger] gn[k]) by {
        assert(gn[k].same(gn[k]));
    }
    lemma_union_absorbs(gn, gn);
    assert forall|k: int| 0 <= k < r1e.len() implies r1e[k] == (ge + ge)[k] by {
        if k < ge.len() {
            assert(r1e.subrange(0, ge.len() as int)[k] == r1e[k]);
        } else {
            let m = k - ge.len();
            assert(carried_edge(gn, gn, ge[m], r1e[ge.len() + m]));
            lemma_carried_into_same_nodes(gn, ge[m], r1e[k]);
        }
    }
    assert(r1e =~= ge + ge);
    assert forall|k: int| 0 <= k < r2e.len() implies r2e[k] == (r1e + ge)[k] by {
        if k < r1e.len() {
            assert(r2e.subrange(0, r1e.len() as int)[k] == r2e[k]);
        } else {
            let m = k - r1e.len();
            assert(carried_edge(gn, gn, ge[m], r2e[r1e.len() + m]));
            lemma_carried_into_same_nodes(gn, ge[m], r2e[k]);
        }
    }
    assert(r2e =~= r1e + ge);
}

/// Two nodes whose canonical strings differ only before the `~` (the
/// unit-local numbering) and whose promoted constants agree stand for the
/// same entity, and uniting them leaves a single node.
pub proof fn lemma_identity_across_units(a: RLNode, b: RLNode, pa: Seq<char>, pb: Seq<char>, t: Seq<char>)
    requires
        a.def_id_str@ == pa + seq!['~'] + t,
        b.def_id_str@ == pb + seq!['~'] + t,
        forall|j: int| 0 <= j < pa.len() ==> pa[j] != '~',
        forall|j: int| 0 <= j < pb.len() ==> pb[j] != '~',
        a.promoted == b.promoted,
    ensures
        a.same(b),
        union_nodes(seq![a], seq![b]) == seq![a],
{
    lemma_split_first_concat(pa, '~', t);
    lemma_split_first_concat(pb, '~', t);
    assert(seq![a][0].same(b));
    assert(has_same(seq![a], b));
    assert(seq![b].drop_last() =~= Seq::<RLNode>::empty());
    assert(union_nodes(seq![a], Seq::<RLNode>::empty()) == seq![a]);
    assert(seq![b].last() == b);
}

/// The DOT label of the node at index `index`.
pub open spec fn node_label_text(index: usize, n: RLNode) -> Seq<char> {
    "label=\"i"@ + dec(index as nat) + ": "@ + n.def_id_str@ + " - "@ + match n.promoted {
        Some(p) => "promoted["@ + dec(p as nat) + "]"@,
        None => "None"@,
    } + "\""@
}

/// The DOT label of an edge: its total weight with two decimals.
pub open spec fn edge_label_text(e: RLEdge) -> Seq<char> {
    "label=\""@ + dec(
        if e.arg_weights@.len() <= u32::MAX { e.spec_total_weight() } else { u64::MAX as nat },
    ) + ".00\""@
}

pub fn node_label(index: usize, n: &RLNode) -> (r: String)
    ensures
        r@ == node_label_text(index, *n),
{
    let mut s = String::from_str("label=\"i");
    s.append(decimal(index as u64).as_str());
    s.append(": ");
    s.append(n.def_id_str.as_str());
    s.append(" - ");
    match n.promoted {
        Some(p) => {
            s.append("promoted[");
            s.append(decimal(p as u64).as_str());
            s.append("]");
        },
        None => s.append("None"),
    }
    s.append("\"");
    assert(s@ =~= node_label_text(index, *n));
    s
}

pub fn edge_label(e: &RLEdge) -> (r: String)
    ensures
        r@ == edge_label_text(*e),
{
    let mut s = String::from_str("label=\"");
    s.append(decimal(e.total_weight()).as_str());
    s.append(".00\"");
    assert(s@ =~= edge_label_text(*e));
    s
}

/// One DOT line per node, in index order: `    i [ label="..."]`.
pub open spec fn dot_nodes(ns: Seq<RLNode>) -> Seq<char>
    decreases ns.len(),
{
    if ns.len() == 0 {
        Seq::empty()
    } else {
        let i = (ns.len() - 1) as nat;
        dot_nodes(ns.drop_last()) + "    "@ + dec(i) + " [ "@ + node_label_text(i as usize, ns.last()) + "]\n"@
    }
}

/// One DOT line per edge, in index order: `    s -> t [ label="..."]`.
pub open spec fn dot_edges(es: Seq<(usize, usize, RLEdge)>) -> Seq<char>
    decreases es.len(),
{
    if es.len() == 0 {
        Seq::empty()
    } else {
        let e = es.last();
        dot_edges(es.drop_last()) + "    "@ + dec(e.0 as nat) + " -> "@ + dec(e.1 as nat) + " [ "@ + edge_label_text(e.2)
            + "]\n"@
    }
}

/// The DOT rendering of a graph with the labels above.
pub open spec fn dot_text(ns: Seq<RLNode>, es: Seq<(usize, usize, RLEdge)>) -> Seq<char> {
    "digraph {\n"@ + dot_nodes(ns) + dot_edges(es) + "}\n"@
}

/// Relies on petgraph's `Dot::with_attr_getters` and its `Debug` output
/// with `NodeNoLabel` and `EdgeNoLabel`: a `digraph {` line, one line per
/// node and one per edge in index order carrying the attributes that the
/// getters return, and a closing `}` line.
#[verifier::external_body]
fn graph_dot(g: &DiGraph<RLNode, RLEdge>) -> (r: String)
    ensures
        r@ == dot_text(graph_nodes(*g), graph_edges(*g)),
{
    let dot = Dot::with_attr_getters(
        g,
        &[Config::NodeNoLabel, Config::EdgeNoLabel],
        &|_, e| edge_label(e.weight()),
        &|_, (i, n)| node_label(i.index(), n),
    );
    format!("{:?}", dot)
}

impl CallGraph {
    /// The graph as DOT text.
    pub fn as_dot_str(&self) -> (r: String)
        ensures
            r@ == dot_text(self.nodes(), self.raw_edges()),
    {
        graph_dot(&self.graph)
    }
}

/// Every node of every graph of `gs` has a node of `ns` standing for it.
pub open spec fn covers_all(ns: Seq<RLNode>, gs: Seq<CallGraph>) -> bool {
    forall|i: int, k: int| 0 <= i < gs.len() && 0 <= k < gs[i].nodes().len() ==> has_same(ns, #[trigger] gs[i].nodes()[k])
}

pub proof fn lemma_union_keeps_same(ns: Seq<RLNode>, ms: Seq<RLNode>, n: RLNode)
    requires
        has_same(ns, n),
    ensures
        has_same(union_nodes(ns, ms), n),
{
    lemma_union_grows(ns, ms);
    let i = choose|i: int| 0 <= i < ns.len() && (#[trigger] ns[i]).same(n);
    assert(union_nodes(ns, ms)[i] == ns[i]);
}

/// The nodes of the first `n` graphs united in order.
pub open spec fn union_all(gs: Seq<CallGraph>, n: nat) -> Seq<RLNode>
    decreases n,
{
    if n == 0 || n > gs.len() {
        Seq::empty()
    } else {
        union_nodes(union_all(gs, (n - 1) as nat), gs[n - 1].nodes())
    }
}

/// The number of edges of the first `n` graphs.
pub open spec fn edges_total(gs: Seq<CallGraph>, n: nat) -> nat
    decreases n,
{
    if n == 0 || n > gs.len() {
        0
    } else {
        edges_total(gs, (n - 1) as nat) + gs[n - 1].edges().len()
    }
}

/// Merging the first `n` graphs in order stays within the index range at
/// each step.
pub open spec fn merge_fits(gs: Seq<CallGraph>, n: nat) -> bool
    decreases n,
{
    if n == 0 || n > gs.len() {
        n == 0
    } else {
        merge_fits(gs, (n - 1) as nat) && union_all(gs, (n - 1) as nat).len() + gs[n - 1].nodes().len() < index_limit()
            && edges_total(gs, (n - 1) as nat) + gs[n - 1].edges().len() <= index_limit()
    }
}

/// `ns` and `es` are the first `n` graphs merged in order: united nodes,
/// and each graph's edges appended in turn, their endpoints looked up by
/// identity.
pub open spec fn merged_all(gs: Seq<CallGraph>, n: nat, ns: Seq<RLNode>, es: Seq<EdgeView>) -> bool {
    &&& ns == union_all(gs, n)
    &&& es.len() == edges_total(gs, n)
    &&& forall|i: int, k: int| 0 <= i < n && 0 <= k < gs[i].edges().len() ==> carried_edge(
        ns,
        gs[i].nodes(),
        gs[i].edges()[k],
        #[trigger] es[edges_total(gs, i as nat) + k],
    )
}

/// Merges `graphs`, in order, into an empty graph. `None` exactly when a
/// step would exceed the index range.
pub fn merge_all_rl_graphs(graphs: &Vec<CallGraph>) -> (r: Option<CallGraph>)
    requires
        forall|i: int| 0 <= i < graphs@.len() ==> (#[trigger] graphs@[i]).wf(),
    ensures
        r is Some <==> merge_fits(graphs@, graphs@.len()),
        r matches Some(g) ==> g.wf() && merged_all(graphs@, graphs@.len(), g.nodes(), g.edges()) && covers_all(
            g.nodes(),
            graphs@,
        ),
{
    let ghost gs = graphs@;
    let mut acc = CallGraph::new();
    assert(acc.nodes() =~= union_all(gs, 0));
    let mut i: usize = 0;
    while i < graphs.len()
        invariant
            gs == graphs@,
            i <= gs.len(),
            acc.wf(),
            forall|j: int| 0 <= j < gs.len() ==> (#[trigger] gs[j]).wf(),
            covers_all(acc.nodes(), gs.take(i as int)),
            merge_fits(gs, i as nat),
            merged_all(gs, i as nat, acc.nodes(), acc.edges()),
        decreases gs.len() - i,
    {
        let g = &graphs[i];
        let an = acc.node_count();
        let ae = acc.edge_count();
        let bn = g.node_count();
        let be = g.edge_count();
        if bn >= u32::MAX as usize - an || be > u32::MAX as usize - ae {
            proof {
                lemma_merge_fits_prefix(gs, (i + 1) as nat, gs.len());
            }
            return None;
        }
        let ghost before = acc.nodes();
        let ghost before_edges = acc.edges();
        acc.merge(g);
        proof {
            lemma_union_grows(before, g.nodes());
            let gs1 = gs.take(i + 1);
            assert forall|j: int, k: int| 0 <= j < gs1.len() && 0 <= k < gs1[j].nodes().len() implies has_same(
                acc.nodes(),
                #[trigger] gs1[j].nodes()[k],
            ) by {
                if j < i {
                    assert(gs1[j] == gs.take(i as int)[j]);
                    lemma_union_keeps_same(before, g.nodes(), gs1[j].nodes()[k]);
                } else {
                    assert(gs1[j] == *g);
                    lemma_union_covers(before, g.nodes(), k);
                }
            }
            let ns = acc.nodes();
            let es = acc.edges();
            assert forall|j: int, k: int| 0 <= j < i + 1 && 0 <= k < gs[j].edges().len() implies carried_edge(
                ns,
                gs[j].nodes(),
                gs[j].edges()[k],
                #[trigger] es[edges_total(gs, j as nat) + k],
            ) by {
                if j < i {
                    lemma_edges_total_mono(gs, (j + 1) as nat, i as nat);
                    let p = edges_total(gs, j as nat) + k;
                    assert(p < before_edges.len());
                    assert(es.subrange(0, before_edges.len() as int)[p] == es[p]);
                    assert(es[p] == before_edges[p]);
                    assert(carried_edge(before, gs[j].nodes(), gs[j].edges()[k], before_edges[p]));
                } else {
                    assert(carried_edge(ns, g.nodes(), g.edges()[k], es[before_edges.len() + k]));
                }
            }
        }
        i = i + 1;
    }
    assert(gs.take(i as int) =~= gs);
    Some(acc)
}

pub proof fn lemma_edges_total_mono(gs: Seq<CallGraph>, a: nat, b: nat)
    requires
        a <= b <= gs.len(),
    ensures
        edges_total(gs, a) <= edges_total(gs, b),
    decreases b - a,
{
    if a < b {
        lemma_edges_total_mono(gs, a, (b - 1) as nat);
    }
}

pub proof fn lemma_merge_fits_prefix(gs: Seq<CallGraph>, k: nat, n: nat)
    requires
        k <= n <= gs.len(),
        !merge_fits(gs, k),
    ensures
        !merge_fits(gs, n),
    decreases n - k,
{
    if k < n {
        lemma_merge_fits_prefix(gs, k, (n - 1) as nat);
    }
}

} // verus!
