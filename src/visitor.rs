//! The single pass over each function body that maintains the context and
//! records each resolved call as a weighted edge.
use vstd::prelude::*;
use crate::context::{CallKind, CtxView, RLContext, RLValue, Target, add_parent, initial_view, remove_all, restore};
use crate::graph::{CallGraph, RLEdge, RLGraphEdge, RLIndex, RLNode, has_same, index_limit, insert_node, union_nodes, lemma_union_grows};
use crate::ir::{AggregateKind, BasicBlock, Body, ConstValue, Operand, Rvalue, Statement, SymbolId, SymbolInfo, Terminator};
use crate::resolver::{RLCallResolver, ResolveError, Resolved, Resolution, copy_operands, resolutions_of, spec_fuel, spec_operand};
use crate::weights::{CallKindMultiplier, OperandMultiplier, RLWeightResolver, arg_weights};

verus! {

/// Why the analysis of one function stopped. Each names the function (an
/// index into the unit's table) and the block.
#[derive(Clone, Copy, Debug, PartialEq, Eq, Structural)]
pub enum AnalysisError {
    /// A yield, inline assembly or tail call.
    UnsupportedTerminator(usize, usize),
    /// A callee operand of an unanticipated shape.
    Resolution(usize, usize, ResolveError),
    /// The tuple argument of a closure call is not a tuple.
    ClosureArguments(usize, usize),
    /// A slot, block or symbol that the body does not declare.
    MalformedBody(usize, usize),
    /// The graph holds as many nodes or edges as its indices allow.
    GraphFull,
}

/// The arguments a callee receives, as a plain list: for a closure, the
/// elements of the tuple passed second, or none for a zero-sized value.
pub open spec fn spec_update_args(bindings: Seq<Option<RLValue>>, args: Seq<Operand>, kind: CallKind) -> Option<Seq<Operand>> {
    if kind == CallKind::Closure {
        if args.len() < 2 {
            None
        } else {
            match args[1] {
                Operand::Move(p) => if p < bindings.len() {
                    tuple_of(bindings[p as int])
                } else {
                    None
                },
                Operand::Constant(ConstValue::ZeroSized) => Some(Seq::<Operand>::empty()),
                _ => None,
            }
        }
    } else {
        Some(args)
    }
}

/// The elements of a tuple aggregate.
pub open spec fn tuple_of(v: Option<RLValue>) -> Option<Seq<Operand>> {
    match v {
        Some(RLValue::Rvalue(rv)) => match *rv {
            Rvalue::Aggregate(AggregateKind::Tuple, ops) => Some(ops@),
            _ => None,
        },
        _ => None,
    }
}

/// The parts of the edge that a call of `kind` with these arguments makes.
pub open spec fn edge_parts(kind: CallKind, args: Seq<Operand>) -> (CallKindMultiplier, Seq<(OperandMultiplier, u32)>) {
    (CallKindMultiplier::spec_of(kind), arg_weights(args))
}

/// The edges that the resolutions `rs` of one call make, in order: one per
/// resolution whose kind makes an edge.
pub open spec fn spec_call_edges(bindings: Seq<Option<RLValue>>, rs: Seq<Resolution>) -> Option<
    Seq<(Target, (CallKindMultiplier, Seq<(OperandMultiplier, u32)>))>,
>
    decreases rs.len(),
{
    if rs.len() == 0 {
        Some(Seq::empty())
    } else {
        match spec_call_edges(bindings, rs.drop_last()) {
            None => None,
            Some(p) => {
                let r = rs.last();
                if !r.1.spec_makes_edge() {
                    Some(p)
                } else {
                    match spec_update_args(bindings, r.2, r.1) {
                        None => None,
                        Some(a) => Some(p.push((r.0, edge_parts(r.1, a)))),
                    }
                }
            },
        }
    }
}

pub proof fn lemma_call_edges_fail_prefix(bindings: Seq<Option<RLValue>>, rs: Seq<Resolution>, k: int)
    requires
        0 <= k <= rs.len(),
        spec_call_edges(bindings, rs.take(k)) is None,
    ensures
        spec_call_edges(bindings, rs) is None,
    decreases rs.len() - k,
{
    if k < rs.len() {
        assert(rs.drop_last().take(k) =~= rs.take(k));
        lemma_call_edges_fail_prefix(bindings, rs.drop_last(), k);
    } else {
        assert(rs.take(k) =~= rs);
    }
}

pub open spec fn pending_view(v: Seq<(Target, RLEdge)>) -> Seq<(Target, (CallKindMultiplier, Seq<(OperandMultiplier, u32)>))> {
    v.map_values(|p: (Target, RLEdge)| (p.0, p.1@))
}

/// The value a call's destination is bound to.
pub fn call_result<'a>(kind: CallKind, target: Target, args: &Vec<Operand>) -> (r: RLValue<'a>)
    ensures
        r == RLValue::spec_call_result(kind, target, if args@.len() > 0 { Some(args@[0]) } else { None }),
{
    match kind {
        CallKind::Clone => {
            if args.len() > 0 {
                RLValue::TermCallClone(args[0])
            } else {
                RLValue::TermCallStaticallyUnknown(target)
            }
        },
        CallKind::Const => RLValue::TermCallConst(target),
        CallKind::Static => RLValue::TermCallStatic(target),
        CallKind::StaticMut => RLValue::TermCallStaticMut(target),
        CallKind::StaticallyUnknown | CallKind::Unknown => RLValue::TermCallStaticallyUnknown(target),
        _ => RLValue::TermCall(target),
    }
}

/// The elements of a tuple aggregate, copied.
fn tuple_elements(v: &Option<RLValue>) -> (r: Option<Vec<Operand>>)
    ensures
        match r {
            Some(ops) => tuple_of(*v) == Some(ops@),
            None => tuple_of(*v) is None,
        },
{
    match v {
        Some(RLValue::Rvalue(Rvalue::Aggregate(AggregateKind::Tuple, ops))) => Some(copy_operands(ops)),
        _ => None,
    }
}

/// The arguments a callee of `kind` receives.
pub fn update_args(bindings: &Vec<Option<RLValue>>, args: &Vec<Operand>, kind: CallKind) -> (r: Option<Vec<Operand>>)
    ensures
        match r {
            Some(a) => spec_update_args(bindings@, args@, kind) == Some(a@),
            None => spec_update_args(bindings@, args@, kind) is None,
        },
{
    if kind != CallKind::Closure {
        return Some(copy_operands(args));
    }
    if args.len() < 2 {
        return None;
    }
    match args[1] {
        Operand::Move(p) => {
            if p < bindings.len() {
                tuple_elements(&bindings[p])
            } else {
                None
            }
        },
        Operand::Constant(ConstValue::ZeroSized) => Some(Vec::new()),
        _ => None,
    }
}

/// The edges that the resolutions of one call make, in order.
pub fn call_edges(bindings: &Vec<Option<RLValue>>, rs: &Vec<Resolved>) -> (r: Option<Vec<(Target, RLEdge)>>)
    ensures
        match r {
            Some(v) => spec_call_edges(bindings@, rs@.map_values(|x: Resolved| x.view())) == Some(pending_view(v@)),
            None => spec_call_edges(bindings@, rs@.map_values(|x: Resolved| x.view())) is None,
        },
{
    let ghost rv = rs@.map_values(|x: Resolved| x.view());
    let weights = RLWeightResolver::new();
    let mut out: Vec<(Target, RLEdge)> = Vec::new();
    let mut i: usize = 0;
    while i < rs.len()
        invariant
            i <= rs@.len(),
            rv == rs@.map_values(|x: Resolved| x.view()),
            spec_call_edges(bindings@, rv.take(i as int)) == Some(pending_view(out@)),
        decreases rs@.len() - i,
    {
        let r = &rs[i];
        assert(rv.take(i + 1).drop_last() =~= rv.take(i as int));
        assert(rv.take(i + 1).last() == r.view());
        if r.kind.makes_edge() {
            match update_args(bindings, &r.args, r.kind) {
                None => {
                    proof {
                        lemma_call_edges_fail_prefix(bindings@, rv, i + 1);
                    }
                    return None;
                },
                Some(a) => {
                    let (m, ws) = weights.resolve_arg_weights(&r.kind, &a);
                    let e = RLEdge::create((m, ws));
                    let ghost before = out@;
                    out.push((r.target, e));
                    assert(pending_view(out@) =~= pending_view(before).push((r.target, edge_parts(r.kind, a@))));
                },
            }
        }
        i = i + 1;
    }
    assert(rv.take(i as int) =~= rv);
    Some(out)
}

/// The canonical string of the node that stands for `t`.
pub open spec fn target_repr(symbols: Seq<SymbolInfo>, t: Target) -> Seq<char> {
    match t.symbol {
        None => crate::graph::statically_unknown_str(),
        Some(s) => if symbols[s as int].id == crate::graph::statically_unknown_id() {
            crate::graph::statically_unknown_str()
        } else {
            symbols[s as int].repr@
        },
    }
}

/// `t` names a symbol of the table, if any.
pub open spec fn valid_target(symbols: Seq<SymbolInfo>, t: Target) -> bool {
    t.symbol matches Some(s) ==> s < symbols.len()
}

/// `n` stands for the callee `t`.
pub open spec fn stands_for(n: RLNode, symbols: Seq<SymbolInfo>, t: Target) -> bool {
    crate::graph::identity_key(n.def_id_str@) == crate::graph::identity_key(target_repr(symbols, t))
        && n.promoted == t.promoted
}

/// An edge a walk records: the callee and the edge's parts.
pub type EdgeSpec = (Target, (CallKindMultiplier, Seq<(OperandMultiplier, u32)>));

/// The slots that the first `n` statements assign, in order.
pub open spec fn assigned(stmts: Seq<Statement>, n: nat) -> Seq<usize>
    decreases n,
{
    if n == 0 || n > stmts.len() {
        Seq::empty()
    } else {
        match stmts[n - 1] {
            Statement::Assign(s, _) => assigned(stmts, (n - 1) as nat).push(s),
            _ => assigned(stmts, (n - 1) as nat),
        }
    }
}

/// The first `n` statements of block `b` of function `f`, each assignment
/// binding its slot in order.
pub open spec fn bind_statements<'a>(c: CtxView<'a>, stmts: Seq<Statement>, n: nat, f: usize, b: usize) -> Result<
    CtxView<'a>,
    AnalysisError,
>
    decreases n,
{
    if n == 0 || n > stmts.len() {
        Ok(c)
    } else {
        match bind_statements(c, stmts, (n - 1) as nat, f, b) {
            Err(e) => Err(e),
            Ok(c1) => match stmts[n - 1] {
                Statement::Assign(s, rv) => if s >= c1.tys.len() {
                    Err(AnalysisError::MalformedBody(f, b))
                } else {
                    Ok(CtxView { bindings: c1.bindings.update(s as int, Some(RLValue::Rvalue(&rv))), ..c1 })
                },
                _ => Ok(c1),
            },
        }
    }
}

/// Block `b` recorded as a predecessor of each of the first `n` targets.
pub open spec fn add_parents<'a>(c: CtxView<'a>, ts: Seq<usize>, n: nat, b: usize) -> CtxView<'a>
    decreases n,
{
    if n == 0 || n > ts.len() {
        c
    } else {
        add_parent(add_parents(c, ts, (n - 1) as nat, b), ts[n - 1], b)
    }
}

pub proof fn lemma_add_parents_frame<'a>(c: CtxView<'a>, ts: Seq<usize>, n: nat, b: usize)
    ensures
        add_parents(c, ts, n, b) == (CtxView { parents: add_parents(c, ts, n, b).parents, ..c }),
    decreases n,
{
    if n > 0 && n <= ts.len() {
        lemma_add_parents_frame(c, ts, (n - 1) as nat, b);
    }
}

pub open spec fn all_below(ts: Seq<usize>, n: nat) -> bool {
    forall|i: int| 0 <= i < ts.len() ==> #[trigger] ts[i] < n
}

/// The terminator of block `b` of function `f`: the new context and the
/// edges of its call, if it is one.
pub open spec fn step_terminator<'a>(c: CtxView<'a>, syms: Seq<SymbolInfo>, t: Terminator, f: usize, b: usize) -> Result<
    (CtxView<'a>, Seq<EdgeSpec>),
    AnalysisError,
> {
    match t {
        Terminator::Call { func, args, destination, continuation } => {
            let c1 = CtxView { saved: c.saved.update(b as int, Some(c.bindings)), ..c };
            match spec_operand(c1, syms, func, args@, b, spec_fuel(c1)) {
                Err(e) => Err(AnalysisError::Resolution(f, b, e)),
                Ok(rs) => if destination >= c.tys.len() {
                    Err(AnalysisError::MalformedBody(f, b))
                } else {
                    let c2 = if rs.len() > 0 {
                        CtxView {
                            bindings: c1.bindings.update(
                                destination as int,
                                Some(RLValue::spec_call_result(rs[0].1, rs[0].0, if args@.len() > 0 { Some(args@[0]) } else { None })),
                            ),
                            ..c1
                        }
                    } else {
                        c1
                    };
                    match spec_call_edges(c2.bindings, rs) {
                        None => Err(AnalysisError::ClosureArguments(f, b)),
                        Some(es) => match continuation {
                            Some(n) => if n >= c.parents.len() {
                                Err(AnalysisError::MalformedBody(f, b))
                            } else {
                                Ok((add_parent(c2, n, b), es))
                            },
                            None => Ok((c2, es)),
                        },
                    }
                },
            }
        },
        Terminator::SwitchInt { targets } => if all_below(targets@, c.parents.len()) {
            let p = add_parents(c, targets@, targets@.len(), b);
            Ok((CtxView { stack: p.stack.push((c.bindings, targets@)), ..p }, Seq::empty()))
        } else {
            Err(AnalysisError::MalformedBody(f, b))
        },
        Terminator::Goto { target } | Terminator::Drop { target } | Terminator::Assert { target }
        | Terminator::FalseEdge { real_target: target } | Terminator::FalseUnwind { real_target: target } =>
            if target < c.parents.len() {
                Ok((add_parent(c, target, b), Seq::empty()))
            } else {
                Err(AnalysisError::MalformedBody(f, b))
            },
        Terminator::Return | Terminator::Unreachable => Ok((c, Seq::empty())),
        Terminator::Yield | Terminator::InlineAsm | Terminator::TailCall => Err(AnalysisError::UnsupportedTerminator(f, b)),
    }
}

/// Block `b` of function `f`: record its assigned slots, restore from a
/// branch cache, bind its statements, handle its terminator, and save the
/// bindings as the block's.
pub open spec fn step_block<'a>(c: CtxView<'a>, syms: Seq<SymbolInfo>, data: BasicBlock, f: usize, b: usize) -> Result<
    (CtxView<'a>, Seq<EdgeSpec>),
    AnalysisError,
> {
    let stmts = data.statements@;
    let c0 = CtxView { current: Some(b), used: c.used.update(b as int, assigned(stmts, stmts.len())), ..c };
    match bind_statements(restore(c0, b), stmts, stmts.len(), f, b) {
        Err(e) => Err(e),
        Ok(c2) => match step_terminator(c2, syms, data.terminator, f, b) {
            Err(e) => Err(e),
            Ok(p) => Ok((CtxView { saved: p.0.saved.update(b as int, Some(p.0.bindings)), current: None, ..p.0 }, p.1)),
        },
    }
}

/// The first `n` blocks of a body walked in order.
pub open spec fn walk_blocks<'a>(c: CtxView<'a>, syms: Seq<SymbolInfo>, blocks: Seq<BasicBlock>, n: nat, f: usize) -> Result<
    (CtxView<'a>, Seq<EdgeSpec>),
    AnalysisError,
>
    decreases n,
{
    if n == 0 || n > blocks.len() {
        Ok((c, Seq::empty()))
    } else {
        match walk_blocks(c, syms, blocks, (n - 1) as nat, f) {
            Err(e) => Err(e),
            Ok(p) => match step_block(p.0, syms, blocks[n - 1], f, (n - 1) as usize) {
                Err(e) => Err(e),
                Ok(q) => Ok((q.0, p.1 + q.1)),
            },
        }
    }
}

/// The calls of a body, in order, or why its walk stops.
pub open spec fn spec_walk(syms: Seq<SymbolInfo>, body: Body) -> Result<Seq<EdgeSpec>, AnalysisError> {
    match walk_blocks(
        initial_view(body.local_decls@, body.arg_count as nat, body.blocks@.len()),
        syms,
        body.blocks@,
        body.blocks@.len(),
        body.owner,
    ) {
        Ok(p) => Ok(p.1),
        Err(e) => Err(e),
    }
}

pub proof fn lemma_walk_fail_prefix<'a>(c: CtxView<'a>, syms: Seq<SymbolInfo>, blocks: Seq<BasicBlock>, k: nat, n: nat, f: usize)
    requires
        k <= n <= blocks.len(),
        walk_blocks(c, syms, blocks, k, f) is Err,
    ensures
        walk_blocks(c, syms, blocks, n, f) == walk_blocks(c, syms, blocks, k, f),
    decreases n - k,
{
    if k < n {
        lemma_walk_fail_prefix(c, syms, blocks, k, (n - 1) as nat, f);
    }
}

pub proof fn lemma_bind_fail_prefix<'a>(c: CtxView<'a>, stmts: Seq<Statement>, k: nat, n: nat, f: usize, b: usize)
    requires
        k <= n <= stmts.len(),
        bind_statements(c, stmts, k, f, b) is Err,
    ensures
        bind_statements(c, stmts, n, f, b) == bind_statements(c, stmts, k, f, b),
    decreases n - k,
{
    if k < n {
        lemma_bind_fail_prefix(c, stmts, k, (n - 1) as nat, f, b);
    }
}

pub open spec fn targets_valid(syms: Seq<SymbolInfo>, es: Seq<EdgeSpec>) -> bool {
    forall|k: int| 0 <= k < es.len() ==> valid_target(syms, (#[trigger] es[k]).0)
}

/// The slots that the statements of a block assign.
fn assigned_slots(data: &BasicBlock) -> (r: Vec<usize>)
    ensures
        r@ == assigned(data.statements@, data.statements@.len()),
{
    let mut r: Vec<usize> = Vec::new();
    let mut i: usize = 0;
    while i < data.statements.len()
        invariant
            i <= data.statements@.len(),
            r@ == assigned(data.statements@, i as nat),
        decreases data.statements@.len() - i,
    {
        match &data.statements[i] {
            Statement::Assign(slot, _) => r.push(*slot),
            _ => {},
        }
        i = i + 1;
    }
    r
}

/// Walks function bodies and builds the call graph of a unit.
pub struct RLVisitor<'a> {
    /// The unit's symbol table.
    pub symbols: Vec<SymbolInfo>,
    pub ctx: RLContext<'a>,
    pub rl_graph: CallGraph,
}

impl<'a> RLVisitor<'a> {
    /// A visitor with an empty graph for a unit with the given symbols.
    pub fn new(symbols: Vec<SymbolInfo>) -> (r: RLVisitor<'a>)
        ensures
            r.symbols@ == symbols@,
            r.rl_graph.wf(),
            r.rl_graph.nodes().len() == 0,
            r.rl_graph.edges().len() == 0,
    {
        let ctx = RLContext::new(&Vec::new(), 0, 0);
        RLVisitor { symbols, ctx, rl_graph: CallGraph::new() }
    }

    /// The graph built so far.
    pub fn rl_graph(&self) -> (r: &CallGraph)
        ensures
            *r == self.rl_graph,
    {
        &self.rl_graph
    }

    /// The node that stands for `t`.
    fn target_node(&self, t: Target) -> (r: RLNode)
        requires
            valid_target(self.symbols@, t),
        ensures
            stands_for(r, self.symbols@, t),
    {
        match t.symbol {
            None => RLNode::create(SymbolId { krate: 0, index: 0 }, t.promoted, &String::new()),
            Some(s) => RLNode::create(self.symbols[s].id, t.promoted, &self.symbols[s].repr),
        }
    }

    /// The index of the node for `t`, added if the graph has none for it.
    fn add_node_if_needed(&mut self, t: Target) -> (r: RLIndex)
        requires
            old(self).rl_graph.wf(),
            old(self).rl_graph.nodes().len() < index_limit(),
            valid_target(old(self).symbols@, t),
        ensures
            final(self).rl_graph.wf(),
            final(self).symbols@ == old(self).symbols@,
            final(self).ctx == old(self).ctx,
            final(self).rl_graph.edges() == old(self).rl_graph.edges(),
            old(self).rl_graph.nodes().len() <= final(self).rl_graph.nodes().len() <= old(self).rl_graph.nodes().len() + 1,
            forall|i: int| 0 <= i < old(self).rl_graph.nodes().len() ==> #[trigger] final(self).rl_graph.nodes()[i]
                == old(self).rl_graph.nodes()[i],
            r.index < final(self).rl_graph.nodes().len(),
            stands_for(final(self).rl_graph.nodes()[r.index as int], final(self).symbols@, t),
    {
        let node = self.target_node(t);
        let ghost n = node;
        let r = self.rl_graph.rl_add_node(node);
        r
    }

    /// Adds the edges of `pending` from the node `caller`, in order.
    fn commit_edges(&mut self, caller: RLIndex, pending: &Vec<(Target, RLEdge)>)
        requires
            old(self).rl_graph.wf(),
            caller.index < old(self).rl_graph.nodes().len(),
            old(self).rl_graph.nodes().len() + pending@.len() < index_limit(),
            old(self).rl_graph.edges().len() + pending@.len() <= index_limit(),
            forall|k: int| 0 <= k < pending@.len() ==> valid_target(old(self).symbols@, (#[trigger] pending@[k]).0),
        ensures
            final(self).rl_graph.wf(),
            final(self).symbols@ == old(self).symbols@,
            final(self).ctx == old(self).ctx,
            forall|i: int| 0 <= i < old(self).rl_graph.nodes().len() ==> #[trigger] final(self).rl_graph.nodes()[i]
                == old(self).rl_graph.nodes()[i],
            final(self).rl_graph.nodes().len() >= old(self).rl_graph.nodes().len(),
            final(self).rl_graph.edges().len() == old(self).rl_graph.edges().len() + pending@.len(),
            final(self).rl_graph.edges().subrange(0, old(self).rl_graph.edges().len() as int)
                == old(self).rl_graph.edges(),
            forall|k: int| 0 <= k < pending@.len() ==> {
                let e = #[trigger] final(self).rl_graph.edges()[old(self).rl_graph.edges().len() + k];
                &&& e.0 == caller.index
                &&& e.2 == pending@[k].1@
                &&& stands_for(final(self).rl_graph.nodes()[e.1 as int], final(self).symbols@, pending@[k].0)
            },
    {
        let ghost old_nodes = self.rl_graph.nodes();
        let ghost old_edges = self.rl_graph.edges();
        let mut i: usize = 0;
        while i < pending.len()
            invariant
                i <= pending@.len(),
                self.rl_graph.wf(),
                self.symbols@ == old(self).symbols@,
                self.ctx == old(self).ctx,
                caller.index < old_nodes.len(),
                old_nodes == old(self).rl_graph.nodes(),
                old_edges == old(self).rl_graph.edges(),
                old_nodes.len() + pending@.len() < index_limit(),
                old_edges.len() + pending@.len() <= index_limit(),
                old_nodes.len() <= self.rl_graph.nodes().len() <= old_nodes.len() + i,
                forall|j: int| 0 <= j < old_nodes.len() ==> #[trigger] self.rl_graph.nodes()[j] == old_nodes[j],
                self.rl_graph.edges().len() == old_edges.len() + i,
                self.rl_graph.edges().subrange(0, old_edges.len() as int) == old_edges,
                forall|k: int| 0 <= k < pending@.len() ==> valid_target(old(self).symbols@, (#[trigger] pending@[k]).0),
                forall|k: int| 0 <= k < i ==> {
                    let e = #[trigger] self.rl_graph.edges()[old_edges.len() + k];
                    &&& e.0 == caller.index
                    &&& e.2 == pending@[k].1@
                    &&& stands_for(self.rl_graph.nodes()[e.1 as int], self.symbols@, pending@[k].0)
                },
            decreases pending@.len() - i,
        {
            let ghost nodes_before = self.rl_graph.nodes();
            let ghost edges_before = self.rl_graph.edges();
            let target = self.add_node_if_needed(pending[i].0);
            let ghost nodes_mid = self.rl_graph.nodes();
            let e = pending[i].1.duplicate();
            self.rl_graph.rl_add_edge(caller, target, e);
            assert(self.rl_graph.edges().subrange(0, old_edges.len() as int) =~= edges_before.subrange(0, old_edges.len() as int));
            assert forall|k: int| 0 <= k < i + 1 implies {
                let e = #[trigger] self.rl_graph.edges()[old_edges.len() + k];
                &&& e.0 == caller.index
                &&& e.2 == pending@[k].1@
                &&& stands_for(self.rl_graph.nodes()[e.1 as int], self.symbols@, pending@[k].0)
            } by {
                if k < i {
                    assert(self.rl_graph.edges()[old_edges.len() + k] == edges_before[old_edges.len() + k]);
                    let e = edges_before[old_edges.len() + k];
                    assert(e.1 < nodes_before.len());
                    assert(nodes_mid[e.1 as int] == nodes_before[e.1 as int]);
                }
            }
            i = i + 1;
        }
    }

    /// The context keeps its shape for the body being walked.
    pub open spec fn walking(&self, n_slots: nat, n_blocks: nat) -> bool {
        &&& self.ctx.wf()
        &&& self.ctx.n_slots() == n_slots
        &&& self.ctx.n_blocks() == n_blocks
    }

    /// Handles the terminator of block `b` of the function `f`, appending
    /// the edges of a call to `pending`.
    fn visit_terminator(&mut self, f: usize, b: usize, term: &'a Terminator, pending: &mut Vec<(Target, RLEdge)>) -> (r: Result<
        (),
        AnalysisError,
    >)
        requires
            old(self).ctx.wf(),
            b < old(self).ctx.n_blocks(),
            old(self).ctx.current_basic_block == Some(b),
        ensures
            final(self).walking(old(self).ctx.n_slots(), old(self).ctx.n_blocks()),
            final(self).ctx.current_local_def_id == old(self).ctx.current_local_def_id,
            final(self).symbols@ == old(self).symbols@,
            final(self).rl_graph == old(self).rl_graph,
            match step_terminator(old(self).ctx.view(), old(self).symbols@, *term, f, b) {
                Ok(p) => r is Ok && final(self).ctx.view() == p.0 && pending_view(final(pending)@) == pending_view(
                    old(pending)@,
                ) + p.1,
                Err(e) => r == Err::<(), AnalysisError>(e),
            },
    {
        let n_blocks = self.ctx.map_parent_bb.len();
        let ghost c = self.ctx.view();
        match term {
            Terminator::Call { func, args, destination, continuation } => {
                self.ctx.save_bindings(b);
                proof {
                    self.ctx.lemma_view_wf();
                }
                let res = {
                    let resolver = RLCallResolver::new(&self.ctx, &self.symbols);
                    resolver.resolve_call_def_id(func, args, b)
                };
                let rs = match res {
                    Err(e) => {
                        return Err(AnalysisError::Resolution(f, b, e));
                    },
                    Ok(rs) => rs,
                };
                if *destination >= self.ctx.map_place_ty.len() {
                    return Err(AnalysisError::MalformedBody(f, b));
                }
                if rs.len() > 0 {
                    let v = call_result(rs[0].kind, rs[0].target, args);
                    self.ctx.insert_map_place_rlvalue(*destination, v);
                }
                let es = match call_edges(&self.ctx.map_place_rlvalue, &rs) {
                    None => {
                        return Err(AnalysisError::ClosureArguments(f, b));
                    },
                    Some(es) => es,
                };
                match continuation {
                    Some(t) => {
                        if *t >= n_blocks {
                            return Err(AnalysisError::MalformedBody(f, b));
                        }
                        self.ctx.add_current_bb_as_parent_of(*t);
                    },
                    None => {},
                }
                let ghost before = pending@;
                let mut es = es;
                let ghost esv = es@;
                pending.append(&mut es);
                assert(pending_view(pending@) =~= pending_view(before) + pending_view(esv));
                assert(step_terminator(c, old(self).symbols@, *term, f, b) == Ok::<(CtxView<'a>, Seq<EdgeSpec>), AnalysisError>((self.ctx.view(), pending_view(esv))));
                Ok(())
            },
            Terminator::SwitchInt { targets } => {
                let mut i: usize = 0;
                while i < targets.len()
                    invariant
                        self.walking(old(self).ctx.n_slots(), old(self).ctx.n_blocks()),
                        n_blocks == old(self).ctx.n_blocks(),
                        c == old(self).ctx.view(),
                        self.ctx.current_basic_block == Some(b),
                        self.ctx.current_local_def_id == old(self).ctx.current_local_def_id,
                        self.symbols@ == old(self).symbols@,
                        self.rl_graph == old(self).rl_graph,
                        self.ctx.view() == add_parents(c, targets@, i as nat, b),
                        i <= targets@.len(),
                        *term == (Terminator::SwitchInt { targets: *targets }),
                        self.ctx.n_blocks() == n_blocks,
                        forall|j: int| 0 <= j < i ==> targets@[j] < n_blocks,
                    decreases targets@.len() - i,
                {
                    if targets[i] >= n_blocks {
                        assert(!all_below(targets@, c.parents.len()));
                        return Err(AnalysisError::MalformedBody(f, b));
                    }
                    self.ctx.add_current_bb_as_parent_of(targets[i]);
                    i = i + 1;
                }
                assert(all_below(targets@, c.parents.len()));
                proof {
                    lemma_add_parents_frame(c, targets@, targets@.len(), b);
                }
                self.ctx.push_switch_cache(targets);
                assert(step_terminator(c, old(self).symbols@, *term, f, b) == Ok::<(CtxView<'a>, Seq<EdgeSpec>), AnalysisError>((self.ctx.view(), Seq::empty())));
                assert(pending_view(pending@) =~= pending_view(pending@) + Seq::<EdgeSpec>::empty());
                Ok(())
            },
            Terminator::Goto { target } | Terminator::Drop { target } | Terminator::Assert { target } | Terminator::FalseEdge {
                real_target: target,
            } | Terminator::FalseUnwind { real_target: target } => {
                if *target >= n_blocks {
                    return Err(AnalysisError::MalformedBody(f, b));
                }
                self.ctx.add_current_bb_as_parent_of(*target);
                assert(pending_view(pending@) =~= pending_view(pending@) + Seq::<EdgeSpec>::empty());
                assert(step_terminator(c, old(self).symbols@, *term, f, b) == Ok::<(CtxView<'a>, Seq<EdgeSpec>), AnalysisError>((self.ctx.view(), Seq::empty())));
                Ok(())
            },
            Terminator::Return | Terminator::Unreachable => {
                assert(pending_view(pending@) =~= pending_view(pending@) + Seq::<EdgeSpec>::empty());
                assert(step_terminator(c, old(self).symbols@, *term, f, b) == Ok::<(CtxView<'a>, Seq<EdgeSpec>), AnalysisError>((c, Seq::empty())));
                Ok(())
            },
            Terminator::Yield | Terminator::InlineAsm | Terminator::TailCall => Err(AnalysisError::UnsupportedTerminator(f, b)),
        }
    }

    /// Visits block `b` of the function `f`: its statements, then its
    /// terminator.
    fn visit_basic_block_data(&mut self, f: usize, b: usize, data: &'a BasicBlock, pending: &mut Vec<(Target, RLEdge)>) -> (r: Result<
        (),
        AnalysisError,
    >)
        requires
            old(self).ctx.wf(),
            b < old(self).ctx.n_blocks(),
        ensures
            final(self).walking(old(self).ctx.n_slots(), old(self).ctx.n_blocks()),
            final(self).ctx.current_local_def_id == old(self).ctx.current_local_def_id,
            final(self).symbols@ == old(self).symbols@,
            final(self).rl_graph == old(self).rl_graph,
            match step_block(old(self).ctx.view(), old(self).symbols@, *data, f, b) {
                Ok(p) => r is Ok && final(self).ctx.view() == p.0 && pending_view(final(pending)@) == pending_view(
                    old(pending)@,
                ) + p.1,
                Err(e) => r == Err::<(), AnalysisError>(e),
            },
    {
        let ghost stmts = data.statements@;
        self.ctx.set_current(Some(b));
        let used = assigned_slots(data);
        self.ctx.set_used_locals(b, used);
        self.ctx.restore_if_switch_target(b);
        let ghost c1 = self.ctx.view();
        let ghost c0 = CtxView {
            current: Some(b),
            used: old(self).ctx.view().used.update(b as int, assigned(stmts, stmts.len())),
            ..old(self).ctx.view()
        };
        assert(c1 == restore(c0, b));
        let mut i: usize = 0;
        while i < data.statements.len()
            invariant
                self.walking(old(self).ctx.n_slots(), old(self).ctx.n_blocks()),
                stmts == data.statements@,
                self.ctx.current_basic_block == Some(b),
                self.ctx.current_local_def_id == old(self).ctx.current_local_def_id,
                self.symbols@ == old(self).symbols@,
                self.rl_graph == old(self).rl_graph,
                b < old(self).ctx.n_blocks(),
                i <= stmts.len(),
                bind_statements(c1, stmts, i as nat, f, b) == Ok::<CtxView<'a>, AnalysisError>(self.ctx.view()),
                c1 == restore(c0, b),
                c0 == (CtxView {
                    current: Some(b),
                    used: old(self).ctx.view().used.update(b as int, assigned(stmts, stmts.len())),
                    ..old(self).ctx.view()
                }),
            decreases stmts.len() - i,
        {
            match &data.statements[i] {
                Statement::Assign(slot, rv) => {
                    if *slot >= self.ctx.map_place_ty.len() {
                        proof {
                            lemma_bind_fail_prefix(c1, stmts, (i + 1) as nat, stmts.len(), f, b);
                        }
                        return Err(AnalysisError::MalformedBody(f, b));
                    }
                    self.ctx.insert_map_place_rlvalue(*slot, RLValue::Rvalue(rv));
                },
                _ => {},
            }
            i = i + 1;
        }
        match self.visit_terminator(f, b, &data.terminator, pending) {
            Err(e) => {
                return Err(e);
            },
            Ok(()) => {},
        }
        self.ctx.save_bindings(b);
        self.ctx.set_current(None);
        Ok(())
    }

    /// Whether every callee of `pending` names a symbol of the table.
    fn all_targets_valid(&self, pending: &Vec<(Target, RLEdge)>) -> (r: bool)
        ensures
            r == forall|j: int| 0 <= j < pending@.len() ==> valid_target(self.symbols@, (#[trigger] pending@[j]).0),
    {
        let mut k: usize = 0;
        while k < pending.len()
            invariant
                k <= pending@.len(),
                forall|j: int| 0 <= j < k ==> valid_target(self.symbols@, (#[trigger] pending@[j]).0),
            decreases pending@.len() - k,
        {
            match pending[k].0.symbol {
                Some(s) => {
                    if s >= self.symbols.len() {
                        assert(!valid_target(self.symbols@, pending@[k as int].0));
                        return false;
                    }
                },
                None => {},
            }
            k = k + 1;
        }
        true
    }

    /// Walks one function body and adds its node and its calls to the
    /// graph: one edge per edge-making resolution of each call, in walk
    /// order, from the body's node to the callee's. When the walk fails,
    /// the body's node is there but none of its calls.
    pub fn visit_local_def_id(&mut self, body: &'a Body) -> (r: Result<(), AnalysisError>)
        requires
            old(self).rl_graph.wf(),
        ensures
            final(self).rl_graph.wf(),
            final(self).symbols@ == old(self).symbols@,
            old(self).rl_graph.nodes().len() <= final(self).rl_graph.nodes().len(),
            forall|i: int| 0 <= i < old(self).rl_graph.nodes().len() ==> #[trigger] final(self).rl_graph.nodes()[i]
                == old(self).rl_graph.nodes()[i],
            final(self).rl_graph.edges().subrange(0, old(self).rl_graph.edges().len() as int)
                == old(self).rl_graph.edges(),
            match visit_outcome(old(self).symbols@, *body, old(self).rl_graph.nodes().len(), old(self).rl_graph.edges().len()) {
                Err(e) => r == Err::<(), AnalysisError>(e) && final(self).rl_graph.edges() == old(self).rl_graph.edges(),
                Ok(es) => r is Ok && final(self).rl_graph.edges().len() == old(self).rl_graph.edges().len() + es.len()
                    && forall|k: int| 0 <= k < es.len() ==> {
                        let e = #[trigger] final(self).rl_graph.edges()[old(self).rl_graph.edges().len() + k];
                        &&& e.2 == es[k].1
                        &&& stands_for(final(self).rl_graph.nodes()[e.0 as int], final(self).symbols@, owner_target(*body))
                        &&& stands_for(final(self).rl_graph.nodes()[e.1 as int], final(self).symbols@, es[k].0)
                    },
            },
            body.owner < old(self).symbols@.len() && old(self).rl_graph.nodes().len() + 1 < index_limit() ==> has_same_target(
                final(self).rl_graph.nodes(),
                final(self).symbols@,
                owner_target(*body),
            ),
    {
        let f = body.owner;
        let ghost old_nodes = self.rl_graph.nodes();
        let ghost old_edges = self.rl_graph.edges();
        let ghost syms = self.symbols@;
        if f >= self.symbols.len() {
            return Err(AnalysisError::MalformedBody(f, 0));
        }
        let n0 = self.rl_graph.node_count();
        let e0 = self.rl_graph.edge_count();
        if n0 >= u32::MAX as usize - 1 {
            return Err(AnalysisError::GraphFull);
        }
        let me = Target { symbol: Some(f), promoted: body.promoted };
        let caller = self.add_node_if_needed(me);
        let ghost caller_node = self.rl_graph.nodes()[caller.index as int];
        assert(has_same_target(self.rl_graph.nodes(), self.symbols@, me));
        self.ctx = RLContext::new(&body.local_decls, body.arg_count, body.blocks.len());
        self.ctx.current_local_def_id = Some(f);
        let ghost init = initial_view::<'a>(body.local_decls@, body.arg_count as nat, body.blocks@.len());
        assert(self.ctx.view() == init);
        let mut pending: Vec<(Target, RLEdge)> = Vec::new();
        assert(pending_view(pending@) =~= Seq::<EdgeSpec>::empty());
        let mut b: usize = 0;
        while b < body.blocks.len()
            invariant
                self.walking(body.local_decls@.len(), body.blocks@.len()),
                self.symbols@ == syms,
                syms == old(self).symbols@,
                b <= body.blocks@.len(),
                walk_blocks(init, syms, body.blocks@, b as nat, f) == Ok::<(CtxView<'a>, Seq<EdgeSpec>), AnalysisError>(
                    (self.ctx.view(), pending_view(pending@)),
                ),
                self.rl_graph.wf(),
                self.rl_graph.edges() == old_edges,
                caller.index < self.rl_graph.nodes().len(),
                self.rl_graph.nodes()[caller.index as int] == caller_node,
                stands_for(caller_node, self.symbols@, me),
                forall|i: int| 0 <= i < old_nodes.len() ==> #[trigger] self.rl_graph.nodes()[i] == old_nodes[i],
                old_nodes == old(self).rl_graph.nodes(),
                old_edges == old(self).rl_graph.edges(),
                old_nodes.len() <= self.rl_graph.nodes().len() <= old_nodes.len() + 1,
                n0 == old_nodes.len(),
                e0 == old_edges.len(),
                n0 + 1 < index_limit(),
                f < syms.len(),
                has_same_target(self.rl_graph.nodes(), self.symbols@, me),
                me == owner_target(*body),
                f == body.owner,
                init == initial_view::<'a>(body.local_decls@, body.arg_count as nat, body.blocks@.len()),
            decreases body.blocks@.len() - b,
        {
            match self.visit_basic_block_data(f, b, &body.blocks[b], &mut pending) {
                Err(e) => {
                    assert(walk_blocks(init, syms, body.blocks@, (b + 1) as nat, f) == Err::<(CtxView<'a>, Seq<EdgeSpec>), AnalysisError>(e));
                    proof {
                        lemma_walk_fail_prefix(init, syms, body.blocks@, (b + 1) as nat, body.blocks@.len(), f);
                    }
                    assert(self.rl_graph.edges().subrange(0, old_edges.len() as int) =~= old_edges);
                    assert(spec_walk(syms, *body) == Err::<Seq<EdgeSpec>, AnalysisError>(e));
                    assert(visit_outcome(syms, *body, old_nodes.len(), old_edges.len()) == Err::<Seq<EdgeSpec>, AnalysisError>(e));
                    return Err(e);
                },
                Ok(()) => {},
            }
            b = b + 1;
        }
        let ghost es = pending_view(pending@);
        assert(spec_walk(syms, *body) == Ok::<Seq<EdgeSpec>, AnalysisError>(es));
        if !self.all_targets_valid(&pending) {
            assert(!targets_valid(syms, es)) by {
                let k = choose|k: int| 0 <= k < pending@.len() && !valid_target(syms, (#[trigger] pending@[k]).0);
                assert(es[k].0 == pending@[k].0);
            }
            assert(self.rl_graph.edges().subrange(0, old_edges.len() as int) =~= old_edges);
            return Err(AnalysisError::MalformedBody(f, 0));
        }
        assert(targets_valid(syms, es)) by {
            assert forall|k: int| 0 <= k < es.len() implies valid_target(syms, (#[trigger] es[k]).0) by {
                assert(es[k].0 == pending@[k].0);
            }
        }
        if pending.len() >= u32::MAX as usize - 1 - n0 || pending.len() > u32::MAX as usize - e0 {
            assert(self.rl_graph.edges().subrange(0, old_edges.len() as int) =~= old_edges);
            return Err(AnalysisError::GraphFull);
        }
        let ghost pre = self.rl_graph.nodes();
        self.commit_edges(caller, &pending);
        assert(self.rl_graph.nodes()[caller.index as int] == pre[caller.index as int]);
        assert(stands_for(self.rl_graph.nodes()[caller.index as int], self.symbols@, me));
        assert(has_same_target(self.rl_graph.nodes(), self.symbols@, me));
        assert forall|k: int| 0 <= k < es.len() implies {
            let e = #[trigger] self.rl_graph.edges()[old_edges.len() + k];
            &&& e.2 == es[k].1
            &&& stands_for(self.rl_graph.nodes()[e.0 as int], self.symbols@, owner_target(*body))
            &&& stands_for(self.rl_graph.nodes()[e.1 as int], self.symbols@, es[k].0)
        } by {
            assert(es[k] == (pending@[k].0, pending@[k].1@));
        }
        Ok(())
    }

    /// Walks every body of a unit in order; a body whose walk fails keeps
    /// its node but none of its calls, and the walk goes on with the next.
    /// One outcome per body.
    pub fn visit_bodies(&mut self, bodies: &'a Vec<Body>) -> (r: Vec<Result<(), AnalysisError>>)
        requires
            old(self).rl_graph.wf(),
        ensures
            final(self).rl_graph.wf(),
            final(self).symbols@ == old(self).symbols@,
            r@.len() == bodies@.len(),
            final(self).rl_graph.edges().len() == old(self).rl_graph.edges().len() + ok_edges(
                old(self).symbols@,
                bodies@,
                r@,
                bodies@.len(),
            ),
            exists|counts: Seq<nat>| #[trigger] counts.len() == bodies@.len() && forall|i: int| 0 <= i < bodies@.len() ==> {
                &&& old(self).rl_graph.nodes().len() <= counts[i]
                &&& r@[i] == unit_of(
                    visit_outcome(
                        old(self).symbols@,
                        bodies@[i],
                        #[trigger] counts[i],
                        old(self).rl_graph.edges().len() + ok_edges(old(self).symbols@, bodies@, r@, i as nat),
                    ),
                )
            },
            forall|i: int| 0 <= i < old(self).rl_graph.nodes().len() ==> #[trigger] final(self).rl_graph.nodes()[i]
                == old(self).rl_graph.nodes()[i],
    {
        let ghost mut counts: Seq<nat> = Seq::empty();
        let mut results: Vec<Result<(), AnalysisError>> = Vec::new();
        let mut i: usize = 0;
        while i < bodies.len()
            invariant
                i <= bodies@.len(),
                results@.len() == i,
                self.rl_graph.wf(),
                self.symbols@ == old(self).symbols@,
                old(self).rl_graph.nodes().len() <= self.rl_graph.nodes().len(),
                forall|j: int| 0 <= j < old(self).rl_graph.nodes().len() ==> #[trigger] self.rl_graph.nodes()[j]
                    == old(self).rl_graph.nodes()[j],
                self.rl_graph.edges().len() == old(self).rl_graph.edges().len() + ok_edges(
                    old(self).symbols@,
                    bodies@,
                    results@,
                    i as nat,
                ),
                counts.len() == i,
                forall|j: int| 0 <= j < i ==> {
                    &&& old(self).rl_graph.nodes().len() <= counts[j]
                    &&& results@[j] == unit_of(
                        visit_outcome(
                            old(self).symbols@,
                            bodies@[j],
                            #[trigger] counts[j],
                            old(self).rl_graph.edges().len() + ok_edges(old(self).symbols@, bodies@, results@, j as nat),
                        ),
                    )
                },
            decreases bodies@.len() - i,
        {
            let ghost before = self.rl_graph.nodes();
            let ghost n_nodes = self.rl_graph.nodes().len();
            let ghost n_edges = self.rl_graph.edges().len();
            let r = self.visit_local_def_id(&bodies[i]);
            let ghost prev = results@;
            results.push(r);
            proof {
                counts = counts.push(n_nodes);
                lemma_ok_edges_prefix(old(self).symbols@, bodies@, prev, results@, i as nat);
                assert forall|j: int| 0 <= j < i implies #[trigger] ok_edges(old(self).symbols@, bodies@, results@, j as nat)
                    == ok_edges(old(self).symbols@, bodies@, prev, j as nat) by {
                    lemma_ok_edges_prefix_eq(old(self).symbols@, bodies@, results@, prev, j as nat);
                }
                assert(results@[i as int] == r);
                assert(counts[i as int] == n_nodes);
                assert(n_edges == old(self).rl_graph.edges().len() + ok_edges(old(self).symbols@, bodies@, results@, i as nat));
                match visit_outcome(old(self).symbols@, bodies@[i as int], n_nodes, n_edges) {
                    Ok(es) => {
                        assert(r is Ok);
                        assert(r->Ok_0 == ());
                        assert(r == Ok::<(), AnalysisError>(()));
                    },
                    Err(e) => {
                        assert(r == Err::<(), AnalysisError>(e));
                    },
                }
                assert(r == unit_of(visit_outcome(old(self).symbols@, bodies@[i as int], n_nodes, n_edges)));
                assert forall|j: int| 0 <= j < i + 1 implies {
                    &&& old(self).rl_graph.nodes().len() <= counts[j]
                    &&& results@[j] == unit_of(
                        visit_outcome(
                            old(self).symbols@,
                            bodies@[j],
                            #[trigger] counts[j],
                            old(self).rl_graph.edges().len() + ok_edges(old(self).symbols@, bodies@, results@, j as nat),
                        ),
                    )
                } by {
                    if j < i {
                        assert(results@[j] == prev[j]);
                        assert(ok_edges(old(self).symbols@, bodies@, results@, j as nat) == ok_edges(old(self).symbols@, bodies@, prev, j as nat));
                    }
                }
                assert(ok_edges(old(self).symbols@, bodies@, results@, (i + 1) as nat) == ok_edges(
                    old(self).symbols@,
                    bodies@,
                    results@,
                    i as nat,
                ) + match (r, spec_walk(old(self).symbols@, bodies@[i as int])) {
                    (Ok(()), Ok(es)) => es.len(),
                    _ => 0,
                });
            }
            assert forall|j: int| 0 <= j < old(self).rl_graph.nodes().len() implies #[trigger] self.rl_graph.nodes()[j]
                == old(self).rl_graph.nodes()[j] by {
                assert(self.rl_graph.nodes()[j] == before[j]);
            }
            assert(results@[i as int] == r);
            i = i + 1;
        }
        assert(counts.len() == bodies@.len());
        results
    }
}

pub open spec fn unit_of(o: Result<Seq<EdgeSpec>, AnalysisError>) -> Result<(), AnalysisError> {
    match o {
        Ok(_) => Ok(()),
        Err(e) => Err(e),
    }
}

/// The callee that stands for a body's own function.
pub open spec fn owner_target(body: Body) -> Target {
    Target { symbol: Some(body.owner), promoted: body.promoted }
}

/// What visiting `body` gives on a graph with `n_nodes` nodes and `n_edges`
/// edges: the edges it adds, or why it adds none.
pub open spec fn visit_outcome(syms: Seq<SymbolInfo>, body: Body, n_nodes: nat, n_edges: nat) -> Result<
    Seq<EdgeSpec>,
    AnalysisError,
> {
    if body.owner >= syms.len() {
        Err(AnalysisError::MalformedBody(body.owner, 0))
    } else if n_nodes + 1 >= index_limit() {
        Err(AnalysisError::GraphFull)
    } else {
        match spec_walk(syms, body) {
            Err(e) => Err(e),
            Ok(es) => if !targets_valid(syms, es) {
                Err(AnalysisError::MalformedBody(body.owner, 0))
            } else if !(n_nodes + 1 + es.len() < index_limit() && n_edges + es.len() <= index_limit()) {
                Err(AnalysisError::GraphFull)
            } else {
                Ok(es)
            },
        }
    }
}

/// The number of edges that the successful walks among the first `n`
/// bodies add.
pub open spec fn ok_edges(syms: Seq<SymbolInfo>, bodies: Seq<Body>, rs: Seq<Result<(), AnalysisError>>, n: nat) -> nat
    decreases n,
{
    if n == 0 || n > bodies.len() || n > rs.len() {
        0
    } else {
        ok_edges(syms, bodies, rs, (n - 1) as nat) + match (rs[n - 1], spec_walk(syms, bodies[n - 1])) {
            (Ok(()), Ok(es)) => es.len(),
            _ => 0,
        }
    }
}

pub proof fn lemma_ok_edges_prefix(
    syms: Seq<SymbolInfo>,
    bodies: Seq<Body>,
    prev: Seq<Result<(), AnalysisError>>,
    rs: Seq<Result<(), AnalysisError>>,
    n: nat,
)
    requires
        n < bodies.len(),
        prev.len() == n,
        rs == prev.push(rs[n as int]),
    ensures
        ok_edges(syms, bodies, rs, n) == ok_edges(syms, bodies, prev, n),
    decreases n,
{
    if n > 0 {
        let p2 = prev.drop_last();
        assert(prev == p2.push(prev[n - 1]));
        assert(rs.drop_last() == prev);
        lemma_ok_edges_prefix_eq(syms, bodies, prev, rs, n);
    }
}

pub proof fn lemma_ok_edges_prefix_eq(
    syms: Seq<SymbolInfo>,
    bodies: Seq<Body>,
    a: Seq<Result<(), AnalysisError>>,
    b: Seq<Result<(), AnalysisError>>,
    n: nat,
)
    requires
        n <= a.len(),
        n <= b.len(),
        forall|i: int| 0 <= i < n ==> a[i] == b[i],
    ensures
        ok_edges(syms, bodies, a, n) == ok_edges(syms, bodies, b, n),
    decreases n,
{
    if n > 0 {
        lemma_ok_edges_prefix_eq(syms, bodies, a, b, (n - 1) as nat);
    }
}

/// Some node of `ns` stands for `t`.
pub open spec fn has_same_target(ns: Seq<RLNode>, symbols: Seq<SymbolInfo>, t: Target) -> bool {
    exists|i: int| 0 <= i < ns.len() && stands_for(#[trigger] ns[i], symbols, t)
}

/// The resolutions of `rs` whose kind makes an edge, in order.
pub open spec fn edge_making(rs: Seq<Resolution>) -> Seq<Resolution>
    decreases rs.len(),
{
    if rs.len() == 0 {
        rs
    } else if rs.last().1.spec_makes_edge() {
        edge_making(rs.drop_last()).push(rs.last())
    } else {
        edge_making(rs.drop_last())
    }
}

/// Resolutions whose kind is the duplication operation or unknown make no
/// edge: the edges of any list of resolutions are those of its
/// edge-making resolutions alone.
pub proof fn lemma_kind_exclusions(bindings: Seq<Option<RLValue>>, rs: Seq<Resolution>)
    ensures
        spec_call_edges(bindings, rs) == spec_call_edges(bindings, edge_making(rs)),
    decreases rs.len(),
{
    if rs.len() > 0 {
        lemma_kind_exclusions(bindings, rs.drop_last());
        let sub = edge_making(rs.drop_last());
        if rs.last().1.spec_makes_edge() {
            assert(sub.push(rs.last()).drop_last() =~= sub);
            assert(sub.push(rs.last()).last() == rs.last());
        }
    }
}

/// A list of resolutions that are all duplications or unknown makes no edge.
pub proof fn lemma_no_edge_without_edge_kinds(bindings: Seq<Option<RLValue>>, rs: Seq<Resolution>)
    requires
        forall|i: int| 0 <= i < rs.len() ==> !(#[trigger] rs[i]).1.spec_makes_edge(),
    ensures
        spec_call_edges(bindings, rs) == Some(Seq::<(Target, (CallKindMultiplier, Seq<(OperandMultiplier, u32)>))>::empty()),
    decreases rs.len(),
{
    if rs.len() > 0 {
        let d = rs.drop_last();
        assert forall|i: int| 0 <= i < d.len() implies !(#[trigger] d[i]).1.spec_makes_edge() by {
            assert(d[i] == rs[i]);
        }
        lemma_no_edge_without_edge_kinds(bindings, d);
        assert(!rs[rs.len() - 1].1.spec_makes_edge());
        assert(rs.last() == rs[rs.len() - 1]);
    }
}

/// A direct call of a function item `g` whose kind is `Function` makes
/// exactly one edge, to `g`, with the `Function` multiplier.
pub proof fn lemma_direct_call_edge(
    ctx: CtxView,
    syms: Seq<SymbolInfo>,
    g: usize,
    args: Seq<Operand>,
    bb: usize,
    fuel: nat,
    bindings: Seq<Option<RLValue>>,
)
    requires
        g < syms.len(),
        !crate::resolver::unwraps_call_op(syms[g as int]),
        crate::resolver::fn_kind(syms[g as int]) == CallKind::Function,
    ensures
        spec_operand(ctx, syms, Operand::Constant(ConstValue::FnItem(g)), args, bb, fuel)
            == Ok::<Seq<Resolution>, ResolveError>(seq![(crate::resolver::symbol_target(g), CallKind::Function, args)]),
        spec_call_edges(bindings, seq![(crate::resolver::symbol_target(g), CallKind::Function, args)])
            == Some(seq![(crate::resolver::symbol_target(g), (CallKindMultiplier::Function, arg_weights(args)))]),
{
    crate::resolver::lemma_direct_call(ctx, syms, g, args, bb, fuel);
    let rs = seq![(crate::resolver::symbol_target(g), CallKind::Function, args)];
    assert(rs.drop_last() =~= Seq::<Resolution>::empty());
    assert(spec_call_edges(bindings, rs.drop_last()) == Some(Seq::<(Target, (CallKindMultiplier, Seq<(OperandMultiplier, u32)>))>::empty()));
    assert(rs.last() == (crate::resolver::symbol_target(g), CallKind::Function, args));
    assert(Seq::<(Target, (CallKindMultiplier, Seq<(OperandMultiplier, u32)>))>::empty().push(
        (crate::resolver::symbol_target(g), (CallKindMultiplier::Function, arg_weights(args))),
    ) =~= seq![(crate::resolver::symbol_target(g), (CallKindMultiplier::Function, arg_weights(args)))]);
}

/// A closure called with a zero-sized argument tuple makes an edge with no
/// argument weights.
pub proof fn lemma_closure_without_arguments(bindings: Seq<Option<RLValue>>, t: Target, args: Seq<Operand>)
    requires
        args.len() >= 2,
        args[1] == Operand::Constant(ConstValue::ZeroSized),
    ensures
        spec_call_edges(bindings, seq![(t, CallKind::Closure, args)])
            == Some(seq![(t, (CallKindMultiplier::Closure, Seq::<(OperandMultiplier, u32)>::empty()))]),
{
    let rs = seq![(t, CallKind::Closure, args)];
    assert(rs.drop_last() =~= Seq::<Resolution>::empty());
    assert(spec_call_edges(bindings, rs.drop_last()) == Some(Seq::<(Target, (CallKindMultiplier, Seq<(OperandMultiplier, u32)>))>::empty()));
    assert(rs.last() == (t, CallKind::Closure, args));
    assert(arg_weights(Seq::<Operand>::empty()) =~= Seq::<(OperandMultiplier, u32)>::empty());
    assert(Seq::<(Target, (CallKindMultiplier, Seq<(OperandMultiplier, u32)>))>::empty().push(
        (t, (CallKindMultiplier::Closure, Seq::<(OperandMultiplier, u32)>::empty())),
    ) =~= seq![(t, (CallKindMultiplier::Closure, Seq::<(OperandMultiplier, u32)>::empty()))]);
}

/// A closure called with a tuple of N arguments makes an edge with exactly
/// N argument weights, one per tuple element in order.
pub proof fn lemma_closure_tuple_arguments(
    bindings: Seq<Option<RLValue>>,
    t: Target,
    args: Seq<Operand>,
    p: usize,
    ops: Seq<Operand>,
)
    requires
        args.len() >= 2,
        args[1] == Operand::Move(p),
        p < bindings.len(),
        tuple_of(bindings[p as int]) == Some(ops),
    ensures
        spec_call_edges(bindings, seq![(t, CallKind::Closure, args)])
            == Some(seq![(t, (CallKindMultiplier::Closure, arg_weights(ops)))]),
        arg_weights(ops).len() == ops.len(),
{
    let rs = seq![(t, CallKind::Closure, args)];
    assert(rs.drop_last() =~= Seq::<Resolution>::empty());
    assert(spec_call_edges(bindings, rs.drop_last()) == Some(Seq::<(Target, (CallKindMultiplier, Seq<(OperandMultiplier, u32)>))>::empty()));
    assert(rs.last() == (t, CallKind::Closure, args));
    assert(Seq::<(Target, (CallKindMultiplier, Seq<(OperandMultiplier, u32)>))>::empty().push(
        (t, (CallKindMultiplier::Closure, arg_weights(ops))),
    ) =~= seq![(t, (CallKindMultiplier::Closure, arg_weights(ops)))]);
}

/// A body whose first block calls the function item `g` directly and then
/// returns walks to exactly one edge: to `g`, with the `Function`
/// multiplier and one weight per argument.
pub proof fn lemma_walk_direct_call(syms: Seq<SymbolInfo>, body: Body, g: usize, args: Seq<Operand>, dest: usize)
    requires
        g < syms.len(),
        !crate::resolver::unwraps_call_op(syms[g as int]),
        crate::resolver::fn_kind(syms[g as int]) == CallKind::Function,
        dest < body.local_decls@.len(),
        body.blocks@.len() == 2,
        body.blocks@[0].statements@.len() == 0,
        body.blocks@[0].terminator matches Terminator::Call { func, args: a, destination, continuation }
            && func == Operand::Constant(ConstValue::FnItem(g)) && a@ == args && destination == dest
            && continuation == Some(1usize),
        body.blocks@[1].statements@.len() == 0,
        body.blocks@[1].terminator == Terminator::Return,
    ensures
        spec_walk(syms, body) == Ok::<Seq<EdgeSpec>, AnalysisError>(
            seq![(crate::resolver::symbol_target(g), (CallKindMultiplier::Function, arg_weights(args)))],
        ),
{
    let init = initial_view(body.local_decls@, body.arg_count as nat, body.blocks@.len());
    let f = body.owner;
    let blocks = body.blocks@;
    let edge = (crate::resolver::symbol_target(g), (CallKindMultiplier::Function, arg_weights(args)));
    let c0 = CtxView { current: Some(0usize), used: init.used.update(0, assigned(blocks[0].statements@, 0)), ..init };
    assert(restore(c0, 0) == c0);
    let c1 = CtxView { saved: c0.saved.update(0, Some(c0.bindings)), ..c0 };
    crate::resolver::lemma_direct_call(c1, syms, g, args, 0, spec_fuel(c1));
    let rs = seq![(crate::resolver::symbol_target(g), CallKind::Function, args)];
    assert(rs[0] == (crate::resolver::symbol_target(g), CallKind::Function, args));
    let c2 = CtxView {
        bindings: c1.bindings.update(
            dest as int,
            Some(RLValue::spec_call_result(CallKind::Function, crate::resolver::symbol_target(g), if args.len() > 0 { Some(args[0]) } else { None })),
        ),
        ..c1
    };
    lemma_direct_call_edge(c1, syms, g, args, 0, spec_fuel(c1), c2.bindings);
    let t = step_terminator(c0, syms, blocks[0].terminator, f, 0);
    assert(t == Ok::<(CtxView, Seq<EdgeSpec>), AnalysisError>((add_parent(c2, 1, 0), seq![edge])));
    let w1 = walk_blocks(init, syms, blocks, 1, f);
    assert(walk_blocks(init, syms, blocks, 0, f) == Ok::<(CtxView, Seq<EdgeSpec>), AnalysisError>((init, Seq::empty())));
    assert(Seq::<EdgeSpec>::empty() + seq![edge] =~= seq![edge]);
    assert(w1 is Ok && w1->Ok_0.1 == seq![edge]);
    let d = w1->Ok_0.0;
    let d0 = CtxView { current: Some(1usize), used: d.used.update(1, assigned(blocks[1].statements@, 0)), ..d };
    assert(seq![edge] + Seq::<EdgeSpec>::empty() =~= seq![edge]);
    assert(step_block(d, syms, blocks[1], f, 1) is Ok);
}

/// A body whose first block ends in a yield, inline assembly or tail call
/// fails its walk with that block named, so visiting it adds no edge.
pub proof fn lemma_walk_unsupported(syms: Seq<SymbolInfo>, body: Body)
    requires
        body.blocks@.len() > 0,
        body.blocks@[0].statements@.len() == 0,
        body.blocks@[0].terminator is Yield || body.blocks@[0].terminator is InlineAsm || body.blocks@[0].terminator is TailCall,
    ensures
        spec_walk(syms, body) == Err::<Seq<EdgeSpec>, AnalysisError>(AnalysisError::UnsupportedTerminator(body.owner, 0)),
{
    let init = initial_view(body.local_decls@, body.arg_count as nat, body.blocks@.len());
    let blocks = body.blocks@;
    assert(walk_blocks(init, syms, blocks, 0, body.owner) == Ok::<(CtxView, Seq<EdgeSpec>), AnalysisError>((init, Seq::empty())));
    let c0 = CtxView { current: Some(0usize), used: init.used.update(0, assigned(blocks[0].statements@, 0)), ..init };
    assert(restore(c0, 0) == c0);
    assert(walk_blocks(init, syms, blocks, 1, body.owner) is Err);
    lemma_walk_fail_prefix(init, syms, blocks, 1, blocks.len(), body.owner);
}

/// A body whose first block only duplicates a value through the built-in
/// clone and then returns walks to no edge at all.
pub proof fn lemma_walk_clone_call(syms: Seq<SymbolInfo>, body: Body, c: usize, args: Seq<Operand>, dest: usize)
    requires
        c < syms.len(),
        crate::resolver::is_clone_op(syms[c as int]),
        dest < body.local_decls@.len(),
        body.blocks@.len() == 2,
        body.blocks@[0].statements@.len() == 0,
        body.blocks@[0].terminator matches Terminator::Call { func, args: a, destination, continuation }
            && func == Operand::Constant(ConstValue::FnItem(c)) && a@ == args && destination == dest
            && continuation == Some(1usize),
        body.blocks@[1].statements@.len() == 0,
        body.blocks@[1].terminator == Terminator::Return,
    ensures
        spec_walk(syms, body) == Ok::<Seq<EdgeSpec>, AnalysisError>(Seq::empty()),
{
    let init = initial_view(body.local_decls@, body.arg_count as nat, body.blocks@.len());
    let f = body.owner;
    let blocks = body.blocks@;
    let c0 = CtxView { current: Some(0usize), used: init.used.update(0, assigned(blocks[0].statements@, 0)), ..init };
    assert(restore(c0, 0) == c0);
    let c1 = CtxView { saved: c0.saved.update(0, Some(c0.bindings)), ..c0 };
    let rs = seq![(crate::resolver::symbol_target(c), CallKind::Clone, args)];
    assert(spec_operand(c1, syms, Operand::Constant(ConstValue::FnItem(c)), args, 0, spec_fuel(c1)) == Ok::<Seq<Resolution>, ResolveError>(rs));
    let c2 = CtxView {
        bindings: c1.bindings.update(
            dest as int,
            Some(RLValue::spec_call_result(CallKind::Clone, crate::resolver::symbol_target(c), if args.len() > 0 { Some(args[0]) } else { None })),
        ),
        ..c1
    };
    assert forall|i: int| 0 <= i < rs.len() implies !(#[trigger] rs[i]).1.spec_makes_edge() by {
        assert(rs[i] == rs[0]);
    }
    lemma_no_edge_without_edge_kinds(c2.bindings, rs);
    assert(walk_blocks(init, syms, blocks, 0, f) == Ok::<(CtxView, Seq<EdgeSpec>), AnalysisError>((init, Seq::empty())));
    assert(Seq::<EdgeSpec>::empty() + Seq::<EdgeSpec>::empty() =~= Seq::<EdgeSpec>::empty());
    let w1 = walk_blocks(init, syms, blocks, 1, f);
    assert(w1 is Ok && w1->Ok_0.1 == Seq::<EdgeSpec>::empty());
    assert(step_block(w1->Ok_0.0, syms, blocks[1], f, 1) is Ok);
}

/// The edge that a direct call of the function item `g` with `args` makes.
pub open spec fn function_edge(g: usize, args: Seq<Operand>) -> EdgeSpec {
    (crate::resolver::symbol_target(g), (CallKindMultiplier::Function, arg_weights(args)))
}

/// `if .. { x = g1 } else { x = g2 }; x(args)`: a switch in block 0 to
/// blocks 1 and 2, each binding slot `x` to a cast of its function item and
/// going to block 3, which calls `x` and continues to block 4, which
/// returns. The walk makes an edge to each of the two callees, in order.
pub proof fn lemma_walk_branch_fan_out(
    syms: Seq<SymbolInfo>,
    body: Body,
    x: usize,
    g1: usize,
    g2: usize,
    args: Seq<Operand>,
    dest: usize,
)
    requires
        g1 < syms.len() && g2 < syms.len(),
        !crate::resolver::unwraps_call_op(syms[g1 as int]),
        !crate::resolver::unwraps_call_op(syms[g2 as int]),
        crate::resolver::fn_kind(syms[g1 as int]) == CallKind::Function,
        crate::resolver::fn_kind(syms[g2 as int]) == CallKind::Function,
        x < body.local_decls@.len(),
        dest < body.local_decls@.len(),
        body.blocks@.len() == 5,
        body.blocks@[0].statements@.len() == 0,
        body.blocks@[0].terminator matches Terminator::SwitchInt { targets } && targets@ == seq![1usize, 2usize],
        body.blocks@[1].statements@ == seq![Statement::Assign(x, Rvalue::Cast(Operand::Constant(ConstValue::FnItem(g1))))],
        body.blocks@[1].terminator == (Terminator::Goto { target: 3 }),
        body.blocks@[2].statements@ == seq![Statement::Assign(x, Rvalue::Cast(Operand::Constant(ConstValue::FnItem(g2))))],
        body.blocks@[2].terminator == (Terminator::Goto { target: 3 }),
        body.blocks@[3].statements@.len() == 0,
        body.blocks@[3].terminator matches Terminator::Call { func, args: a, destination, continuation }
            && func == Operand::Copy(x) && a@ == args && destination == dest && continuation == Some(4usize),
        body.blocks@[4].statements@.len() == 0,
        body.blocks@[4].terminator == Terminator::Return,
    ensures
        spec_walk(syms, body) == Ok::<Seq<EdgeSpec>, AnalysisError>(seq![function_edge(g1, args), function_edge(g2, args)]),
{
    let n = body.local_decls@.len();
    let init = initial_view(body.local_decls@, body.arg_count as nat, 5);
    let f = body.owner;
    let bs = body.blocks@;
    let ts = seq![1usize, 2usize];
    // Block 0.
    let c0 = CtxView { current: Some(0usize), used: init.used.update(0, assigned(bs[0].statements@, 0)), ..init };
    assert(restore(c0, 0) == c0);
    let p = add_parents(c0, ts, 2, 0);
    lemma_add_parents_frame(c0, ts, 2, 0);
    assert(all_below(ts, 5));
    let q = CtxView { stack: p.stack.push((c0.bindings, ts)), ..p };
    let s0 = CtxView { saved: q.saved.update(0, Some(q.bindings)), current: None, ..q };
    assert(step_block(init, syms, bs[0], f, 0) == Ok::<(CtxView, Seq<EdgeSpec>), AnalysisError>((s0, Seq::empty())));
    assert(walk_blocks(init, syms, bs, 0, f) == Ok::<(CtxView, Seq<EdgeSpec>), AnalysisError>((init, Seq::empty())));
    assert(Seq::<EdgeSpec>::empty() + Seq::<EdgeSpec>::empty() =~= Seq::<EdgeSpec>::empty());
    assert(walk_blocks(init, syms, bs, 1, f) == Ok::<(CtxView, Seq<EdgeSpec>), AnalysisError>((s0, Seq::empty())));
    assert(ts[0] == 1usize && ts[1] == 2usize);
    assert(add_parents(c0, ts, 0, 0) == c0);
    assert(add_parents(c0, ts, 1, 0) == add_parent(c0, 1, 0));
    assert(p == add_parent(add_parent(c0, 1, 0), 2, 0));
    assert(c0.parents[1] == Seq::<usize>::empty() && c0.parents[2] == Seq::<usize>::empty());
    assert(c0.parents[3] == Seq::<usize>::empty() && c0.parents[4] == Seq::<usize>::empty());
    assert(s0.parents[1] =~= seq![0usize]);
    assert(s0.parents[2] =~= seq![0usize]);
    assert(s0.parents[3] =~= Seq::<usize>::empty());
    assert(s0.stack =~= seq![(init.bindings, ts)]);
    // Block 1.
    assert(ts.contains(1));
    assert(remove_all(ts, 1) =~= seq![2usize]) by {
        assert(ts.drop_last() =~= seq![1usize]);
        assert(ts.last() == 2usize);
        assert(seq![1usize].drop_last() =~= Seq::<usize>::empty());
        assert(seq![1usize].last() == 1usize);
        assert(remove_all(Seq::<usize>::empty(), 1) == Seq::<usize>::empty());
        assert(remove_all(seq![1usize], 1) == Seq::<usize>::empty());
        assert(Seq::<usize>::empty().push(2usize) =~= seq![2usize]);
    }
    let rv1 = Rvalue::Cast(Operand::Constant(ConstValue::FnItem(g1)));
    let d0 = CtxView { current: Some(1usize), used: s0.used.update(1, assigned(bs[1].statements@, 1)), ..s0 };
    assert(bs[1].statements@[0] == Statement::Assign(x, rv1));
    assert(assigned(bs[1].statements@, 0) == Seq::<usize>::empty());
    assert(assigned(bs[1].statements@, 1) =~= seq![x]);
    let d1 = CtxView { bindings: init.bindings, stack: seq![(init.bindings, seq![2usize])], ..d0 };
    assert(d0.stack.last() == (init.bindings, ts));
    assert(d0.stack.drop_last().push((init.bindings, seq![2usize])) =~= seq![(init.bindings, seq![2usize])]);
    assert(init.bindings.len() == init.tys.len());
    assert(restore(d0, 1) == d1);
    assert(d1.tys.len() == n);
    assert(bind_statements(d1, bs[1].statements@, 0, f, 1) == Ok::<CtxView, AnalysisError>(d1));
    let d2 = CtxView { bindings: init.bindings.update(x as int, Some(RLValue::Rvalue(&rv1))), ..d1 };
    assert(bind_statements(d1, bs[1].statements@, 1, f, 1) == Ok::<CtxView, AnalysisError>(d2));
    let d3 = add_parent(d2, 3, 1);
    let s1 = CtxView { saved: d3.saved.update(1, Some(d3.bindings)), current: None, ..d3 };
    assert(step_block(s0, syms, bs[1], f, 1) == Ok::<(CtxView, Seq<EdgeSpec>), AnalysisError>((s1, Seq::empty())));
    assert(walk_blocks(init, syms, bs, 2, f) == Ok::<(CtxView, Seq<EdgeSpec>), AnalysisError>((s1, Seq::empty())));
    assert(s1.parents[3] =~= seq![1usize]);
    // Block 2.
    assert(seq![2usize].contains(2));
    assert(remove_all(seq![2usize], 2) =~= Seq::<usize>::empty()) by {
        assert(seq![2usize].drop_last() =~= Seq::<usize>::empty());
        assert(seq![2usize].last() == 2usize);
        assert(remove_all(Seq::<usize>::empty(), 2) == Seq::<usize>::empty());
    }
    let rv2 = Rvalue::Cast(Operand::Constant(ConstValue::FnItem(g2)));
    let e0 = CtxView { current: Some(2usize), used: s1.used.update(2, assigned(bs[2].statements@, 1)), ..s1 };
    assert(bs[2].statements@[0] == Statement::Assign(x, rv2));
    assert(assigned(bs[2].statements@, 0) == Seq::<usize>::empty());
    assert(assigned(bs[2].statements@, 1) =~= seq![x]);
    let e1 = CtxView { bindings: init.bindings, stack: Seq::empty(), ..e0 };
    assert(e0.stack.drop_last() =~= Seq::<(Seq<Option<RLValue>>, Seq<usize>)>::empty());
    assert(e0.stack.last() == (init.bindings, seq![2usize]));
    assert(restore(e0, 2) == e1);
    assert(bind_statements(e1, bs[2].statements@, 0, f, 2) == Ok::<CtxView, AnalysisError>(e1));
    let e2 = CtxView { bindings: init.bindings.update(x as int, Some(RLValue::Rvalue(&rv2))), ..e1 };
    assert(bind_statements(e1, bs[2].statements@, 1, f, 2) == Ok::<CtxView, AnalysisError>(e2));
    let e3 = add_parent(e2, 3, 2);
    let s2 = CtxView { saved: e3.saved.update(2, Some(e3.bindings)), current: None, ..e3 };
    assert(step_block(s1, syms, bs[2], f, 2) == Ok::<(CtxView, Seq<EdgeSpec>), AnalysisError>((s2, Seq::empty())));
    assert(walk_blocks(init, syms, bs, 3, f) == Ok::<(CtxView, Seq<EdgeSpec>), AnalysisError>((s2, Seq::empty())));
    assert(s2.parents[3] =~= seq![1usize, 2usize]);
    // Block 3.
    let h0 = CtxView { current: Some(3usize), used: s2.used.update(3, assigned(bs[3].statements@, 0)), ..s2 };
    assert(restore(h0, 3) == h0);
    let h1 = CtxView { saved: h0.saved.update(3, Some(h0.bindings)), ..h0 };
    let fuel = spec_fuel(h1);
    assert(fuel >= 3);
    let r1 = (crate::resolver::symbol_target(g1), CallKind::Function, args);
    let r2 = (crate::resolver::symbol_target(g2), CallKind::Function, args);
    assert(crate::resolver::rvalue_at(h1, 1, x) == Some(rv1));
    assert(crate::resolver::rvalue_at(h1, 2, x) == Some(rv2));
    assert(h1.parents[1].len() == 1 && h1.parents[2].len() == 1);
    crate::resolver::lemma_direct_call(h1, syms, g1, args, 1, (fuel - 2) as nat);
    crate::resolver::lemma_direct_call(h1, syms, g2, args, 2, (fuel - 2) as nat);
    assert(h1.saved[1] is Some && h1.saved[2] is Some);
    assert(!crate::resolver::is_unbound_param(h1, 1, x));
    assert(!crate::resolver::is_unbound_param(h1, 2, x));
    assert(x < h1.n_slots() && h1.n_blocks() == 5);
    assert(crate::resolver::spec_slot(h1, syms, x, args, 1, (fuel - 1) as nat) == Ok::<Seq<Resolution>, ResolveError>(seq![r1]));
    assert(crate::resolver::spec_slot(h1, syms, x, args, 2, (fuel - 1) as nat) == Ok::<Seq<Resolution>, ResolveError>(seq![r2]));
    assert(h1.used[3] =~= Seq::<usize>::empty());
    assert(crate::resolver::spec_upper(h1, x, 3, h1.n_slots()) == Ok::<usize, ResolveError>(x));
    assert(h1.parents[3] == seq![1usize, 2usize]);
    crate::resolver::lemma_branch_fan_out(h1, syms, x, args, 3, fuel, x, r1, r2);
    let rs = seq![r1, r2];
    assert(spec_operand(h1, syms, Operand::Copy(x), args, 3, fuel) == Ok::<Seq<Resolution>, ResolveError>(rs));
    let h2 = CtxView {
        bindings: h1.bindings.update(
            dest as int,
            Some(RLValue::spec_call_result(CallKind::Function, crate::resolver::symbol_target(g1), if args.len() > 0 { Some(args[0]) } else { None })),
        ),
        ..h1
    };
    assert(rs.drop_last() =~= seq![r1]);
    assert(seq![r1].drop_last() =~= Seq::<Resolution>::empty());
    lemma_direct_call_edge(h1, syms, g1, args, 3, fuel, h2.bindings);
    assert(spec_call_edges(h2.bindings, seq![r1]) == Some(seq![function_edge(g1, args)]));
    assert(rs.last() == r2);
    assert(seq![function_edge(g1, args)].push(function_edge(g2, args)) =~= seq![function_edge(g1, args), function_edge(g2, args)]);
    assert(spec_call_edges(h2.bindings, rs) == Some(seq![function_edge(g1, args), function_edge(g2, args)]));
    let es = seq![function_edge(g1, args), function_edge(g2, args)];
    let h3 = add_parent(h2, 4, 3);
    assert(step_terminator(h0, syms, bs[3].terminator, f, 3) == Ok::<(CtxView, Seq<EdgeSpec>), AnalysisError>((h3, es)));
    let s3 = CtxView { saved: h3.saved.update(3, Some(h3.bindings)), current: None, ..h3 };
    assert(step_block(s2, syms, bs[3], f, 3) == Ok::<(CtxView, Seq<EdgeSpec>), AnalysisError>((s3, es)));
    assert(Seq::<EdgeSpec>::empty() + es =~= es);
    assert(walk_blocks(init, syms, bs, 4, f) == Ok::<(CtxView, Seq<EdgeSpec>), AnalysisError>((s3, es)));
    // Block 4.
    let k0 = CtxView { current: Some(4usize), used: s3.used.update(4, assigned(bs[4].statements@, 0)), ..s3 };
    assert(restore(k0, 4) == k0);
    assert(step_block(s3, syms, bs[4], f, 4) is Ok);
    assert(es + Seq::<EdgeSpec>::empty() =~= es);
}

/// `let y = g; let z = &y; z(args)`: a call through a reference to a slot
/// that holds the function item `g` walks to the same single edge as the
/// direct call `g(args)` (see `lemma_walk_direct_call`).
pub proof fn lemma_walk_alias_call(
    syms: Seq<SymbolInfo>,
    body: Body,
    g: usize,
    y: usize,
    z: usize,
    args: Seq<Operand>,
    dest: usize,
)
    requires
        g < syms.len(),
        !crate::resolver::unwraps_call_op(syms[g as int]),
        crate::resolver::fn_kind(syms[g as int]) == CallKind::Function,
        y < body.local_decls@.len() && z < body.local_decls@.len() && y != z,
        dest < body.local_decls@.len(),
        body.blocks@.len() == 2,
        body.blocks@[0].statements@ == seq![
            Statement::Assign(y, Rvalue::Use(Operand::Constant(ConstValue::FnItem(g)))),
            Statement::Assign(z, Rvalue::Ref(y)),
        ],
        body.blocks@[0].terminator matches Terminator::Call { func, args: a, destination, continuation }
            && func == Operand::Copy(z) && a@ == args && destination == dest && continuation == Some(1usize),
        body.blocks@[1].statements@.len() == 0,
        body.blocks@[1].terminator == Terminator::Return,
    ensures
        spec_walk(syms, body) == Ok::<Seq<EdgeSpec>, AnalysisError>(seq![function_edge(g, args)]),
{
    let n = body.local_decls@.len();
    let init = initial_view(body.local_decls@, body.arg_count as nat, body.blocks@.len());
    let f = body.owner;
    let bs = body.blocks@;
    let stmts = bs[0].statements@;
    let rv_y = Rvalue::Use(Operand::Constant(ConstValue::FnItem(g)));
    let rv_z = Rvalue::Ref(y);
    assert(stmts[0] == Statement::Assign(y, rv_y) && stmts[1] == Statement::Assign(z, rv_z));
    assert(assigned(stmts, 0) == Seq::<usize>::empty());
    let c0 = CtxView { current: Some(0usize), used: init.used.update(0, assigned(stmts, 2)), ..init };
    assert(restore(c0, 0) == c0);
    assert(c0.tys.len() == n);
    assert(bind_statements(c0, stmts, 0, f, 0) == Ok::<CtxView, AnalysisError>(c0));
    let b1 = CtxView { bindings: c0.bindings.update(y as int, Some(RLValue::Rvalue(&rv_y))), ..c0 };
    assert(bind_statements(c0, stmts, 1, f, 0) == Ok::<CtxView, AnalysisError>(b1));
    let b2 = CtxView { bindings: b1.bindings.update(z as int, Some(RLValue::Rvalue(&rv_z))), ..b1 };
    assert(bind_statements(c0, stmts, 2, f, 0) == Ok::<CtxView, AnalysisError>(b2));
    let c1 = CtxView { saved: b2.saved.update(0, Some(b2.bindings)), ..b2 };
    let fuel = spec_fuel(c1);
    assert(fuel >= 3);
    assert(c1.parents[0].len() == 0);
    assert(c1.saved[0] is Some);
    assert(crate::resolver::rvalue_at(c1, 0, z) == Some(rv_z));
    assert(crate::resolver::rvalue_at(c1, 0, y) == Some(rv_y));
    assert(!crate::resolver::is_unbound_param(c1, 0, y) && !crate::resolver::is_unbound_param(c1, 0, z));
    crate::resolver::lemma_direct_call(c1, syms, g, args, 0, (fuel - 2) as nat);
    assert(crate::resolver::spec_slot(c1, syms, y, args, 0, (fuel - 1) as nat)
        == crate::resolver::single(crate::resolver::symbol_target(g), CallKind::Function, args));
    assert(spec_operand(c1, syms, Operand::Copy(z), args, 0, fuel)
        == crate::resolver::single(crate::resolver::symbol_target(g), CallKind::Function, args));
    let c2 = CtxView {
        bindings: c1.bindings.update(
            dest as int,
            Some(RLValue::spec_call_result(CallKind::Function, crate::resolver::symbol_target(g), if args.len() > 0 { Some(args[0]) } else { None })),
        ),
        ..c1
    };
    lemma_direct_call_edge(c1, syms, g, args, 0, fuel, c2.bindings);
    let t = step_terminator(b2, syms, bs[0].terminator, f, 0);
    assert(t == Ok::<(CtxView, Seq<EdgeSpec>), AnalysisError>((add_parent(c2, 1, 0), seq![function_edge(g, args)])));
    assert(walk_blocks(init, syms, bs, 0, f) == Ok::<(CtxView, Seq<EdgeSpec>), AnalysisError>((init, Seq::empty())));
    assert(Seq::<EdgeSpec>::empty() + seq![function_edge(g, args)] =~= seq![function_edge(g, args)]);
    let w1 = walk_blocks(init, syms, bs, 1, f);
    assert(w1 is Ok && w1->Ok_0.1 == seq![function_edge(g, args)]);
    let d = w1->Ok_0.0;
    assert(seq![function_edge(g, args)] + Seq::<EdgeSpec>::empty() =~= seq![function_edge(g, args)]);
    assert(step_block(d, syms, bs[1], f, 1) is Ok);
}

/// `k()` for a closure `k` called with a zero-sized argument tuple walks to
/// one edge to `k` with the `Closure` multiplier and no argument weights,
/// not to an error.
pub proof fn lemma_walk_zero_argument_closure(
    syms: Seq<SymbolInfo>,
    body: Body,
    k: usize,
    env: usize,
    dest: usize,
)
    requires
        dest < body.local_decls@.len(),
        body.blocks@.len() == 2,
        body.blocks@[0].statements@.len() == 0,
        body.blocks@[0].terminator matches Terminator::Call { func, args: a, destination, continuation }
            && func == Operand::Constant(ConstValue::ClosureItem(k))
            && a@ == seq![Operand::Move(env), Operand::Constant(ConstValue::ZeroSized)] && destination == dest
            && continuation == Some(1usize),
        body.blocks@[1].statements@.len() == 0,
        body.blocks@[1].terminator == Terminator::Return,
    ensures
        spec_walk(syms, body) == Ok::<Seq<EdgeSpec>, AnalysisError>(
            seq![(crate::resolver::symbol_target(k), (CallKindMultiplier::Closure, Seq::<(OperandMultiplier, u32)>::empty()))],
        ),
{
    let init = initial_view(body.local_decls@, body.arg_count as nat, body.blocks@.len());
    let f = body.owner;
    let bs = body.blocks@;
    let args = seq![Operand::Move(env), Operand::Constant(ConstValue::ZeroSized)];
    let edge = (crate::resolver::symbol_target(k), (CallKindMultiplier::Closure, Seq::<(OperandMultiplier, u32)>::empty()));
    let c0 = CtxView { current: Some(0usize), used: init.used.update(0, assigned(bs[0].statements@, 0)), ..init };
    assert(restore(c0, 0) == c0);
    let c1 = CtxView { saved: c0.saved.update(0, Some(c0.bindings)), ..c0 };
    let rs = seq![(crate::resolver::symbol_target(k), CallKind::Closure, args)];
    assert(spec_operand(c1, syms, Operand::Constant(ConstValue::ClosureItem(k)), args, 0, spec_fuel(c1)) == Ok::<Seq<Resolution>, ResolveError>(rs));
    let c2 = CtxView {
        bindings: c1.bindings.update(
            dest as int,
            Some(RLValue::spec_call_result(CallKind::Closure, crate::resolver::symbol_target(k), Some(args[0]))),
        ),
        ..c1
    };
    lemma_closure_without_arguments(c2.bindings, crate::resolver::symbol_target(k), args);
    let t = step_terminator(c0, syms, bs[0].terminator, f, 0);
    assert(t == Ok::<(CtxView, Seq<EdgeSpec>), AnalysisError>((add_parent(c2, 1, 0), seq![edge])));
    assert(walk_blocks(init, syms, bs, 0, f) == Ok::<(CtxView, Seq<EdgeSpec>), AnalysisError>((init, Seq::empty())));
    assert(Seq::<EdgeSpec>::empty() + seq![edge] =~= seq![edge]);
    let w1 = walk_blocks(init, syms, bs, 1, f);
    assert(w1 is Ok && w1->Ok_0.1 == seq![edge]);
    assert(seq![edge] + Seq::<EdgeSpec>::empty() =~= seq![edge]);
    assert(step_block(w1->Ok_0.0, syms, bs[1], f, 1) is Ok);
}

} // verus!
