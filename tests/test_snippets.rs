use rusty_links::graph::CallGraph;
use rusty_links::ir::{
    AggregateKind, BasicBlock, Body, ConstValue, DefKind, LocalDecl, Operand, Rvalue, Statement, SymbolId, SymbolInfo,
    Terminator, Ty, TyKind,
};
use rusty_links::visitor::{AnalysisError, RLVisitor};

fn symbol(index: u32, path: &str, kind: DefKind) -> SymbolInfo {
    SymbolInfo {
        id: SymbolId { krate: 0, index },
        repr: format!("DefId(0:{} ~ snippet[1a2b]::{})", index, path),
        unit_name: "snippet".to_string(),
        path: path.to_string(),
        is_local: true,
        kind,
        closure_like: kind == DefKind::Closure,
        has_receiver: false,
        default_or_impl_tys: false,
        trait_receiver_method: false,
        mutable: false,
    }
}

fn fn_call_operator() -> SymbolInfo {
    SymbolInfo {
        id: SymbolId { krate: 2, index: 4000 },
        repr: "DefId(2:4000 ~ core[9f1e]::ops::function::Fn::call)".to_string(),
        unit_name: "core".to_string(),
        path: "std::ops::Fn::call".to_string(),
        is_local: false,
        kind: DefKind::AssocFn,
        closure_like: false,
        has_receiver: true,
        default_or_impl_tys: false,
        trait_receiver_method: true,
        mutable: false,
    }
}

fn decl(by_ref: bool, kind: TyKind) -> LocalDecl {
    LocalDecl { ty: Ty { by_ref, kind }, mutable: false }
}

fn other() -> LocalDecl {
    decl(false, TyKind::Other)
}

fn assign(slot: usize, rv: Rvalue) -> Statement {
    Statement::Assign(slot, rv)
}

fn call(func: Operand, args: Vec<Operand>, destination: usize, next: usize) -> Terminator {
    Terminator::Call { func, args, destination, continuation: Some(next) }
}

fn block(statements: Vec<Statement>, terminator: Terminator) -> BasicBlock {
    BasicBlock { statements, terminator }
}

fn ret() -> BasicBlock {
    block(vec![], Terminator::Return)
}

/// A body that only returns.
fn leaf(owner: usize, args: usize) -> Body {
    let mut local_decls = vec![decl(false, TyKind::Tuple)];
    for _ in 0..args {
        local_decls.push(other());
    }
    Body { owner, promoted: None, local_decls, arg_count: args, blocks: vec![ret()] }
}

/// `x = T { .. }` into slot `slot`.
fn make_t(slot: usize) -> Statement {
    assign(slot, Rvalue::Aggregate(AggregateKind::Other, vec![Operand::Constant(ConstValue::Scalar(10))]))
}

fn analyze(symbols: Vec<SymbolInfo>, bodies: Vec<Body>) -> (String, CallGraph) {
    let mut v = RLVisitor::new(symbols);
    let results = v.visit_bodies(&bodies);
    assert!(results.iter().all(|r| r.is_ok()), "{:?}", results);
    let g = v.rl_graph;
    (g.as_dot_str(), g)
}

/// main: `test(x)` with the callee reached through `reach`, which binds
/// slots from 3 on and leaves the callee operand.
fn main_calling(reach: Vec<Statement>, func: Operand, decls: Vec<LocalDecl>) -> Body {
    let mut local_decls = vec![decl(false, TyKind::Tuple), other(), other()];
    local_decls.extend(decls);
    let mut statements = vec![make_t(1)];
    statements.extend(reach);
    Body {
        owner: 0,
        promoted: None,
        local_decls,
        arg_count: 0,
        blocks: vec![block(statements, call(func, vec![Operand::Move(1)], 2, 1)), ret()],
    }
}

#[test]
fn test_simple_call_with_file_call_directly() {
    let symbols = vec![symbol(1, "main", DefKind::Fn), symbol(2, "test", DefKind::Fn)];
    let main = main_calling(vec![], Operand::Constant(ConstValue::FnItem(1)), vec![]);
    let (dot, g) = analyze(symbols, vec![main, leaf(1, 1)]);
    assert!(dot.contains("0 -> 1"));
    assert_eq!(g.edge_count(), 1);
}

#[test]
fn test_simple_call_with_file_call_alias() {
    // _3 = test as fn(T); _4 = copy _3; _2 = move _4(move _1)
    let symbols = vec![symbol(1, "main", DefKind::Fn), symbol(2, "test", DefKind::Fn)];
    let reach = vec![
        assign(3, Rvalue::Cast(Operand::Constant(ConstValue::FnItem(1)))),
        assign(4, Rvalue::Use(Operand::Copy(3))),
    ];
    let main = main_calling(reach, Operand::Move(4), vec![decl(false, TyKind::FnPtr), decl(false, TyKind::FnPtr)]);
    let (dot, _) = analyze(symbols, vec![main, leaf(1, 1)]);
    assert!(dot.contains("0 -> 1"));
}

#[test]
fn test_simple_call_with_file_call_ref_alias() {
    // _3 = const test; _4 = &_3; _5 = copy (*_4); _2 = move _5(move _1)
    let symbols = vec![symbol(1, "main", DefKind::Fn), symbol(2, "test", DefKind::Fn)];
    let reach = vec![
        assign(3, Rvalue::Use(Operand::Constant(ConstValue::FnItem(1)))),
        assign(4, Rvalue::Ref(3)),
        assign(5, Rvalue::Use(Operand::Copy(4))),
    ];
    let decls = vec![decl(false, TyKind::FnDef(1)), decl(true, TyKind::FnDef(1)), decl(false, TyKind::FnDef(1))];
    let main = main_calling(reach, Operand::Move(5), decls);
    let (dot, _) = analyze(symbols, vec![main, leaf(1, 1)]);
    assert!(dot.contains("0 -> 1"));
}

/// main calls the closure `closure` through the call operator: `c(x)`.
fn main_calling_closure(closure: usize, call_op: usize) -> Body {
    // _3 = {closure}; _4 = &_3; _5 = (move _1,); _2 = Fn::call(move _4, move _5)
    Body {
        owner: 0,
        promoted: None,
        local_decls: vec![
            decl(false, TyKind::Tuple),
            other(),
            other(),
            decl(false, TyKind::Closure(closure)),
            decl(true, TyKind::Closure(closure)),
            decl(false, TyKind::Tuple),
        ],
        arg_count: 0,
        blocks: vec![
            block(
                vec![
                    make_t(1),
                    assign(3, Rvalue::Aggregate(AggregateKind::Other, vec![])),
                    assign(4, Rvalue::Ref(3)),
                    assign(5, Rvalue::Aggregate(AggregateKind::Tuple, vec![Operand::Move(1)])),
                ],
                call(
                    Operand::Constant(ConstValue::FnItem(call_op)),
                    vec![Operand::Move(4), Operand::Move(5)],
                    2,
                    1,
                ),
            ),
            ret(),
        ],
    }
}

#[test]
fn test_simple_call_with_file_call_closure_directly() {
    let symbols = vec![symbol(1, "main", DefKind::Fn), symbol(2, "main::{closure#0}", DefKind::Closure), fn_call_operator()];
    let (dot, g) = analyze(symbols, vec![main_calling_closure(1, 2), leaf(1, 1)]);
    assert!(dot.contains("0 -> 1"));
    let (_, _, e) = g.edge(0);
    assert_eq!(e.arg_weights.len(), 1);
}

#[test]
fn test_simple_call_with_file_call_closure_directly_from_clusure() {
    // main calls lambda with no arguments; lambda calls test.
    let symbols = vec![
        symbol(1, "main", DefKind::Fn),
        symbol(2, "main::{closure#0}", DefKind::Closure),
        symbol(3, "test", DefKind::Fn),
        fn_call_operator(),
    ];
    let main = Body {
        owner: 0,
        promoted: None,
        local_decls: vec![decl(false, TyKind::Tuple), decl(false, TyKind::Closure(1)), decl(true, TyKind::Closure(1)), other()],
        arg_count: 0,
        blocks: vec![
            block(
                vec![assign(1, Rvalue::Aggregate(AggregateKind::Other, vec![])), assign(2, Rvalue::Ref(1))],
                call(
                    Operand::Constant(ConstValue::FnItem(3)),
                    vec![Operand::Move(2), Operand::Constant(ConstValue::ZeroSized)],
                    3,
                    1,
                ),
            ),
            ret(),
        ],
    };
    let lambda = Body {
        owner: 1,
        promoted: None,
        local_decls: vec![decl(false, TyKind::Tuple), decl(true, TyKind::Closure(1)), other(), other()],
        arg_count: 1,
        blocks: vec![
            block(vec![make_t(2)], call(Operand::Constant(ConstValue::FnItem(2)), vec![Operand::Move(2)], 3, 1)),
            ret(),
        ],
    };
    let (dot, g) = analyze(symbols, vec![main, lambda, leaf(2, 1)]);
    assert!(dot.contains("0 -> 1"));
    assert!(dot.contains("1 -> 2"));
    let (_, _, e) = g.edge(0);
    assert!(e.arg_weights.is_empty());
}

#[test]
fn test_simple_call_with_file_call_const_directly() {
    // const TEST: fn(T) = ..; TEST(x)
    let symbols = vec![symbol(1, "main", DefKind::Fn), symbol(2, "TEST", DefKind::Const)];
    let main = main_calling(vec![], Operand::Constant(ConstValue::Item(1)), vec![]);
    let (dot, g) = analyze(symbols, vec![main]);
    assert!(dot.contains("0 -> 1"));
    let (_, _, e) = g.edge(0);
    assert_eq!(e.call_multiplier, rusty_links::weights::CallKindMultiplier::Const);
}

#[test]
fn test_simple_call_with_file_call_const_alias() {
    let symbols = vec![symbol(1, "main", DefKind::Fn), symbol(2, "TEST", DefKind::Const)];
    let reach = vec![assign(3, Rvalue::Use(Operand::Constant(ConstValue::Item(1))))];
    let main = main_calling(reach, Operand::Move(3), vec![decl(false, TyKind::FnPtr)]);
    let (dot, _) = analyze(symbols, vec![main]);
    assert!(dot.contains("0 -> 1"));
}

fn static_symbol(mutable: bool) -> SymbolInfo {
    let mut s = symbol(2, "TEST", DefKind::Static);
    s.mutable = mutable;
    s
}

#[test]
fn test_simple_call_with_file_call_mut_static_directly() {
    // static mut TEST: fn(T); unsafe { TEST(x) }
    let symbols = vec![symbol(1, "main", DefKind::Fn), static_symbol(true)];
    let reach = vec![
        assign(3, Rvalue::Use(Operand::Constant(ConstValue::StaticPtr(1, true)))),
        assign(4, Rvalue::Use(Operand::Copy(3))),
    ];
    let main = main_calling(reach, Operand::Move(4), vec![decl(true, TyKind::FnPtr), decl(false, TyKind::FnPtr)]);
    let (dot, g) = analyze(symbols, vec![main]);
    assert!(dot.contains("0 -> 1"));
    let (_, _, e) = g.edge(0);
    assert_eq!(e.call_multiplier, rusty_links::weights::CallKindMultiplier::StaticMut);
}

#[test]
fn test_simple_call_with_file_call_static_alias() {
    let symbols = vec![symbol(1, "main", DefKind::Fn), static_symbol(false)];
    let reach = vec![
        assign(3, Rvalue::Use(Operand::Constant(ConstValue::StaticPtr(1, false)))),
        assign(4, Rvalue::Use(Operand::Copy(3))),
        assign(5, Rvalue::Use(Operand::Move(4))),
    ];
    let decls = vec![decl(true, TyKind::FnPtr), decl(false, TyKind::FnPtr), decl(false, TyKind::FnPtr)];
    let main = main_calling(reach, Operand::Move(5), decls);
    let (dot, g) = analyze(symbols, vec![main]);
    assert!(dot.contains("0 -> 1"));
    let (_, _, e) = g.edge(0);
    assert_eq!(e.call_multiplier, rusty_links::weights::CallKindMultiplier::Static);
}

/// main: `if dummy == 10 { f = test } else { f = test2 }; f(x)` with the
/// binding made by `bind`.
fn main_switch(bind: fn(usize) -> Vec<Statement>, decls: Vec<LocalDecl>, func: Operand) -> Body {
    let mut local_decls = vec![decl(false, TyKind::Tuple), other(), other()];
    local_decls.extend(decls);
    Body {
        owner: 0,
        promoted: None,
        local_decls,
        arg_count: 0,
        blocks: vec![
            block(vec![make_t(1)], Terminator::SwitchInt { targets: vec![1, 2] }),
            block(bind(1), Terminator::Goto { target: 3 }),
            block(bind(2), Terminator::Goto { target: 3 }),
            block(vec![], call(func, vec![Operand::Move(1)], 2, 4)),
            ret(),
        ],
    }
}

fn bind_directly(callee: usize) -> Vec<Statement> {
    vec![assign(3, Rvalue::Cast(Operand::Constant(ConstValue::FnItem(callee))))]
}

fn bind_ref(callee: usize) -> Vec<Statement> {
    vec![assign(4, Rvalue::Cast(Operand::Constant(ConstValue::FnItem(callee)))), assign(3, Rvalue::Ref(4))]
}

fn switch_symbols() -> Vec<SymbolInfo> {
    vec![symbol(1, "main", DefKind::Fn), symbol(2, "test", DefKind::Fn), symbol(3, "test2", DefKind::Fn)]
}

#[test]
fn test_call_switch_directly() {
    let main = main_switch(bind_directly, vec![decl(false, TyKind::FnPtr)], Operand::Copy(3));
    let (dot, g) = analyze(switch_symbols(), vec![main]);
    assert!(dot.contains("0 -> 1"));
    assert!(dot.contains("0 -> 2"));
    assert_eq!(g.edge_count(), 2);
}

#[test]
fn test_call_switch_ref_alias() {
    let main = main_switch(bind_ref, vec![decl(true, TyKind::FnPtr), decl(false, TyKind::FnPtr)], Operand::Copy(3));
    let (dot, g) = analyze(switch_symbols(), vec![main]);
    assert!(dot.contains("0 -> 1"));
    assert!(dot.contains("0 -> 2"));
    assert_eq!(g.edge_count(), 2);
}

#[test]
fn test_statically_unknown() {
    // fn apply<F: Fn()>(f: F) { f() }  fn main() { apply(|| {}) }
    // apply's callee is a generic parameter; main calls apply.
    let symbols = vec![
        symbol(1, "apply", DefKind::Fn),
        fn_call_operator(),
        symbol(2, "main", DefKind::Fn),
        symbol(3, "main::{closure#0}", DefKind::Closure),
    ];
    let apply = Body {
        owner: 0,
        promoted: None,
        local_decls: vec![decl(false, TyKind::Tuple), decl(false, TyKind::Param), decl(true, TyKind::Param), other()],
        arg_count: 1,
        blocks: vec![
            block(
                vec![assign(2, Rvalue::Ref(1))],
                call(
                    Operand::Constant(ConstValue::FnItem(1)),
                    vec![Operand::Move(2), Operand::Constant(ConstValue::ZeroSized)],
                    3,
                    1,
                ),
            ),
            ret(),
        ],
    };
    let main = Body {
        owner: 2,
        promoted: None,
        local_decls: vec![decl(false, TyKind::Tuple), decl(false, TyKind::Closure(3)), other()],
        arg_count: 0,
        blocks: vec![
            block(
                vec![assign(1, Rvalue::Aggregate(AggregateKind::Other, vec![]))],
                call(Operand::Constant(ConstValue::FnItem(0)), vec![Operand::Move(1)], 2, 1),
            ),
            ret(),
        ],
    };
    let (dot, g) = analyze(symbols, vec![apply, main]);
    assert!(dot.contains("0 -> 1"));
    assert!(dot.contains("2 -> 0"));
    assert_eq!(g.node(1).def_id_str, "STATICALLY_UNKNOWN");
}

#[test]
fn unsupported_terminator_keeps_the_node_and_drops_the_calls() {
    let symbols = vec![symbol(1, "main", DefKind::Fn), symbol(2, "test", DefKind::Fn)];
    let main = Body {
        owner: 0,
        promoted: None,
        local_decls: vec![decl(false, TyKind::Tuple), other(), other()],
        arg_count: 0,
        blocks: vec![
            block(vec![make_t(1)], call(Operand::Constant(ConstValue::FnItem(1)), vec![Operand::Move(1)], 2, 1)),
            block(vec![], Terminator::InlineAsm),
        ],
    };
    let other_body = leaf(1, 1);
    let mut v = RLVisitor::new(symbols);
    let r = v.visit_local_def_id(&main);
    assert_eq!(r, Err(AnalysisError::UnsupportedTerminator(0, 1)));
    assert_eq!(v.rl_graph.node_count(), 1);
    assert_eq!(v.rl_graph.edge_count(), 0);
    // Other bodies still complete.
    assert_eq!(v.visit_local_def_id(&other_body), Ok(()));
    assert_eq!(v.rl_graph.node_count(), 2);
}

#[test]
fn closure_call_with_a_non_tuple_argument_is_an_error() {
    let symbols = vec![symbol(1, "main", DefKind::Fn), symbol(2, "main::{closure#0}", DefKind::Closure)];
    let main = Body {
        owner: 0,
        promoted: None,
        local_decls: vec![decl(false, TyKind::Tuple), other(), other(), other()],
        arg_count: 0,
        blocks: vec![
            block(
                vec![make_t(1)],
                call(Operand::Constant(ConstValue::ClosureItem(1)), vec![Operand::Move(3), Operand::Move(1)], 2, 1),
            ),
            ret(),
        ],
    };
    let mut v = RLVisitor::new(symbols);
    assert_eq!(v.visit_local_def_id(&main), Err(AnalysisError::ClosureArguments(0, 0)));
}

#[test]
fn callee_of_unexpected_shape_is_a_resolution_error() {
    let symbols = vec![symbol(1, "main", DefKind::Fn)];
    let main = Body {
        owner: 0,
        promoted: None,
        local_decls: vec![decl(false, TyKind::Tuple), other(), other()],
        arg_count: 0,
        blocks: vec![
            block(vec![assign(1, Rvalue::Opaque)], call(Operand::Copy(1), vec![], 2, 1)),
            ret(),
        ],
    };
    let mut v = RLVisitor::new(symbols);
    assert_eq!(
        v.visit_local_def_id(&main),
        Err(AnalysisError::Resolution(0, 0, rusty_links::resolver::ResolveError::UnexpectedShape))
    );
}

#[test]
fn slot_out_of_range_is_a_malformed_body() {
    let symbols = vec![symbol(1, "main", DefKind::Fn)];
    let main = Body {
        owner: 0,
        promoted: None,
        local_decls: vec![decl(false, TyKind::Tuple)],
        arg_count: 0,
        blocks: vec![block(vec![assign(7, Rvalue::Opaque)], Terminator::Return)],
    };
    let mut v = RLVisitor::new(symbols);
    assert_eq!(v.visit_local_def_id(&main), Err(AnalysisError::MalformedBody(0, 0)));
}

#[test]
fn clone_calls_make_no_edge() {
    let mut clone = symbol(9, "clone", DefKind::AssocFn);
    clone.id = SymbolId { krate: 2, index: 77 };
    clone.unit_name = "core".to_string();
    clone.path = "std::clone::Clone::clone".to_string();
    clone.is_local = false;
    clone.has_receiver = true;
    let symbols = vec![symbol(1, "main", DefKind::Fn), clone];
    let main = Body {
        owner: 0,
        promoted: None,
        local_decls: vec![decl(false, TyKind::Tuple), other(), decl(true, TyKind::Other), other()],
        arg_count: 0,
        blocks: vec![
            block(
                vec![make_t(1), assign(2, Rvalue::Ref(1))],
                call(Operand::Constant(ConstValue::FnItem(1)), vec![Operand::Move(2)], 3, 1),
            ),
            ret(),
        ],
    };
    let (_, g) = analyze(symbols, vec![main]);
    assert_eq!(g.edge_count(), 0);
    assert_eq!(g.node_count(), 1);
}

#[test]
fn promoted_constant_call_targets_the_promoted_node() {
    let symbols = vec![symbol(1, "main", DefKind::Fn)];
    let reach = vec![assign(3, Rvalue::Use(Operand::Constant(ConstValue::Promoted(0, 0))))];
    let main = main_calling(reach, Operand::Move(3), vec![decl(true, TyKind::FnPtr)]);
    let (dot, g) = analyze(symbols, vec![main]);
    assert!(dot.contains("0 -> 1"));
    assert_eq!(g.node(1).promoted, Some(0));
    assert!(dot.contains("promoted[0]"));
}
