use rusty_links::args::{MutabilityKind, OperandKind, RLArgsResolver};
use rusty_links::context::{CallKind, RLContext};
use rusty_links::ir::{ConstValue, LocalDecl, Operand, Ty, TyKind};
use rusty_links::text_mod::TextMod;
use rusty_links::weights::{CallKindMultiplier, OperandMultiplier, RLWeightResolver};
use rusty_links::CliArgs;

#[test]
fn weights_follow_operand_kinds() {
    let r = RLWeightResolver::new();
    let args = vec![Operand::Move(1), Operand::Copy(2), Operand::Constant(ConstValue::Scalar(3))];
    let (m, ws) = r.resolve_arg_weights(&CallKind::Method, &args);
    assert_eq!(m, CallKindMultiplier::Method);
    assert_eq!(ws, vec![(OperandMultiplier::Move, 1), (OperandMultiplier::Copy, 1), (OperandMultiplier::Constant, 1)]);
}

#[test]
fn zero_arguments_give_no_weights() {
    let r = RLWeightResolver::new();
    for kind in [CallKind::Function, CallKind::Method, CallKind::Closure, CallKind::Static, CallKind::StaticMut, CallKind::Const, CallKind::StaticallyUnknown] {
        let (_, ws) = r.resolve_arg_weights(&kind, &vec![]);
        assert!(ws.is_empty());
    }
}

#[test]
fn multipliers_are_one() {
    assert_eq!(CallKindMultiplier::Static.value(), 1);
    assert_eq!(OperandMultiplier::Constant.value(), 1);
}

#[test]
fn colour_only_when_asked() {
    let mut args = CliArgs {
        color_log: false,
        use_unoptimized_mir: false,
        print_crate: false,
        print_mir: false,
        print_rl_graph: true,
        print_serialized_rl_graph: false,
        filter_with_file: None,
        cargo_args: vec![],
    };
    assert_eq!(args.modify_if_needed("m", TextMod::Yellow), "m");
    args.color_log = true;
    assert_eq!(args.modify_if_needed("m", TextMod::Yellow), "\x1b[33mm\x1b[0m");
}

#[test]
fn argument_types_come_from_slot_declarations() {
    let decls = vec![
        LocalDecl { ty: Ty { by_ref: false, kind: TyKind::Tuple }, mutable: false },
        LocalDecl { ty: Ty { by_ref: true, kind: TyKind::Other }, mutable: true },
    ];
    let ctx = RLContext::new(&decls, 0, 1);
    let r = RLArgsResolver::new(&ctx);
    let (kind, ds) = r.resolve(&CallKind::Function, &vec![Operand::Move(1), Operand::Constant(ConstValue::FnItem(3))]);
    assert_eq!(kind, CallKind::Function);
    assert_eq!(ds, vec![
        (OperandKind::Move, MutabilityKind::Mut, Ty { by_ref: true, kind: TyKind::Other }),
        (OperandKind::Constant, MutabilityKind::Not, Ty { by_ref: false, kind: TyKind::FnDef(3) }),
    ]);
}
