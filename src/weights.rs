//! Argument weights of a resolved call, from the ownership mode of each argument.
use vstd::prelude::*;
use crate::context::CallKind;
use crate::ir::Operand;

verus! {

/// The multiplier of a call kind.
#[derive(Clone, Copy, Debug, PartialEq, Eq, Structural)]
pub enum CallKindMultiplier {
    StaticMut,
    Static,
    Method,
    Function,
    Closure,
    Const,
    StaticallyUnknown,
}

pub const STATIC_MUT_CALL_MULTIPLIER: u32 = 1;
pub const STATIC_CALL_MULTIPLIER: u32 = 1;
pub const METHOD_CALL_MULTIPLIER: u32 = 1;
pub const FUNCTION_CALL_MULTIPLIER: u32 = 1;
pub const CLOSURE_CALL_MULTIPLIER: u32 = 1;
pub const CONST_CALL_MULTIPLIER: u32 = 1;
pub const STATICALLY_UNKNOWN_CALL_MULTIPLIER: u32 = 1;

impl CallKindMultiplier {
    pub open spec fn spec_value(self) -> u32 {
        match self {
            CallKindMultiplier::StaticMut => STATIC_MUT_CALL_MULTIPLIER,
            CallKindMultiplier::Static => STATIC_CALL_MULTIPLIER,
            CallKindMultiplier::Method => METHOD_CALL_MULTIPLIER,
            CallKindMultiplier::Function => FUNCTION_CALL_MULTIPLIER,
            CallKindMultiplier::Closure => CLOSURE_CALL_MULTIPLIER,
            CallKindMultiplier::Const => CONST_CALL_MULTIPLIER,
            CallKindMultiplier::StaticallyUnknown => STATICALLY_UNKNOWN_CALL_MULTIPLIER,
        }
    }

    pub fn value(&self) -> (r: u32)
        ensures
            r == self.spec_value(),
    {
        match self {
            CallKindMultiplier::StaticMut => STATIC_MUT_CALL_MULTIPLIER,
            CallKindMultiplier::Static => STATIC_CALL_MULTIPLIER,
            CallKindMultiplier::Method => METHOD_CALL_MULTIPLIER,
            CallKindMultiplier::Function => FUNCTION_CALL_MULTIPLIER,
            CallKindMultiplier::Closure => CLOSURE_CALL_MULTIPLIER,
            CallKindMultiplier::Const => CONST_CALL_MULTIPLIER,
            CallKindMultiplier::StaticallyUnknown => STATICALLY_UNKNOWN_CALL_MULTIPLIER,
        }
    }

    /// The multiplier of a call kind that makes an edge.
    pub open spec fn spec_of(kind: CallKind) -> CallKindMultiplier
        recommends
            kind.spec_makes_edge(),
    {
        match kind {
            CallKind::StaticMut => CallKindMultiplier::StaticMut,
            CallKind::Static => CallKindMultiplier::Static,
            CallKind::Method => CallKindMultiplier::Method,
            CallKind::Function => CallKindMultiplier::Function,
            CallKind::Closure => CallKindMultiplier::Closure,
            CallKind::Const => CallKindMultiplier::Const,
            _ => CallKindMultiplier::StaticallyUnknown,
        }
    }
}

/// The multiplier of an operand kind.
#[derive(Clone, Copy, Debug, PartialEq, Eq, Structural)]
pub enum OperandMultiplier {
    Move,
    Copy,
    Constant,
}

pub const MOVE_OPERAND_MULTIPLIER: u32 = 1;
pub const COPY_OPERAND_MULTIPLIER: u32 = 1;
pub const CONSTANT_OPERAND_MULTIPLIER: u32 = 1;

/// The weight of an argument slot or constant before its multiplier.
pub const PLACE_WEIGHT: u32 = 1;
pub const CONST_OPERAND_WEIGHT: u32 = 1;

impl OperandMultiplier {
    pub open spec fn spec_value(self) -> u32 {
        match self {
            OperandMultiplier::Move => MOVE_OPERAND_MULTIPLIER,
            OperandMultiplier::Copy => COPY_OPERAND_MULTIPLIER,
            OperandMultiplier::Constant => CONSTANT_OPERAND_MULTIPLIER,
        }
    }

    pub fn value(&self) -> (r: u32)
        ensures
            r == self.spec_value(),
    {
        match self {
            OperandMultiplier::Move => MOVE_OPERAND_MULTIPLIER,
            OperandMultiplier::Copy => COPY_OPERAND_MULTIPLIER,
            OperandMultiplier::Constant => CONSTANT_OPERAND_MULTIPLIER,
        }
    }
}

/// The weight of one argument: its operand kind and its weight.
pub open spec fn arg_weight(arg: Operand) -> (OperandMultiplier, u32) {
    match arg {
        Operand::Move(_) => (OperandMultiplier::Move, PLACE_WEIGHT),
        Operand::Copy(_) => (OperandMultiplier::Copy, PLACE_WEIGHT),
        Operand::Constant(_) => (OperandMultiplier::Constant, CONST_OPERAND_WEIGHT),
    }
}

/// The weights of an argument list, one per argument in order.
pub open spec fn arg_weights(args: Seq<Operand>) -> Seq<(OperandMultiplier, u32)> {
    args.map_values(|a: Operand| arg_weight(a))
}

/// Computes the weights of a resolved call's arguments.
pub struct RLWeightResolver {}

impl RLWeightResolver {
    pub fn new() -> (r: RLWeightResolver) {
        RLWeightResolver {}
    }

    /// The multiplier of `call_kind` and one weight per argument; the
    /// receiver of a method is weighed as its first argument.
    pub fn resolve_arg_weights(&self, call_kind: &CallKind, args: &Vec<Operand>) -> (r: (
        CallKindMultiplier,
        Vec<(OperandMultiplier, u32)>,
    ))
        requires
            call_kind.spec_makes_edge(),
        ensures
            r.0 == CallKindMultiplier::spec_of(*call_kind),
            r.1@ == arg_weights(args@),
    {
        match call_kind {
            CallKind::StaticMut => (CallKindMultiplier::StaticMut, self.resolve_args(args, 0)),
            CallKind::Static => (CallKindMultiplier::Static, self.resolve_args(args, 0)),
            CallKind::Method => (CallKindMultiplier::Method, self.resolve_method_weights(args)),
            CallKind::Function => (CallKindMultiplier::Function, self.resolve_args(args, 0)),
            CallKind::Closure => (CallKindMultiplier::Closure, self.resolve_args(args, 0)),
            CallKind::Const => (CallKindMultiplier::Const, self.resolve_args(args, 0)),
            _ => (CallKindMultiplier::StaticallyUnknown, self.resolve_args(args, 0)),
        }
    }

    /// The receiver's weight first, then the remaining arguments'.
    fn resolve_method_weights(&self, args: &Vec<Operand>) -> (r: Vec<(OperandMultiplier, u32)>)
        ensures
            r@ == arg_weights(args@),
    {
        if args.len() == 0 {
            return Vec::new();
        }
        let self_weight = self.resolve_self(&args[0]);
        let mut arg_weights = self.resolve_args(args, 1);
        arg_weights.insert(0, self_weight);
        assert(arg_weights@ =~= crate::weights::arg_weights(args@));
        arg_weights
    }

    /// The weights of `args[from..]`.
    fn resolve_args(&self, args: &Vec<Operand>, from: usize) -> (r: Vec<(OperandMultiplier, u32)>)
        requires
            from <= args@.len(),
        ensures
            r@ == arg_weights(args@.subrange(from as int, args@.len() as int)),
    {
        let mut arg_weights = Vec::new();
        let mut i: usize = from;
        while i < args.len()
            invariant
                from <= i <= args@.len(),
                arg_weights@ =~= crate::weights::arg_weights(args@.subrange(from as int, i as int)),
            decreases args@.len() - i,
        {
            arg_weights.push(self.resolve_arg(&args[i]));
            i = i + 1;
            assert(arg_weights@ =~= crate::weights::arg_weights(args@.subrange(from as int, i as int)));
        }
        arg_weights
    }

    fn resolve_self(&self, zelf: &Operand) -> (r: (OperandMultiplier, u32))
        ensures
            r == arg_weight(*zelf),
    {
        self.resolve_arg(zelf)
    }

    fn resolve_arg(&self, arg: &Operand) -> (r: (OperandMultiplier, u32))
        ensures
            r == arg_weight(*arg),
    {
        match arg {
            Operand::Move(_) => (OperandMultiplier::Move, PLACE_WEIGHT),
            Operand::Copy(_) => (OperandMultiplier::Copy, PLACE_WEIGHT),
            Operand::Constant(_) => (OperandMultiplier::Constant, CONST_OPERAND_WEIGHT),
        }
    }
}

} // verus!
