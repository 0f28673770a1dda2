//! The ownership mode, mutability and type of each argument of a call.
use vstd::prelude::*;
use crate::context::{CallKind, RLContext, RLTy};
use crate::ir::{ConstValue, Operand, Ty, TyKind};

verus! {

/// How an argument is passed.
#[derive(Clone, Copy, Debug, PartialEq, Eq, Structural)]
pub enum OperandKind {
    Move,
    Copy,
    Constant,
}

/// Whether an argument's slot is mutable.
#[derive(Clone, Copy, Debug, PartialEq, Eq, Structural)]
pub enum MutabilityKind {
    Mut,
    Not,
}

/// The type of a constant operand.
pub open spec fn const_ty(c: ConstValue) -> Ty {
    match c {
        ConstValue::FnItem(s) => Ty { by_ref: false, kind: TyKind::FnDef(s) },
        ConstValue::ClosureItem(s) => Ty { by_ref: false, kind: TyKind::Closure(s) },
        ConstValue::FnRef(s) => Ty { by_ref: true, kind: TyKind::FnDef(s) },
        ConstValue::StaticPtr(_, _) => Ty { by_ref: true, kind: TyKind::FnPtr },
        ConstValue::Item(_) => Ty { by_ref: false, kind: TyKind::FnPtr },
        ConstValue::Promoted(_, _) => Ty { by_ref: true, kind: TyKind::Other },
        ConstValue::ZeroSized => Ty { by_ref: false, kind: TyKind::Tuple },
        ConstValue::Scalar(_) => Ty { by_ref: false, kind: TyKind::Other },
    }
}

pub open spec fn mutability_of(t: RLTy) -> MutabilityKind {
    if t.mutable {
        MutabilityKind::Mut
    } else {
        MutabilityKind::Not
    }
}

/// The kind, mutability and type of one argument; constants are immutable.
pub open spec fn arg_type(tys: Seq<RLTy>, a: Operand) -> (OperandKind, MutabilityKind, Ty) {
    match a {
        Operand::Move(p) => (OperandKind::Move, mutability_of(tys[p as int]), tys[p as int].ty),
        Operand::Copy(p) => (OperandKind::Copy, mutability_of(tys[p as int]), tys[p as int].ty),
        Operand::Constant(c) => (OperandKind::Constant, MutabilityKind::Not, const_ty(c)),
    }
}

/// Every slot that `args` names is declared.
pub open spec fn args_declared(n_slots: nat, args: Seq<Operand>) -> bool {
    forall|i: int| 0 <= i < args.len() ==> match #[trigger] args[i] {
        Operand::Move(p) | Operand::Copy(p) => p < n_slots,
        Operand::Constant(_) => true,
    }
}

/// Describes the arguments of a call from the slot types of a context.
pub struct RLArgsResolver<'a, 'b> {
    pub ctx: &'a RLContext<'b>,
}

impl<'a, 'b> RLArgsResolver<'a, 'b> {
    pub fn new(ctx: &'a RLContext<'b>) -> (r: RLArgsResolver<'a, 'b>)
        ensures
            *r.ctx == *ctx,
    {
        RLArgsResolver { ctx }
    }

    /// The call kind with one description per argument, in order.
    pub fn resolve(&self, call_kind: &CallKind, args: &Vec<Operand>) -> (r: (CallKind, Vec<(OperandKind, MutabilityKind, Ty)>))
        requires
            args_declared(self.ctx.n_slots(), args@),
        ensures
            r.0 == *call_kind,
            r.1@ == args@.map_values(|a: Operand| arg_type(self.ctx.map_place_ty@, a)),
    {
        (*call_kind, self.resolve_arg_types(args))
    }

    fn resolve_arg_types(&self, args: &Vec<Operand>) -> (r: Vec<(OperandKind, MutabilityKind, Ty)>)
        requires
            args_declared(self.ctx.n_slots(), args@),
        ensures
            r@ == args@.map_values(|a: Operand| arg_type(self.ctx.map_place_ty@, a)),
    {
        let mut out: Vec<(OperandKind, MutabilityKind, Ty)> = Vec::new();
        let mut i: usize = 0;
        while i < args.len()
            invariant
                i <= args@.len(),
                args_declared(self.ctx.n_slots(), args@),
                out@ =~= args@.take(i as int).map_values(|a: Operand| arg_type(self.ctx.map_place_ty@, a)),
            decreases args@.len() - i,
        {
            let d = self.resolve_arg_type(&args[i]);
            out.push(d);
            i = i + 1;
            assert(out@ =~= args@.take(i as int).map_values(|a: Operand| arg_type(self.ctx.map_place_ty@, a)));
        }
        assert(args@.take(i as int) =~= args@);
        out
    }

    fn resolve_arg_type(&self, arg: &Operand) -> (r: (OperandKind, MutabilityKind, Ty))
        requires
            args_declared(self.ctx.n_slots(), seq![*arg]),
        ensures
            r == arg_type(self.ctx.map_place_ty@, *arg),
    {
        assert(seq![*arg][0] == *arg);
        match arg {
            Operand::Move(p) => {
                let (m, t) = self.resolve_place_type(*p);
                (OperandKind::Move, m, t)
            },
            Operand::Copy(p) => {
                let (m, t) = self.resolve_place_type(*p);
                (OperandKind::Copy, m, t)
            },
            Operand::Constant(c) => (OperandKind::Constant, MutabilityKind::Not, self.resolve_const_type(c)),
        }
    }

    fn resolve_place_type(&self, slot: usize) -> (r: (MutabilityKind, Ty))
        requires
            slot < self.ctx.n_slots(),
        ensures
            r == (mutability_of(self.ctx.map_place_ty@[slot as int]), self.ctx.map_place_ty@[slot as int].ty),
    {
        let t = self.ctx.map_place_ty[slot];
        (if t.mutable { MutabilityKind::Mut } else { MutabilityKind::Not }, t.kind())
    }

    fn resolve_const_type(&self, c: &ConstValue) -> (r: Ty)
        ensures
            r == const_ty(*c),
    {
        match c {
            ConstValue::FnItem(s) => Ty { by_ref: false, kind: TyKind::FnDef(*s) },
            ConstValue::ClosureItem(s) => Ty { by_ref: false, kind: TyKind::Closure(*s) },
            ConstValue::FnRef(s) => Ty { by_ref: true, kind: TyKind::FnDef(*s) },
            ConstValue::StaticPtr(_, _) => Ty { by_ref: true, kind: TyKind::FnPtr },
            ConstValue::Item(_) => Ty { by_ref: false, kind: TyKind::FnPtr },
            ConstValue::Promoted(_, _) => Ty { by_ref: true, kind: TyKind::Other },
            ConstValue::ZeroSized => Ty { by_ref: false, kind: TyKind::Tuple },
            ConstValue::Scalar(_) => Ty { by_ref: false, kind: TyKind::Other },
        }
    }
}

} // verus!
