//! Resolution of a call's callee operand to the concrete callees it may denote.
use vstd::prelude::*;
use crate::context::{CallKind, CtxView, RLContext, RLValue, Target};
use crate::ir::{DefKind, ConstValue, Operand, Rvalue, SymbolInfo, Ty, TyKind};

verus! {

/// Why a callee operand could not be resolved.
#[derive(Clone, Copy, Debug, PartialEq, Eq, Structural)]
pub enum ResolveError {
    /// A value in callee position has a shape that no rule anticipates.
    UnexpectedShape,
    /// The alias chain or the chain of predecessors is longer than the bound.
    DepthExhausted,
}

/// One resolution of a call: the callee, its kind, and the arguments the
/// callee receives.
#[derive(Clone, Debug)]
pub struct Resolved {
    pub target: Target,
    pub kind: CallKind,
    pub args: Vec<Operand>,
}

impl Resolved {
    pub open spec fn view(self) -> (Target, CallKind, Seq<Operand>) {
        (self.target, self.kind, self.args@)
    }
}

/// A resolution as the contracts speak of it.
pub type Resolution = (Target, CallKind, Seq<Operand>);

pub type Resolutions = Result<Seq<Resolution>, ResolveError>;

/// The contracts' reading of an executable result.
pub open spec fn resolutions_of(r: Result<Vec<Resolved>, ResolveError>) -> Resolutions {
    match r {
        Ok(v) => Ok(v@.map_values(|x: Resolved| x.view())),
        Err(e) => Err(e),
    }
}

pub open spec fn single(t: Target, k: CallKind, args: Seq<Operand>) -> Resolutions {
    Ok(seq![(t, k, args)])
}

pub open spec fn symbol_target(s: usize) -> Target {
    Target { symbol: Some(s), promoted: None }
}

/// The runtime units whose functions are opaque leaves.
pub open spec fn is_runtime_unit(name: Seq<char>) -> bool {
    name == "core"@ || name == "std"@ || name == "alloc"@
}

/// The units that the toolchain itself ships.
pub open spec fn is_toolchain_unit(name: Seq<char>) -> bool {
    name == "std"@ || name == "core"@ || name == "compiler_builtins"@
        || name == "rustc_std_workspace_core"@ || name == "alloc"@ || name == "libc"@
        || name == "unwind"@ || name == "cfg_if"@ || name == "miniz_oxide"@ || name == "adler"@
        || name == "hashbrown"@ || name == "rustc_std_workspace_alloc"@ || name == "std_detect"@
        || name == "rustc_demangle"@ || name == "addr2line"@ || name == "gimli"@
        || name == "object"@ || name == "memchr"@ || name == "panic_unwind"@
}

/// The built-in duplication operation.
pub open spec fn is_clone_op(info: SymbolInfo) -> bool {
    !info.is_local && info.unit_name@ == "core"@ && info.path@ == "std::clone::Clone::clone"@
}

/// A method of the function-call-operator traits.
pub open spec fn is_call_op(info: SymbolInfo) -> bool {
    info.kind == DefKind::AssocFn && info.has_receiver && info.unit_name@ == "core"@
        && (info.path@ == "std::ops::Fn::call"@ || info.path@ == "std::ops::FnOnce::call_once"@)
}

/// The kind of a call of the function item `info` that is not unwrapped as a
/// call operator.
pub open spec fn fn_kind(info: SymbolInfo) -> CallKind {
    if is_clone_op(info) {
        CallKind::Clone
    } else if info.closure_like {
        CallKind::Closure
    } else if info.kind == DefKind::AssocFn && info.has_receiver {
        CallKind::Method
    } else if info.default_or_impl_tys || info.trait_receiver_method {
        CallKind::Method
    } else if info.is_local {
        CallKind::Function
    } else if is_runtime_unit(info.unit_name@) || !is_toolchain_unit(info.unit_name@) {
        CallKind::Function
    } else {
        CallKind::Unknown
    }
}

/// A call through the call operator whose receiver has type `ty`.
pub open spec fn spec_receiver(syms: Seq<SymbolInfo>, ty: Ty, args: Seq<Operand>) -> Resolutions {
    match ty.kind {
        TyKind::FnDef(s) => if ty.by_ref && s < syms.len() && args.len() > 0 {
            single(symbol_target(s), fn_kind(syms[s as int]), args.drop_first())
        } else {
            Err(ResolveError::UnexpectedShape)
        },
        TyKind::Closure(s) => single(symbol_target(s), CallKind::Closure, args),
        TyKind::Param => single(Target::unknown(), CallKind::StaticallyUnknown, args),
        _ => Err(ResolveError::UnexpectedShape),
    }
}

/// The callees of a call of the call operator with arguments `args`.
pub open spec fn spec_call_op(syms: Seq<SymbolInfo>, tys: Seq<Ty>, args: Seq<Operand>, fuel: nat) -> Resolutions
    decreases fuel, 1nat,
{
    if args.len() == 0 {
        Err(ResolveError::UnexpectedShape)
    } else {
        match args[0] {
            Operand::Constant(c) => if fuel == 0 {
                Err(ResolveError::DepthExhausted)
            } else {
                spec_const(syms, tys, c, args.drop_first(), (fuel - 1) as nat)
            },
            Operand::Move(p) | Operand::Copy(p) => if p < tys.len() {
                spec_receiver(syms, tys[p as int], args)
            } else {
                Err(ResolveError::UnexpectedShape)
            },
        }
    }
}

/// The callees of a call of the function item `s`.
pub open spec fn spec_fn_item(syms: Seq<SymbolInfo>, tys: Seq<Ty>, s: usize, args: Seq<Operand>, fuel: nat) -> Resolutions
    decreases fuel, 2nat,
{
    if s >= syms.len() {
        Err(ResolveError::UnexpectedShape)
    } else {
        let info = syms[s as int];
        if !is_clone_op(info) && !info.closure_like && is_call_op(info) {
            spec_call_op(syms, tys, args, fuel)
        } else {
            single(symbol_target(s), fn_kind(info), args)
        }
    }
}

/// The callees that a constant in callee position denotes.
pub open spec fn spec_const(syms: Seq<SymbolInfo>, tys: Seq<Ty>, c: ConstValue, args: Seq<Operand>, fuel: nat) -> Resolutions
    decreases fuel, 3nat,
{
    match c {
        ConstValue::FnItem(s) => spec_fn_item(syms, tys, s, args, fuel),
        ConstValue::FnRef(s) => spec_fn_item(syms, tys, s, args, fuel),
        ConstValue::ClosureItem(s) => single(symbol_target(s), CallKind::Closure, args),
        ConstValue::StaticPtr(s, m) => if s < syms.len() && syms[s as int].kind == DefKind::Static {
            single(symbol_target(s), if m { CallKind::StaticMut } else { CallKind::Static }, args)
        } else {
            Err(ResolveError::UnexpectedShape)
        },
        ConstValue::Item(s) => if s < syms.len() && syms[s as int].kind == DefKind::Static {
            single(
                symbol_target(s),
                if syms[s as int].mutable { CallKind::StaticMut } else { CallKind::Static },
                args,
            )
        } else if s < syms.len() && syms[s as int].kind == DefKind::Const {
            single(symbol_target(s), CallKind::Const, args)
        } else {
            Err(ResolveError::UnexpectedShape)
        },
        ConstValue::Promoted(o, p) => single(Target { symbol: Some(o), promoted: Some(p) }, CallKind::Const, args),
        _ => Err(ResolveError::UnexpectedShape),
    }
}

/// The declared types of a context's slots.

/// The binding of `slot` saved for block `bb`, if any.
pub open spec fn saved_binding<'a>(ctx: CtxView<'a>, bb: usize, slot: usize) -> Option<RLValue<'a>> {
    match ctx.saved[bb as int] {
        Some(m) => m[slot as int],
        None => None,
    }
}

/// The expression that `slot` was last assigned at block `bb`, if any.
pub open spec fn rvalue_at(ctx: CtxView, bb: usize, slot: usize) -> Option<Rvalue> {
    match saved_binding(ctx, bb, slot) {
        Some(RLValue::Rvalue(rv)) => Some(*rv),
        _ => None,
    }
}

/// A parameter that the body never rebinds.
pub open spec fn is_unbound_param(ctx: CtxView, bb: usize, slot: usize) -> bool {
    1 <= slot <= ctx.arg_count && saved_binding(ctx, bb, slot) is None
}

/// The slot that `slot` aliases once the chain leaves the slots assigned in `bb`.
pub open spec fn spec_upper(ctx: CtxView, slot: usize, bb: usize, fuel: nat) -> Result<usize, ResolveError>
    decreases fuel,
{
    if !ctx.used[bb as int].contains(slot) {
        Ok(slot)
    } else if fuel == 0 {
        Err(ResolveError::DepthExhausted)
    } else if slot >= ctx.n_slots() {
        Err(ResolveError::UnexpectedShape)
    } else {
        match rvalue_at(ctx, bb, slot) {
            Some(Rvalue::Use(Operand::Copy(p))) => spec_upper(ctx, p, bb, (fuel - 1) as nat),
            Some(Rvalue::Use(Operand::Move(p))) => spec_upper(ctx, p, bb, (fuel - 1) as nat),
            Some(Rvalue::Ref(p)) => spec_upper(ctx, p, bb, (fuel - 1) as nat),
            Some(Rvalue::CopyForDeref(p)) => spec_upper(ctx, p, bb, (fuel - 1) as nat),
            Some(Rvalue::Cast(Operand::Copy(p))) => spec_upper(ctx, p, bb, (fuel - 1) as nat),
            Some(Rvalue::Cast(Operand::Move(p))) => spec_upper(ctx, p, bb, (fuel - 1) as nat),
            _ => Err(ResolveError::UnexpectedShape),
        }
    }
}

/// The callees that the value of `slot` at block `bb` may denote.
pub open spec fn spec_slot(
    ctx: CtxView,
    syms: Seq<SymbolInfo>,
    slot: usize,
    args: Seq<Operand>,
    bb: usize,
    fuel: nat,
) -> Resolutions
    decreases fuel, 4nat,
{
    if fuel == 0 {
        Err(ResolveError::DepthExhausted)
    } else if bb >= ctx.n_blocks() || slot >= ctx.n_slots() {
        Err(ResolveError::UnexpectedShape)
    } else if ctx.saved[bb as int] is None {
        Err(ResolveError::UnexpectedShape)
    } else if is_unbound_param(ctx, bb, slot) {
        single(Target::unknown(), CallKind::StaticallyUnknown, args)
    } else if ctx.parents[bb as int].len() <= 1 {
        let f = (fuel - 1) as nat;
        let tys = ctx.tys;
        match rvalue_at(ctx, bb, slot) {
            Some(Rvalue::Use(Operand::Constant(c))) => spec_const(syms, tys, c, args, f),
            Some(Rvalue::Use(Operand::Copy(p))) => spec_slot(ctx, syms, p, args, bb, f),
            Some(Rvalue::Use(Operand::Move(p))) => spec_slot(ctx, syms, p, args, bb, f),
            Some(Rvalue::Ref(p)) => spec_slot(ctx, syms, p, args, bb, f),
            Some(Rvalue::Cast(op)) => spec_operand(ctx, syms, op, args, bb, f),
            Some(_) => Err(ResolveError::UnexpectedShape),
            None => if saved_binding(ctx, bb, slot) matches Some(RLValue::TermCall(_)) && tys[slot as int].kind
                == TyKind::FnPtr {
                single(Target::unknown(), CallKind::StaticallyUnknown, args)
            } else {
                Err(ResolveError::UnexpectedShape)
            },
        }
    } else {
        match spec_upper(ctx, slot, bb, ctx.n_slots()) {
            Ok(u) => spec_parents(ctx, syms, u, args, ctx.parents[bb as int], (fuel - 1) as nat),
            Err(e) => Err(e),
        }
    }
}

/// The union, in order, of the callees of `slot` at each block of `ps`.
pub open spec fn spec_parents(
    ctx: CtxView,
    syms: Seq<SymbolInfo>,
    slot: usize,
    args: Seq<Operand>,
    ps: Seq<usize>,
    fuel: nat,
) -> Resolutions
    decreases fuel, 5 + ps.len(),
{
    if ps.len() == 0 {
        Ok(seq![])
    } else {
        match spec_slot(ctx, syms, slot, args, ps[0], fuel) {
            Err(e) => Err(e),
            Ok(a) => match spec_parents(ctx, syms, slot, args, ps.drop_first(), fuel) {
                Err(e) => Err(e),
                Ok(b) => Ok(a + b),
            },
        }
    }
}

/// The callees that a callee operand may denote at block `bb`.
pub open spec fn spec_operand(
    ctx: CtxView,
    syms: Seq<SymbolInfo>,
    func: Operand,
    args: Seq<Operand>,
    bb: usize,
    fuel: nat,
) -> Resolutions
    decreases fuel, 5nat,
{
    match func {
        Operand::Constant(c) => spec_const(syms, ctx.tys, c, args, fuel),
        Operand::Move(p) | Operand::Copy(p) => spec_slot(ctx, syms, p, args, bb, fuel),
    }
}

/// The bound on the length of alias and predecessor chains in `ctx`.
pub open spec fn spec_fuel(ctx: CtxView) -> nat {
    if ctx.n_slots() + ctx.n_blocks() + 1 <= usize::MAX {
        ctx.n_slots() + ctx.n_blocks() + 1
    } else {
        usize::MAX as nat
    }
}

/// Whether `a` holds the characters of `lit`.
pub fn eq_lit(a: &String, lit: &str) -> (r: bool)
    ensures
        r == (a@ == lit@),
{
    *a == String::from_str(lit)
}

pub fn contains_usize(v: &Vec<usize>, x: usize) -> (r: bool)
    ensures
        r == v@.contains(x),
{
    let mut i: usize = 0;
    while i < v.len()
        invariant
            i <= v@.len(),
            forall|j: int| 0 <= j < i ==> v@[j] != x,
        decreases v@.len() - i,
    {
        if v[i] == x {
            return true;
        }
        i = i + 1;
    }
    false
}

/// `v[from..]`.
pub fn operands_from(v: &Vec<Operand>, from: usize) -> (r: Vec<Operand>)
    requires
        from <= v@.len(),
    ensures
        r@ == v@.subrange(from as int, v@.len() as int),
{
    let mut r: Vec<Operand> = Vec::new();
    let mut i: usize = from;
    while i < v.len()
        invariant
            from <= i <= v@.len(),
            r@ == v@.subrange(from as int, i as int),
        decreases v@.len() - i,
    {
        r.push(v[i]);
        i = i + 1;
        assert(r@ =~= v@.subrange(from as int, i as int));
    }
    r
}

/// A copy of `v`.
pub fn copy_operands(v: &Vec<Operand>) -> (r: Vec<Operand>)
    ensures
        r@ == v@,
{
    let r = operands_from(v, 0);
    assert(r@ =~= v@);
    r
}

pub fn is_runtime_unit_name(name: &String) -> (r: bool)
    ensures
        r == is_runtime_unit(name@),
{
    eq_lit(name, "core") || eq_lit(name, "std") || eq_lit(name, "alloc")
}

pub fn is_toolchain_unit_name(name: &String) -> (r: bool)
    ensures
        r == is_toolchain_unit(name@),
{
    eq_lit(name, "std") || eq_lit(name, "core") || eq_lit(name, "compiler_builtins")
        || eq_lit(name, "rustc_std_workspace_core") || eq_lit(name, "alloc") || eq_lit(name, "libc")
        || eq_lit(name, "unwind") || eq_lit(name, "cfg_if") || eq_lit(name, "miniz_oxide")
        || eq_lit(name, "adler") || eq_lit(name, "hashbrown") || eq_lit(name, "rustc_std_workspace_alloc")
        || eq_lit(name, "std_detect") || eq_lit(name, "rustc_demangle") || eq_lit(name, "addr2line")
        || eq_lit(name, "gimli") || eq_lit(name, "object") || eq_lit(name, "memchr")
        || eq_lit(name, "panic_unwind")
}

pub fn is_clone_symbol(info: &SymbolInfo) -> (r: bool)
    ensures
        r == is_clone_op(*info),
{
    !info.is_local && eq_lit(&info.unit_name, "core") && eq_lit(&info.path, "std::clone::Clone::clone")
}

pub fn is_call_operator(info: &SymbolInfo) -> (r: bool)
    ensures
        r == is_call_op(*info),
{
    info.kind == DefKind::AssocFn && info.has_receiver && eq_lit(&info.unit_name, "core")
        && (eq_lit(&info.path, "std::ops::Fn::call") || eq_lit(&info.path, "std::ops::FnOnce::call_once"))
}

/// The kind of a call of a function item that is not a call operator.
pub fn classify_fn(info: &SymbolInfo) -> (r: CallKind)
    ensures
        r == fn_kind(*info),
{
    if is_clone_symbol(info) {
        CallKind::Clone
    } else if info.closure_like {
        CallKind::Closure
    } else if info.kind == DefKind::AssocFn && info.has_receiver {
        CallKind::Method
    } else if info.default_or_impl_tys || info.trait_receiver_method {
        CallKind::Method
    } else if info.is_local {
        CallKind::Function
    } else if is_runtime_unit_name(&info.unit_name) || !is_toolchain_unit_name(&info.unit_name) {
        CallKind::Function
    } else {
        CallKind::Unknown
    }
}

fn one(target: Target, kind: CallKind, args: Vec<Operand>) -> (r: Result<Vec<Resolved>, ResolveError>)
    ensures
        resolutions_of(r) == single(target, kind, args@),
{
    let v = vec![Resolved { target, kind, args }];
    assert(v@.map_values(|x: Resolved| x.view()) =~= seq![(target, kind, args@)]);
    Ok(v)
}

/// Resolves callee operands against the bindings of a context.
pub struct RLCallResolver<'a, 'b> {
    pub ctx: &'a RLContext<'b>,
    pub symbols: &'a Vec<SymbolInfo>,
}

impl<'a, 'b> RLCallResolver<'a, 'b> {
    pub fn new(ctx: &'a RLContext<'b>, symbols: &'a Vec<SymbolInfo>) -> (r: RLCallResolver<'a, 'b>)
        ensures
            *r.ctx == *ctx,
            r.symbols@ == symbols@,
    {
        RLCallResolver { ctx, symbols }
    }

    /// The bound on chain lengths for this context.
    pub fn fuel(&self) -> (r: usize)
        ensures
            r == spec_fuel(self.ctx.view()),
    {
        let a = self.ctx.map_place_ty.len();
        let b = self.ctx.map_parent_bb.len();
        if a <= usize::MAX - 1 && b <= usize::MAX - 1 - a {
            a + b + 1
        } else {
            usize::MAX
        }
    }

    /// All `(callee, kind, arguments)` that the callee operand `func` of a
    /// call at block `bb` may denote.
    pub fn resolve_call_def_id(&self, func: &Operand, args: &Vec<Operand>, bb: usize) -> (r: Result<
        Vec<Resolved>,
        ResolveError,
    >)
        requires
            self.ctx.wf(),
        ensures
            resolutions_of(r) == spec_operand(self.ctx.view(), self.symbols@, *func, args@, bb, spec_fuel(self.ctx.view())),
    {
        let fuel = self.fuel();
        self.resolve_operand(func, args, bb, fuel)
    }

    fn resolve_operand(&self, func: &Operand, args: &Vec<Operand>, bb: usize, fuel: usize) -> (r: Result<
        Vec<Resolved>,
        ResolveError,
    >)
        requires
            self.ctx.wf(),
        ensures
            resolutions_of(r) == spec_operand(self.ctx.view(), self.symbols@, *func, args@, bb, fuel as nat),
        decreases fuel, 5nat,
    {
        match func {
            Operand::Constant(c) => self.get_def_id(c, args, fuel),
            Operand::Move(p) => self.retrieve_def_id(*p, args, bb, fuel),
            Operand::Copy(p) => self.retrieve_def_id(*p, args, bb, fuel),
        }
    }

    fn resolve_receiver(&self, ty: Ty, args: &Vec<Operand>) -> (r: Result<Vec<Resolved>, ResolveError>)
        ensures
            resolutions_of(r) == spec_receiver(self.symbols@, ty, args@),
    {
        match ty.kind {
            TyKind::FnDef(s) => {
                if ty.by_ref && s < self.symbols.len() && args.len() > 0 {
                    let kind = classify_fn(&self.symbols[s]);
                    one(Target { symbol: Some(s), promoted: None }, kind, operands_from(args, 1))
                } else {
                    Err(ResolveError::UnexpectedShape)
                }
            },
            TyKind::Closure(s) => one(Target { symbol: Some(s), promoted: None }, CallKind::Closure, copy_operands(args)),
            TyKind::Param => one(Target { symbol: None, promoted: None }, CallKind::StaticallyUnknown, copy_operands(args)),
            _ => Err(ResolveError::UnexpectedShape),
        }
    }

    fn resolve_call_op(&self, args: &Vec<Operand>, fuel: usize) -> (r: Result<Vec<Resolved>, ResolveError>)
        ensures
            resolutions_of(r) == spec_call_op(self.symbols@, self.ctx.view().tys, args@, fuel as nat),
        decreases fuel, 1nat,
    {
        if args.len() == 0 {
            return Err(ResolveError::UnexpectedShape);
        }
        match &args[0] {
            Operand::Constant(c) => {
                if fuel == 0 {
                    Err(ResolveError::DepthExhausted)
                } else {
                    let rest = operands_from(args, 1);
                    assert(rest@ =~= args@.drop_first());
                    self.get_def_id(c, &rest, fuel - 1)
                }
            },
            Operand::Move(p) | Operand::Copy(p) => {
                if *p < self.ctx.map_place_ty.len() {
                    self.resolve_receiver(self.ctx.map_place_ty[*p].ty, args)
                } else {
                    Err(ResolveError::UnexpectedShape)
                }
            },
        }
    }

    fn resolve_fn_item(&self, s: usize, args: &Vec<Operand>, fuel: usize) -> (r: Result<Vec<Resolved>, ResolveError>)
        ensures
            resolutions_of(r) == spec_fn_item(self.symbols@, self.ctx.view().tys, s, args@, fuel as nat),
        decreases fuel, 2nat,
    {
        if s >= self.symbols.len() {
            return Err(ResolveError::UnexpectedShape);
        }
        let info = &self.symbols[s];
        if !is_clone_symbol(info) && !info.closure_like && is_call_operator(info) {
            self.resolve_call_op(args, fuel)
        } else {
            one(Target { symbol: Some(s), promoted: None }, classify_fn(info), copy_operands(args))
        }
    }

    /// The callees that a constant in callee position denotes.
    fn get_def_id(&self, c: &ConstValue, args: &Vec<Operand>, fuel: usize) -> (r: Result<Vec<Resolved>, ResolveError>)
        ensures
            resolutions_of(r) == spec_const(self.symbols@, self.ctx.view().tys, *c, args@, fuel as nat),
        decreases fuel, 3nat,
    {
        let n = self.symbols.len();
        match c {
            ConstValue::FnItem(s) => self.resolve_fn_item(*s, args, fuel),
            ConstValue::FnRef(s) => self.resolve_fn_item(*s, args, fuel),
            ConstValue::ClosureItem(s) => one(Target { symbol: Some(*s), promoted: None }, CallKind::Closure, copy_operands(args)),
            ConstValue::StaticPtr(s, m) => {
                if *s < n && self.symbols[*s].kind == DefKind::Static {
                    one(Target { symbol: Some(*s), promoted: None }, CallKind::from_mutability(*m), copy_operands(args))
                } else {
                    Err(ResolveError::UnexpectedShape)
                }
            },
            ConstValue::Item(s) => {
                if *s < n && self.symbols[*s].kind == DefKind::Static {
                    one(
                        Target { symbol: Some(*s), promoted: None },
                        CallKind::from_mutability(self.symbols[*s].mutable),
                        copy_operands(args),
                    )
                } else if *s < n && self.symbols[*s].kind == DefKind::Const {
                    one(Target { symbol: Some(*s), promoted: None }, CallKind::Const, copy_operands(args))
                } else {
                    Err(ResolveError::UnexpectedShape)
                }
            },
            ConstValue::Promoted(o, p) => one(Target { symbol: Some(*o), promoted: Some(*p) }, CallKind::Const, copy_operands(args)),
            _ => Err(ResolveError::UnexpectedShape),
        }
    }

    /// The slot that `slot` aliases once the chain leaves the slots assigned in `bb`.
    fn retrieve_upper_local_non_const(&self, slot: usize, bb: usize, fuel: usize) -> (r: Result<usize, ResolveError>)
        requires
            self.ctx.wf(),
            bb < self.ctx.n_blocks(),
            slot < self.ctx.n_slots(),
        ensures
            r == spec_upper(self.ctx.view(), slot, bb, fuel as nat),
        decreases fuel,
    {
        if !contains_usize(&self.ctx.map_bb_used_locals[bb], slot) {
            return Ok(slot);
        }
        if fuel == 0 {
            return Err(ResolveError::DepthExhausted);
        }
        let saved = &self.ctx.map_bb_to_map_place_rlvalue[bb];
        proof {
            if saved is Some {
                assert(saved->Some_0@.len() == self.ctx.n_slots());
            }
        }
        let next: Option<usize> = match saved {
            Some(m) => match &m[slot] {
                Some(RLValue::Rvalue(Rvalue::Use(Operand::Copy(p)))) => Some(*p),
                Some(RLValue::Rvalue(Rvalue::Use(Operand::Move(p)))) => Some(*p),
                Some(RLValue::Rvalue(Rvalue::Ref(p))) => Some(*p),
                Some(RLValue::Rvalue(Rvalue::CopyForDeref(p))) => Some(*p),
                Some(RLValue::Rvalue(Rvalue::Cast(Operand::Copy(p)))) => Some(*p),
                Some(RLValue::Rvalue(Rvalue::Cast(Operand::Move(p)))) => Some(*p),
                _ => None,
            },
            None => None,
        };
        match next {
            Some(p) => {
                if p < self.ctx.map_place_ty.len() {
                    self.retrieve_upper_local_non_const(p, bb, fuel - 1)
                } else if !contains_usize(&self.ctx.map_bb_used_locals[bb], p) {
                    Ok(p)
                } else if fuel - 1 == 0 {
                    Err(ResolveError::DepthExhausted)
                } else {
                    Err(ResolveError::UnexpectedShape)
                }
            },
            None => Err(ResolveError::UnexpectedShape),
        }
    }

    /// The callees that the value of `slot` at block `bb` may denote.
    pub fn retrieve_def_id(&self, slot: usize, args: &Vec<Operand>, bb: usize, fuel: usize) -> (r: Result<
        Vec<Resolved>,
        ResolveError,
    >)
        requires
            self.ctx.wf(),
        ensures
            resolutions_of(r) == spec_slot(self.ctx.view(), self.symbols@, slot, args@, bb, fuel as nat),
        decreases fuel, 4nat,
    {
        if fuel == 0 {
            return Err(ResolveError::DepthExhausted);
        }
        if bb >= self.ctx.map_parent_bb.len() || slot >= self.ctx.map_place_ty.len() {
            return Err(ResolveError::UnexpectedShape);
        }
        let saved = &self.ctx.map_bb_to_map_place_rlvalue[bb];
        let m = match saved {
            None => {
                return Err(ResolveError::UnexpectedShape);
            },
            Some(m) => m,
        };
        assert(m@.len() == self.ctx.n_slots());
        if 1 <= slot && slot <= self.ctx.arg_count && matches!(m[slot], None) {
            return one(Target { symbol: None, promoted: None }, CallKind::StaticallyUnknown, copy_operands(args));
        }
        assert(saved_binding(self.ctx.view(), bb, slot) == m@[slot as int]);
        assert(self.ctx.view().tys.len() == self.ctx.n_slots());
        assert(forall|q: int| 0 <= q < self.ctx.n_slots() ==> #[trigger] self.ctx.view().tys[q] == self.ctx.map_place_ty@[q].ty);
        if self.ctx.map_parent_bb[bb].len() <= 1 {
            let f = fuel - 1;
            match &m[slot] {
                Some(RLValue::Rvalue(Rvalue::Use(Operand::Constant(c)))) => self.get_def_id(c, args, f),
                Some(RLValue::Rvalue(Rvalue::Use(Operand::Copy(p)))) => self.retrieve_def_id(*p, args, bb, f),
                Some(RLValue::Rvalue(Rvalue::Use(Operand::Move(p)))) => self.retrieve_def_id(*p, args, bb, f),
                Some(RLValue::Rvalue(Rvalue::Ref(p))) => self.retrieve_def_id(*p, args, bb, f),
                Some(RLValue::Rvalue(Rvalue::Cast(op))) => self.resolve_operand(op, args, bb, f),
                Some(RLValue::TermCall(_)) => {
                    if self.ctx.map_place_ty[slot].ty.kind == TyKind::FnPtr {
                        one(Target { symbol: None, promoted: None }, CallKind::StaticallyUnknown, copy_operands(args))
                    } else {
                        Err(ResolveError::UnexpectedShape)
                    }
                },
                _ => Err(ResolveError::UnexpectedShape),
            }
        } else {
            let bound = self.ctx.map_place_ty.len();
            let ps = &self.ctx.map_parent_bb[bb];
            assert(ps@.subrange(0, ps@.len() as int) =~= ps@);
            match self.retrieve_upper_local_non_const(slot, bb, bound) {
                Ok(u) => self.resolve_parents(u, args, ps, 0, fuel - 1),
                Err(e) => Err(e),
            }
        }
    }

    /// The union, in order, of the callees of `slot` at the blocks `ps[i..]`.
    fn resolve_parents(&self, slot: usize, args: &Vec<Operand>, ps: &Vec<usize>, i: usize, fuel: usize) -> (r: Result<
        Vec<Resolved>,
        ResolveError,
    >)
        requires
            self.ctx.wf(),
            i <= ps@.len(),
        ensures
            resolutions_of(r) == spec_parents(
                self.ctx.view(),
                self.symbols@,
                slot,
                args@,
                ps@.subrange(i as int, ps@.len() as int),
                fuel as nat,
            ),
        decreases fuel, 5 + ps@.len() - i,
    {
        let ghost rest = ps@.subrange(i as int, ps@.len() as int);
        if i >= ps.len() {
            assert(rest.len() == 0);
            let v: Vec<Resolved> = Vec::new();
            assert(v@.map_values(|x: Resolved| x.view()) =~= seq![]);
            return Ok(v);
        }
        assert(rest[0] == ps@[i as int]);
        assert(rest.drop_first() =~= ps@.subrange(i + 1, ps@.len() as int));
        match self.retrieve_def_id(slot, args, ps[i], fuel) {
            Err(e) => Err(e),
            Ok(a) => match self.resolve_parents(slot, args, ps, i + 1, fuel) {
                Err(e) => Err(e),
                Ok(b) => {
                    let mut a = a;
                    let mut b = b;
                    let ghost av = a@;
                    let ghost bv = b@;
                    a.append(&mut b);
                    assert(a@.map_values(|x: Resolved| x.view()) =~= av.map_values(|x: Resolved| x.view())
                        + bv.map_values(|x: Resolved| x.view()));
                    Ok(a)
                },
            },
        }
    }
}

/// A call of the function item described by `info` is unwrapped as a call
/// through the call operator.
pub open spec fn unwraps_call_op(info: SymbolInfo) -> bool {
    !is_clone_op(info) && !info.closure_like && is_call_op(info)
}

/// A constant whose resolution does not go through the call operator.
pub open spec fn plain_const(syms: Seq<SymbolInfo>, c: ConstValue) -> bool {
    match c {
        ConstValue::FnItem(s) | ConstValue::FnRef(s) => s < syms.len() ==> !unwraps_call_op(syms[s as int]),
        _ => true,
    }
}

/// A plain constant resolves alike at every bound.
pub proof fn lemma_plain_const_fuel(syms: Seq<SymbolInfo>, tys: Seq<Ty>, c: ConstValue, args: Seq<Operand>, f1: nat, f2: nat)
    requires
        plain_const(syms, c),
    ensures
        spec_const(syms, tys, c, args, f1) == spec_const(syms, tys, c, args, f2),
{
}

/// A function item that is neither the duplication operation nor a call
/// operator resolves, as a direct callee, to itself alone with its kind.
pub proof fn lemma_direct_call(
    ctx: CtxView,
    syms: Seq<SymbolInfo>,
    g: usize,
    args: Seq<Operand>,
    bb: usize,
    fuel: nat,
)
    requires
        g < syms.len(),
        !unwraps_call_op(syms[g as int]),
    ensures
        spec_operand(ctx, syms, Operand::Constant(ConstValue::FnItem(g)), args, bb, fuel)
            == single(symbol_target(g), fn_kind(syms[g as int]), args),
{
}

/// In block `bb`, slot `s` is bound to a move, a copy, a reference or a
/// cast of slot `t`.
pub open spec fn aliases(ctx: CtxView, bb: usize, s: usize, t: usize) -> bool {
    match rvalue_at(ctx, bb, s) {
        Some(Rvalue::Use(Operand::Move(p))) => p == t,
        Some(Rvalue::Use(Operand::Copy(p))) => p == t,
        Some(Rvalue::Ref(p)) => p == t,
        Some(Rvalue::Cast(Operand::Move(p))) => p == t,
        Some(Rvalue::Cast(Operand::Copy(p))) => p == t,
        _ => false,
    }
}

/// In block `bb`, each slot of `chain` aliases the next, and the last holds
/// the constant `c`.
pub open spec fn alias_chain(ctx: CtxView, bb: usize, chain: Seq<usize>, c: ConstValue) -> bool {
    &&& chain.len() > 0
    &&& forall|i: int| 0 <= i < chain.len() ==> #[trigger] chain[i] < ctx.n_slots() && !is_unbound_param(ctx, bb, chain[i])
    &&& forall|i: int| 0 <= i < chain.len() - 1 ==> aliases(ctx, bb, #[trigger] chain[i], chain[i + 1])
    &&& rvalue_at(ctx, bb, chain.last()) == Some(Rvalue::Use(Operand::Constant(c)))
}

proof fn lemma_alias_chain_steps(
    ctx: CtxView,
    syms: Seq<SymbolInfo>,
    chain: Seq<usize>,
    c: ConstValue,
    args: Seq<Operand>,
    bb: usize,
    fuel: nat,
)
    requires
        ctx.wf(),
        bb < ctx.n_blocks(),
        ctx.saved[bb as int] is Some,
        ctx.parents[bb as int].len() <= 1,
        alias_chain(ctx, bb, chain, c),
        fuel >= chain.len(),
    ensures
        spec_slot(ctx, syms, chain[0], args, bb, fuel) == spec_const(syms, ctx.tys, c, args, (fuel - chain.len()) as nat),
    decreases chain.len(),
{
    assert(chain[0] < ctx.n_slots() && !is_unbound_param(ctx, bb, chain[0]));
    if chain.len() == 1 {
        assert(chain.last() == chain[0]);
        assert(spec_slot(ctx, syms, chain[0], args, bb, fuel) == spec_const(syms, ctx.tys, c, args, (fuel - 1) as nat));
    } else {
        let rest = chain.drop_first();
        assert forall|i: int| 0 <= i < rest.len() implies #[trigger] rest[i] < ctx.n_slots() && !is_unbound_param(ctx, bb, rest[i]) by {
            assert(rest[i] == chain[i + 1]);
        }
        assert forall|i: int| 0 <= i < rest.len() - 1 implies aliases(ctx, bb, #[trigger] rest[i], rest[i + 1]) by {
            assert(rest[i] == chain[i + 1] && rest[i + 1] == chain[i + 2]);
        }
        assert(rest.last() == chain.last());
        lemma_alias_chain_steps(ctx, syms, rest, c, args, bb, (fuel - 1) as nat);
        assert(aliases(ctx, bb, chain[0], chain[1]));
        assert(rest[0] == chain[1]);
        let f = (fuel - 1) as nat;
        match rvalue_at(ctx, bb, chain[0]) {
            Some(Rvalue::Cast(op)) => {
                assert(spec_operand(ctx, syms, op, args, bb, f) == spec_slot(ctx, syms, chain[1], args, bb, f));
            },
            _ => {},
        }
        assert(spec_slot(ctx, syms, chain[0], args, bb, fuel) == spec_slot(ctx, syms, chain[1], args, bb, f));
        assert((fuel - chain.len()) as nat == (f - rest.len()) as nat);
    }
}

/// Resolution sees through any chain of moves, copies, references and casts
/// that ends in a constant: the call resolves as a direct call of that
/// constant would.
pub proof fn lemma_alias_transparency(
    ctx: CtxView,
    syms: Seq<SymbolInfo>,
    chain: Seq<usize>,
    c: ConstValue,
    args: Seq<Operand>,
    bb: usize,
    fuel: nat,
)
    requires
        ctx.wf(),
        bb < ctx.n_blocks(),
        ctx.saved[bb as int] is Some,
        ctx.parents[bb as int].len() <= 1,
        alias_chain(ctx, bb, chain, c),
        plain_const(syms, c),
        fuel >= chain.len(),
    ensures
        spec_operand(ctx, syms, Operand::Copy(chain[0]), args, bb, fuel)
            == spec_operand(ctx, syms, Operand::Constant(c), args, bb, fuel),
{
    lemma_alias_chain_steps(ctx, syms, chain, c, args, bb, fuel);
    lemma_plain_const_fuel(syms, ctx.tys, c, args, (fuel - chain.len()) as nat, fuel);
}

/// A call at a block reached from two branches resolves to the callees of
/// both branches, in order.
pub proof fn lemma_branch_fan_out(
    ctx: CtxView,
    syms: Seq<SymbolInfo>,
    slot: usize,
    args: Seq<Operand>,
    bb: usize,
    fuel: nat,
    u: usize,
    a: Resolution,
    b: Resolution,
)
    requires
        ctx.wf(),
        fuel > 0,
        bb < ctx.n_blocks(),
        slot < ctx.n_slots(),
        ctx.saved[bb as int] is Some,
        !is_unbound_param(ctx, bb, slot),
        ctx.parents[bb as int].len() == 2,
        spec_upper(ctx, slot, bb, ctx.n_slots()) == Ok::<usize, ResolveError>(u),
        spec_slot(ctx, syms, u, args, ctx.parents[bb as int][0], (fuel - 1) as nat) == Ok::<Seq<Resolution>, ResolveError>(seq![a]),
        spec_slot(ctx, syms, u, args, ctx.parents[bb as int][1], (fuel - 1) as nat) == Ok::<Seq<Resolution>, ResolveError>(seq![b]),
    ensures
        spec_slot(ctx, syms, slot, args, bb, fuel) == Ok::<Seq<Resolution>, ResolveError>(seq![a, b]),
{
    let ps = ctx.parents[bb as int];
    let f = (fuel - 1) as nat;
    assert(ps.drop_first()[0] == ps[1]);
    assert(ps.drop_first().drop_first().len() == 0);
    assert(spec_parents(ctx, syms, u, args, ps.drop_first().drop_first(), f) == Ok::<Seq<Resolution>, ResolveError>(seq![]));
    assert(seq![b] + Seq::<Resolution>::empty() =~= seq![b]);
    assert(spec_parents(ctx, syms, u, args, ps.drop_first(), f) == Ok::<Seq<Resolution>, ResolveError>(seq![b]));
    assert(seq![a] + seq![b] =~= seq![a, b]);
    assert(spec_parents(ctx, syms, u, args, ps, f) == Ok::<Seq<Resolution>, ResolveError>(seq![a, b]));
}

} // verus!
