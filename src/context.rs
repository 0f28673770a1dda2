//! The flow-sensitive state of the walk over one function body.
use vstd::prelude::*;
use crate::ir::{LocalDecl, Operand, Rvalue, Ty};

verus! {

/// What a resolved callee is.
#[derive(Clone, Copy, Debug, PartialEq, Eq, Structural)]
pub enum CallKind {
    Clone,
    StaticMut,
    Const,
    Static,
    Function,
    Closure,
    Method,
    StaticallyUnknown,
    Unknown,
}

impl CallKind {
    /// Whether a call of this kind becomes an edge of the graph.
    pub open spec fn spec_makes_edge(self) -> bool {
        self != CallKind::Clone && self != CallKind::Unknown
    }

    pub fn makes_edge(&self) -> (r: bool)
        ensures
            r == self.spec_makes_edge(),
    {
        !matches!(self, CallKind::Clone | CallKind::Unknown)
    }

    /// The kind of a call through a static of the given mutability.
    pub fn from_mutability(mutable: bool) -> (r: CallKind)
        ensures
            r == (if mutable { CallKind::StaticMut } else { CallKind::Static }),
    {
        if mutable {
            CallKind::StaticMut
        } else {
            CallKind::Static
        }
    }
}

/// A callee: a symbol of the unit's table, or `None` for a callee that is
/// not known statically, with the promoted constant if any.
#[derive(Clone, Copy, Debug, PartialEq, Eq, Structural)]
pub struct Target {
    pub symbol: Option<usize>,
    pub promoted: Option<u32>,
}

impl Target {
    pub open spec fn unknown() -> Target {
        Target { symbol: None, promoted: None }
    }
}

/// The last value bound to a slot.
#[derive(Clone, Copy, Debug)]
pub enum RLValue<'a> {
    /// An assigned expression of the body.
    Rvalue(&'a Rvalue),
    /// The result of a call of a function, closure or method.
    TermCall(Target),
    /// The result of a clone of the operand.
    TermCallClone(Operand),
    /// The result of a call through a const item.
    TermCallConst(Target),
    /// The result of a call through a static.
    TermCallStatic(Target),
    /// The result of a call through a mutable static.
    TermCallStaticMut(Target),
    /// The result of a call whose callee is not known statically.
    TermCallStaticallyUnknown(Target),
}

impl<'a> RLValue<'a> {
    /// The value that a call's destination is bound to.
    pub open spec fn spec_call_result(kind: CallKind, target: Target, first_arg: Option<Operand>) -> RLValue<'a> {
        match kind {
            CallKind::Clone => match first_arg {
                Some(a) => RLValue::TermCallClone(a),
                None => RLValue::TermCallStaticallyUnknown(target),
            },
            CallKind::Const => RLValue::TermCallConst(target),
            CallKind::Static => RLValue::TermCallStatic(target),
            CallKind::StaticMut => RLValue::TermCallStaticMut(target),
            CallKind::StaticallyUnknown | CallKind::Unknown => RLValue::TermCallStaticallyUnknown(target),
            _ => RLValue::TermCall(target),
        }
    }
}

/// The type and mutability of a slot.
#[derive(Clone, Copy, Debug)]
pub struct RLTy {
    pub ty: Ty,
    pub mutable: bool,
}

impl RLTy {
    pub fn new(ty: Ty, mutable: bool) -> (r: RLTy)
        ensures
            r.ty == ty,
            r.mutable == mutable,
    {
        RLTy { ty, mutable }
    }

    pub fn kind(&self) -> (r: Ty)
        ensures
            r == self.ty,
    {
        self.ty
    }
}

/// Bindings saved at a multi-way branch, with the targets not yet visited.
pub struct ComeFromSwitchCache<'a> {
    pub cache: Vec<Option<RLValue<'a>>>,
    pub set_targets: Vec<usize>,
}

impl<'a> ComeFromSwitchCache<'a> {
    pub open spec fn view(&self) -> (Seq<Option<RLValue<'a>>>, Seq<usize>) {
        (self.cache@, self.set_targets@)
    }

    pub fn new(cache: Vec<Option<RLValue<'a>>>, set_targets: Vec<usize>) -> (r: ComeFromSwitchCache<'a>)
        ensures
            r.cache@ == cache@,
            r.set_targets@ == set_targets@,
    {
        ComeFromSwitchCache { cache, set_targets }
    }
}

/// The state of the walk over one body with `n_slots` slots and `n_blocks` blocks.
/// The state of a walk as the contracts see it.
pub struct CtxView<'a> {
    /// The declared type of each slot.
    pub tys: Seq<Ty>,
    pub arg_count: nat,
    /// The predecessors of each block.
    pub parents: Seq<Seq<usize>>,
    /// The bindings saved for each block.
    pub saved: Seq<Option<Seq<Option<RLValue<'a>>>>>,
    /// The slots assigned in each block.
    pub used: Seq<Seq<usize>>,
    /// The live bindings.
    pub bindings: Seq<Option<RLValue<'a>>>,
    /// The open branch caches, innermost last.
    pub stack: Seq<(Seq<Option<RLValue<'a>>>, Seq<usize>)>,
    pub current: Option<usize>,
}

impl<'a> CtxView<'a> {
    pub open spec fn n_slots(&self) -> nat {
        self.tys.len()
    }

    pub open spec fn n_blocks(&self) -> nat {
        self.parents.len()
    }

    /// One entry per slot and per block, and every block and slot named exists.
    pub open spec fn wf(&self) -> bool {
        &&& self.saved.len() == self.n_blocks()
        &&& self.used.len() == self.n_blocks()
        &&& self.bindings.len() == self.n_slots()
        &&& forall|b: int, i: int| 0 <= b < self.n_blocks() && 0 <= i < self.parents[b].len() ==>
                #[trigger] self.parents[b][i] < self.n_blocks()
        &&& forall|b: int| 0 <= b < self.n_blocks() ==>
            ((#[trigger] self.saved[b]) matches Some(m) ==> m.len() == self.n_slots())
        &&& self.current matches Some(c) ==> c < self.n_blocks()
    }
}

/// The context of a body with these slot declarations and `n_blocks`
/// blocks, before its walk: nothing bound, saved or recorded.
pub open spec fn initial_view<'a>(decls: Seq<LocalDecl>, arg_count: nat, n_blocks: nat) -> CtxView<'a> {
    CtxView {
        tys: decls.map_values(|d: LocalDecl| d.ty),
        arg_count,
        parents: Seq::new(n_blocks, |b: int| Seq::<usize>::empty()),
        saved: Seq::new(n_blocks, |b: int| None::<Seq<Option<RLValue<'a>>>>),
        used: Seq::new(n_blocks, |b: int| Seq::<usize>::empty()),
        bindings: Seq::new(decls.len(), |i: int| None::<RLValue<'a>>),
        stack: Seq::empty(),
        current: None,
    }
}

pub struct RLContext<'a> {
    /// The body being walked, as an index into the unit's table.
    pub current_local_def_id: Option<usize>,
    pub current_basic_block: Option<usize>,
    /// One entry per open multi-way branch.
    pub stack_come_from_switch_cache: Vec<ComeFromSwitchCache<'a>>,
    /// The predecessors of each block.
    pub map_parent_bb: Vec<Vec<usize>>,
    /// The declared type of each slot.
    pub map_place_ty: Vec<RLTy>,
    /// The number of parameters: slots `1..=arg_count`.
    pub arg_count: usize,
    /// The last value bound to each slot; bindings are never removed.
    pub map_place_rlvalue: Vec<Option<RLValue<'a>>>,
    /// The bindings as they stood at the end of each visited block.
    pub map_bb_to_map_place_rlvalue: Vec<Option<Vec<Option<RLValue<'a>>>>>,
    /// The slots assigned in each block.
    pub map_bb_used_locals: Vec<Vec<usize>>,
}

impl<'a> RLContext<'a> {
    pub open spec fn view(&self) -> CtxView<'a> {
        CtxView {
            tys: self.map_place_ty@.map_values(|t: RLTy| t.ty),
            arg_count: self.arg_count as nat,
            parents: self.map_parent_bb@.map_values(|v: Vec<usize>| v@),
            saved: self.map_bb_to_map_place_rlvalue@.map_values(|o: Option<Vec<Option<RLValue<'a>>>>| match o {
                Some(m) => Some(m@),
                None => None,
            }),
            used: self.map_bb_used_locals@.map_values(|v: Vec<usize>| v@),
            bindings: self.map_place_rlvalue@,
            stack: self.stack_come_from_switch_cache@.map_values(|c: ComeFromSwitchCache<'a>| c.view()),
            current: self.current_basic_block,
        }
    }

    pub open spec fn n_slots(&self) -> nat {
        self.map_place_ty@.len()
    }

    pub proof fn lemma_view_wf(&self)
        requires
            self.wf(),
        ensures
            self.view().wf(),
            self.view().n_slots() == self.n_slots(),
            self.view().n_blocks() == self.n_blocks(),
    {
        let v = self.view();
        assert forall|b: int| 0 <= b < v.n_blocks() implies ((#[trigger] v.saved[b]) matches Some(m) ==> m.len()
            == v.n_slots()) by {
            assert(self.map_bb_to_map_place_rlvalue@[b] matches Some(m) ==> m@.len() == self.n_slots());
        }
        assert forall|b: int, i: int| 0 <= b < v.n_blocks() && 0 <= i < v.parents[b].len() implies
            #[trigger] v.parents[b][i] < v.n_blocks() by {
            assert(v.parents[b] == self.map_parent_bb@[b]@);
        }
    }

    pub open spec fn n_blocks(&self) -> nat {
        self.map_parent_bb@.len()
    }

    /// The tables have one entry per slot and per block, and every block and
    /// slot they name exists.
    pub open spec fn wf(&self) -> bool {
        &&& self.map_place_rlvalue@.len() == self.n_slots()
        &&& self.map_bb_to_map_place_rlvalue@.len() == self.n_blocks()
        &&& self.map_bb_used_locals@.len() == self.n_blocks()
        &&& forall|b: int, i: int| 0 <= b < self.n_blocks() && 0 <= i < self.map_parent_bb@[b]@.len() ==>
                #[trigger] self.map_parent_bb@[b]@[i] < self.n_blocks()
        &&& forall|b: int| 0 <= b < self.n_blocks() ==>
            ((#[trigger] self.map_bb_to_map_place_rlvalue@[b]) matches Some(m) ==> m@.len() == self.n_slots())
        &&& self.current_basic_block matches Some(c) ==> c < self.n_blocks()
    }

    /// A context for a body with the given slot declarations and block count,
    /// where no slot is bound yet.
    pub fn new(decls: &Vec<LocalDecl>, arg_count: usize, n_blocks: usize) -> (r: RLContext<'a>)
        ensures
            r.wf(),
            r.n_slots() == decls@.len(),
            r.n_blocks() == n_blocks,
            r.arg_count == arg_count,
            r.current_local_def_id is None,
            r.current_basic_block is None,
            r.stack_come_from_switch_cache@.len() == 0,
            forall|i: int| 0 <= i < decls@.len() ==> (#[trigger] r.map_place_ty@[i]).ty == decls@[i].ty
                && r.map_place_ty@[i].mutable == decls@[i].mutable,
            forall|i: int| 0 <= i < decls@.len() ==> (#[trigger] r.map_place_rlvalue@[i]) is None,
            forall|b: int| 0 <= b < n_blocks ==> (#[trigger] r.map_parent_bb@[b])@.len() == 0,
            forall|b: int| 0 <= b < n_blocks ==> (#[trigger] r.map_bb_to_map_place_rlvalue@[b]) is None,
            r.view() == initial_view::<'a>(decls@, arg_count as nat, n_blocks as nat),
    {
        let mut tys: Vec<RLTy> = Vec::new();
        let mut vals: Vec<Option<RLValue<'a>>> = Vec::new();
        let mut i: usize = 0;
        while i < decls.len()
            invariant
                i <= decls@.len(),
                tys@.len() == i,
                vals@.len() == i,
                forall|j: int| 0 <= j < i ==> (#[trigger] tys@[j]).ty == decls@[j].ty
                    && tys@[j].mutable == decls@[j].mutable,
                forall|j: int| 0 <= j < i ==> (#[trigger] vals@[j]) is None,
            decreases decls@.len() - i,
        {
            tys.push(RLTy::new(decls[i].ty, decls[i].mutable));
            vals.push(None);
            i = i + 1;
        }
        let mut parents: Vec<Vec<usize>> = Vec::new();
        let mut saved: Vec<Option<Vec<Option<RLValue<'a>>>>> = Vec::new();
        let mut used: Vec<Vec<usize>> = Vec::new();
        let mut b: usize = 0;
        while b < n_blocks
            invariant
                b <= n_blocks,
                parents@.len() == b,
                saved@.len() == b,
                used@.len() == b,
                forall|j: int| 0 <= j < b ==> (#[trigger] parents@[j])@.len() == 0,
                forall|j: int| 0 <= j < b ==> (#[trigger] saved@[j]) is None,
                forall|j: int| 0 <= j < b ==> (#[trigger] used@[j])@.len() == 0,
            decreases n_blocks - b,
        {
            parents.push(Vec::new());
            saved.push(None);
            used.push(Vec::new());
            b = b + 1;
        }
        let r = RLContext {
            current_local_def_id: None,
            current_basic_block: None,
            stack_come_from_switch_cache: Vec::new(),
            map_parent_bb: parents,
            map_place_ty: tys,
            arg_count,
            map_place_rlvalue: vals,
            map_bb_to_map_place_rlvalue: saved,
            map_bb_used_locals: used,
        };
        let ghost init = initial_view::<'a>(decls@, arg_count as nat, n_blocks as nat);
        assert(r.view().tys =~= init.tys);
        assert forall|b: int| 0 <= b < n_blocks implies #[trigger] r.view().parents[b] == init.parents[b] by {
            assert(r.view().parents[b] =~= Seq::<usize>::empty());
        }
        assert forall|b: int| 0 <= b < n_blocks implies #[trigger] r.view().used[b] == init.used[b] by {
            assert(r.view().used[b] =~= Seq::<usize>::empty());
        }
        assert(r.view().parents =~= init.parents);
        assert(r.view().saved =~= init.saved);
        assert(r.view().used =~= init.used);
        assert(r.view().bindings =~= init.bindings);
        assert(r.view().stack =~= init.stack);
        r
    }

    /// Binds `local` to `rl_value`.
    pub fn insert_map_place_rlvalue(&mut self, local: usize, rl_value: RLValue<'a>)
        requires
            old(self).wf(),
            local < old(self).n_slots(),
        ensures
            final(self).wf(),
            final(self).map_place_rlvalue@ == old(self).map_place_rlvalue@.update(local as int, Some(rl_value)),
            final(self).map_place_ty@ == old(self).map_place_ty@,
            final(self).map_parent_bb@ == old(self).map_parent_bb@,
            final(self).map_bb_to_map_place_rlvalue@ == old(self).map_bb_to_map_place_rlvalue@,
            final(self).map_bb_used_locals@ == old(self).map_bb_used_locals@,
            final(self).stack_come_from_switch_cache@ == old(self).stack_come_from_switch_cache@,
            final(self).current_basic_block == old(self).current_basic_block,
            final(self).current_local_def_id == old(self).current_local_def_id,
            final(self).arg_count == old(self).arg_count,
            final(self).view() == (CtxView { bindings: old(self).view().bindings.update(local as int, Some(rl_value)), ..old(self).view() }),
    {
        self.map_place_rlvalue.set(local, Some(rl_value));
        let ghost v = self.view();
        let ghost w = CtxView { bindings: old(self).view().bindings.update(local as int, Some(rl_value)), ..old(self).view() };
        assert(v.tys =~= w.tys && v.parents =~= w.parents && v.saved =~= w.saved && v.used =~= w.used);
        assert(v.bindings =~= w.bindings && v.stack =~= w.stack);
    }

    /// Records the current block as a predecessor of `bb`.
    pub fn add_current_bb_as_parent_of(&mut self, bb: usize)
        requires
            old(self).wf(),
            bb < old(self).n_blocks(),
            old(self).current_basic_block is Some,
        ensures
            final(self).wf(),
            final(self).map_parent_bb@[bb as int]@ == old(self).map_parent_bb@[bb as int]@.push(old(self).current_basic_block->Some_0),
            forall|b: int| 0 <= b < old(self).n_blocks() && b != bb ==>
                (#[trigger] final(self).map_parent_bb@[b])@ == old(self).map_parent_bb@[b]@,
            final(self).map_parent_bb@.len() == old(self).map_parent_bb@.len(),
            final(self).view() == add_parent(old(self).view(), bb, old(self).current_basic_block->Some_0),
            final(self).map_place_rlvalue@ == old(self).map_place_rlvalue@,
            final(self).map_place_ty@ == old(self).map_place_ty@,
            final(self).map_bb_to_map_place_rlvalue@ == old(self).map_bb_to_map_place_rlvalue@,
            final(self).map_bb_used_locals@ == old(self).map_bb_used_locals@,
            final(self).stack_come_from_switch_cache@ == old(self).stack_come_from_switch_cache@,
            final(self).current_basic_block == old(self).current_basic_block,
            final(self).current_local_def_id == old(self).current_local_def_id,
            final(self).arg_count == old(self).arg_count,
    {
        let cur = match self.current_basic_block {
            Some(c) => c,
            None => 0,
        };
        let mut entry = self.map_parent_bb.remove(bb);
        entry.push(cur);
        self.map_parent_bb.insert(bb, entry);
        assert(forall|b: int| 0 <= b < self.map_parent_bb@.len() && b != bb ==>
            #[trigger] self.map_parent_bb@[b] == old(self).map_parent_bb@[b]);
        let ghost v = self.view();
        let ghost w = add_parent(old(self).view(), bb, cur);
        assert(v.tys =~= w.tys && v.saved =~= w.saved && v.used =~= w.used);
        assert(v.bindings =~= w.bindings && v.stack =~= w.stack);
        assert(v.parents =~= w.parents);
    }

    /// Records the slots assigned in block `b`.
    pub fn set_used_locals(&mut self, b: usize, used: Vec<usize>)
        requires
            old(self).wf(),
            b < old(self).n_blocks(),
        ensures
            final(self).wf(),
            final(self).view() == (CtxView { used: old(self).view().used.update(b as int, used@), ..old(self).view() }),
            final(self).n_slots() == old(self).n_slots(),
            final(self).n_blocks() == old(self).n_blocks(),
            final(self).current_local_def_id == old(self).current_local_def_id,
    {
        let ghost u = used@;
        self.map_bb_used_locals.set(b, used);
        let ghost v = self.view();
        let ghost w = CtxView { used: old(self).view().used.update(b as int, u), ..old(self).view() };
        assert(v.tys =~= w.tys && v.parents =~= w.parents && v.saved =~= w.saved && v.used =~= w.used);
        assert(v.bindings =~= w.bindings && v.stack =~= w.stack);
    }

    /// Saves the live bindings as block `b`'s.
    pub fn save_bindings(&mut self, b: usize)
        requires
            old(self).wf(),
            b < old(self).n_blocks(),
        ensures
            final(self).wf(),
            final(self).view() == (CtxView { saved: old(self).view().saved.update(b as int, Some(old(self).view().bindings)), ..old(self).view() }),
            final(self).n_slots() == old(self).n_slots(),
            final(self).n_blocks() == old(self).n_blocks(),
            final(self).current_local_def_id == old(self).current_local_def_id,
    {
        let copy = copy_bindings(&self.map_place_rlvalue);
        self.map_bb_to_map_place_rlvalue.set(b, Some(copy));
        let ghost v = self.view();
        let ghost w = CtxView { saved: old(self).view().saved.update(b as int, Some(old(self).view().bindings)), ..old(self).view() };
        assert(v.tys =~= w.tys && v.parents =~= w.parents && v.saved =~= w.saved && v.used =~= w.used);
        assert(v.bindings =~= w.bindings && v.stack =~= w.stack);
    }

    /// Sets the block being visited.
    pub fn set_current(&mut self, c: Option<usize>)
        requires
            old(self).wf(),
            c matches Some(b) ==> b < old(self).n_blocks(),
        ensures
            final(self).wf(),
            final(self).view() == (CtxView { current: c, ..old(self).view() }),
            final(self).n_slots() == old(self).n_slots(),
            final(self).n_blocks() == old(self).n_blocks(),
            final(self).current_local_def_id == old(self).current_local_def_id,
    {
        self.current_basic_block = c;
        let ghost v = self.view();
        let ghost w = CtxView { current: c, ..old(self).view() };
        assert(v.tys =~= w.tys && v.parents =~= w.parents && v.saved =~= w.saved && v.used =~= w.used);
        assert(v.bindings =~= w.bindings && v.stack =~= w.stack);
    }

    /// Opens a branch cache with the live bindings and `targets`.
    pub fn push_switch_cache(&mut self, targets: &Vec<usize>)
        requires
            old(self).wf(),
        ensures
            final(self).wf(),
            final(self).view() == (CtxView {
                stack: old(self).view().stack.push((old(self).view().bindings, targets@)),
                ..old(self).view()
            }),
            final(self).n_slots() == old(self).n_slots(),
            final(self).n_blocks() == old(self).n_blocks(),
            final(self).current_local_def_id == old(self).current_local_def_id,
    {
        let cache = ComeFromSwitchCache::new(copy_bindings(&self.map_place_rlvalue), copy_usizes(targets));
        self.stack_come_from_switch_cache.push(cache);
        let ghost v = self.view();
        let ghost w = CtxView {
            stack: old(self).view().stack.push((old(self).view().bindings, targets@)),
            ..old(self).view()
        };
        assert(v.tys =~= w.tys && v.parents =~= w.parents && v.saved =~= w.saved && v.used =~= w.used);
        assert(v.bindings =~= w.bindings && v.stack =~= w.stack);
    }

    /// On entering block `b`: when `b` is a target of the innermost branch
    /// cache, restores its bindings and drops `b` from its targets.
    pub fn restore_if_switch_target(&mut self, b: usize)
        requires
            old(self).wf(),
        ensures
            final(self).wf(),
            final(self).view() == restore(old(self).view(), b),
            final(self).n_slots() == old(self).n_slots(),
            final(self).n_blocks() == old(self).n_blocks(),
            final(self).current_local_def_id == old(self).current_local_def_id,
    {
        let n = self.stack_come_from_switch_cache.len();
        if n == 0 {
            return;
        }
        if !contains_index(&self.stack_come_from_switch_cache[n - 1].set_targets, b) {
            assert(self.stack_come_from_switch_cache@[n - 1].view() == self.view().stack.last());
            return;
        }
        let ghost v0 = self.view();
        assert(self.stack_come_from_switch_cache@[n - 1].view() == v0.stack.last());
        match self.stack_come_from_switch_cache.pop() {
            None => {},
            Some(top) => {
                let rest = without(&top.set_targets, b);
                if top.cache.len() == self.map_place_ty.len() {
                    self.map_place_rlvalue = copy_bindings(&top.cache);
                }
                if rest.len() > 0 {
                    let cache = ComeFromSwitchCache::new(top.cache, rest);
                    self.stack_come_from_switch_cache.push(cache);
                }
                let ghost v = self.view();
                let ghost w = restore(v0, b);
                assert(v.tys =~= w.tys && v.parents =~= w.parents && v.saved =~= w.saved && v.used =~= w.used);
                assert(v.bindings =~= w.bindings);
                assert(v.stack =~= w.stack);
            },
        }
    }
}

/// A copy of a binding table.
pub fn copy_bindings<'a>(v: &Vec<Option<RLValue<'a>>>) -> (r: Vec<Option<RLValue<'a>>>)
    ensures
        r@ == v@,
{
    let mut r: Vec<Option<RLValue<'a>>> = Vec::new();
    let mut i: usize = 0;
    while i < v.len()
        invariant
            i <= v@.len(),
            r@ == v@.subrange(0, i as int),
        decreases v@.len() - i,
    {
        r.push(v[i]);
        i = i + 1;
        assert(r@ =~= v@.subrange(0, i as int));
    }
    assert(r@ =~= v@);
    r
}

pub fn copy_usizes(v: &Vec<usize>) -> (r: Vec<usize>)
    ensures
        r@ == v@,
{
    let mut r: Vec<usize> = Vec::new();
    let mut i: usize = 0;
    while i < v.len()
        invariant
            i <= v@.len(),
            r@ == v@.subrange(0, i as int),
        decreases v@.len() - i,
    {
        r.push(v[i]);
        i = i + 1;
        assert(r@ =~= v@.subrange(0, i as int));
    }
    assert(r@ =~= v@);
    r
}

pub fn contains_index(v: &Vec<usize>, x: usize) -> (r: bool)
    ensures
        r == v@.contains(x),
{
    let mut i: usize = 0;
    while i < v.len()
        invariant
            i <= v@.len(),
            forall|j: int| 0 <= j < i ==> v@[j] != x,
        decreases v@.len() - i,
    {
        if v[i] == x {
            return true;
        }
        i = i + 1;
    }
    false
}

/// `v` without the elements equal to `x`.
pub open spec fn remove_all(v: Seq<usize>, x: usize) -> Seq<usize>
    decreases v.len(),
{
    if v.len() == 0 {
        v
    } else if v.last() == x {
        remove_all(v.drop_last(), x)
    } else {
        remove_all(v.drop_last(), x).push(v.last())
    }
}

pub fn without(v: &Vec<usize>, x: usize) -> (r: Vec<usize>)
    ensures
        r@ == remove_all(v@, x),
{
    let mut r: Vec<usize> = Vec::new();
    let mut i: usize = 0;
    while i < v.len()
        invariant
            i <= v@.len(),
            r@ == remove_all(v@.take(i as int), x),
        decreases v@.len() - i,
    {
        assert(v@.take(i + 1).drop_last() =~= v@.take(i as int));
        assert(v@.take(i + 1).last() == v@[i as int]);
        if v[i] != x {
            r.push(v[i]);
        }
        i = i + 1;
    }
    assert(v@.take(i as int) =~= v@);
    r
}

/// Block `b` recorded as a predecessor of `t`.
pub open spec fn add_parent<'a>(c: CtxView<'a>, t: usize, b: usize) -> CtxView<'a> {
    CtxView { parents: c.parents.update(t as int, c.parents[t as int].push(b)), ..c }
}

/// Entering block `b`: when `b` is a target of the innermost branch cache,
/// the bindings are restored from it (when it has one per slot) and `b`
/// leaves its targets; the cache closes once it has no targets left.
pub open spec fn restore<'a>(c: CtxView<'a>, b: usize) -> CtxView<'a> {
    if c.stack.len() > 0 && c.stack.last().1.contains(b) {
        let top = c.stack.last();
        let rest = remove_all(top.1, b);
        CtxView {
            bindings: if top.0.len() == c.tys.len() { top.0 } else { c.bindings },
            stack: if rest.len() > 0 { c.stack.drop_last().push((top.0, rest)) } else { c.stack.drop_last() },
            ..c
        }
    } else {
        c
    }
}

} // verus!
