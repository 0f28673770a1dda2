//! The program representation that the analysis reads: one control-flow
//! graph per function body, with the facts about each symbol that the
//! front end answers.
use vstd::prelude::*;

verus! {

/// The stable identifier of a symbol: the unit that owns it and its index there.
#[derive(Clone, Copy, Debug, PartialEq, Eq, Structural)]
pub struct SymbolId {
    pub krate: u32,
    pub index: u32,
}

/// What a symbol is declared as.
#[derive(Clone, Copy, Debug, PartialEq, Eq, Structural)]
pub enum DefKind {
    Fn,
    AssocFn,
    Closure,
    Static,
    Const,
    Impl,
    Other,
}

/// What the front end reports of one symbol.
pub struct SymbolInfo {
    pub id: SymbolId,
    /// The canonical identifier string, as `DefId(1:4 ~ unit[ab12]::path)`.
    pub repr: String,
    /// The name of the unit that owns the symbol.
    pub unit_name: String,
    /// The symbol's path, as `std::clone::Clone::clone`.
    pub path: String,
    /// The symbol belongs to the unit under analysis.
    pub is_local: bool,
    pub kind: DefKind,
    /// A closure or a coroutine.
    pub closure_like: bool,
    /// An associated function that takes a receiver.
    pub has_receiver: bool,
    /// A default method, or a trait-impl method with associated types.
    pub default_or_impl_tys: bool,
    /// A receiver method of the trait that declares it.
    pub trait_receiver_method: bool,
    /// For a static: whether it is mutable.
    pub mutable: bool,
}

/// The type of a slot, as far as call resolution reads it.
#[derive(Clone, Copy, Debug, PartialEq, Eq, Structural)]
pub enum TyKind {
    Tuple,
    FnPtr,
    /// A function item; the index is the symbol's place in the unit's table.
    FnDef(usize),
    Closure(usize),
    /// An unresolved generic parameter.
    Param,
    Other,
}

/// A slot's declared type: `kind`, behind a reference when `by_ref` holds.
#[derive(Clone, Copy, Debug, PartialEq, Eq, Structural)]
pub struct Ty {
    pub by_ref: bool,
    pub kind: TyKind,
}

/// A slot's declaration.
#[derive(Clone, Copy, Debug, PartialEq, Eq, Structural)]
pub struct LocalDecl {
    pub ty: Ty,
    pub mutable: bool,
}

/// A constant operand. Symbols are indices into the unit's table.
#[derive(Clone, Copy, Debug, PartialEq, Eq, Structural)]
pub enum ConstValue {
    /// A function, method or closure item.
    FnItem(usize),
    /// A value of closure type.
    ClosureItem(usize),
    /// A reference to a function item.
    FnRef(usize),
    /// A pointer to a static reached through an allocation; `mutable` is the
    /// pointer's mutability.
    StaticPtr(usize, bool),
    /// An unevaluated function-pointer constant naming a static or a const item.
    Item(usize),
    /// A promoted constant of the function `owner`.
    Promoted(usize, u32),
    /// A zero-sized value, as the empty tuple.
    ZeroSized,
    /// A plain scalar.
    Scalar(u64),
}

/// A value use.
#[derive(Clone, Copy, Debug, PartialEq, Eq, Structural)]
pub enum Operand {
    Move(usize),
    Copy(usize),
    Constant(ConstValue),
}

/// The kind of an aggregate value.
#[derive(Clone, Copy, Debug, PartialEq, Eq, Structural)]
pub enum AggregateKind {
    Tuple,
    Other,
}

/// The right-hand side of an assignment.
#[derive(Clone, Debug)]
pub enum Rvalue {
    Use(Operand),
    Ref(usize),
    Cast(Operand),
    CopyForDeref(usize),
    Aggregate(AggregateKind, Vec<Operand>),
    /// Any other expression form.
    Opaque,
}

/// A statement of a basic block.
#[derive(Clone, Debug)]
pub enum Statement {
    Assign(usize, Rvalue),
    StorageLive(usize),
    StorageDead(usize),
    Nop,
}

/// The terminator of a basic block.
#[derive(Clone, Debug)]
pub enum Terminator {
    Call { func: Operand, args: Vec<Operand>, destination: usize, continuation: Option<usize> },
    SwitchInt { targets: Vec<usize> },
    Goto { target: usize },
    Drop { target: usize },
    Assert { target: usize },
    FalseEdge { real_target: usize },
    FalseUnwind { real_target: usize },
    Return,
    Unreachable,
    Yield,
    InlineAsm,
    TailCall,
}

/// A basic block.
#[derive(Clone, Debug)]
pub struct BasicBlock {
    pub statements: Vec<Statement>,
    pub terminator: Terminator,
}

/// A function body: its owner (an index into the unit's table), the
/// promoted constant it stands for if any, its slots and its blocks. Slots
/// `1..=arg_count` are the parameters.
pub struct Body {
    pub owner: usize,
    pub promoted: Option<u32>,
    pub local_decls: Vec<LocalDecl>,
    pub arg_count: usize,
    pub blocks: Vec<BasicBlock>,
}

} // verus!
