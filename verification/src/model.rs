//! The type model: interfaces, type definitions and functions, as the external
//! parser hands them over. The graph is immutable once built; composite types
//! live in `Interface::types` and are referenced by index.

use vstd::prelude::*;

verus! {

/// A reference to a type: either one of the built-in scalar/string types, a
/// composite defined in `Interface::types` (by index), or a handle to a
/// resource (by index into `Interface::resources`).
#[derive(Clone, Copy, PartialEq, Eq, Structural, Debug)]
pub enum Type {
    Unit,
    Bool,
    Char,
    U8,
    S8,
    U16,
    S16,
    U32,
    S32,
    U64,
    S64,
    Float32,
    Float64,
    Str,
    Id(usize),
    Handle(usize),
}

/// The unsigned integer widths a discriminant or flags value can be stored in.
#[derive(Clone, Copy, PartialEq, Eq, Structural, Debug)]
pub enum Int {
    U8,
    U16,
    U32,
    U64,
}

/// Documentation attached to a definition.
#[derive(Clone, Debug)]
pub struct Docs {
    pub contents: Option<String>,
}

/// A named record field.
#[derive(Clone, Debug)]
pub struct Field {
    pub name: String,
    pub ty: Type,
}

/// A record: named fields, declaration order significant.
#[derive(Clone, Debug)]
pub struct Record {
    pub fields: Vec<Field>,
}

/// One case of a variant; a payload of `Type::Unit` carries nothing.
#[derive(Clone, Debug)]
pub struct Case {
    pub name: String,
    pub payload: Type,
}

/// A variant: an ordered, non-empty set of cases.
#[derive(Clone, Debug)]
pub struct Variant {
    pub cases: Vec<Case>,
}

/// An enum: a variant whose cases carry no payloads.
#[derive(Clone, Debug)]
pub struct Enum {
    pub cases: Vec<String>,
}

/// A flags type: an ordered set of named boolean bits.
#[derive(Clone, Debug)]
pub struct Flags {
    pub flags: Vec<String>,
}

/// A union: a variant whose cases are anonymous, told apart by position.
#[derive(Clone, Debug)]
pub struct Union {
    pub cases: Vec<Type>,
}

/// An expected type: the two-case ok/err variant.
#[derive(Clone, Copy, PartialEq, Eq, Structural, Debug)]
pub struct Expected {
    pub ok: Type,
    pub err: Type,
}

/// A tuple: positional, unnamed fields.
#[derive(Clone, Debug)]
pub struct Tuple {
    pub types: Vec<Type>,
}

/// The kinds a type definition can take.
#[derive(Clone, Debug)]
pub enum TypeDefKind {
    Alias(Type),
    Record(Record),
    Variant(Variant),
    Enum(Enum),
    Flags(Flags),
    Union(Union),
    OptionOf(Type),
    Expected(Expected),
    Tuple(Tuple),
    List(Type),
}

/// A type definition: optionally named, identified by its index in
/// `Interface::types`.
#[derive(Clone, Debug)]
pub struct TypeDef {
    pub name: Option<String>,
    pub kind: TypeDefKind,
    pub docs: Docs,
}

/// An opaque resource; handles refer to it by index.
#[derive(Clone, Debug)]
pub struct Resource {
    pub name: String,
}

/// Whether a function is provided by the environment (import) or implemented
/// by the module (export). A function is exclusively one or the other.
#[derive(Clone, Copy, PartialEq, Eq, Structural, Debug)]
pub enum Direction {
    Import,
    Export,
}

/// A named function parameter.
#[derive(Clone, Debug)]
pub struct Param {
    pub name: String,
    pub ty: Type,
}

/// A function signature: ordered parameters, one result type (`Type::Unit`
/// when there is none), a direction, and a synchrony flag. Asynchronous
/// functions are rejected by every consumer in this crate.
#[derive(Clone, Debug)]
pub struct Function {
    pub name: String,
    pub params: Vec<Param>,
    pub result: Type,
    pub dir: Direction,
    pub is_async: bool,
}

/// A named group of type definitions, resources and functions.
#[derive(Clone, Debug)]
pub struct Interface {
    pub name: String,
    pub types: Vec<TypeDef>,
    pub resources: Vec<Resource>,
    pub functions: Vec<Function>,
}

/// The most fields, cases, flags or parameters one definition may carry; the
/// bound keeps every byte-offset computation far from machine limits.
pub const MAX_ARITY: usize = 65536;

impl Type {
    /// Every index points inside the interface.
    pub open spec fn wf(self, ntypes: nat, nres: nat) -> bool {
        match self {
            Type::Id(i) => i < ntypes,
            Type::Handle(r) => r < nres,
            _ => true,
        }
    }
}

impl TypeDefKind {
    /// Components are well-formed and arities are bounded. Variant-like kinds
    /// need at least one case for their discriminant to enumerate; flags are
    /// bounded at 64 bits, the widest representation the emitter supports.
    pub open spec fn wf(self, ntypes: nat, nres: nat) -> bool {
        match self {
            TypeDefKind::Alias(t) => t.wf(ntypes, nres),
            TypeDefKind::Record(r) => {
                &&& r.fields@.len() <= MAX_ARITY
                &&& forall|i: int|
                    0 <= i < r.fields@.len() ==> (#[trigger] r.fields@[i]).ty.wf(ntypes, nres)
            },
            TypeDefKind::Variant(v) => {
                &&& 1 <= v.cases@.len() <= MAX_ARITY
                &&& forall|i: int|
                    0 <= i < v.cases@.len() ==> (#[trigger] v.cases@[i]).payload.wf(ntypes, nres)
            },
            TypeDefKind::Enum(e) => 1 <= e.cases@.len() <= MAX_ARITY,
            TypeDefKind::Flags(f) => 1 <= f.flags@.len() <= 64,
            TypeDefKind::Union(u) => {
                &&& 1 <= u.cases@.len() <= MAX_ARITY
                &&& forall|i: int|
                    0 <= i < u.cases@.len() ==> (#[trigger] u.cases@[i]).wf(ntypes, nres)
            },
            TypeDefKind::OptionOf(t) => t.wf(ntypes, nres),
            TypeDefKind::Expected(e) => e.ok.wf(ntypes, nres) && e.err.wf(ntypes, nres),
            TypeDefKind::Tuple(t) => {
                &&& t.types@.len() <= MAX_ARITY
                &&& forall|i: int|
                    0 <= i < t.types@.len() ==> (#[trigger] t.types@[i]).wf(ntypes, nres)
            },
            TypeDefKind::List(t) => t.wf(ntypes, nres),
        }
    }
}

/// Every definition in the table references only types and resources that
/// exist.
pub open spec fn wf_types(types: Seq<TypeDef>, nres: nat) -> bool {
    forall|i: int| 0 <= i < types.len() ==> (#[trigger] types[i]).kind.wf(types.len(), nres)
}

impl Function {
    pub open spec fn wf(self, ntypes: nat, nres: nat) -> bool {
        &&& self.params@.len() <= MAX_ARITY
        &&& forall|i: int|
            0 <= i < self.params@.len() ==> (#[trigger] self.params@[i]).ty.wf(ntypes, nres)
        &&& self.result.wf(ntypes, nres)
    }
}

impl Interface {
    /// The whole model is internally consistent: every reference lands inside
    /// the tables and every arity is bounded.
    pub open spec fn wf(self) -> bool {
        &&& wf_types(self.types@, self.resources@.len())
        &&& forall|i: int|
            0 <= i < self.functions@.len() ==> (#[trigger] self.functions@[i]).wf(
                self.types@.len(),
                self.resources@.len(),
            )
    }
}

} // verus!
