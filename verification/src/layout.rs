//! The layout resolver: byte size, byte alignment and flattened core words
//! for every type, computed structurally from the type graph alone. Layout
//! never depends on where a type is used; only the marshaling plans are
//! direction- and role-aware.

use vstd::prelude::*;
use crate::model::{Interface, Type, TypeDef, TypeDefKind, MAX_ARITY};
use crate::topo::{fields_of, payloads_of};
use crate::Error;

verus! {

/// The kind of one core word crossing the boundary.
#[derive(Clone, Copy, PartialEq, Eq, Structural, Debug)]
pub enum WordKind {
    I32,
    I64,
    F32,
    F64,
}

/// A resolved layout, mathematically: byte size, byte alignment, and the
/// exact flattened word kinds.
pub struct LayoutS {
    pub size: nat,
    pub align: nat,
    pub flat: Seq<WordKind>,
}

/// The largest byte size a layout may reach: one address space of the
/// 32-bit boundary.
pub const SIZE_CAP: u64 = 0xffff_ffff;

/// Flattened word counts saturate here; thresholds sit far below it.
pub const FLAT_COUNT_CAP: u64 = 0xffff;

/// A combined parameter list wider than this many core words is spilled to
/// memory instead of being flattened.
pub const MAX_FLAT_WORDS: u64 = 16;

pub open spec fn nmax(a: nat, b: nat) -> nat {
    if a >= b {
        a
    } else {
        b
    }
}

/// `x` rounded up to the next multiple of `a`.
pub open spec fn align_up(x: nat, a: nat) -> nat
    recommends
        a >= 1,
{
    ((((x + a - 1) as int) / (a as int)) * (a as int)) as nat
}

pub proof fn lemma_align_up(x: nat, a: nat)
    by (nonlinear_arith)
    requires
        a >= 1,
    ensures
        x <= align_up(x, a) <= x + a - 1,
        align_up(x, a) % a == 0,
{
}

/// Merge the classifications of one flattened slot across two variant cases:
/// equal kinds stay; a 32-bit integer/float disagreement becomes an integer
/// slot reached through a bitcast; anything else widens to a 64-bit integer
/// slot.
pub open spec fn join_kind(a: WordKind, b: WordKind) -> WordKind {
    if a == b {
        a
    } else if (a == WordKind::I32 && b == WordKind::F32) || (a == WordKind::F32 && b
        == WordKind::I32) {
        WordKind::I32
    } else {
        WordKind::I64
    }
}

/// Position-by-position merge of two flattened shapes; the longer tail is
/// kept as it is.
pub open spec fn join_flats(a: Seq<WordKind>, b: Seq<WordKind>) -> Seq<WordKind> {
    Seq::new(
        nmax(a.len(), b.len()),
        |i: int|
            if i < a.len() && i < b.len() {
                join_kind(a[i], b[i])
            } else if i < a.len() {
                a[i]
            } else {
                b[i]
            },
    )
}

/// The layout of every type that is not a composite reference.
pub open spec fn prim_layout(t: Type) -> LayoutS {
    match t {
        Type::Unit => LayoutS { size: 0, align: 1, flat: Seq::empty() },
        Type::Bool => LayoutS { size: 1, align: 1, flat: seq![WordKind::I32] },
        Type::U8 => LayoutS { size: 1, align: 1, flat: seq![WordKind::I32] },
        Type::S8 => LayoutS { size: 1, align: 1, flat: seq![WordKind::I32] },
        Type::U16 => LayoutS { size: 2, align: 2, flat: seq![WordKind::I32] },
        Type::S16 => LayoutS { size: 2, align: 2, flat: seq![WordKind::I32] },
        Type::U32 => LayoutS { size: 4, align: 4, flat: seq![WordKind::I32] },
        Type::S32 => LayoutS { size: 4, align: 4, flat: seq![WordKind::I32] },
        Type::Char => LayoutS { size: 4, align: 4, flat: seq![WordKind::I32] },
        Type::U64 => LayoutS { size: 8, align: 8, flat: seq![WordKind::I64] },
        Type::S64 => LayoutS { size: 8, align: 8, flat: seq![WordKind::I64] },
        Type::Float32 => LayoutS { size: 4, align: 4, flat: seq![WordKind::F32] },
        Type::Float64 => LayoutS { size: 8, align: 8, flat: seq![WordKind::F64] },
        Type::Str => LayoutS { size: 8, align: 4, flat: seq![WordKind::I32, WordKind::I32] },
        Type::Handle(_) => LayoutS { size: 4, align: 4, flat: seq![WordKind::I32] },
        Type::Id(_) => LayoutS { size: 0, align: 1, flat: Seq::empty() },
    }
}

/// The byte width of the smallest unsigned integer enumerating `ncases`.
pub open spec fn disc_size(ncases: nat) -> nat {
    if ncases <= 0x100 {
        1
    } else if ncases <= 0x10000 {
        2
    } else {
        4
    }
}

/// Flags pack into words of the smallest covering width: 8, 16 or 32 bits,
/// with as many 32-bit words as needed beyond that.
pub open spec fn flags_layout(n: nat) -> LayoutS {
    let w: nat = if n <= 8 {
        1
    } else if n <= 16 {
        2
    } else {
        4
    };
    LayoutS {
        size: (w * ((((n + 8 * w - 1) as int) / ((8 * w) as int))) as nat),
        align: w,
        flat: Seq::new((((n + 31) as int / 32) as nat), |i: int| WordKind::I32),
    }
}

/// The layout of a type reference; the fuel bounds traversal of the graph
/// and runs out only on a reference cycle.
pub open spec fn layout_ty(types: Seq<TypeDef>, t: Type, fuel: nat) -> Option<LayoutS>
    decreases fuel, 0nat, 0nat,
{
    match t {
        Type::Id(i) => {
            if fuel == 0 {
                Option::None
            } else {
                layout_kind(types, types[i as int].kind, (fuel - 1) as nat)
            }
        },
        _ => Option::Some(prim_layout(t)),
    }
}

/// The layout of one defined kind.
pub open spec fn layout_kind(types: Seq<TypeDef>, k: TypeDefKind, fuel: nat) -> Option<LayoutS>
    decreases fuel, 3nat, 0nat,
{
    match k {
        TypeDefKind::Alias(t) => layout_ty(types, t, fuel),
        TypeDefKind::Flags(f) => {
            if 1 <= f.flags@.len() <= 64 {
                Option::Some(flags_layout(f.flags@.len()))
            } else {
                Option::None
            }
        },
        TypeDefKind::List(_) => Option::Some(
            LayoutS { size: 8, align: 4, flat: seq![WordKind::I32, WordKind::I32] },
        ),
        TypeDefKind::Record(_) => record_like(types, fields_of(k), fuel),
        TypeDefKind::Tuple(_) => record_like(types, fields_of(k), fuel),
        _ => variant_like(types, payloads_of(k), fuel),
    }
}

/// Fold the first `n` components as consecutive struct fields: the running
/// end offset, the maximal alignment, and the concatenated flat shape.
pub open spec fn record_fold(types: Seq<TypeDef>, comps: Seq<Type>, fuel: nat, n: nat) -> Option<
    (nat, nat, Seq<WordKind>),
>
    decreases fuel, 1nat, n,
{
    if n == 0 {
        Option::Some((0, 1, Seq::empty()))
    } else {
        match record_fold(types, comps, fuel, (n - 1) as nat) {
            Option::None => Option::None,
            Option::Some(acc) => match layout_ty(types, comps[n - 1], fuel) {
                Option::None => Option::None,
                Option::Some(l) => Option::Some(
                    (align_up(acc.0, l.align) + l.size, nmax(acc.1, l.align), acc.2 + l.flat),
                ),
            },
        }
    }
}

/// Classic C-struct layout over a component list: fields padded to their own
/// alignment, the whole rounded up to the maximal alignment.
pub open spec fn record_like(types: Seq<TypeDef>, comps: Seq<Type>, fuel: nat) -> Option<LayoutS>
    decreases fuel, 2nat, 0nat,
{
    match record_fold(types, comps, fuel, comps.len()) {
        Option::None => Option::None,
        Option::Some((off, al, fl)) => {
            if align_up(off, al) > SIZE_CAP as nat {
                Option::None
            } else {
                Option::Some(LayoutS { size: align_up(off, al), align: al, flat: fl })
            }
        },
    }
}

/// Fold the first `n` case payloads: maximal size, maximal alignment, and
/// the position-by-position merge of their flat shapes.
pub open spec fn variant_fold(types: Seq<TypeDef>, pls: Seq<Type>, fuel: nat, n: nat) -> Option<
    (nat, nat, Seq<WordKind>),
>
    decreases fuel, 1nat, n,
{
    if n == 0 {
        Option::Some((0, 1, Seq::empty()))
    } else {
        match variant_fold(types, pls, fuel, (n - 1) as nat) {
            Option::None => Option::None,
            Option::Some(acc) => match layout_ty(types, pls[n - 1], fuel) {
                Option::None => Option::None,
                Option::Some(l) => Option::Some(
                    (nmax(acc.0, l.size), nmax(acc.1, l.align), join_flats(acc.2, l.flat)),
                ),
            },
        }
    }
}

/// A variant-like layout: the discriminant at offset zero, the payload after
/// it at the merged payload alignment, one leading discriminant word and the
/// merged payload shape when flattened.
pub open spec fn variant_like(types: Seq<TypeDef>, pls: Seq<Type>, fuel: nat) -> Option<LayoutS>
    decreases fuel, 2nat, 0nat,
{
    if pls.len() == 0 {
        Option::None
    } else {
        match variant_fold(types, pls, fuel, pls.len()) {
            Option::None => Option::None,
            Option::Some((ms, ma, fl)) => {
                let d = disc_size(pls.len());
                let al = nmax(d, ma);
                let off = align_up(d, ma);
                let size = align_up(off + ms, al);
                if size > SIZE_CAP as nat {
                    Option::None
                } else {
                    Option::Some(LayoutS { size, align: al, flat: seq![WordKind::I32] + fl })
                }
            },
        }
    }
}

/// A resolved layout, executably: the flat word kinds are materialized only
/// when the type can ever be flattened, and the count saturates at
/// `FLAT_COUNT_CAP`.
pub struct Layout {
    pub size: u64,
    pub align: u64,
    pub flat_count: u64,
    pub flat: Option<Vec<WordKind>>,
}

/// How an executable layout represents a mathematical one.
pub open spec fn matches_layout(l: Layout, s: LayoutS) -> bool {
    &&& l.size == s.size
    &&& l.align == s.align
    &&& l.flat_count == if s.flat.len() <= FLAT_COUNT_CAP {
        s.flat.len() as int
    } else {
        FLAT_COUNT_CAP as int
    }
    &&& match l.flat {
        Option::Some(v) => s.flat.len() <= MAX_FLAT_WORDS && v@ == s.flat,
        Option::None => s.flat.len() > MAX_FLAT_WORDS,
    }
}

/// How an executable layout result represents a mathematical one: a missing
/// layout is a cycle or a size over the cap, and nothing else.
pub open spec fn matches_opt(r: Result<Layout, Error>, o: Option<LayoutS>) -> bool {
    match r {
        Result::Ok(l) => o is Some && matches_layout(l, o.unwrap()),
        Result::Err(e) => o is None && (e == Error::CyclicTypes || e == Error::TooLarge),
    }
}


/// Every resolved layout stays within the boundary's address space and has a
/// machine alignment.
pub proof fn lemma_bounds_ty(types: Seq<TypeDef>, t: Type, fuel: nat)
    ensures
        match layout_ty(types, t, fuel) {
            Option::Some(l) => 1 <= l.align <= 8 && l.size <= SIZE_CAP as nat,
            Option::None => true,
        },
    decreases fuel, 0nat, 0nat,
{
    match t {
        Type::Id(i) => {
            if fuel > 0 {
                lemma_bounds_kind(types, types[i as int].kind, (fuel - 1) as nat);
            }
        },
        _ => {},
    }
}

pub proof fn lemma_bounds_kind(types: Seq<TypeDef>, k: TypeDefKind, fuel: nat)
    ensures
        match layout_kind(types, k, fuel) {
            Option::Some(l) => 1 <= l.align <= 8 && l.size <= SIZE_CAP as nat,
            Option::None => true,
        },
    decreases fuel, 3nat, 0nat,
{
    match k {
        TypeDefKind::Alias(t) => {
            lemma_bounds_ty(types, t, fuel);
        },
        TypeDefKind::Flags(_) => {},
        TypeDefKind::List(_) => {},
        TypeDefKind::Record(_) => {
            lemma_bounds_record_like(types, fields_of(k), fuel);
        },
        TypeDefKind::Tuple(_) => {
            lemma_bounds_record_like(types, fields_of(k), fuel);
        },
        _ => {
            lemma_bounds_variant_like(types, payloads_of(k), fuel);
        },
    }
}

pub proof fn lemma_bounds_record_fold(types: Seq<TypeDef>, comps: Seq<Type>, fuel: nat, n: nat)
    ensures
        match record_fold(types, comps, fuel, n) {
            Option::Some(acc) => 1 <= acc.1 <= 8,
            Option::None => true,
        },
    decreases fuel, 1nat, n,
{
    if n > 0 {
        lemma_bounds_record_fold(types, comps, fuel, (n - 1) as nat);
        lemma_bounds_ty(types, comps[n - 1], fuel);
    }
}

pub proof fn lemma_bounds_record_like(types: Seq<TypeDef>, comps: Seq<Type>, fuel: nat)
    ensures
        match record_like(types, comps, fuel) {
            Option::Some(l) => 1 <= l.align <= 8 && l.size <= SIZE_CAP as nat,
            Option::None => true,
        },
    decreases fuel, 2nat, 0nat,
{
    lemma_bounds_record_fold(types, comps, fuel, comps.len());
}

pub proof fn lemma_bounds_variant_fold(types: Seq<TypeDef>, pls: Seq<Type>, fuel: nat, n: nat)
    ensures
        match variant_fold(types, pls, fuel, n) {
            Option::Some(acc) => 1 <= acc.1 <= 8,
            Option::None => true,
        },
    decreases fuel, 1nat, n,
{
    if n > 0 {
        lemma_bounds_variant_fold(types, pls, fuel, (n - 1) as nat);
        lemma_bounds_ty(types, pls[n - 1], fuel);
    }
}

pub proof fn lemma_bounds_variant_like(types: Seq<TypeDef>, pls: Seq<Type>, fuel: nat)
    ensures
        match variant_like(types, pls, fuel) {
            Option::Some(l) => 1 <= l.align <= 8 && l.size <= SIZE_CAP as nat,
            Option::None => true,
        },
    decreases fuel, 2nat, 0nat,
{
    if pls.len() > 0 {
        lemma_bounds_variant_fold(types, pls, fuel, pls.len());
    }
}


proof fn lemma_record_fold_none(types: Seq<TypeDef>, comps: Seq<Type>, fuel: nat, m: nat, n: nat)
    requires
        m <= n,
        record_fold(types, comps, fuel, m) is None,
    ensures
        record_fold(types, comps, fuel, n) is None,
    decreases n,
{
    if n > m {
        lemma_record_fold_none(types, comps, fuel, m, (n - 1) as nat);
    }
}

proof fn lemma_variant_fold_none(types: Seq<TypeDef>, pls: Seq<Type>, fuel: nat, m: nat, n: nat)
    requires
        m <= n,
        variant_fold(types, pls, fuel, m) is None,
    ensures
        variant_fold(types, pls, fuel, n) is None,
    decreases n,
{
    if n > m {
        lemma_variant_fold_none(types, pls, fuel, m, (n - 1) as nat);
    }
}

/// `x` rounded up to a multiple of `a`, executably.
fn align_up_x(x: u64, a: u64) -> (r: u64)
    requires
        1 <= a <= 8,
        x <= 0x8_0000_0000_0000,
    ensures
        r as nat == align_up(x as nat, a as nat),
        x <= r <= x + a - 1,
{
    proof {
        lemma_align_up(x as nat, a as nat);
    }
    let q = (x + a - 1) / a;
    assert(q * a <= x + a - 1) by (nonlinear_arith)
        requires
            a >= 1,
            q == ((x + a - 1) as int) / (a as int),
    ;
    q * a
}

/// Append the words of `b` to `a`.
fn extend_words(a: &mut Vec<WordKind>, b: &Vec<WordKind>)
    ensures
        final(a)@ == old(a)@ + b@,
{
    let n = b.len();
    for i in 0..n
        invariant
            n == b@.len(),
            a@ == old(a)@ + b@.take(i as int),
    {
        a.push(b[i]);
        assert(a@ =~= old(a)@ + b@.take(i + 1));
    }
    assert(a@ =~= old(a)@ + b@);
}

/// Executable mirror of `join_kind`.
fn join_kind_x(a: WordKind, b: WordKind) -> (r: WordKind)
    ensures
        r == join_kind(a, b),
{
    if a == b {
        a
    } else if (a == WordKind::I32 && b == WordKind::F32) || (a == WordKind::F32 && b
        == WordKind::I32) {
        WordKind::I32
    } else {
        WordKind::I64
    }
}

/// Executable mirror of `join_flats`.
#[verifier::loop_isolation(false)]
pub(crate) fn join_vec(a: &Vec<WordKind>, b: &Vec<WordKind>) -> (r: Vec<WordKind>)
    ensures
        r@ == join_flats(a@, b@),
{
    let n = if a.len() >= b.len() {
        a.len()
    } else {
        b.len()
    };
    let mut v: Vec<WordKind> = Vec::new();
    for i in 0..n
        invariant
            v@.len() == i,
            forall|j: int| 0 <= j < i ==> v@[j] == join_flats(a@, b@)[j],
    {
        let w = if i < a.len() && i < b.len() {
            join_kind_x(a[i], b[i])
        } else if i < a.len() {
            a[i]
        } else {
            b[i]
        };
        v.push(w);
    }
    assert(v@ =~= join_flats(a@, b@));
    v
}


fn words0() -> (r: Vec<WordKind>)
    ensures
        r@ == Seq::<WordKind>::empty(),
{
    let v: Vec<WordKind> = Vec::new();
    assert(v@ =~= Seq::<WordKind>::empty());
    v
}

fn words1(w: WordKind) -> (r: Vec<WordKind>)
    ensures
        r@ == seq![w],
{
    let v: Vec<WordKind> = vec![w];
    assert(v@ =~= seq![w]);
    v
}

fn words2(w1: WordKind, w2: WordKind) -> (r: Vec<WordKind>)
    ensures
        r@ == seq![w1, w2],
{
    let v: Vec<WordKind> = vec![w1, w2];
    assert(v@ =~= seq![w1, w2]);
    v
}

/// The layout of a non-composite type, executably.
fn prim_layout_x(t: &Type) -> (r: Layout)
    requires
        !(t is Id),
    ensures
        matches_layout(r, prim_layout(*t)),
{
    match t {
        Type::Unit => Layout { size: 0, align: 1, flat_count: 0, flat: Some(words0()) },
        Type::Bool => Layout { size: 1, align: 1, flat_count: 1, flat: Some(words1(WordKind::I32)) },
        Type::U8 => Layout { size: 1, align: 1, flat_count: 1, flat: Some(words1(WordKind::I32)) },
        Type::S8 => Layout { size: 1, align: 1, flat_count: 1, flat: Some(words1(WordKind::I32)) },
        Type::U16 => Layout { size: 2, align: 2, flat_count: 1, flat: Some(words1(WordKind::I32)) },
        Type::S16 => Layout { size: 2, align: 2, flat_count: 1, flat: Some(words1(WordKind::I32)) },
        Type::U32 => Layout { size: 4, align: 4, flat_count: 1, flat: Some(words1(WordKind::I32)) },
        Type::S32 => Layout { size: 4, align: 4, flat_count: 1, flat: Some(words1(WordKind::I32)) },
        Type::Char => Layout { size: 4, align: 4, flat_count: 1, flat: Some(words1(WordKind::I32)) },
        Type::U64 => Layout { size: 8, align: 8, flat_count: 1, flat: Some(words1(WordKind::I64)) },
        Type::S64 => Layout { size: 8, align: 8, flat_count: 1, flat: Some(words1(WordKind::I64)) },
        Type::Float32 => Layout {
            size: 4,
            align: 4,
            flat_count: 1,
            flat: Some(words1(WordKind::F32)),
        },
        Type::Float64 => Layout {
            size: 8,
            align: 8,
            flat_count: 1,
            flat: Some(words1(WordKind::F64)),
        },
        Type::Str => Layout {
            size: 8,
            align: 4,
            flat_count: 2,
            flat: Some(words2(WordKind::I32, WordKind::I32)),
        },
        Type::Handle(_) => Layout {
            size: 4,
            align: 4,
            flat_count: 1,
            flat: Some(words1(WordKind::I32)),
        },
        Type::Id(_) => Layout { size: 0, align: 1, flat_count: 0, flat: Some(words0()) },
    }
}

/// The field types of a record-like kind, executably.
pub(crate) fn fields_vec(k: &TypeDefKind) -> (r: Vec<Type>)
    ensures
        r@ == fields_of(*k),
{
    let mut v: Vec<Type> = Vec::new();
    match k {
        TypeDefKind::Record(rc) => {
            let n = rc.fields.len();
            for i in 0..n
                invariant
                    n == rc.fields@.len(),
                    v@.len() == i,
                    forall|j: int| 0 <= j < i ==> v@[j] == rc.fields@[j].ty,
            {
                v.push(rc.fields[i].ty);
            }
        },
        TypeDefKind::Tuple(t) => {
            let n = t.types.len();
            for i in 0..n
                invariant
                    n == t.types@.len(),
                    v@.len() == i,
                    forall|j: int| 0 <= j < i ==> v@[j] == t.types@[j],
            {
                v.push(t.types[i]);
            }
        },
        _ => {},
    }
    assert(v@ =~= fields_of(*k));
    v
}

/// The case payload types of a variant-like kind, executably.
pub(crate) fn payloads_vec(k: &TypeDefKind) -> (r: Vec<Type>)
    ensures
        r@ == payloads_of(*k),
{
    let mut v: Vec<Type> = Vec::new();
    match k {
        TypeDefKind::Variant(vr) => {
            let n = vr.cases.len();
            for i in 0..n
                invariant
                    n == vr.cases@.len(),
                    v@.len() == i,
                    forall|j: int| 0 <= j < i ==> v@[j] == vr.cases@[j].payload,
            {
                v.push(vr.cases[i].payload);
            }
        },
        TypeDefKind::Enum(e) => {
            let n = e.cases.len();
            for i in 0..n
                invariant
                    n == e.cases@.len(),
                    v@.len() == i,
                    forall|j: int| 0 <= j < i ==> v@[j] == Type::Unit,
            {
                v.push(Type::Unit);
            }
        },
        TypeDefKind::Union(u) => {
            let n = u.cases.len();
            for i in 0..n
                invariant
                    n == u.cases@.len(),
                    v@.len() == i,
                    forall|j: int| 0 <= j < i ==> v@[j] == u.cases@[j],
            {
                v.push(u.cases[i]);
            }
        },
        TypeDefKind::OptionOf(t) => {
            v.push(Type::Unit);
            v.push(*t);
        },
        TypeDefKind::Expected(e) => {
            v.push(e.ok);
            v.push(e.err);
        },
        _ => {},
    }
    assert(v@ =~= payloads_of(*k));
    v
}

/// Resolve the layout of a type reference, mirroring `layout_ty`. Fails
/// exactly where the mathematical layout is undefined: on a reference cycle
/// or a size beyond the cap.
#[verifier::loop_isolation(false)]
pub fn layout_x(iface: &Interface, t: &Type, fuel: usize) -> (r: Result<Layout, Error>)
    requires
        iface.wf(),
        t.wf(iface.types@.len(), iface.resources@.len()),
    ensures
        matches_opt(r, layout_ty(iface.types@, *t, fuel as nat)),
    decreases fuel, 0int, 0int,
{
    match t {
        Type::Id(i) => {
            if fuel == 0 {
                Err(Error::CyclicTypes)
            } else {
                let td = &iface.types[*i];
                layout_kind_x(iface, &td.kind, fuel - 1)
            }
        },
        _ => Ok(prim_layout_x(t)),
    }
}

/// Resolve the layout of one defined kind, mirroring `layout_kind`.
#[verifier::loop_isolation(false)]
pub fn layout_kind_x(iface: &Interface, k: &TypeDefKind, fuel: usize) -> (r: Result<Layout, Error>)
    requires
        iface.wf(),
        k.wf(iface.types@.len(), iface.resources@.len()),
    ensures
        matches_opt(r, layout_kind(iface.types@, *k, fuel as nat)),
    decreases fuel, 3int, 0int,
{
    match k {
        TypeDefKind::Alias(t) => layout_x(iface, t, fuel),
        TypeDefKind::Flags(f) => {
            let n = f.flags.len() as u64;
            let w: u64 = if n <= 8 {
                1
            } else if n <= 16 {
                2
            } else {
                4
            };
            let words = (n + 8 * w - 1) / (8 * w);
            let fw = (n + 31) / 32;
            let fv: Vec<WordKind> = if fw <= 1 {
                words1(WordKind::I32)
            } else {
                words2(WordKind::I32, WordKind::I32)
            };
            assert(fv@ =~= flags_layout(f.flags@.len()).flat);
            Ok(Layout { size: w * words, align: w, flat_count: fw, flat: Some(fv) })
        },
        TypeDefKind::List(_) => Ok(
            Layout {
                size: 8,
                align: 4,
                flat_count: 2,
                flat: Some(words2(WordKind::I32, WordKind::I32)),
            },
        ),
        TypeDefKind::Record(_) => {
            let comps = fields_vec(k);
            proof {
                assert(kind_comps_are_fields(*k));
            }
            record_like_x(iface, &comps, fuel)
        },
        TypeDefKind::Tuple(_) => {
            let comps = fields_vec(k);
            proof {
                assert(kind_comps_are_fields(*k));
            }
            record_like_x(iface, &comps, fuel)
        },
        _ => {
            let pls = payloads_vec(k);
            variant_like_x(iface, &pls, fuel)
        },
    }
}

/// For record-like kinds the component list is exactly the field list.
pub open spec fn kind_comps_are_fields(k: TypeDefKind) -> bool {
    crate::topo::kind_components(k) =~= fields_of(k)
}

/// Resolve a record-like layout over a component list.
#[verifier::loop_isolation(false)]
#[verifier::rlimit(60)]
fn record_like_x(iface: &Interface, comps: &Vec<Type>, fuel: usize) -> (r: Result<Layout, Error>)
    requires
        iface.wf(),
        comps@.len() <= MAX_ARITY,
        forall|i: int|
            0 <= i < comps@.len() ==> (#[trigger] comps@[i]).wf(
                iface.types@.len(),
                iface.resources@.len(),
            ),
    ensures
        matches_opt(r, record_like(iface.types@, comps@, fuel as nat)),
    decreases fuel, 2int, 0int,
{
    let ghost types = iface.types@;
    let n = comps.len();
    let mut off: u64 = 0;
    let mut al: u64 = 1;
    let mut cnt: u64 = 0;
    let mut fl: Option<Vec<WordKind>> = Some(Vec::new());
    let ghost mut gfl: Seq<WordKind> = Seq::empty();
    for i in 0..n
        invariant
            record_fold(types, comps@, fuel as nat, i as nat) == Option::Some(
                (off as nat, al as nat, gfl),
            ),
            1 <= al <= 8,
            off <= i * 0x1_0000_0008,
            cnt == if gfl.len() <= FLAT_COUNT_CAP {
                gfl.len() as int
            } else {
                FLAT_COUNT_CAP as int
            },
            match fl {
                Option::Some(v) => gfl.len() <= MAX_FLAT_WORDS && v@ == gfl,
                Option::None => gfl.len() > MAX_FLAT_WORDS,
            },
    {
        match layout_x(iface, &comps[i], fuel) {
            Err(e) => {
                proof {
                    lemma_record_fold_none(types, comps@, fuel as nat, (i + 1) as nat, n as nat);
                }
                return Err(e);
            },
            Ok(l) => {
                proof {
                    lemma_bounds_ty(types, comps@[i as int], fuel as nat);
                }
                let ghost ls = layout_ty(types, comps@[i as int], fuel as nat).unwrap();
                off = align_up_x(off, l.align) + l.size;
                if l.align > al {
                    al = l.align;
                }
                cnt = cnt + l.flat_count;
                if cnt > FLAT_COUNT_CAP {
                    cnt = FLAT_COUNT_CAP;
                }
                let lflat = l.flat;
                fl = match fl {
                    Option::Some(a) => match lflat {
                        Option::Some(b) => {
                            if a.len() + b.len() <= 16 {
                                let mut a2 = a;
                                extend_words(&mut a2, &b);
                                Some(a2)
                            } else {
                                None
                            }
                        },
                        Option::None => None,
                    },
                    Option::None => None,
                };
                proof {
                    gfl = gfl + ls.flat;
                }
            },
        }
    }
    let size = align_up_x(off, al);
    if size > SIZE_CAP {
        return Err(Error::TooLarge);
    }
    Ok(Layout { size, align: al, flat_count: cnt, flat: fl })
}

/// Resolve a variant-like layout over a case payload list.
#[verifier::loop_isolation(false)]
#[verifier::rlimit(60)]
fn variant_like_x(iface: &Interface, pls: &Vec<Type>, fuel: usize) -> (r: Result<Layout, Error>)
    requires
        iface.wf(),
        1 <= pls@.len() <= 0x2_0000,
        forall|i: int|
            0 <= i < pls@.len() ==> (#[trigger] pls@[i]).wf(
                iface.types@.len(),
                iface.resources@.len(),
            ),
    ensures
        matches_opt(r, variant_like(iface.types@, pls@, fuel as nat)),
    decreases fuel, 2int, 0int,
{
    let ghost types = iface.types@;
    let n = pls.len();
    let mut ms: u64 = 0;
    let mut ma: u64 = 1;
    let mut jcnt: u64 = 0;
    let mut jfl: Option<Vec<WordKind>> = Some(Vec::new());
    let ghost mut gfl: Seq<WordKind> = Seq::empty();
    for i in 0..n
        invariant
            variant_fold(types, pls@, fuel as nat, i as nat) == Option::Some(
                (ms as nat, ma as nat, gfl),
            ),
            1 <= ma <= 8,
            ms <= SIZE_CAP,
            jcnt == if gfl.len() <= FLAT_COUNT_CAP {
                gfl.len() as int
            } else {
                FLAT_COUNT_CAP as int
            },
            match jfl {
                Option::Some(v) => gfl.len() <= MAX_FLAT_WORDS && v@ == gfl,
                Option::None => gfl.len() > MAX_FLAT_WORDS,
            },
    {
        match layout_x(iface, &pls[i], fuel) {
            Err(e) => {
                proof {
                    lemma_variant_fold_none(types, pls@, fuel as nat, (i + 1) as nat, n as nat);
                }
                return Err(e);
            },
            Ok(l) => {
                proof {
                    lemma_bounds_ty(types, pls@[i as int], fuel as nat);
                }
                let ghost ls = layout_ty(types, pls@[i as int], fuel as nat).unwrap();
                if l.size > ms {
                    ms = l.size;
                }
                if l.align > ma {
                    ma = l.align;
                }
                if l.flat_count > jcnt {
                    jcnt = l.flat_count;
                }
                let lflat = l.flat;
                jfl = match jfl {
                    Option::Some(a) => match lflat {
                        Option::Some(b) => Some(join_vec(&a, &b)),
                        Option::None => None,
                    },
                    Option::None => None,
                };
                proof {
                    gfl = join_flats(gfl, ls.flat);
                }
            },
        }
    }
    let d: u64 = if n <= 0x100 {
        1
    } else if n <= 0x10000 {
        2
    } else {
        4
    };
    let al = if d >= ma {
        d
    } else {
        ma
    };
    let off = align_up_x(d, ma);
    let size = align_up_x(off + ms, al);
    if size > SIZE_CAP {
        return Err(Error::TooLarge);
    }
    let mut fcnt = jcnt + 1;
    if fcnt > FLAT_COUNT_CAP {
        fcnt = FLAT_COUNT_CAP;
    }
    let flat: Option<Vec<WordKind>> = match jfl {
        Option::Some(v) => {
            if v.len() + 1 <= 16 {
                let mut nv: Vec<WordKind> = Vec::new();
                nv.push(WordKind::I32);
                extend_words(&mut nv, &v);
                assert(nv@ =~= seq![WordKind::I32] + v@);
                Some(nv)
            } else {
                None
            }
        },
        Option::None => None,
    };
    Ok(Layout { size, align: al, flat_count: fcnt, flat })
}


/// Resolve the layout of an argument area: the arguments laid out as the
/// consecutive fields of one record.
pub fn record_like_area(iface: &Interface, comps: &Vec<Type>, fuel: usize) -> (r: Result<
    Layout,
    Error,
>)
    requires
        iface.wf(),
        comps@.len() <= MAX_ARITY,
        forall|i: int|
            0 <= i < comps@.len() ==> (#[trigger] comps@[i]).wf(
                iface.types@.len(),
                iface.resources@.len(),
            ),
    ensures
        matches_opt(r, record_like(iface.types@, comps@, fuel as nat)),
{
    record_like_x(iface, comps, fuel)
}

/// Layout determinism: the layout of a type is a pure function of the type
/// graph, so two resolutions of the same type against the same table are
/// identical in size, alignment and flattened shape.
pub proof fn lemma_layout_deterministic(
    types: Seq<TypeDef>,
    t: Type,
    fuel: nat,
    a: Layout,
    b: Layout,
)
    requires
        matches_opt(Result::Ok(a), layout_ty(types, t, fuel)),
        matches_opt(Result::Ok(b), layout_ty(types, t, fuel)),
    ensures
        a.size == b.size,
        a.align == b.align,
        a.flat_count == b.flat_count,
        a.flat is Some <==> b.flat is Some,
        a.flat is Some ==> a.flat.unwrap()@ == b.flat.unwrap()@,
{
}

} // verus!



