//! The canonical ABI value engine: lowering a structured value to its flat
//! sequence of core words and lifting it back. Lowering and lifting follow
//! the layouts of `crate::layout`; variant payloads pass through the merged
//! slot kinds, with bitcasts where cases disagree. Lists and strings need
//! the linear-memory arena and are not handled by this value engine.

use vstd::prelude::*;
use crate::layout::{
    join_kind, layout_kind, layout_ty, record_fold, record_like, variant_fold, variant_like,
    WordKind,
};
use crate::model::wf_types;
use vstd::arithmetic::power2::{pow2, lemma2_to64};
use vstd::arithmetic::div_mod::lemma_fundamental_div_mod;
use crate::model::{Interface, Type, TypeDef, TypeDefKind};
use crate::Error;
use crate::topo::{fields_of, payloads_of};

verus! {

broadcast use vstd::std_specs::vec::group_vec_axioms;

/// A structured value, mathematically. Floating-point payloads are carried
/// bit-exactly as their bit patterns.
pub enum ValueS {
    Unit,
    Bool(bool),
    Char(u32),
    U8(u8),
    S8(i8),
    U16(u16),
    S16(i16),
    U32(u32),
    S32(i32),
    U64(u64),
    S64(i64),
    F32Bits(u32),
    F64Bits(u64),
    HandleV(u32),
    Record(Seq<ValueS>),
    Case(int, Box<ValueS>),
    FlagsV(u64),
}

/// One core word crossing the boundary, with its bit pattern.
#[derive(Clone, Copy, PartialEq, Eq, Structural, Debug)]
pub enum Word {
    I32(u32),
    I64(u64),
    F32(u32),
    F64(u64),
}

pub open spec fn word_kind(w: Word) -> WordKind {
    match w {
        Word::I32(_) => WordKind::I32,
        Word::I64(_) => WordKind::I64,
        Word::F32(_) => WordKind::F32,
        Word::F64(_) => WordKind::F64,
    }
}

/// Reinterpret one word as another slot kind: 32-bit payloads zero-extend
/// into 64-bit integer slots, float bit patterns move into integer slots of
/// the same width unchanged, and the inverse directions truncate back.
pub open spec fn cast_to(w: Word, k: WordKind) -> Word {
    match w {
        Word::I32(x) => match k {
            WordKind::I32 => Word::I32(x),
            WordKind::I64 => Word::I64(x as u64),
            WordKind::F32 => Word::F32(x),
            WordKind::F64 => Word::F64(x as u64),
        },
        Word::I64(x) => match k {
            WordKind::I32 => Word::I32((x % 0x1_0000_0000) as u32),
            WordKind::I64 => Word::I64(x),
            WordKind::F32 => Word::F32((x % 0x1_0000_0000) as u32),
            WordKind::F64 => Word::F64(x),
        },
        Word::F32(x) => match k {
            WordKind::I32 => Word::I32(x),
            WordKind::I64 => Word::I64(x as u64),
            WordKind::F32 => Word::F32(x),
            WordKind::F64 => Word::F64(x as u64),
        },
        Word::F64(x) => match k {
            WordKind::I32 => Word::I32((x % 0x1_0000_0000) as u32),
            WordKind::I64 => Word::I64(x),
            WordKind::F32 => Word::F32((x % 0x1_0000_0000) as u32),
            WordKind::F64 => Word::F64(x),
        },
    }
}

/// The all-zero word of a slot kind, used to pad unused variant slots.
pub open spec fn zero_of(k: WordKind) -> Word {
    match k {
        WordKind::I32 => Word::I32(0),
        WordKind::I64 => Word::I64(0),
        WordKind::F32 => Word::F32(0),
        WordKind::F64 => Word::F64(0),
    }
}

/// The slot ordering: `a` fits in `b` without losing bits.
pub open spec fn sub_kind(a: WordKind, b: WordKind) -> bool {
    ||| a == b
    ||| (a == WordKind::I32 && b == WordKind::I64)
    ||| (a == WordKind::F32 && (b == WordKind::I32 || b == WordKind::I64))
    ||| (a == WordKind::F64 && b == WordKind::I64)
}

pub proof fn lemma_sub_kind_join(a: WordKind, b: WordKind)
    ensures
        sub_kind(a, join_kind(a, b)),
        sub_kind(b, join_kind(a, b)),
{
}

pub proof fn lemma_sub_kind_trans(a: WordKind, b: WordKind, c: WordKind)
    requires
        sub_kind(a, b),
        sub_kind(b, c),
    ensures
        sub_kind(a, c),
{
}

/// Casting into a covering slot and back is the identity.
pub proof fn lemma_cast_roundtrip(w: Word, k: WordKind)
    requires
        sub_kind(word_kind(w), k),
    ensures
        cast_to(cast_to(w, k), word_kind(w)) == w,
{
    match w {
        Word::I32(x) => {
            assert(x as u64 % 0x1_0000_0000 == x) by (nonlinear_arith)
                requires
                    x < 0x1_0000_0000,
            ;
        },
        Word::F32(x) => {
            assert(x as u64 % 0x1_0000_0000 == x) by (nonlinear_arith)
                requires
                    x < 0x1_0000_0000,
            ;
        },
        _ => {},
    }
}

/// A variant's merged slots cover every case's own flat shape.
pub proof fn lemma_fold_covers(types: Seq<TypeDef>, pls: Seq<Type>, fuel: nat, n: nat, c: int)
    requires
        0 <= c < n,
        variant_fold(types, pls, fuel, n) is Some,
        layout_ty(types, pls[c], fuel) is Some,
    ensures
        ({
            let joined = variant_fold(types, pls, fuel, n).unwrap().2;
            let cf = layout_ty(types, pls[c], fuel).unwrap().flat;
            joined.len() >= cf.len() && forall|i: int|
                0 <= i < cf.len() ==> sub_kind(cf[i], #[trigger] joined[i])
        }),
    decreases n,
{
    let joined = variant_fold(types, pls, fuel, n).unwrap().2;
    let prev = variant_fold(types, pls, fuel, (n - 1) as nat).unwrap().2;
    let lastf = layout_ty(types, pls[n - 1], fuel).unwrap().flat;
    if c == n - 1 {
        assert forall|i: int| 0 <= i < lastf.len() implies sub_kind(
            lastf[i],
            #[trigger] joined[i],
        ) by {
            if i < prev.len() {
                lemma_sub_kind_join(prev[i], lastf[i]);
            }
        }
    } else {
        lemma_fold_covers(types, pls, fuel, (n - 1) as nat, c);
        let cf = layout_ty(types, pls[c], fuel).unwrap().flat;
        assert forall|i: int| 0 <= i < cf.len() implies sub_kind(cf[i], #[trigger] joined[i]) by {
            assert(sub_kind(cf[i], prev[i]));
            if i < lastf.len() {
                lemma_sub_kind_join(prev[i], lastf[i]);
                lemma_sub_kind_trans(cf[i], prev[i], joined[i]);
            } else {
                assert(joined[i] == prev[i]);
            }
        }
    }
}

/// The unsigned 32-bit representation of a signed value.
pub open spec fn u32_rep(y: int) -> u32 {
    (y % 0x1_0000_0000) as u32
}

/// The unsigned 64-bit representation of a signed value.
pub open spec fn u64_rep(y: int) -> u64 {
    (y % 0x1_0000_0000_0000_0000) as u64
}

/// The signed reading of an unsigned 32-bit pattern.
pub open spec fn i32_rep(x: u32) -> int {
    if x < 0x8000_0000 {
        x as int
    } else {
        x - 0x1_0000_0000
    }
}

/// The signed reading of an unsigned 64-bit pattern.
pub open spec fn i64_rep(x: u64) -> int {
    if x < 0x8000_0000_0000_0000 {
        x as int
    } else {
        x - 0x1_0000_0000_0000_0000
    }
}

/// A legal unicode scalar value.
pub open spec fn valid_char(c: u32) -> bool {
    c < 0xd800 || (0xe000 <= c <= 0x10ffff)
}

/// Flags bits fit their declared width.
pub open spec fn flags_fit(bits: u64, n: nat) -> bool {
    n >= 64 || (bits as nat) < pow2(n)
}

/// The flag words of a flags value: one 32-bit word per 32 declared bits.
pub open spec fn flags_words(bits: u64, n: nat) -> Seq<Word> {
    if n <= 32 {
        seq![Word::I32((bits % 0x1_0000_0000) as u32)]
    } else {
        seq![Word::I32((bits % 0x1_0000_0000) as u32), Word::I32((bits / 0x1_0000_0000) as u32)]
    }
}

/// Lower a value of type `t` to its flat words; `None` where the value does
/// not conform to the type, the type reaches no layout, or the type is a
/// list or string, which this engine does not flatten.
pub open spec fn lower_ty(types: Seq<TypeDef>, t: Type, v: ValueS, fuel: nat) -> Option<Seq<Word>>
    decreases fuel, 0nat, 0nat,
{
    match t {
        Type::Unit => if v == ValueS::Unit {
            Option::Some(Seq::empty())
        } else {
            Option::None
        },
        Type::Bool => match v {
            ValueS::Bool(b) => Option::Some(
                seq![Word::I32(
                    if b {
                        1u32
                    } else {
                        0u32
                    },
                )],
            ),
            _ => Option::None,
        },
        Type::Char => match v {
            ValueS::Char(c) => if valid_char(c) {
                Option::Some(seq![Word::I32(c)])
            } else {
                Option::None
            },
            _ => Option::None,
        },
        Type::U8 => match v {
            ValueS::U8(x) => Option::Some(seq![Word::I32(x as u32)]),
            _ => Option::None,
        },
        Type::S8 => match v {
            ValueS::S8(x) => Option::Some(seq![Word::I32(u32_rep(x as int))]),
            _ => Option::None,
        },
        Type::U16 => match v {
            ValueS::U16(x) => Option::Some(seq![Word::I32(x as u32)]),
            _ => Option::None,
        },
        Type::S16 => match v {
            ValueS::S16(x) => Option::Some(seq![Word::I32(u32_rep(x as int))]),
            _ => Option::None,
        },
        Type::U32 => match v {
            ValueS::U32(x) => Option::Some(seq![Word::I32(x)]),
            _ => Option::None,
        },
        Type::S32 => match v {
            ValueS::S32(x) => Option::Some(seq![Word::I32(u32_rep(x as int))]),
            _ => Option::None,
        },
        Type::U64 => match v {
            ValueS::U64(x) => Option::Some(seq![Word::I64(x)]),
            _ => Option::None,
        },
        Type::S64 => match v {
            ValueS::S64(x) => Option::Some(seq![Word::I64(u64_rep(x as int))]),
            _ => Option::None,
        },
        Type::Float32 => match v {
            ValueS::F32Bits(x) => Option::Some(seq![Word::F32(x)]),
            _ => Option::None,
        },
        Type::Float64 => match v {
            ValueS::F64Bits(x) => Option::Some(seq![Word::F64(x)]),
            _ => Option::None,
        },
        Type::Handle(_) => match v {
            ValueS::HandleV(x) => Option::Some(seq![Word::I32(x)]),
            _ => Option::None,
        },
        Type::Str => Option::None,
        Type::Id(i) => {
            if fuel == 0 {
                Option::None
            } else {
                lower_kind(types, types[i as int].kind, v, (fuel - 1) as nat)
            }
        },
    }
}

/// Lower a value of one defined kind.
pub open spec fn lower_kind(types: Seq<TypeDef>, k: TypeDefKind, v: ValueS, fuel: nat) -> Option<
    Seq<Word>,
>
    decreases fuel, 3nat, 0nat,
{
    match k {
        TypeDefKind::Alias(t) => lower_ty(types, t, v, fuel),
        TypeDefKind::Flags(f) => {
            let n = f.flags@.len();
            match v {
                ValueS::FlagsV(bits) => if 1 <= n <= 64 && flags_fit(bits, n) {
                    Option::Some(flags_words(bits, n))
                } else {
                    Option::None
                },
                _ => Option::None,
            }
        },
        TypeDefKind::List(_) => Option::None,
        TypeDefKind::Record(_) => match v {
            ValueS::Record(vs) => if record_like(types, fields_of(k), fuel) is Some {
                lower_comps(types, fields_of(k), vs, fuel, fields_of(k).len())
            } else {
                Option::None
            },
            _ => Option::None,
        },
        TypeDefKind::Tuple(_) => match v {
            ValueS::Record(vs) => if record_like(types, fields_of(k), fuel) is Some {
                lower_comps(types, fields_of(k), vs, fuel, fields_of(k).len())
            } else {
                Option::None
            },
            _ => Option::None,
        },
        _ => {
            let pls = payloads_of(k);
            match v {
                ValueS::Case(c, bv) => {
                    if !(0 <= c < pls.len()) {
                        Option::None
                    } else {
                        match variant_like(types, pls, fuel) {
                            Option::None => Option::None,
                            Option::Some(vl) => {
                                let joined = variant_fold(
                                    types,
                                    pls,
                                    fuel,
                                    pls.len(),
                                ).unwrap().2;
                                match lower_ty(types, pls[c], *bv, fuel) {
                                    Option::None => Option::None,
                                    Option::Some(pws) => Option::Some(
                                        seq![Word::I32(c as u32)] + Seq::new(
                                            joined.len(),
                                            |i: int|
                                                if i < pws.len() {
                                                    cast_to(pws[i], joined[i])
                                                } else {
                                                    zero_of(joined[i])
                                                },
                                        ),
                                    ),
                                }
                            },
                        }
                    }
                },
                _ => Option::None,
            }
        },
    }
}

/// Lower the first `n` values of a component list, concatenating their
/// words in declaration order.
pub open spec fn lower_comps(
    types: Seq<TypeDef>,
    comps: Seq<Type>,
    vs: Seq<ValueS>,
    fuel: nat,
    n: nat,
) -> Option<Seq<Word>>
    decreases fuel, 1nat, n,
{
    if comps.len() != vs.len() || n > comps.len() {
        Option::None
    } else if n == 0 {
        Option::Some(Seq::empty())
    } else {
        match lower_comps(types, comps, vs, fuel, (n - 1) as nat) {
            Option::None => Option::None,
            Option::Some(front) => match lower_ty(types, comps[n - 1], vs[n - 1], fuel) {
                Option::None => Option::None,
                Option::Some(ws) => Option::Some(front + ws),
            },
        }
    }
}

/// Lift a flat word sequence back to a value of type `t`; `None` where the
/// words do not conform. Lifting validates: characters must be legal scalar
/// values, discriminants in range, flags within their declared bits, and
/// narrow integers within their width.
pub open spec fn lift_ty(types: Seq<TypeDef>, t: Type, ws: Seq<Word>, fuel: nat) -> Option<ValueS>
    decreases fuel, 0nat, 0nat,
{
    match t {
        Type::Unit => if ws.len() == 0 {
            Option::Some(ValueS::Unit)
        } else {
            Option::None
        },
        Type::Bool => if ws.len() == 1 {
            match ws[0] {
                Word::I32(x) => Option::Some(ValueS::Bool(x != 0)),
                _ => Option::None,
            }
        } else {
            Option::None
        },
        Type::Char => if ws.len() == 1 {
            match ws[0] {
                Word::I32(x) => if valid_char(x) {
                    Option::Some(ValueS::Char(x))
                } else {
                    Option::None
                },
                _ => Option::None,
            }
        } else {
            Option::None
        },
        Type::U8 => if ws.len() == 1 {
            match ws[0] {
                Word::I32(x) => if x <= 0xff {
                    Option::Some(ValueS::U8(x as u8))
                } else {
                    Option::None
                },
                _ => Option::None,
            }
        } else {
            Option::None
        },
        Type::S8 => if ws.len() == 1 {
            match ws[0] {
                Word::I32(x) => if -0x80 <= i32_rep(x) < 0x80 {
                    Option::Some(ValueS::S8(i32_rep(x) as i8))
                } else {
                    Option::None
                },
                _ => Option::None,
            }
        } else {
            Option::None
        },
        Type::U16 => if ws.len() == 1 {
            match ws[0] {
                Word::I32(x) => if x <= 0xffff {
                    Option::Some(ValueS::U16(x as u16))
                } else {
                    Option::None
                },
                _ => Option::None,
            }
        } else {
            Option::None
        },
        Type::S16 => if ws.len() == 1 {
            match ws[0] {
                Word::I32(x) => if -0x8000 <= i32_rep(x) < 0x8000 {
                    Option::Some(ValueS::S16(i32_rep(x) as i16))
                } else {
                    Option::None
                },
                _ => Option::None,
            }
        } else {
            Option::None
        },
        Type::U32 => if ws.len() == 1 {
            match ws[0] {
                Word::I32(x) => Option::Some(ValueS::U32(x)),
                _ => Option::None,
            }
        } else {
            Option::None
        },
        Type::S32 => if ws.len() == 1 {
            match ws[0] {
                Word::I32(x) => Option::Some(ValueS::S32(i32_rep(x) as i32)),
                _ => Option::None,
            }
        } else {
            Option::None
        },
        Type::U64 => if ws.len() == 1 {
            match ws[0] {
                Word::I64(x) => Option::Some(ValueS::U64(x)),
                _ => Option::None,
            }
        } else {
            Option::None
        },
        Type::S64 => if ws.len() == 1 {
            match ws[0] {
                Word::I64(x) => Option::Some(ValueS::S64(i64_rep(x) as i64)),
                _ => Option::None,
            }
        } else {
            Option::None
        },
        Type::Float32 => if ws.len() == 1 {
            match ws[0] {
                Word::F32(x) => Option::Some(ValueS::F32Bits(x)),
                _ => Option::None,
            }
        } else {
            Option::None
        },
        Type::Float64 => if ws.len() == 1 {
            match ws[0] {
                Word::F64(x) => Option::Some(ValueS::F64Bits(x)),
                _ => Option::None,
            }
        } else {
            Option::None
        },
        Type::Handle(_) => if ws.len() == 1 {
            match ws[0] {
                Word::I32(x) => Option::Some(ValueS::HandleV(x)),
                _ => Option::None,
            }
        } else {
            Option::None
        },
        Type::Str => Option::None,
        Type::Id(i) => {
            if fuel == 0 {
                Option::None
            } else {
                lift_kind(types, types[i as int].kind, ws, (fuel - 1) as nat)
            }
        },
    }
}

/// Lift the words of one defined kind.
pub open spec fn lift_kind(types: Seq<TypeDef>, k: TypeDefKind, ws: Seq<Word>, fuel: nat) -> Option<
    ValueS,
>
    decreases fuel, 3nat, 0nat,
{
    match k {
        TypeDefKind::Alias(t) => lift_ty(types, t, ws, fuel),
        TypeDefKind::Flags(f) => {
            let n = f.flags@.len();
            if !(1 <= n <= 64) {
                Option::None
            } else if n <= 32 {
                if ws.len() == 1 {
                    match ws[0] {
                        Word::I32(lo) => if flags_fit(lo as u64, n) {
                            Option::Some(ValueS::FlagsV(lo as u64))
                        } else {
                            Option::None
                        },
                        _ => Option::None,
                    }
                } else {
                    Option::None
                }
            } else {
                if ws.len() == 2 {
                    match (ws[0], ws[1]) {
                        (Word::I32(lo), Word::I32(hi)) => {
                            let bits = (lo + hi * 0x1_0000_0000) as u64;
                            if flags_fit(bits, n) {
                                Option::Some(ValueS::FlagsV(bits))
                            } else {
                                Option::None
                            }
                        },
                        _ => Option::None,
                    }
                } else {
                    Option::None
                }
            }
        },
        TypeDefKind::List(_) => Option::None,
        TypeDefKind::Record(_) => if record_like(types, fields_of(k), fuel) is Some {
            match lift_comps(types, fields_of(k), ws, fuel, fields_of(k).len()) {
                Option::None => Option::None,
                Option::Some(vs) => Option::Some(ValueS::Record(vs)),
            }
        } else {
            Option::None
        },
        TypeDefKind::Tuple(_) => if record_like(types, fields_of(k), fuel) is Some {
            match lift_comps(types, fields_of(k), ws, fuel, fields_of(k).len()) {
                Option::None => Option::None,
                Option::Some(vs) => Option::Some(ValueS::Record(vs)),
            }
        } else {
            Option::None
        },
        _ => {
            let pls = payloads_of(k);
            match variant_like(types, pls, fuel) {
                Option::None => Option::None,
                Option::Some(vl) => {
                    let joined = variant_fold(types, pls, fuel, pls.len()).unwrap().2;
                    if ws.len() != 1 + joined.len() {
                        Option::None
                    } else {
                        match ws[0] {
                            Word::I32(c) => {
                                if !(c < pls.len()) {
                                    Option::None
                                } else {
                                    match layout_ty(types, pls[c as int], fuel) {
                                        Option::None => Option::None,
                                        Option::Some(cl) => {
                                            if joined.len() < cl.flat.len() {
                                                Option::None
                                            } else {
                                                let pw = Seq::new(
                                                    cl.flat.len(),
                                                    |i: int| cast_to(ws[1 + i], cl.flat[i]),
                                                );
                                                match lift_ty(types, pls[c as int], pw, fuel) {
                                                    Option::None => Option::None,
                                                    Option::Some(pv) => Option::Some(
                                                        ValueS::Case(c as int, Box::new(pv)),
                                                    ),
                                                }
                                            }
                                        },
                                    }
                                }
                            },
                            _ => Option::None,
                        }
                    }
                }
            }
        },
    }
}

/// Lift the first `n` components of a record-like word sequence, peeling
/// each component's words from the end.
pub open spec fn lift_comps(
    types: Seq<TypeDef>,
    comps: Seq<Type>,
    ws: Seq<Word>,
    fuel: nat,
    n: nat,
) -> Option<Seq<ValueS>>
    decreases fuel, 1nat, n,
{
    if n > comps.len() {
        Option::None
    } else if n == 0 {
        if ws.len() == 0 {
            Option::Some(Seq::empty())
        } else {
            Option::None
        }
    } else {
        match layout_ty(types, comps[n - 1], fuel) {
            Option::None => Option::None,
            Option::Some(l) => {
                let k = l.flat.len();
                if ws.len() < k {
                    Option::None
                } else {
                    match lift_comps(types, comps, ws.take(ws.len() - k), fuel, (n - 1) as nat) {
                        Option::None => Option::None,
                        Option::Some(front) => match lift_ty(
                            types,
                            comps[n - 1],
                            ws.skip(ws.len() - k),
                            fuel,
                        ) {
                            Option::None => Option::None,
                            Option::Some(v) => Option::Some(front.push(v)),
                        },
                    }
                }
            },
        }
    }
}


/// A well-formed kind's field list is well-formed.
proof fn lemma_fields_wf(k: TypeDefKind, ntypes: nat, nres: nat)
    requires
        k.wf(ntypes, nres),
    ensures
        forall|i: int|
            0 <= i < fields_of(k).len() ==> (#[trigger] fields_of(k)[i]).wf(ntypes, nres),
{
    match k {
        TypeDefKind::Record(r) => {
            assert forall|i: int|
                0 <= i < fields_of(k).len() implies (#[trigger] fields_of(k)[i]).wf(
                ntypes,
                nres,
            ) by {
                assert(fields_of(k)[i] == r.fields@[i].ty);
            }
        },
        _ => {},
    }
}

/// A well-formed kind's payload list is well-formed.
proof fn lemma_payloads_wf(k: TypeDefKind, ntypes: nat, nres: nat)
    requires
        k.wf(ntypes, nres),
    ensures
        forall|i: int|
            0 <= i < payloads_of(k).len() ==> (#[trigger] payloads_of(k)[i]).wf(ntypes, nres),
{
    match k {
        TypeDefKind::Variant(v) => {
            assert forall|i: int|
                0 <= i < payloads_of(k).len() implies (#[trigger] payloads_of(k)[i]).wf(
                ntypes,
                nres,
            ) by {
                assert(payloads_of(k)[i] == v.cases@[i].payload);
            }
        },
        _ => {},
    }
}

/// Lowered words take exactly the flattened shape the layout resolver
/// assigns: same count, and each word of the slot's kind.
pub proof fn lemma_shape_ty(types: Seq<TypeDef>, t: Type, v: ValueS, fuel: nat)
    requires
        lower_ty(types, t, v, fuel) is Some,
    ensures
        layout_ty(types, t, fuel) is Some,
        lower_ty(types, t, v, fuel).unwrap().len() == layout_ty(types, t, fuel).unwrap().flat.len(),
        forall|i: int|
            0 <= i < lower_ty(types, t, v, fuel).unwrap().len() ==> word_kind(
                #[trigger] lower_ty(types, t, v, fuel).unwrap()[i],
            ) == layout_ty(types, t, fuel).unwrap().flat[i],
    decreases fuel, 0nat, 0nat,
{
    match t {
        Type::Id(i) => {
            lemma_shape_kind(types, types[i as int].kind, v, (fuel - 1) as nat);
        },
        _ => {},
    }
}

pub proof fn lemma_shape_kind(types: Seq<TypeDef>, k: TypeDefKind, v: ValueS, fuel: nat)
    requires
        lower_kind(types, k, v, fuel) is Some,
    ensures
        layout_kind(types, k, fuel) is Some,
        lower_kind(types, k, v, fuel).unwrap().len() == layout_kind(
            types,
            k,
            fuel,
        ).unwrap().flat.len(),
        forall|i: int|
            0 <= i < lower_kind(types, k, v, fuel).unwrap().len() ==> word_kind(
                #[trigger] lower_kind(types, k, v, fuel).unwrap()[i],
            ) == layout_kind(types, k, fuel).unwrap().flat[i],
    decreases fuel, 3nat, 0nat,
{
    let ws = lower_kind(types, k, v, fuel).unwrap();
    match k {
        TypeDefKind::Alias(t) => {
            lemma_shape_ty(types, t, v, fuel);
        },
        TypeDefKind::Flags(f) => {
            let n = f.flags@.len();
            assert(ws.len() == layout_kind(types, k, fuel).unwrap().flat.len());
        },
        TypeDefKind::List(_) => {},
        TypeDefKind::Record(_) => {
            match v {
                ValueS::Record(vs) => {
                    lemma_shape_comps(types, fields_of(k), vs, fuel, fields_of(k).len());
                },
                _ => {},
            }
        },
        TypeDefKind::Tuple(_) => {
            match v {
                ValueS::Record(vs) => {
                    lemma_shape_comps(types, fields_of(k), vs, fuel, fields_of(k).len());
                },
                _ => {},
            }
        },
        _ => {
            let pls = payloads_of(k);
            match v {
                ValueS::Case(c, bv) => {
                    let joined = variant_fold(types, pls, fuel, pls.len()).unwrap().2;
                    let flat = layout_kind(types, k, fuel).unwrap().flat;
                    assert(flat =~= seq![WordKind::I32] + joined);
                    assert forall|i: int| 0 <= i < ws.len() implies word_kind(#[trigger] ws[i])
                        == flat[i] by {
                        if i > 0 {
                            let pws = lower_ty(types, pls[c], *bv, fuel).unwrap();
                            if i - 1 < pws.len() {
                                assert(ws[i] == cast_to(pws[i - 1], joined[i - 1]));
                                assert(word_kind(cast_to(pws[i - 1], joined[i - 1])) == joined[i
                                    - 1]);
                            } else {
                                assert(ws[i] == zero_of(joined[i - 1]));
                            }
                        }
                    }
                },
                _ => {},
            }
        },
    }
}

pub proof fn lemma_shape_comps(
    types: Seq<TypeDef>,
    comps: Seq<Type>,
    vs: Seq<ValueS>,
    fuel: nat,
    n: nat,
)
    requires
        lower_comps(types, comps, vs, fuel, n) is Some,
    ensures
        record_fold(types, comps, fuel, n) is Some,
        lower_comps(types, comps, vs, fuel, n).unwrap().len() == record_fold(
            types,
            comps,
            fuel,
            n,
        ).unwrap().2.len(),
        forall|i: int|
            0 <= i < lower_comps(types, comps, vs, fuel, n).unwrap().len() ==> word_kind(
                #[trigger] lower_comps(types, comps, vs, fuel, n).unwrap()[i],
            ) == record_fold(types, comps, fuel, n).unwrap().2[i],
    decreases fuel, 1nat, n,
{
    if n > 0 {
        lemma_shape_comps(types, comps, vs, fuel, (n - 1) as nat);
        lemma_shape_ty(types, comps[n - 1], vs[n - 1], fuel);
    }
}

proof fn lemma_rep32(y: int)
    requires
        -0x8000_0000 <= y < 0x8000_0000,
    ensures
        i32_rep(u32_rep(y)) == y,
{
    if y >= 0 {
        assert(y % 0x1_0000_0000 == y) by (nonlinear_arith)
            requires
                0 <= y < 0x1_0000_0000,
        ;
    } else {
        assert(y % 0x1_0000_0000 == y + 0x1_0000_0000) by (nonlinear_arith)
            requires
                -0x1_0000_0000 <= y < 0,
        ;
    }
}

proof fn lemma_rep64(y: int)
    requires
        -0x8000_0000_0000_0000 <= y < 0x8000_0000_0000_0000,
    ensures
        i64_rep(u64_rep(y)) == y,
{
    if y >= 0 {
        assert(y % 0x1_0000_0000_0000_0000 == y) by (nonlinear_arith)
            requires
                0 <= y < 0x1_0000_0000_0000_0000,
        ;
    } else {
        assert(y % 0x1_0000_0000_0000_0000 == y + 0x1_0000_0000_0000_0000) by (nonlinear_arith)
            requires
                -0x1_0000_0000_0000_0000 <= y < 0,
        ;
    }
}

/// Round-trip marshaling: lowering a value of any supported type to its
/// flat words and lifting the result yields the value back, for every
/// direction and role, since both sides use these same two functions.
pub proof fn lemma_round_trip_ty(types: Seq<TypeDef>, nres: nat, t: Type, v: ValueS, fuel: nat)
    requires
        wf_types(types, nres),
        t.wf(types.len(), nres),
        lower_ty(types, t, v, fuel) is Some,
    ensures
        lift_ty(types, t, lower_ty(types, t, v, fuel).unwrap(), fuel) == Option::Some(v),
    decreases fuel, 0nat, 0nat,
{
    match t {
        Type::Id(i) => {
            lemma_round_trip_kind(types, nres, types[i as int].kind, v, (fuel - 1) as nat);
        },
        Type::S8 => {
            match v {
                ValueS::S8(x) => {
                    lemma_rep32(x as int);
                },
                _ => {},
            }
        },
        Type::S16 => {
            match v {
                ValueS::S16(x) => {
                    lemma_rep32(x as int);
                },
                _ => {},
            }
        },
        Type::S32 => {
            match v {
                ValueS::S32(x) => {
                    lemma_rep32(x as int);
                },
                _ => {},
            }
        },
        Type::S64 => {
            match v {
                ValueS::S64(x) => {
                    lemma_rep64(x as int);
                },
                _ => {},
            }
        },
        _ => {},
    }
}

pub proof fn lemma_round_trip_kind(
    types: Seq<TypeDef>,
    nres: nat,
    k: TypeDefKind,
    v: ValueS,
    fuel: nat,
)
    requires
        wf_types(types, nres),
        k.wf(types.len(), nres),
        lower_kind(types, k, v, fuel) is Some,
    ensures
        lift_kind(types, k, lower_kind(types, k, v, fuel).unwrap(), fuel) == Option::Some(v),
    decreases fuel, 3nat, 0nat,
{
    let ws = lower_kind(types, k, v, fuel).unwrap();
    match k {
        TypeDefKind::Alias(t) => {
            lemma_round_trip_ty(types, nres, t, v, fuel);
        },
        TypeDefKind::Flags(f) => {
            let n = f.flags@.len();
            match v {
                ValueS::FlagsV(bits) => {
                    if n <= 32 {
                        lemma2_to64();
                        if n < 32 {
                            vstd::arithmetic::power2::lemma_pow2_strictly_increases(n, 32);
                        }
                        assert(bits < 0x1_0000_0000);
                        assert(bits % 0x1_0000_0000 == bits) by (nonlinear_arith)
                            requires
                                bits < 0x1_0000_0000,
                        ;
                    } else {
                        let lo = (bits % 0x1_0000_0000) as u32;
                        let hi = (bits / 0x1_0000_0000) as u32;
                        lemma_fundamental_div_mod(bits as int, 0x1_0000_0000);
                        assert(lo + hi * 0x1_0000_0000 == bits);
                    }
                },
                _ => {},
            }
        },
        TypeDefKind::List(_) => {},
        TypeDefKind::Record(_) => {
            match v {
                ValueS::Record(vs) => {
                    lemma_fields_wf(k, types.len(), nres);
                    lemma_round_trip_comps(
                        types,
                        nres,
                        fields_of(k),
                        vs,
                        fuel,
                        fields_of(k).len(),
                    );
                    assert(vs.take(fields_of(k).len() as int) =~= vs);
                },
                _ => {},
            }
        },
        TypeDefKind::Tuple(_) => {
            match v {
                ValueS::Record(vs) => {
                    lemma_fields_wf(k, types.len(), nres);
                    lemma_round_trip_comps(
                        types,
                        nres,
                        fields_of(k),
                        vs,
                        fuel,
                        fields_of(k).len(),
                    );
                    assert(vs.take(fields_of(k).len() as int) =~= vs);
                },
                _ => {},
            }
        },
        _ => {
            let pls = payloads_of(k);
            lemma_payloads_wf(k, types.len(), nres);
            match v {
                ValueS::Case(c, bv) => {
                    let joined = variant_fold(types, pls, fuel, pls.len()).unwrap().2;
                    let pws = lower_ty(types, pls[c], *bv, fuel).unwrap();
                    lemma_shape_ty(types, pls[c], *bv, fuel);
                    let cl = layout_ty(types, pls[c], fuel).unwrap();
                    lemma_fold_covers(types, pls, fuel, pls.len(), c);
                    assert(pls.len() <= 0x2_0000);
                    assert(ws[0] == Word::I32(c as u32));
                    assert((c as u32) < pls.len());
                    let pw = Seq::new(cl.flat.len(), |i: int| cast_to(ws[1 + i], cl.flat[i]));
                    assert forall|i: int| 0 <= i < cl.flat.len() implies pw[i] == pws[i] by {
                        assert(ws[1 + i] == cast_to(pws[i], joined[i]));
                        assert(word_kind(pws[i]) == cl.flat[i]);
                        assert(sub_kind(cl.flat[i], joined[i]));
                        lemma_cast_roundtrip(pws[i], joined[i]);
                    }
                    assert(pw =~= pws);
                    lemma_round_trip_ty(types, nres, pls[c], *bv, fuel);
                },
                _ => {},
            }
        },
    }
}

pub proof fn lemma_round_trip_comps(
    types: Seq<TypeDef>,
    nres: nat,
    comps: Seq<Type>,
    vs: Seq<ValueS>,
    fuel: nat,
    n: nat,
)
    requires
        wf_types(types, nres),
        forall|i: int| 0 <= i < comps.len() ==> (#[trigger] comps[i]).wf(types.len(), nres),
        lower_comps(types, comps, vs, fuel, n) is Some,
    ensures
        lift_comps(types, comps, lower_comps(types, comps, vs, fuel, n).unwrap(), fuel, n)
            == Option::Some(vs.take(n as int)),
    decreases fuel, 1nat, n,
{
    let ws = lower_comps(types, comps, vs, fuel, n).unwrap();
    if n == 0 {
        assert(vs.take(0) =~= Seq::<ValueS>::empty());
    } else {
        let front = lower_comps(types, comps, vs, fuel, (n - 1) as nat).unwrap();
        let wsn = lower_ty(types, comps[n - 1], vs[n - 1], fuel).unwrap();
        lemma_shape_ty(types, comps[n - 1], vs[n - 1], fuel);
        let l = layout_ty(types, comps[n - 1], fuel).unwrap();
        let k = l.flat.len();
        assert(ws =~= front + wsn);
        assert(wsn.len() == k);
        assert(ws.take(ws.len() - k) =~= front);
        assert(ws.skip(ws.len() - k) =~= wsn);
        lemma_round_trip_comps(types, nres, comps, vs, fuel, (n - 1) as nat);
        lemma_round_trip_ty(types, nres, comps[n - 1], vs[n - 1], fuel);
        assert(vs.take((n - 1) as int).push(vs[n - 1]) =~= vs.take(n as int));
    }
}


/// The combined flat word count of a parameter list: one budget across all
/// parameters, not a per-parameter one.
pub open spec fn flat_total(types: Seq<TypeDef>, params: Seq<Type>, fuel: nat) -> Option<nat> {
    match record_fold(types, params, fuel, params.len()) {
        Option::None => Option::None,
        Option::Some(acc) => Option::Some(acc.2.len()),
    }
}

/// Lower a whole argument list for a call. Within the flattening budget the
/// words cross the boundary directly; above it every argument is spilled
/// into one contiguous argument area and a single pointer word crosses
/// instead. The area is abstracted as the word sequence written into it.
pub open spec fn lower_args(
    types: Seq<TypeDef>,
    params: Seq<Type>,
    vs: Seq<ValueS>,
    fuel: nat,
) -> Option<(Seq<Word>, Option<Seq<Word>>)> {
    match lower_comps(types, params, vs, fuel, params.len()) {
        Option::None => Option::None,
        Option::Some(ws) => if ws.len() <= crate::layout::MAX_FLAT_WORDS {
            Option::Some((ws, Option::None))
        } else {
            Option::Some((seq![Word::I32(0)], Option::Some(ws)))
        },
    }
}

/// Lift a whole argument list on the other side of the boundary, taking the
/// direct words or the spilled argument area as the budget dictates.
pub open spec fn lift_args(
    types: Seq<TypeDef>,
    params: Seq<Type>,
    words: Seq<Word>,
    area: Option<Seq<Word>>,
    fuel: nat,
) -> Option<Seq<ValueS>> {
    match flat_total(types, params, fuel) {
        Option::None => Option::None,
        Option::Some(total) => if total <= crate::layout::MAX_FLAT_WORDS {
            match area {
                Option::None => lift_comps(types, params, words, fuel, params.len()),
                Option::Some(_) => Option::None,
            }
        } else {
            match area {
                Option::Some(aw) => if words =~= seq![Word::I32(0)] {
                    lift_comps(types, params, aw, fuel, params.len())
                } else {
                    Option::None
                },
                Option::None => Option::None,
            }
        },
    }
}

/// Flattening threshold boundary: an argument list at the budget crosses as
/// direct flat words, one word above it crosses as a spilled area behind a
/// single pointer, and both code paths round-trip the argument values.
pub proof fn lemma_flattening_threshold(
    types: Seq<TypeDef>,
    nres: nat,
    params: Seq<Type>,
    vs: Seq<ValueS>,
    fuel: nat,
)
    requires
        wf_types(types, nres),
        forall|i: int| 0 <= i < params.len() ==> (#[trigger] params[i]).wf(types.len(), nres),
        lower_args(types, params, vs, fuel) is Some,
    ensures
        ({
            let (words, area) = lower_args(types, params, vs, fuel).unwrap();
            let total = flat_total(types, params, fuel).unwrap();
            &&& flat_total(types, params, fuel) is Some
            &&& (area is None <==> total <= crate::layout::MAX_FLAT_WORDS)
            &&& (area is None ==> words.len() == total)
            &&& (area is Some ==> words =~= seq![Word::I32(0)])
            &&& lift_args(types, params, words, area, fuel) == Option::Some(vs)
        }),
{
    let ws = lower_comps(types, params, vs, fuel, params.len()).unwrap();
    lemma_shape_comps(types, params, vs, fuel, params.len());
    lemma_round_trip_comps(types, nres, params, vs, fuel, params.len());
    assert(vs.take(params.len() as int) =~= vs);
}

/// Variant slot merge: a 32-bit float case and a 32-bit integer case meeting
/// at the same flattened position merge into an integer slot reached through
/// a bitcast, and either case's word passes through the merged slot
/// unchanged in value.
pub proof fn lemma_variant_slot_merge(a: WordKind, b: WordKind, w: Word)
    requires
        a == WordKind::F32 && b == WordKind::I32,
        word_kind(w) == a || word_kind(w) == b,
    ensures
        join_kind(a, b) == WordKind::I32,
        join_kind(b, a) == WordKind::I32,
        cast_to(cast_to(w, join_kind(a, b)), word_kind(w)) == w,
{
    lemma_cast_roundtrip(w, WordKind::I32);
}

/// Which bit of a flags word is set.
pub open spec fn nth_bit(bits: u64, i: u64) -> bool {
    bits & (1u64 << i) != 0
}

/// Set one named flag bit; every other bit keeps its reading.
pub fn flag_set(bits: u64, i: u64) -> (r: u64)
    requires
        i < 64,
    ensures
        nth_bit(r, i),
        forall|j: u64| j < 64 && j != i ==> #[trigger] nth_bit(r, j) == nth_bit(bits, j),
{
    let r = bits | (1u64 << i);
    proof {
        assert(bits | (1u64 << i) != 0 ==> true);
        assert forall|j: u64| j < 64 && j != i implies #[trigger] nth_bit(bits | (1u64 << i), j)
            == nth_bit(bits, j) by {
            assert((bits | (1u64 << i)) & (1u64 << j) == bits & (1u64 << j)) by (bit_vector)
                requires
                    i < 64,
                    j < 64,
                    i != j,
            ;
        }
        assert(nth_bit(bits | (1u64 << i), i)) by (bit_vector)
            requires
                i < 64,
        ;
    }
    r
}

/// Read one named flag bit.
pub fn flag_get(bits: u64, i: u64) -> (r: bool)
    requires
        i < 64,
    ensures
        r == nth_bit(bits, i),
{
    bits & (1u64 << i) != 0
}


/// A structured value, executably; `dv` is its mathematical reading.
#[derive(Debug, PartialEq)]
pub enum Value {
    Unit,
    Bool(bool),
    Char(u32),
    U8(u8),
    S8(i8),
    U16(u16),
    S16(i16),
    U32(u32),
    S32(i32),
    U64(u64),
    S64(i64),
    F32Bits(u32),
    F64Bits(u64),
    HandleV(u32),
    Record(Vec<Value>),
    Case(u32, Box<Value>),
    FlagsV(u64),
}

impl Value {
    pub open spec fn dv(self) -> ValueS
        decreases self, 0nat, 0nat,
    {
        match self {
            Value::Unit => ValueS::Unit,
            Value::Bool(b) => ValueS::Bool(b),
            Value::Char(c) => ValueS::Char(c),
            Value::U8(x) => ValueS::U8(x),
            Value::S8(x) => ValueS::S8(x),
            Value::U16(x) => ValueS::U16(x),
            Value::S16(x) => ValueS::S16(x),
            Value::U32(x) => ValueS::U32(x),
            Value::S32(x) => ValueS::S32(x),
            Value::U64(x) => ValueS::U64(x),
            Value::S64(x) => ValueS::S64(x),
            Value::F32Bits(x) => ValueS::F32Bits(x),
            Value::F64Bits(x) => ValueS::F64Bits(x),
            Value::HandleV(x) => ValueS::HandleV(x),
            Value::Record(vs) => ValueS::Record(dv_vec(vs, vs@.len())),
            Value::Case(c, b) => ValueS::Case(c as int, Box::new((*b).dv())),
            Value::FlagsV(x) => ValueS::FlagsV(x),
        }
    }
}

/// The mathematical reading of the first `n` values of a vector.
pub open spec fn dv_vec(vs: Vec<Value>, n: nat) -> Seq<ValueS>
    decreases vs, 1nat, n,
{
    if n == 0 || n > vs@.len() {
        Seq::empty()
    } else {
        {
            proof {
                assert(decreases_to!(vs => vs[n - 1]));
            }
            dv_vec(vs, (n - 1) as nat).push(vs[(n - 1) as int].dv())
        }
    }
}


proof fn lemma_u32_rep(y: int)
    requires
        -0x8000_0000 <= y < 0x8000_0000,
    ensures
        y >= 0 ==> u32_rep(y) == y,
        y < 0 ==> u32_rep(y) == y + 0x1_0000_0000,
{
    if y >= 0 {
        assert(y % 0x1_0000_0000 == y) by (nonlinear_arith)
            requires
                0 <= y < 0x1_0000_0000,
        ;
    } else {
        assert(y % 0x1_0000_0000 == y + 0x1_0000_0000) by (nonlinear_arith)
            requires
                -0x1_0000_0000 <= y < 0,
        ;
    }
}

proof fn lemma_u64_rep(y: int)
    requires
        -0x8000_0000_0000_0000 <= y < 0x8000_0000_0000_0000,
    ensures
        y >= 0 ==> u64_rep(y) == y,
        y < 0 ==> u64_rep(y) == y + 0x1_0000_0000_0000_0000,
{
    if y >= 0 {
        assert(y % 0x1_0000_0000_0000_0000 == y) by (nonlinear_arith)
            requires
                0 <= y < 0x1_0000_0000_0000_0000,
        ;
    } else {
        assert(y % 0x1_0000_0000_0000_0000 == y + 0x1_0000_0000_0000_0000) by (nonlinear_arith)
            requires
                -0x1_0000_0000_0000_0000 <= y < 0,
        ;
    }
}

/// Every component's flat shape fits inside the folded record shape.
proof fn lemma_fold_len_ge(types: Seq<TypeDef>, comps: Seq<Type>, fuel: nat, n: nat, i: int)
    requires
        0 <= i < n,
        record_fold(types, comps, fuel, n) is Some,
    ensures
        layout_ty(types, comps[i], fuel) is Some,
        layout_ty(types, comps[i], fuel).unwrap().flat.len() <= record_fold(
            types,
            comps,
            fuel,
            n,
        ).unwrap().2.len(),
    decreases n,
{
    if i < n - 1 {
        lemma_fold_len_ge(types, comps, fuel, (n - 1) as nat, i);
    }
}

proof fn lemma_lower_comps_none(
    types: Seq<TypeDef>,
    comps: Seq<Type>,
    vs: Seq<ValueS>,
    fuel: nat,
    m: nat,
    n: nat,
)
    requires
        m <= n,
        lower_comps(types, comps, vs, fuel, m) is None,
    ensures
        lower_comps(types, comps, vs, fuel, n) is None,
    decreases n,
{
    if n > m {
        lemma_lower_comps_none(types, comps, vs, fuel, m, (n - 1) as nat);
    }
}

/// Reading the prefix view element by element.
proof fn lemma_dv_vec_index(vs: Vec<Value>, n: nat, i: int)
    requires
        n <= vs@.len(),
        0 <= i < n,
    ensures
        dv_vec(vs, n).len() == n,
        dv_vec(vs, n)[i] == vs@[i].dv(),
    decreases n,
{
    if i < n - 1 {
        lemma_dv_vec_index(vs, (n - 1) as nat, i);
    } else {
        lemma_dv_vec_len(vs, (n - 1) as nat);
    }
}

proof fn lemma_dv_vec_len(vs: Vec<Value>, n: nat)
    requires
        n <= vs@.len(),
    ensures
        dv_vec(vs, n).len() == n,
    decreases n,
{
    if n > 0 {
        lemma_dv_vec_len(vs, (n - 1) as nat);
    }
}

/// Append the words of `b` to `a`.
fn append_words(a: &mut Vec<Word>, b: &Vec<Word>)
    ensures
        final(a)@ == old(a)@ + b@,
{
    let n = b.len();
    for i in 0..n
        invariant
            n == b@.len(),
            a@ == old(a)@ + b@.take(i as int),
    {
        a.push(b[i]);
        assert(a@ =~= old(a)@ + b@.take(i + 1));
    }
    assert(a@ =~= old(a)@ + b@);
}

/// Executable mirror of `cast_to`.
fn cast_x(w: Word, k: WordKind) -> (r: Word)
    ensures
        r == cast_to(w, k),
{
    match w {
        Word::I32(x) => match k {
            WordKind::I32 => Word::I32(x),
            WordKind::I64 => Word::I64(x as u64),
            WordKind::F32 => Word::F32(x),
            WordKind::F64 => Word::F64(x as u64),
        },
        Word::I64(x) => match k {
            WordKind::I32 => Word::I32((x % 0x1_0000_0000) as u32),
            WordKind::I64 => Word::I64(x),
            WordKind::F32 => Word::F32((x % 0x1_0000_0000) as u32),
            WordKind::F64 => Word::F64(x),
        },
        Word::F32(x) => match k {
            WordKind::I32 => Word::I32(x),
            WordKind::I64 => Word::I64(x as u64),
            WordKind::F32 => Word::F32(x),
            WordKind::F64 => Word::F64(x as u64),
        },
        Word::F64(x) => match k {
            WordKind::I32 => Word::I32((x % 0x1_0000_0000) as u32),
            WordKind::I64 => Word::I64(x),
            WordKind::F32 => Word::F32((x % 0x1_0000_0000) as u32),
            WordKind::F64 => Word::F64(x),
        },
    }
}

/// Executable mirror of `zero_of`.
fn zero_x(k: WordKind) -> (r: Word)
    ensures
        r == zero_of(k),
{
    match k {
        WordKind::I32 => Word::I32(0),
        WordKind::I64 => Word::I64(0),
        WordKind::F32 => Word::F32(0),
        WordKind::F64 => Word::F64(0),
    }
}

/// Lower one value to its flat words, mirroring `lower_ty`. The engine
/// flattens only within the budget, so the type's own flat shape must be
/// within it wherever it resolves at all.
#[verifier::loop_isolation(false)]
#[verifier::rlimit(100)]
pub fn lower_value(iface: &Interface, t: &Type, v: &Value, fuel: usize) -> (r: Result<
    Vec<Word>,
    Error,
>)
    requires
        iface.wf(),
        t.wf(iface.types@.len(), iface.resources@.len()),
        layout_ty(iface.types@, *t, fuel as nat) matches Option::Some(l) ==> l.flat.len()
            <= crate::layout::MAX_FLAT_WORDS,
    ensures
        r matches Ok(ws) ==> lower_ty(iface.types@, *t, v.dv(), fuel as nat) == Option::Some(ws@),
        r is Err ==> lower_ty(iface.types@, *t, v.dv(), fuel as nat) is None,
    decreases fuel, 0int, 0int,
{
    let ghost types = iface.types@;
    match t {
        Type::Id(i) => {
            if fuel == 0 {
                Err(Error::CyclicTypes)
            } else {
                let td = &iface.types[*i];
                lower_kind_x(iface, &td.kind, v, fuel - 1)
            }
        },
        Type::Unit => match v {
            Value::Unit => {
                let ws: Vec<Word> = Vec::new();
                assert(ws@ =~= Seq::<Word>::empty());
                Ok(ws)
            },
            _ => Err(Error::Unsupported),
        },
        Type::Bool => match v {
            Value::Bool(b) => {
                let mut ws: Vec<Word> = Vec::new();
                ws.push(Word::I32(if *b { 1 } else { 0 }));
                assert(ws@ =~= lower_ty(types, *t, v.dv(), fuel as nat).unwrap());
                Ok(ws)
            },
            _ => Err(Error::Unsupported),
        },
        Type::Char => match v {
            Value::Char(c) => {
                if *c < 0xd800 || (0xe000 <= *c && *c <= 0x10ffff) {
                    let mut ws: Vec<Word> = Vec::new();
                    ws.push(Word::I32(*c));
                    assert(ws@ =~= lower_ty(types, *t, v.dv(), fuel as nat).unwrap());
                    Ok(ws)
                } else {
                    Err(Error::Unsupported)
                }
            },
            _ => Err(Error::Unsupported),
        },
        Type::U8 => match v {
            Value::U8(x) => {
                let mut ws: Vec<Word> = Vec::new();
                ws.push(Word::I32(*x as u32));
                assert(ws@ =~= lower_ty(types, *t, v.dv(), fuel as nat).unwrap());
                Ok(ws)
            },
            _ => Err(Error::Unsupported),
        },
        Type::S8 => match v {
            Value::S8(x) => {
                let w: u32 = if *x >= 0 {
                    *x as u32
                } else {
                    (*x as i64 + 0x1_0000_0000) as u32
                };
                proof {
                    lemma_u32_rep(*x as int);
                }
                let mut ws: Vec<Word> = Vec::new();
                ws.push(Word::I32(w));
                assert(ws@ =~= lower_ty(types, *t, v.dv(), fuel as nat).unwrap());
                Ok(ws)
            },
            _ => Err(Error::Unsupported),
        },
        Type::U16 => match v {
            Value::U16(x) => {
                let mut ws: Vec<Word> = Vec::new();
                ws.push(Word::I32(*x as u32));
                assert(ws@ =~= lower_ty(types, *t, v.dv(), fuel as nat).unwrap());
                Ok(ws)
            },
            _ => Err(Error::Unsupported),
        },
        Type::S16 => match v {
            Value::S16(x) => {
                let w: u32 = if *x >= 0 {
                    *x as u32
                } else {
                    (*x as i64 + 0x1_0000_0000) as u32
                };
                proof {
                    lemma_u32_rep(*x as int);
                }
                let mut ws: Vec<Word> = Vec::new();
                ws.push(Word::I32(w));
                assert(ws@ =~= lower_ty(types, *t, v.dv(), fuel as nat).unwrap());
                Ok(ws)
            },
            _ => Err(Error::Unsupported),
        },
        Type::U32 => match v {
            Value::U32(x) => {
                let mut ws: Vec<Word> = Vec::new();
                ws.push(Word::I32(*x));
                assert(ws@ =~= lower_ty(types, *t, v.dv(), fuel as nat).unwrap());
                Ok(ws)
            },
            _ => Err(Error::Unsupported),
        },
        Type::S32 => match v {
            Value::S32(x) => {
                let w: u32 = if *x >= 0 {
                    *x as u32
                } else {
                    (*x as i64 + 0x1_0000_0000) as u32
                };
                proof {
                    lemma_u32_rep(*x as int);
                }
                let mut ws: Vec<Word> = Vec::new();
                ws.push(Word::I32(w));
                assert(ws@ =~= lower_ty(types, *t, v.dv(), fuel as nat).unwrap());
                Ok(ws)
            },
            _ => Err(Error::Unsupported),
        },
        Type::U64 => match v {
            Value::U64(x) => {
                let mut ws: Vec<Word> = Vec::new();
                ws.push(Word::I64(*x));
                assert(ws@ =~= lower_ty(types, *t, v.dv(), fuel as nat).unwrap());
                Ok(ws)
            },
            _ => Err(Error::Unsupported),
        },
        Type::S64 => match v {
            Value::S64(x) => {
                let w: u64 = if *x >= 0 {
                    *x as u64
                } else {
                    (((*x as i128) + 0x1_0000_0000_0000_0000i128) as u64)
                };
                proof {
                    lemma_u64_rep(*x as int);
                }
                let mut ws: Vec<Word> = Vec::new();
                ws.push(Word::I64(w));
                assert(ws@ =~= lower_ty(types, *t, v.dv(), fuel as nat).unwrap());
                Ok(ws)
            },
            _ => Err(Error::Unsupported),
        },
        Type::Float32 => match v {
            Value::F32Bits(x) => {
                let mut ws: Vec<Word> = Vec::new();
                ws.push(Word::F32(*x));
                assert(ws@ =~= lower_ty(types, *t, v.dv(), fuel as nat).unwrap());
                Ok(ws)
            },
            _ => Err(Error::Unsupported),
        },
        Type::Float64 => match v {
            Value::F64Bits(x) => {
                let mut ws: Vec<Word> = Vec::new();
                ws.push(Word::F64(*x));
                assert(ws@ =~= lower_ty(types, *t, v.dv(), fuel as nat).unwrap());
                Ok(ws)
            },
            _ => Err(Error::Unsupported),
        },
        Type::Handle(_) => match v {
            Value::HandleV(x) => {
                let mut ws: Vec<Word> = Vec::new();
                ws.push(Word::I32(*x));
                assert(ws@ =~= lower_ty(types, *t, v.dv(), fuel as nat).unwrap());
                Ok(ws)
            },
            _ => Err(Error::Unsupported),
        },
        Type::Str => Err(Error::Unsupported),
    }
}

/// Lower one value of a defined kind, mirroring `lower_kind`.
#[verifier::loop_isolation(false)]
#[verifier::rlimit(100)]
pub fn lower_kind_x(iface: &Interface, k: &TypeDefKind, v: &Value, fuel: usize) -> (r: Result<
    Vec<Word>,
    Error,
>)
    requires
        iface.wf(),
        k.wf(iface.types@.len(), iface.resources@.len()),
        layout_kind(iface.types@, *k, fuel as nat) matches Option::Some(l) ==> l.flat.len()
            <= crate::layout::MAX_FLAT_WORDS,
    ensures
        r matches Ok(ws) ==> lower_kind(iface.types@, *k, v.dv(), fuel as nat) == Option::Some(
            ws@,
        ),
        r is Err ==> lower_kind(iface.types@, *k, v.dv(), fuel as nat) is None,
    decreases fuel, 3int, 0int,
{
    let ghost types = iface.types@;
    match k {
        TypeDefKind::Alias(t) => lower_value(iface, t, v, fuel),
        TypeDefKind::Flags(f) => match v {
            Value::FlagsV(bits) => {
                let n = f.flags.len();
                let fits = if n >= 64 {
                    true
                } else {
                    let cap = pow2_u64(n as u64);
                    *bits < cap
                };
                if !fits {
                    return Err(Error::Unsupported);
                }
                let mut ws: Vec<Word> = Vec::new();
                if n <= 32 {
                    ws.push(Word::I32((*bits % 0x1_0000_0000) as u32));
                } else {
                    ws.push(Word::I32((*bits % 0x1_0000_0000) as u32));
                    ws.push(Word::I32((*bits / 0x1_0000_0000) as u32));
                }
                assert(ws@ =~= flags_words(*bits, f.flags@.len()));
                Ok(ws)
            },
            _ => Err(Error::Unsupported),
        },
        TypeDefKind::List(_) => Err(Error::Unsupported),
        TypeDefKind::Record(_) | TypeDefKind::Tuple(_) => lower_record_x(iface, k, v, fuel),
        _ => lower_variant_x(iface, k, v, fuel),
    }
}

/// Lower a record-like value, concatenating its component words.
#[verifier::loop_isolation(false)]
#[verifier::rlimit(100)]
fn lower_record_x(iface: &Interface, k: &TypeDefKind, v: &Value, fuel: usize) -> (r: Result<
    Vec<Word>,
    Error,
>)
    requires
        iface.wf(),
        k.wf(iface.types@.len(), iface.resources@.len()),
        k is Record || k is Tuple,
        layout_kind(iface.types@, *k, fuel as nat) matches Option::Some(l) ==> l.flat.len()
            <= crate::layout::MAX_FLAT_WORDS,
    ensures
        r matches Ok(ws) ==> lower_kind(iface.types@, *k, v.dv(), fuel as nat) == Option::Some(
            ws@,
        ),
        r is Err ==> lower_kind(iface.types@, *k, v.dv(), fuel as nat) is None,
    decreases fuel, 2int, 0int,
{
    let ghost types = iface.types@;
    {
        {
            let comps = crate::layout::fields_vec(k);
            proof {
                crate::topo::lemma_components_wf(*k, types.len(), iface.resources@.len() as nat);
                assert(crate::topo::kind_components(*k) =~= fields_of(*k));
            }
            match crate::layout::layout_kind_x(iface, k, fuel) {
                Err(e) => {
                    return Err(e);
                },
                Ok(_) => {},
            }
            match v {
                Value::Record(vs) => {
                    if vs.len() != comps.len() {
                        proof {
                            lemma_dv_vec_len(*vs, vs@.len());
                        }
                        return Err(Error::Unsupported);
                    }
                    let ghost vss = dv_vec(*vs, vs@.len());
                    proof {
                        lemma_dv_vec_len(*vs, vs@.len());
                    }
                    let nc = comps.len();
                    let mut out: Vec<Word> = Vec::new();
                    for i in 0..nc
                        invariant
                            comps@ == fields_of(*k),
                            nc == comps@.len(),
                            vss == dv_vec(*vs, vs@.len()),
                            vs@.len() == nc,
                            vss.len() == nc,
                            lower_comps(types, comps@, vss, fuel as nat, i as nat)
                                == Option::Some(out@),
                    {
                        proof {
                            lemma_dv_vec_index(*vs, vs@.len(), i as int);
                            lemma_fold_len_ge(
                                types,
                                comps@,
                                fuel as nat,
                                comps@.len(),
                                i as int,
                            );
                        }
                        match lower_value(iface, &comps[i], &vs[i], fuel) {
                            Err(e) => {
                                proof {
                                    lemma_lower_comps_none(
                                        types,
                                        comps@,
                                        vss,
                                        fuel as nat,
                                        (i + 1) as nat,
                                        comps@.len(),
                                    );
                                }
                                return Err(e);
                            },
                            Ok(ws) => {
                                append_words(&mut out, &ws);
                            },
                        }
                    }
                    Ok(out)
                },
                _ => Err(Error::Unsupported),
            }
        }
    }
}

/// Lower a variant-like value: the discriminant word, then the payload cast
/// into the merged slots, then zero padding.
#[verifier::loop_isolation(false)]
#[verifier::rlimit(100)]
fn lower_variant_x(iface: &Interface, k: &TypeDefKind, v: &Value, fuel: usize) -> (r: Result<
    Vec<Word>,
    Error,
>)
    requires
        iface.wf(),
        k.wf(iface.types@.len(), iface.resources@.len()),
        !(k is Record) && !(k is Tuple) && !(k is Alias) && !(k is Flags) && !(k is List),
        layout_kind(iface.types@, *k, fuel as nat) matches Option::Some(l) ==> l.flat.len()
            <= crate::layout::MAX_FLAT_WORDS,
    ensures
        r matches Ok(ws) ==> lower_kind(iface.types@, *k, v.dv(), fuel as nat) == Option::Some(
            ws@,
        ),
        r is Err ==> lower_kind(iface.types@, *k, v.dv(), fuel as nat) is None,
    decreases fuel, 2int, 0int,
{
    let ghost types = iface.types@;
    {
        {
            let pls = crate::layout::payloads_vec(k);
            proof {
                lemma_payloads_wf(*k, types.len(), iface.resources@.len() as nat);
            }
            let l = match crate::layout::layout_kind_x(iface, k, fuel) {
                Err(e) => {
                    return Err(e);
                },
                Ok(l) => l,
            };
            match v {
                Value::Case(c, bv) => {
                    if (*c as usize) >= pls.len() {
                        return Err(Error::Unsupported);
                    }
                    let ghost joined = variant_fold(types, pls@, fuel as nat, pls@.len()).unwrap().2;
                    let fv = l.flat.unwrap();
                    let ci = *c as usize;
                    proof {
                        if layout_ty(types, pls@[ci as int], fuel as nat) is Some {
                            lemma_fold_covers(
                                types,
                                pls@,
                                fuel as nat,
                                pls@.len(),
                                ci as int,
                            );
                        }
                    }
                    let pws = match lower_value(iface, &pls[ci], bv, fuel) {
                        Err(e) => {
                            return Err(e);
                        },
                        Ok(pws) => pws,
                    };
                    proof {
                        lemma_shape_ty(types, pls@[ci as int], (*bv).dv(), fuel as nat);
                    }
                    let mut out: Vec<Word> = Vec::new();
                    out.push(Word::I32(*c));
                    let nj = fv.len() - 1;
                    for i in 0..nj
                        invariant
                            fv@ == seq![WordKind::I32] + joined,
                            nj == joined.len(),
                            pws@.len() <= nj,
                            out@.len() == i + 1,
                            out@[0] == Word::I32(*c),
                            forall|j: int|
                                0 <= j < i ==> out@[j + 1] == (if j < pws@.len() {
                                    cast_to(pws@[j], joined[j])
                                } else {
                                    zero_of(joined[j])
                                }),
                    {
                        if i < pws.len() {
                            out.push(cast_x(pws[i], fv[i + 1]));
                        } else {
                            out.push(zero_x(fv[i + 1]));
                        }
                    }
                    assert(out@ =~= lower_kind(types, *k, v.dv(), fuel as nat).unwrap());
                    Ok(out)
                },
                _ => Err(Error::Unsupported),
            }
        }
    }
}

/// Two to the `n`, executably.
fn pow2_u64(n: u64) -> (r: u64)
    requires
        n < 64,
    ensures
        r as nat == pow2(n as nat),
{
    let mut r: u64 = 1;
    let mut i: u64 = 0;
    proof {
        lemma2_to64();
        vstd::arithmetic::power2::lemma_pow2_unfold(1);
        assert(pow2(0) == 1);
    }
    while i < n
        invariant
            i <= n,
            n < 64,
            r as nat == pow2(i as nat),
        decreases n - i,
    {
        proof {
            lemma2_to64();
            vstd::arithmetic::power2::lemma2_to64_rest();
            vstd::arithmetic::power2::lemma_pow2_strictly_increases(i as nat, 63);
            assert(pow2(63) == 0x8000_0000_0000_0000);
            assert(r < 0x8000_0000_0000_0000);
            assert(pow2((i + 1) as nat) == 2 * pow2(i as nat)) by {
                vstd::arithmetic::power2::lemma_pow2_unfold((i + 1) as nat);
            }
        }
        r = r * 2;
        i = i + 1;
    }
    r
}


/// `dv_vec` only reads the first `n` entries.
proof fn lemma_dv_vec_prefix(a: Vec<Value>, b: Vec<Value>, n: nat)
    requires
        n <= a@.len(),
        n <= b@.len(),
        forall|i: int| 0 <= i < n ==> a@[i] == b@[i],
    ensures
        dv_vec(a, n) == dv_vec(b, n),
    decreases n,
{
    if n > 0 {
        lemma_dv_vec_prefix(a, b, (n - 1) as nat);
    }
}

/// Lift one value from its flat words, mirroring `lift_ty`.
#[verifier::loop_isolation(false)]
#[verifier::rlimit(100)]
pub fn lift_value(iface: &Interface, t: &Type, ws: &Vec<Word>, fuel: usize) -> (r: Result<
    Value,
    Error,
>)
    requires
        iface.wf(),
        t.wf(iface.types@.len(), iface.resources@.len()),
        layout_ty(iface.types@, *t, fuel as nat) matches Option::Some(l) ==> l.flat.len()
            <= crate::layout::MAX_FLAT_WORDS,
    ensures
        r matches Ok(v) ==> lift_ty(iface.types@, *t, ws@, fuel as nat) == Option::Some(v.dv()),
        r is Err ==> lift_ty(iface.types@, *t, ws@, fuel as nat) is None,
    decreases fuel, 0int, 0int,
{
    let ghost types = iface.types@;
    match t {
        Type::Id(i) => {
            if fuel == 0 {
                Err(Error::CyclicTypes)
            } else {
                let td = &iface.types[*i];
                lift_kind_x(iface, &td.kind, ws, fuel - 1)
            }
        },
        Type::Unit => {
            if ws.len() == 0 {
                Ok(Value::Unit)
            } else {
                Err(Error::Unsupported)
            }
        },
        Type::Bool => {
            if ws.len() == 1 {
                match ws[0] {
                    Word::I32(x) => Ok(Value::Bool(x != 0)),
                    _ => Err(Error::Unsupported),
                }
            } else {
                Err(Error::Unsupported)
            }
        },
        Type::Char => {
            if ws.len() == 1 {
                match ws[0] {
                    Word::I32(x) => {
                        if x < 0xd800 || (0xe000 <= x && x <= 0x10ffff) {
                            Ok(Value::Char(x))
                        } else {
                            Err(Error::Unsupported)
                        }
                    },
                    _ => Err(Error::Unsupported),
                }
            } else {
                Err(Error::Unsupported)
            }
        },
        Type::U8 => {
            if ws.len() == 1 {
                match ws[0] {
                    Word::I32(x) => {
                        if x <= 0xff {
                            Ok(Value::U8(x as u8))
                        } else {
                            Err(Error::Unsupported)
                        }
                    },
                    _ => Err(Error::Unsupported),
                }
            } else {
                Err(Error::Unsupported)
            }
        },
        Type::S8 => {
            if ws.len() == 1 {
                match ws[0] {
                    Word::I32(x) => {
                        let y: i64 = if x < 0x8000_0000 {
                            x as i64
                        } else {
                            x as i64 - 0x1_0000_0000
                        };
                        if -0x80 <= y && y < 0x80 {
                            Ok(Value::S8(y as i8))
                        } else {
                            Err(Error::Unsupported)
                        }
                    },
                    _ => Err(Error::Unsupported),
                }
            } else {
                Err(Error::Unsupported)
            }
        },
        Type::U16 => {
            if ws.len() == 1 {
                match ws[0] {
                    Word::I32(x) => {
                        if x <= 0xffff {
                            Ok(Value::U16(x as u16))
                        } else {
                            Err(Error::Unsupported)
                        }
                    },
                    _ => Err(Error::Unsupported),
                }
            } else {
                Err(Error::Unsupported)
            }
        },
        Type::S16 => {
            if ws.len() == 1 {
                match ws[0] {
                    Word::I32(x) => {
                        let y: i64 = if x < 0x8000_0000 {
                            x as i64
                        } else {
                            x as i64 - 0x1_0000_0000
                        };
                        if -0x8000 <= y && y < 0x8000 {
                            Ok(Value::S16(y as i16))
                        } else {
                            Err(Error::Unsupported)
                        }
                    },
                    _ => Err(Error::Unsupported),
                }
            } else {
                Err(Error::Unsupported)
            }
        },
        Type::U32 => {
            if ws.len() == 1 {
                match ws[0] {
                    Word::I32(x) => Ok(Value::U32(x)),
                    _ => Err(Error::Unsupported),
                }
            } else {
                Err(Error::Unsupported)
            }
        },
        Type::S32 => {
            if ws.len() == 1 {
                match ws[0] {
                    Word::I32(x) => {
                        let y: i64 = if x < 0x8000_0000 {
                            x as i64
                        } else {
                            x as i64 - 0x1_0000_0000
                        };
                        Ok(Value::S32(y as i32))
                    },
                    _ => Err(Error::Unsupported),
                }
            } else {
                Err(Error::Unsupported)
            }
        },
        Type::U64 => {
            if ws.len() == 1 {
                match ws[0] {
                    Word::I64(x) => Ok(Value::U64(x)),
                    _ => Err(Error::Unsupported),
                }
            } else {
                Err(Error::Unsupported)
            }
        },
        Type::S64 => {
            if ws.len() == 1 {
                match ws[0] {
                    Word::I64(x) => {
                        let y: i128 = if x < 0x8000_0000_0000_0000 {
                            x as i128
                        } else {
                            x as i128 - 0x1_0000_0000_0000_0000i128
                        };
                        Ok(Value::S64(y as i64))
                    },
                    _ => Err(Error::Unsupported),
                }
            } else {
                Err(Error::Unsupported)
            }
        },
        Type::Float32 => {
            if ws.len() == 1 {
                match ws[0] {
                    Word::F32(x) => Ok(Value::F32Bits(x)),
                    _ => Err(Error::Unsupported),
                }
            } else {
                Err(Error::Unsupported)
            }
        },
        Type::Float64 => {
            if ws.len() == 1 {
                match ws[0] {
                    Word::F64(x) => Ok(Value::F64Bits(x)),
                    _ => Err(Error::Unsupported),
                }
            } else {
                Err(Error::Unsupported)
            }
        },
        Type::Handle(_) => {
            if ws.len() == 1 {
                match ws[0] {
                    Word::I32(x) => Ok(Value::HandleV(x)),
                    _ => Err(Error::Unsupported),
                }
            } else {
                Err(Error::Unsupported)
            }
        },
        Type::Str => Err(Error::Unsupported),
    }
}

/// Lift one value of a defined kind, mirroring `lift_kind`.
#[verifier::loop_isolation(false)]
#[verifier::rlimit(100)]
pub fn lift_kind_x(iface: &Interface, k: &TypeDefKind, ws: &Vec<Word>, fuel: usize) -> (r: Result<
    Value,
    Error,
>)
    requires
        iface.wf(),
        k.wf(iface.types@.len(), iface.resources@.len()),
        layout_kind(iface.types@, *k, fuel as nat) matches Option::Some(l) ==> l.flat.len()
            <= crate::layout::MAX_FLAT_WORDS,
    ensures
        r matches Ok(v) ==> lift_kind(iface.types@, *k, ws@, fuel as nat) == Option::Some(v.dv()),
        r is Err ==> lift_kind(iface.types@, *k, ws@, fuel as nat) is None,
    decreases fuel, 3int, 0int,
{
    let ghost types = iface.types@;
    match k {
        TypeDefKind::Alias(t) => lift_value(iface, t, ws, fuel),
        TypeDefKind::Flags(f) => {
            let n = f.flags.len();
            if n <= 32 {
                if ws.len() != 1 {
                    return Err(Error::Unsupported);
                }
                match ws[0] {
                    Word::I32(lo) => {
                        let bits = lo as u64;
                        let fits = if n >= 64 {
                            true
                        } else {
                            bits < pow2_u64(n as u64)
                        };
                        if fits {
                            Ok(Value::FlagsV(bits))
                        } else {
                            Err(Error::Unsupported)
                        }
                    },
                    _ => Err(Error::Unsupported),
                }
            } else {
                if ws.len() != 2 {
                    return Err(Error::Unsupported);
                }
                match (ws[0], ws[1]) {
                    (Word::I32(lo), Word::I32(hi)) => {
                        let bits = lo as u64 + (hi as u64) * 0x1_0000_0000;
                        let fits = if n >= 64 {
                            true
                        } else {
                            bits < pow2_u64(n as u64)
                        };
                        if fits {
                            Ok(Value::FlagsV(bits))
                        } else {
                            Err(Error::Unsupported)
                        }
                    },
                    _ => Err(Error::Unsupported),
                }
            }
        },
        TypeDefKind::List(_) => Err(Error::Unsupported),
        TypeDefKind::Record(_) | TypeDefKind::Tuple(_) => {
            let comps = crate::layout::fields_vec(k);
            proof {
                crate::topo::lemma_components_wf(*k, types.len(), iface.resources@.len() as nat);
                assert(crate::topo::kind_components(*k) =~= fields_of(*k));
            }
            match crate::layout::layout_kind_x(iface, k, fuel) {
                Err(e) => {
                    return Err(e);
                },
                Ok(_) => {},
            }
            proof {
                assert forall|i: int|
                    0 <= i < comps@.len() implies (match layout_ty(
                    types,
                    #[trigger] comps@[i],
                    fuel as nat,
                ) {
                    Option::Some(l) => l.flat.len() <= crate::layout::MAX_FLAT_WORDS,
                    Option::None => true,
                }) by {
                    lemma_fold_len_ge(types, comps@, fuel as nat, comps@.len(), i);
                }
            }
            let nw = ws.len();
            match lift_comps_x(iface, &comps, ws, nw, fuel, comps.len()) {
                Err(e) => {
                    assert(ws@.take(nw as int) =~= ws@);
                    Err(e)
                },
                Ok(vs) => {
                    assert(ws@.take(nw as int) =~= ws@);
                    Ok(Value::Record(vs))
                },
            }
        },
        _ => {
            let pls = crate::layout::payloads_vec(k);
            proof {
                lemma_payloads_wf(*k, types.len(), iface.resources@.len() as nat);
            }
            let l = match crate::layout::layout_kind_x(iface, k, fuel) {
                Err(e) => {
                    return Err(e);
                },
                Ok(l) => l,
            };
            let ghost joined = variant_fold(types, pls@, fuel as nat, pls@.len()).unwrap().2;
            let fv = l.flat.unwrap();
            if ws.len() != fv.len() {
                return Err(Error::Unsupported);
            }
            match ws[0] {
                Word::I32(c) => {
                    if (c as usize) >= pls.len() {
                        return Err(Error::Unsupported);
                    }
                    let ci = c as usize;
                    proof {
                        if layout_ty(types, pls@[ci as int], fuel as nat) is Some {
                            lemma_fold_covers(types, pls@, fuel as nat, pls@.len(), ci as int);
                        }
                    }
                    let cl = match crate::layout::layout_x(iface, &pls[ci], fuel) {
                        Err(e) => {
                            return Err(e);
                        },
                        Ok(cl) => cl,
                    };
                    let kn = cl.flat_count as usize;
                    if fv.len() - 1 < kn {
                        return Err(Error::Unsupported);
                    }
                    let clf = cl.flat.unwrap();
                    let mut pw: Vec<Word> = Vec::new();
                    for i in 0..kn
                        invariant
                            kn == clf@.len(),
                            clf@ == layout_ty(types, pls@[ci as int], fuel as nat).unwrap().flat,
                            ws@.len() > kn,
                            pw@.len() == i,
                            forall|j: int|
                                0 <= j < i ==> pw@[j] == cast_to(ws@[1 + j], clf@[j]),
                    {
                        pw.push(cast_x(ws[1 + i], clf[i]));
                    }
                    proof {
                        assert(pw@ =~= Seq::new(
                            layout_ty(types, pls@[ci as int], fuel as nat).unwrap().flat.len(),
                            |i: int|
                                cast_to(
                                    ws@[1 + i],
                                    layout_ty(
                                        types,
                                        pls@[ci as int],
                                        fuel as nat,
                                    ).unwrap().flat[i],
                                ),
                        ));
                    }
                    match lift_value(iface, &pls[ci], &pw, fuel) {
                        Err(e) => Err(e),
                        Ok(pv) => Ok(Value::Case(c, Box::new(pv))),
                    }
                },
                _ => Err(Error::Unsupported),
            }
        },
    }
}

/// Lift the first `n` components of a record-like word prefix, mirroring
/// `lift_comps`.
#[verifier::loop_isolation(false)]
#[verifier::rlimit(100)]
fn lift_comps_x(
    iface: &Interface,
    comps: &Vec<Type>,
    ws: &Vec<Word>,
    end: usize,
    fuel: usize,
    n: usize,
) -> (r: Result<Vec<Value>, Error>)
    requires
        iface.wf(),
        end <= ws@.len(),
        n <= comps@.len(),
        forall|i: int|
            0 <= i < comps@.len() ==> (#[trigger] comps@[i]).wf(
                iface.types@.len(),
                iface.resources@.len(),
            ),
        forall|i: int|
            0 <= i < comps@.len() ==> (layout_ty(iface.types@, #[trigger] comps@[i], fuel as nat)
                matches Option::Some(l) ==> l.flat.len() <= crate::layout::MAX_FLAT_WORDS),
    ensures
        r matches Ok(vs) ==> vs@.len() == n && lift_comps(
            iface.types@,
            comps@,
            ws@.take(end as int),
            fuel as nat,
            n as nat,
        ) == Option::Some(dv_vec(vs, n as nat)),
        r is Err ==> lift_comps(iface.types@, comps@, ws@.take(end as int), fuel as nat, n as nat)
            is None,
    decreases fuel, 1int, n,
{
    let ghost types = iface.types@;
    if n == 0 {
        if end == 0 {
            let vs: Vec<Value> = Vec::new();
            assert(ws@.take(0) =~= Seq::<Word>::empty());
            Ok(vs)
        } else {
            Err(Error::Unsupported)
        }
    } else {
        let l = match crate::layout::layout_x(iface, &comps[n - 1], fuel) {
            Err(e) => {
                return Err(e);
            },
            Ok(l) => l,
        };
        let kn = l.flat_count as usize;
        if end < kn {
            return Err(Error::Unsupported);
        }
        let mut sub: Vec<Word> = Vec::new();
        for i in 0..kn
            invariant
                kn <= end <= ws@.len(),
                sub@.len() == i,
                forall|j: int| 0 <= j < i ==> sub@[j] == ws@[end - kn + j],
        {
            sub.push(ws[end - kn + i]);
        }
        proof {
            assert(sub@ =~= ws@.take(end as int).skip(end - kn));
            assert(ws@.take((end - kn) as int) =~= ws@.take(end as int).take(end - kn));
        }
        let front = match lift_comps_x(iface, comps, ws, end - kn, fuel, n - 1) {
            Err(e) => {
                return Err(e);
            },
            Ok(front) => front,
        };
        let last = match lift_value(iface, &comps[n - 1], &sub, fuel) {
            Err(e) => {
                return Err(e);
            },
            Ok(last) => last,
        };
        let ghost frontg = front;
        let mut out = front;
        out.push(last);
        proof {
            lemma_dv_vec_prefix(frontg, out, (n - 1) as nat);
            lemma_dv_vec_len(out, n as nat);
            assert(dv_vec(out, n as nat) =~= dv_vec(frontg, (n - 1) as nat).push(last.dv()));
        }
        Ok(out)
    }
}

} // verus!





