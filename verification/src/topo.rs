//! A topological order over the type table: every type is listed after every
//! type it references, so declarations can be emitted dependency-first. The
//! order exists exactly when the reference graph is acyclic.

use vstd::prelude::*;
use vstd::pervasive::VecAdditionalExecFns;
use crate::model::{Case, Field, Interface, Type, TypeDef, TypeDefKind};
use crate::Error;

verus! {

/// The field types of a record-like kind.
pub open spec fn fields_of(k: TypeDefKind) -> Seq<Type> {
    match k {
        TypeDefKind::Record(r) => r.fields@.map_values(|f: Field| f.ty),
        TypeDefKind::Tuple(t) => t.types@,
        _ => Seq::empty(),
    }
}

/// The case payload types of a variant-like kind; cases without a payload
/// carry the unit type.
pub open spec fn payloads_of(k: TypeDefKind) -> Seq<Type> {
    match k {
        TypeDefKind::Variant(v) => v.cases@.map_values(|c: Case| c.payload),
        TypeDefKind::Enum(e) => Seq::new(e.cases@.len(), |i: int| Type::Unit),
        TypeDefKind::Union(u) => u.cases@,
        TypeDefKind::OptionOf(t) => seq![Type::Unit, t],
        TypeDefKind::Expected(e) => seq![e.ok, e.err],
        _ => Seq::empty(),
    }
}

/// Every type reference a kind makes, directly.
pub open spec fn kind_components(k: TypeDefKind) -> Seq<Type> {
    match k {
        TypeDefKind::Alias(t) => seq![t],
        TypeDefKind::List(t) => seq![t],
        _ => fields_of(k) + payloads_of(k),
    }
}

/// Whether the kind references the type defined at index `j`.
pub open spec fn kind_mentions(k: TypeDefKind, j: usize) -> bool {
    exists|i: int| 0 <= i < kind_components(k).len() && kind_components(k)[i] == Type::Id(j)
}

/// Whether `j` occurs among the first `k` entries of `o`.
pub open spec fn appears_before(o: Seq<usize>, k: int, j: usize) -> bool {
    exists|m: int| 0 <= m < k && o[m] == j
}

/// A topological order: a permutation of the whole table in which every
/// reference points at an earlier entry.
pub open spec fn valid_order(types: Seq<TypeDef>, o: Seq<usize>) -> bool {
    &&& o.len() == types.len()
    &&& forall|k: int| 0 <= k < o.len() ==> (#[trigger] o[k]) < types.len()
    &&& forall|k1: int, k2: int| 0 <= k1 < k2 < o.len() ==> o[k1] != o[k2]
    &&& forall|j: usize| j < types.len() ==> #[trigger] appears_before(o, o.len() as int, j)
    &&& forall|k: int, j: usize|
        0 <= k < o.len() && #[trigger] kind_mentions(types[o[k] as int].kind, j) ==> appears_before(
            o,
            k,
            j,
        )
}

/// Whether the reference graph is acyclic: a topological order exists.
pub open spec fn acyclic(types: Seq<TypeDef>) -> bool {
    exists|o: Seq<usize>| valid_order(types, o)
}

/// A well-formed kind only references types inside the table.
pub proof fn lemma_components_wf(k: TypeDefKind, ntypes: nat, nres: nat)
    requires
        k.wf(ntypes, nres),
    ensures
        forall|i: int|
            0 <= i < kind_components(k).len() ==> (#[trigger] kind_components(k)[i]).wf(
                ntypes,
                nres,
            ),
{
    match k {
        TypeDefKind::Record(r) => {
            assert forall|i: int|
                0 <= i < kind_components(k).len() implies (#[trigger] kind_components(k)[i]).wf(
                ntypes,
                nres,
            ) by {
                assert(kind_components(k)[i] == r.fields@[i].ty);
            }
        },
        TypeDefKind::Variant(v) => {
            assert forall|i: int|
                0 <= i < kind_components(k).len() implies (#[trigger] kind_components(k)[i]).wf(
                ntypes,
                nres,
            ) by {
                assert(kind_components(k)[i] == v.cases@[i].payload);
            }
        },
        _ => {},
    }
}

pub open spec fn count_true(s: Seq<bool>) -> int
    decreases s.len(),
{
    if s.len() == 0 {
        0
    } else {
        count_true(s.drop_last()) + if s.last() {
            1int
        } else {
            0int
        }
    }
}

proof fn lemma_count_true_update(s: Seq<bool>, i: int)
    requires
        0 <= i < s.len(),
        !s[i],
    ensures
        count_true(s.update(i, true)) == count_true(s) + 1,
    decreases s.len(),
{
    if i == s.len() - 1 {
        assert(s.update(i, true).drop_last() =~= s.drop_last());
    } else {
        lemma_count_true_update(s.drop_last(), i);
        assert(s.update(i, true).drop_last() =~= s.drop_last().update(i, true));
    }
}

proof fn lemma_count_true_bound(s: Seq<bool>)
    ensures
        count_true(s) <= s.len(),
    decreases s.len(),
{
    if s.len() > 0 {
        lemma_count_true_bound(s.drop_last());
    }
}

proof fn lemma_count_all(s: Seq<bool>)
    requires
        count_true(s) == s.len(),
    ensures
        forall|j: int| 0 <= j < s.len() ==> s[j],
    decreases s.len(),
{
    if s.len() > 0 {
        lemma_count_true_bound(s.drop_last());
        lemma_count_all(s.drop_last());
        assert forall|j: int| 0 <= j < s.len() implies s[j] by {
            if j < s.len() - 1 {
                assert(s.drop_last()[j]);
            }
        }
    }
}

proof fn lemma_count_all_true(s: Seq<bool>)
    requires
        forall|j: int| 0 <= j < s.len() ==> s[j],
    ensures
        count_true(s) == s.len(),
    decreases s.len(),
{
    if s.len() > 0 {
        lemma_count_all_true(s.drop_last());
    }
}

/// At a point where every still-unplaced type has an unplaced reference, the
/// whole table must already be placed wherever a topological order exists.
proof fn lemma_prefix_placed(types: Seq<TypeDef>, placed: Seq<bool>, o: Seq<usize>, k: int)
    requires
        placed.len() == types.len(),
        valid_order(types, o),
        forall|i: int|
            0 <= i < types.len() ==> placed[i] || exists|j: usize|
                #[trigger] kind_mentions(types[i].kind, j) && j < placed.len() && !placed[j as int],
        0 <= k < o.len(),
    ensures
        placed[o[k] as int],
    decreases k,
{
    assert forall|m: int| 0 <= m < k implies placed[o[m] as int] by {
        lemma_prefix_placed(types, placed, o, m);
    }
    if !placed[o[k] as int] {
        let j = choose|j: usize|
            #[trigger] kind_mentions(types[o[k] as int].kind, j) && j < placed.len() && !placed[j as int];
        assert(appears_before(o, k, j));
        let m = choose|m: int| 0 <= m < k && o[m] == j;
        assert(placed[o[m] as int]);
        assert(false);
    }
}

/// Whether a single reference lands on an already placed entry.
fn ty_placed(t: &Type, placed: &Vec<bool>) -> (r: bool)
    requires
        t.wf(placed@.len(), 0xffff_ffff_ffff_ffffu64 as nat),
    ensures
        r == match *t {
            Type::Id(j) => placed@[j as int],
            _ => true,
        },
{
    match t {
        Type::Id(j) => placed[*j],
        _ => true,
    }
}

/// The direct references of a kind, as a vector.
fn components_of(k: &TypeDefKind) -> (r: Vec<Type>)
    ensures
        r@ == kind_components(*k),
{
    let mut v: Vec<Type> = Vec::new();
    match k {
        TypeDefKind::Alias(t) => {
            v.push(*t);
        },
        TypeDefKind::List(t) => {
            v.push(*t);
        },
        TypeDefKind::Record(r) => {
            let n = r.fields.len();
            for i in 0..n
                invariant
                    n == r.fields@.len(),
                    v@.len() == i,
                    forall|j: int| 0 <= j < i ==> v@[j] == r.fields@[j].ty,
            {
                v.push(r.fields[i].ty);
            }
        },
        TypeDefKind::Tuple(t) => {
            let n = t.types.len();
            for i in 0..n
                invariant
                    n == t.types@.len(),
                    v@.len() == i,
                    forall|j: int| 0 <= j < i ==> v@[j] == t.types@[j],
            {
                v.push(t.types[i]);
            }
        },
        TypeDefKind::Variant(vr) => {
            let n = vr.cases.len();
            for i in 0..n
                invariant
                    n == vr.cases@.len(),
                    v@.len() == i,
                    forall|j: int| 0 <= j < i ==> v@[j] == vr.cases@[j].payload,
            {
                v.push(vr.cases[i].payload);
            }
        },
        TypeDefKind::Enum(e) => {
            let n = e.cases.len();
            for i in 0..n
                invariant
                    n == e.cases@.len(),
                    v@.len() == i,
                    forall|j: int| 0 <= j < i ==> v@[j] == Type::Unit,
            {
                v.push(Type::Unit);
            }
        },
        TypeDefKind::Union(u) => {
            let n = u.cases.len();
            for i in 0..n
                invariant
                    n == u.cases@.len(),
                    v@.len() == i,
                    forall|j: int| 0 <= j < i ==> v@[j] == u.cases@[j],
            {
                v.push(u.cases[i]);
            }
        },
        TypeDefKind::OptionOf(t) => {
            v.push(Type::Unit);
            v.push(*t);
        },
        TypeDefKind::Expected(e) => {
            v.push(e.ok);
            v.push(e.err);
        },
        TypeDefKind::Flags(_) => {},
    }
    assert(v@ =~= kind_components(*k));
    v
}

/// Whether every reference of the kind at `i` is already placed.
#[verifier::loop_isolation(false)]
fn deps_placed(types: &Vec<TypeDef>, i: usize, placed: &Vec<bool>, nres: usize) -> (r: bool)
    requires
        i < types@.len(),
        crate::model::wf_types(types@, nres as nat),
        placed@.len() == types@.len(),
    ensures
        r == forall|j: usize|
            #[trigger] kind_mentions(types@[i as int].kind, j) ==> j < placed@.len() && placed@[j as int],
{
    let comps = components_of(&types[i].kind);
    let ghost k = types@[i as int].kind;
    proof {
        lemma_components_wf(k, types@.len(), nres as nat);
    }
    let n = comps.len();
    for c in 0..n
        invariant
            forall|m: int|
                0 <= m < c ==> match #[trigger] comps@[m] {
                    Type::Id(j) => j < placed@.len() && placed@[j as int],
                    _ => true,
                },
    {
        if !ty_placed(&comps[c], placed) {
            proof {
                let j = comps@[c as int]->Id_0;
                assert(kind_components(k)[c as int] == Type::Id(j));
                assert(kind_mentions(k, j));
            }
            return false;
        }
    }
    proof {
        assert forall|j: usize| #[trigger] kind_mentions(k, j) implies j < placed@.len()
            && placed@[j as int] by {
            let m = choose|m: int| 0 <= m < kind_components(k).len() && kind_components(k)[m]
                == Type::Id(j);
            assert(match comps@[m] {
                Type::Id(j2) => j2 < placed@.len() && placed@[j2 as int],
                _ => true,
            });
        }
    }
    true
}

/// Find one unplaced entry whose references are all placed.
#[verifier::loop_isolation(false)]
fn find_ready(types: &Vec<TypeDef>, placed: &Vec<bool>, nres: usize) -> (r: Option<usize>)
    requires
        crate::model::wf_types(types@, nres as nat),
        placed@.len() == types@.len(),
    ensures
        match r {
            Option::Some(i) => i < types@.len() && !placed@[i as int] && forall|j: usize|
                #[trigger] kind_mentions(types@[i as int].kind, j) ==> j < placed@.len()
                    && placed@[j as int],
            Option::None => forall|i: int|
                0 <= i < types@.len() ==> placed@[i] || exists|j: usize|
                    #[trigger] kind_mentions(types@[i].kind, j) && j < placed@.len() && !placed@[j as int],
        },
{
    let n = types.len();
    for i in 0..n
        invariant
            forall|m: int|
                0 <= m < i ==> placed@[m] || exists|j: usize|
                    #[trigger] kind_mentions(types@[m].kind, j) && j < placed@.len() && !placed@[j as int],
    {
        if !placed[i] {
            if deps_placed(types, i, placed, nres) {
                return Some(i);
            }
            proof {
                assert(exists|j: usize|
                    #[trigger] kind_mentions(types@[i as int].kind, j) && !(j < placed@.len()
                        && placed@[j as int]));
                let j = choose|j: usize|
                    #[trigger] kind_mentions(types@[i as int].kind, j) && !(j < placed@.len()
                        && placed@[j as int]);
                lemma_components_wf(types@[i as int].kind, types@.len(), nres as nat);
                let m = choose|m: int|
                    0 <= m < kind_components(types@[i as int].kind).len() && kind_components(
                        types@[i as int].kind,
                    )[m] == Type::Id(j);
                assert(Type::Id(j).wf(types@.len(), nres as nat));
                assert(kind_mentions(types@[i as int].kind, j) && j < placed@.len() && !placed@[j as int]);
            }
        }
    }
    None
}


/// One selection step preserves the order invariants.
proof fn lemma_topo_step(
    types: Seq<TypeDef>,
    order: Seq<usize>,
    placed: Seq<bool>,
    round: int,
    i: usize,
)
    requires
        order.len() == round,
        placed.len() == types.len(),
        forall|j: usize|
            #![trigger placed[j as int]]
            #![trigger appears_before(order, round, j)]
            j < types.len() ==> (placed[j as int] <==> appears_before(order, round, j)),
        forall|k: int, j: usize|
            0 <= k < round && #[trigger] kind_mentions(types[order[k] as int].kind, j)
                ==> appears_before(order, k, j),
        i < types.len(),
        !placed[i as int],
        forall|j: usize|
            #[trigger] kind_mentions(types[i as int].kind, j) ==> j < placed.len()
                && placed[j as int],
    ensures
        forall|j: usize|
            #![trigger placed.update(i as int, true)[j as int]]
            #![trigger appears_before(order.push(i), round + 1, j)]
            j < types.len() ==> (placed.update(i as int, true)[j as int] <==> appears_before(
                order.push(i),
                round + 1,
                j,
            )),
        forall|k: int, j: usize|
            0 <= k < round + 1 && #[trigger] kind_mentions(
                types[order.push(i)[k] as int].kind,
                j,
            ) ==> appears_before(order.push(i), k, j),
{
    let p2 = placed.update(i as int, true);
    let o2 = order.push(i);
    assert forall|j: usize|
        j < types.len() implies (p2[j as int] <==> appears_before(o2, round + 1, j)) by {
        if j == i {
            assert(o2[round] == j);
            assert(appears_before(o2, round + 1, j));
        } else {
            if appears_before(o2, round + 1, j) {
                let m = choose|m: int| 0 <= m < round + 1 && o2[m] == j;
                assert(m < round);
                assert(order[m] == j);
                assert(appears_before(order, round, j));
            }
            if appears_before(order, round, j) {
                let m = choose|m: int| 0 <= m < round && order[m] == j;
                assert(o2[m] == j);
                assert(appears_before(o2, round + 1, j));
            }
        }
    }
    assert forall|k: int, j: usize|
        0 <= k < round + 1 && #[trigger] kind_mentions(types[o2[k] as int].kind, j) implies
        appears_before(o2, k, j) by {
        if k < round {
            assert(o2[k] == order[k]);
            assert(kind_mentions(types[order[k] as int].kind, j));
            assert(appears_before(order, k, j));
            let m = choose|m: int| 0 <= m < k && order[m] == j;
            assert(o2[m] == j);
            assert(appears_before(o2, k, j));
        } else {
            assert(o2[k] == i);
            assert(kind_mentions(types[i as int].kind, j));
            assert(j < placed.len() && placed[j as int]);
            assert(appears_before(order, round, j));
            let m = choose|m: int| 0 <= m < round && order[m] == j;
            assert(o2[m] == j);
            assert(appears_before(o2, k, j));
        }
    }
}

/// Compute a dependency-first order over the type table. Fails, returning
/// nothing, exactly when the reference graph has a cycle.
#[verifier::loop_isolation(false)]
#[verifier::rlimit(100)]
pub fn topological_types(iface: &Interface) -> (r: Result<Vec<usize>, Error>)
    requires
        iface.wf(),
    ensures
        match r {
            Result::Ok(o) => valid_order(iface.types@, o@),
            Result::Err(e) => e == Error::CyclicTypes && !acyclic(iface.types@),
        },
{
    let n = iface.types.len();
    let nres = iface.resources.len();
    let mut order: Vec<usize> = Vec::new();
    let mut placed: Vec<bool> = Vec::new();
    for i in 0..n
        invariant
            placed@.len() == i,
            forall|j: int| 0 <= j < i ==> !placed@[j],
    {
        placed.push(false);
    }
    proof {
        lemma_count_all_false(placed@);
    }
    for round in 0..n
        invariant
            order@.len() == round,
            placed@.len() == n,
            count_true(placed@) == round as int,
            forall|k: int| 0 <= k < round ==> (#[trigger] order@[k]) < n,
            forall|k1: int, k2: int| 0 <= k1 < k2 < round ==> order@[k1] != order@[k2],
            forall|j: usize|
                #![trigger placed@[j as int]]
                #![trigger appears_before(order@, round as int, j)]
                j < n ==> (placed@[j as int] <==> appears_before(order@, round as int, j)),
            forall|k: int, j: usize|
                0 <= k < round && #[trigger] kind_mentions(iface.types@[order@[k] as int].kind, j)
                    ==> appears_before(order@, k, j),
    {
        match find_ready(&iface.types, &placed, nres) {
            Option::None => {
                proof {
                    if acyclic(iface.types@) {
                        let o = choose|o: Seq<usize>| valid_order(iface.types@, o);
                        lemma_count_true_bound(placed@);
                        if forall|j: int| 0 <= j < n ==> placed@[j] {
                            lemma_count_all_true(placed@);
                        }
                        assert(exists|j: int| 0 <= j < placed@.len() && !placed@[j]);
                        let i = choose|i: int| 0 <= i < placed@.len() && !placed@[i];
                        assert(appears_before(o, o.len() as int, i as usize));
                        let m = choose|m: int| 0 <= m < o.len() && o[m] == i as usize;
                        lemma_prefix_placed(iface.types@, placed@, o, m);
                    }
                }
                return Err(Error::CyclicTypes);
            },
            Option::Some(i) => {
                proof {
                    lemma_count_true_update(placed@, i as int);
                    lemma_topo_step(iface.types@, order@, placed@, round as int, i);
                }
                placed.set(i, true);
                order.push(i);
            },
        }
    }
    proof {
        lemma_count_all(placed@);
        assert forall|j: usize| j < n implies #[trigger] appears_before(order@, order@.len() as int, j) by {
            assert(placed@[j as int]);
        }
    }
    Ok(order)
}

proof fn lemma_count_all_false(s: Seq<bool>)
    requires
        forall|j: int| 0 <= j < s.len() ==> !s[j],
    ensures
        count_true(s) == 0,
    decreases s.len(),
{
    if s.len() > 0 {
        lemma_count_all_false(s.drop_last());
    }
}

/// Topological emission: in a dependency-first order, every type a
/// definition references is placed strictly before it, so its declaration is
/// emitted first.
pub proof fn lemma_topological_emission(types: Seq<TypeDef>, o: Seq<usize>, k: int, j: usize)
    requires
        valid_order(types, o),
        0 <= k < o.len(),
        kind_mentions(types[o[k] as int].kind, j),
    ensures
        appears_before(o, k, j),
{
}

} // verus!
