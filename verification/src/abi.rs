//! The canonical ABI engine's instruction stream: for one function and one
//! role it emits the ordered abstract marshaling operations an emitter turns
//! into code. A function is exclusively an import (its caller lowers
//! arguments, crosses the boundary, lifts the result) or an export (its
//! entry point lifts arguments, invokes the user implementation, lowers the
//! result); the mirrored pair is never generated for the same function.

use vstd::prelude::*;
use crate::layout::{layout_ty, record_like, WordKind, MAX_FLAT_WORDS};
use crate::marshal::flat_total;
use crate::model::{Direction, Function, Interface, Type, TypeDef};
use crate::Error;

verus! {

/// One abstract marshaling operation.
#[derive(Clone, Copy, PartialEq, Eq, Structural, Debug)]
pub enum AbiOp {
    /// Reference one source-level argument.
    ReadArg(usize),
    /// Pass an already-scalar value as one core word of this kind, extended
    /// to 32 bits where the core convention asks for it.
    FlattenScalar(WordKind),
    /// Recursively lower a composite value of this type.
    LowerComposite(Type),
    /// Recursively lift a value of this type from its boundary form.
    LiftComposite(Type),
    /// Request a transient memory region, scoped to the current call.
    AllocateScratch { size: u64, align: u64 },
    /// Release the region of the matching allocation.
    DeallocateScratch,
    /// Reinterpret a core word between integer and floating kinds without
    /// numeric conversion, for merged variant slots.
    Bitcast { from: WordKind, to: WordKind },
    /// Invoke the counterpart across the boundary.
    CallBoundary,
    /// Invoke the user-supplied implementation of an export.
    CallImplementation,
    /// Produce the function's result value.
    WriteResult,
}

/// How one argument is passed: scalars flatten to their single word,
/// anything else descends recursively.
pub open spec fn arg_op(types: Seq<TypeDef>, t: Type, fuel: nat) -> AbiOp {
    match layout_ty(types, t, fuel) {
        Option::Some(l) => if l.flat.len() == 1 && !(t is Id) {
            AbiOp::FlattenScalar(l.flat[0])
        } else {
            AbiOp::LowerComposite(t)
        },
        Option::None => AbiOp::LowerComposite(t),
    }
}

/// The argument-handling prefix of an import plan: each argument is read and
/// lowered in order.
pub open spec fn import_args(types: Seq<TypeDef>, params: Seq<Type>, fuel: nat, n: nat) -> Seq<
    AbiOp,
>
    decreases n,
{
    if n == 0 {
        Seq::empty()
    } else {
        import_args(types, params, fuel, (n - 1) as nat) + seq![
            AbiOp::ReadArg((n - 1) as usize),
            arg_op(types, params[n - 1], fuel),
        ]
    }
}

/// The argument-handling prefix of an export plan: each argument is lifted
/// in order.
pub open spec fn export_args(params: Seq<Type>, n: nat) -> Seq<AbiOp>
    decreases n,
{
    if n == 0 {
        Seq::empty()
    } else {
        export_args(params, (n - 1) as nat).push(AbiOp::LiftComposite(params[n - 1]))
    }
}

/// Whether a plan exists: the function is synchronous and every involved
/// layout resolves.
pub open spec fn plan_ok(types: Seq<TypeDef>, f: Function, fuel: nat) -> bool {
    &&& !f.is_async
    &&& record_like(types, param_types(f), fuel) is Some
    &&& layout_ty(types, f.result, fuel) is Some
}

/// The types of a function's parameters, in order.
pub open spec fn param_types(f: Function) -> Seq<Type> {
    f.params@.map_values(|p: crate::model::Param| p.ty)
}

/// The full import-call plan: lower the arguments (spilling them into one
/// caller-allocated area when the combined budget is exceeded), pre-allocate
/// a return area where the result cannot come back as one word, cross the
/// boundary, lift the result, and release the argument area.
pub open spec fn import_plan(types: Seq<TypeDef>, f: Function, fuel: nat) -> Seq<AbiOp> {
    let pl = param_types(f);
    let area = record_like(types, pl, fuel).unwrap();
    let total = flat_total(types, pl, fuel).unwrap();
    let rl = layout_ty(types, f.result, fuel).unwrap();
    let spill = total > MAX_FLAT_WORDS;
    let ret_area = rl.flat.len() > 1;
    (if spill {
        seq![AbiOp::AllocateScratch { size: area.size as u64, align: area.align as u64 }]
    } else {
        Seq::empty()
    }) + import_args(types, pl, fuel, pl.len()) + (if ret_area {
        seq![AbiOp::AllocateScratch { size: rl.size as u64, align: rl.align as u64 }]
    } else {
        Seq::empty()
    }) + seq![AbiOp::CallBoundary, AbiOp::LiftComposite(f.result), AbiOp::WriteResult] + (if spill {
        seq![AbiOp::DeallocateScratch]
    } else {
        Seq::empty()
    })
}

/// The full export-entry plan: lift the arguments, invoke the user
/// implementation, allocate the return area where the result cannot go back
/// as one word (the callee allocates on this side), and lower the result.
pub open spec fn export_plan(types: Seq<TypeDef>, f: Function, fuel: nat) -> Seq<AbiOp> {
    let pl = param_types(f);
    let rl = layout_ty(types, f.result, fuel).unwrap();
    let ret_area = rl.flat.len() > 1;
    export_args(pl, pl.len()) + seq![AbiOp::CallImplementation] + (if ret_area {
        seq![AbiOp::AllocateScratch { size: rl.size as u64, align: rl.align as u64 }]
    } else {
        Seq::empty()
    }) + seq![AbiOp::LowerComposite(f.result), AbiOp::WriteResult]
}

/// The plan of a function in its own direction.
pub open spec fn call_plan_s(types: Seq<TypeDef>, f: Function, fuel: nat) -> Seq<AbiOp> {
    match f.dir {
        Direction::Import => import_plan(types, f, fuel),
        Direction::Export => export_plan(types, f, fuel),
    }
}

/// Whether a plan spills its arguments to memory: only a spilled argument
/// area is released at the end of the call; a pre-allocated return area
/// stays with the caller.
pub open spec fn plan_spills(plan: Seq<AbiOp>) -> bool {
    plan.len() > 0 && plan.last() is DeallocateScratch
}

/// Emit the operation sequence for one function. Asynchronous functions are
/// rejected outright; otherwise the plan exists exactly when every involved
/// layout resolves, and it spills the combined arguments if and only if
/// their single flat-word budget is exceeded.
#[verifier::loop_isolation(false)]
#[verifier::rlimit(100)]
#[verifier::spinoff_prover]
pub fn call_plan(iface: &Interface, f: &Function) -> (r: Result<Vec<AbiOp>, Error>)
    requires
        iface.wf(),
        f.wf(iface.types@.len(), iface.resources@.len()),
    ensures
        r is Ok <==> plan_ok(iface.types@, *f, iface.types@.len() as nat),
        r matches Ok(plan) ==> plan@ == call_plan_s(iface.types@, *f, iface.types@.len() as nat),
        r matches Ok(plan) ==> (f.dir == Direction::Import ==> (plan_spills(plan@) <==> flat_total(
            iface.types@,
            param_types(*f),
            iface.types@.len() as nat,
        ).unwrap() > MAX_FLAT_WORDS)),
        f.is_async ==> r == Result::<Vec<AbiOp>, Error>::Err(Error::AsyncFunction),
        r matches Err(e) ==> (e == Error::AsyncFunction || e == Error::CyclicTypes || e
            == Error::TooLarge),
{
    let ghost types = iface.types@;
    let fuel = iface.types.len();
    if f.is_async {
        return Err(Error::AsyncFunction);
    }
    let np = f.params.len();
    let mut pl: Vec<Type> = Vec::new();
    for i in 0..np
        invariant
            pl@.len() == i,
            forall|j: int| 0 <= j < i ==> pl@[j] == f.params@[j].ty,
    {
        pl.push(f.params[i].ty);
    }
    assert(pl@ =~= param_types(*f));
    let area = match crate::layout::record_like_area(iface, &pl, fuel) {
        Ok(a) => a,
        Err(e) => {
            return Err(e);
        },
    };
    let rl = match crate::layout::layout_x(iface, &f.result, fuel) {
        Ok(l) => l,
        Err(e) => {
            return Err(e);
        },
    };
    let ghost areas = record_like(types, pl@, fuel as nat).unwrap();
    let ghost rls = layout_ty(types, f.result, fuel as nat).unwrap();
    let ghost total = flat_total(types, pl@, fuel as nat).unwrap();
    let mut plan: Vec<AbiOp> = Vec::new();
    match f.dir {
        Direction::Import => {
            let spill = area.flat_count > MAX_FLAT_WORDS;
            proof {
                assert(spill <==> total > MAX_FLAT_WORDS);
            }
            if spill {
                plan.push(AbiOp::AllocateScratch { size: area.size, align: area.align });
            }
            let ghost head = plan@;
            for i in 0..np
                invariant
                    pl@ == param_types(*f),
                    np == pl@.len(),
                    plan@ == head + import_args(types, pl@, fuel as nat, i as nat),
            {
                plan.push(AbiOp::ReadArg(i));
                match crate::layout::layout_x(iface, &pl[i], fuel) {
                    Ok(l) => {
                        let is_id = match pl[i] {
                            Type::Id(_) => true,
                            _ => false,
                        };
                        if l.flat_count == 1 && !is_id {
                            let lf = l.flat.unwrap();
                            plan.push(AbiOp::FlattenScalar(lf[0]));
                        } else {
                            plan.push(AbiOp::LowerComposite(pl[i]));
                        }
                    },
                    Err(_) => {
                        plan.push(AbiOp::LowerComposite(pl[i]));
                    },
                }
                assert(plan@ =~= head + import_args(types, pl@, fuel as nat, (i + 1) as nat));
            }
            if rl.flat_count > 1 {
                plan.push(AbiOp::AllocateScratch { size: rl.size, align: rl.align });
            }
            plan.push(AbiOp::CallBoundary);
            plan.push(AbiOp::LiftComposite(f.result));
            plan.push(AbiOp::WriteResult);
            if spill {
                plan.push(AbiOp::DeallocateScratch);
            }
            assert(plan@ =~= import_plan(types, *f, fuel as nat));
        },
        Direction::Export => {
            let ghost head = plan@;
            for i in 0..np
                invariant
                    pl@ == param_types(*f),
                    np == pl@.len(),
                    plan@ == export_args(pl@, i as nat),
            {
                plan.push(AbiOp::LiftComposite(pl[i]));
                assert(plan@ =~= export_args(pl@, (i + 1) as nat));
            }
            plan.push(AbiOp::CallImplementation);
            if rl.flat_count > 1 {
                plan.push(AbiOp::AllocateScratch { size: rl.size, align: rl.align });
            }
            plan.push(AbiOp::LowerComposite(f.result));
            plan.push(AbiOp::WriteResult);
            assert(plan@ =~= export_plan(types, *f, fuel as nat));
        },
    }
    Ok(plan)
}

} // verus!
