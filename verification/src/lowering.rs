//! Decisions on types that lowering to MLIR makes: the parts of function
//! and list types, defaulting of type variables that checking left
//! unconstrained, the primitive kind of an operand, and field lookup.
use vstd::prelude::*;
use vstd::string::StringSliceAdditionalSpecFns;
use crate::types::{Monotype, TypeFunc, MType, TFun, views};
use crate::debug_text::mtype_text;
use crate::text::{text, push_str};

verus! {

/// `t` with every type variable replaced by `int`: a free variable has no
/// other constraint to satisfy, and machine code needs a concrete type.
pub open spec fn defaulted(t: MType) -> MType
    decreases t,
{
    match t {
        MType::Var(_) => MType::App(TFun::Int, Seq::empty()),
        MType::App(f, ts) => MType::App(
            f,
            Seq::new(
                ts.len(),
                |i: int|
                    if 0 <= i < ts.len() {
                        defaulted(ts[i])
                    } else {
                        MType::Var(Seq::empty())
                    },
            ),
        ),
    }
}

/// Replace the type variables of `typ` by `int` (see `defaulted`).
pub fn default_free_vars(typ: &Monotype) -> (r: Monotype)
    ensures
        r@ == defaulted(typ@),
    decreases typ,
{
    match typ {
        Monotype::TypeVariable(_) => Monotype::integer(),
        Monotype::TypeFuncApplication(f, args) => {
            let ghost tv = typ@->App_1;
            proof {
                assert(tv =~= views(args@));
            }
            let mut out: Vec<Monotype> = Vec::new();
            let mut i: usize = 0;
            #[verifier::loop_isolation(false)]
            while i < args.len()
                invariant
                    i <= args@.len(),
                    tv == views(args@),
                    out@.len() == i,
                    forall|j: int| 0 <= j < i ==> #[trigger] out@[j]@ == defaulted(tv[j]),
                decreases args@.len() - i,
            {
                proof {
                    assert(decreases_to!(*args => args[i as int]));
                }
                out.push(default_free_vars(&args[i]));
                i = i + 1;
            }
            let g = (**f).duplicate();
            proof {
                crate::types::lemma_app_view(&g, &out);
                assert(views(out@) =~= defaulted(typ@)->App_1);
            }
            Monotype::TypeFuncApplication(Box::new(g), out)
        },
    }
}

/// The argument and result types of a function type, if `t` is one with
/// exactly those two parts.
pub open spec fn fn_parts(t: MType) -> Option<(MType, MType)> {
    match t {
        MType::App(TFun::Fn, ts) => if ts.len() == 2 {
            Some((ts[0], ts[1]))
        } else {
            None
        },
        _ => None,
    }
}

pub open spec fn pair_view(p: Option<(Monotype, Monotype)>) -> Option<(MType, MType)> {
    match p {
        Some((a, b)) => Some((a@, b@)),
        None => None,
    }
}

/// Split a function type into its argument and result types (see
/// `fn_parts`).
pub fn function_parts(typ: &Monotype) -> (r: Option<(Monotype, Monotype)>)
    ensures
        pair_view(r) == fn_parts(typ@),
{
    match typ {
        Monotype::TypeFuncApplication(f, args) => {
            proof {
                crate::types::lemma_app_view(&**f, args);
            }
            match &**f {
                TypeFunc::Fn => if args.len() == 2 {
                    Some((args[0].duplicate(), args[1].duplicate()))
                } else {
                    None
                },
                _ => None,
            }
        },
        _ => None,
    }
}

/// The parts of a function type, each with its type variables defaulted.
pub fn concrete_parts(typ: &Monotype) -> (r: Option<(Monotype, Monotype)>)
    ensures
        pair_view(r) == match fn_parts(typ@) {
            Some((a, b)) => Some((defaulted(a), defaulted(b))),
            None => None,
        },
{
    match function_parts(typ) {
        Some((a, b)) => Some((default_free_vars(&a), default_free_vars(&b))),
        None => None,
    }
}

/// The element type of a list type with exactly one argument.
pub open spec fn list_elem_spec(t: MType) -> Option<MType> {
    match t {
        MType::App(TFun::List, ts) => if ts.len() == 1 {
            Some(ts[0])
        } else {
            None
        },
        _ => None,
    }
}

pub open spec fn opt_mono(p: Option<Monotype>) -> Option<MType> {
    match p {
        Some(a) => Some(a@),
        None => None,
    }
}

/// The element type of a list type (see `list_elem_spec`).
pub fn list_elem(typ: &Monotype) -> (r: Option<Monotype>)
    ensures
        opt_mono(r) == list_elem_spec(typ@),
{
    match typ {
        Monotype::TypeFuncApplication(f, args) => {
            proof {
                crate::types::lemma_app_view(&**f, args);
            }
            match &**f {
                TypeFunc::List => if args.len() == 1 {
                    Some(args[0].duplicate())
                } else {
                    None
                },
                _ => None,
            }
        },
        _ => None,
    }
}

/// The primitive kinds that operators dispatch on.
#[derive(Debug, Clone, Copy, PartialEq, Eq, Structural)]
pub enum Prim {
    Int,
    Float,
    Bool,
    Str,
}

pub open spec fn unsupported_msg(t: MType) -> Seq<char> {
    "codegen: unsupported operand type for binary/unary operation: "@ + mtype_text(t)
}

/// The primitive kind of an operand type once its variables are defaulted;
/// any other type is refused with its structural text.
pub open spec fn prim_spec(t: MType) -> Result<Prim, Seq<char>> {
    match defaulted(t) {
        MType::App(TFun::Int, _) => Ok(Prim::Int),
        MType::App(TFun::Float, _) => Ok(Prim::Float),
        MType::App(TFun::Bool, _) => Ok(Prim::Bool),
        MType::App(TFun::Str, _) => Ok(Prim::Str),
        other => Err(unsupported_msg(other)),
    }
}

pub open spec fn prim_result(r: Result<Prim, String>) -> Result<Prim, Seq<char>> {
    match r {
        Ok(p) => Ok(p),
        Err(m) => Err(m@),
    }
}

/// Classify an operand type (see `prim_spec`).
pub fn primitive_kind(typ: &Monotype) -> (r: Result<Prim, String>)
    ensures
        prim_result(r) == prim_spec(typ@),
{
    let d = default_free_vars(typ);
    match &d {
        Monotype::TypeFuncApplication(f, args) => {
            proof {
                crate::types::lemma_app_view(&**f, args);
            }
            match &**f {
                TypeFunc::Int => {
                    return Ok(Prim::Int);
                },
                TypeFunc::Float => {
                    return Ok(Prim::Float);
                },
                TypeFunc::Bool => {
                    return Ok(Prim::Bool);
                },
                TypeFunc::Str => {
                    return Ok(Prim::Str);
                },
                _ => {},
            }
        },
        _ => {},
    }
    let mut msg = text("codegen: unsupported operand type for binary/unary operation: ");
    d.push_text(&mut msg);
    proof {
        reveal_strlit("codegen: unsupported operand type for binary/unary operation: ");
    }
    Err(msg)
}

/// The position of the first field named `label`, if any.
pub open spec fn field_pos(fields: Seq<(String, Monotype)>, label: Seq<char>, i: int) -> Option<int>
    decreases fields.len() - i,
{
    if i < 0 || i >= fields.len() {
        None
    } else if fields[i].0@ == label {
        Some(i)
    } else {
        field_pos(fields, label, i + 1)
    }
}

pub open spec fn missing_field_msg(label: Seq<char>) -> Seq<char> {
    "codegen: record has no field `"@ + label + "`"@
}

/// The index of the first field named `label`, or an error naming it.
pub fn field_index(fields: &Vec<(String, Monotype)>, label: &str) -> (r: Result<usize, String>)
    ensures
        match field_pos(fields@, label@, 0) {
            Some(k) => r == Ok::<usize, String>(k as usize),
            None => r matches Err(m) && m@ == missing_field_msg(label@),
        },
{
    let n = fields.len();
    let wanted = text(label);
    let mut i: usize = 0;
    while i < n
        invariant
            n == fields@.len(),
            i <= n,
            wanted@ == label@,
            field_pos(fields@, label@, 0) == field_pos(fields@, label@, i as int),
        decreases n - i,
    {
        if fields[i].0 == wanted {
            return Ok(i);
        }
        i = i + 1;
    }
    let mut msg = text("codegen: record has no field `");
    push_str(&mut msg, label);
    push_str(&mut msg, "`");
    proof {
        reveal_strlit("codegen: record has no field `");
        reveal_strlit("`");
    }
    Err(msg)
}

/// How the result of running a module is read back, by the type of its
/// entry function's result.
#[derive(Debug, Clone, Copy, PartialEq, Eq, Structural)]
pub enum ResultSlot {
    Unit,
    Int,
    Float,
    Bool,
    Str,
}

pub open spec fn unrunnable_msg(t: MType) -> Seq<char> {
    "codegen: cannot JIT-execute type "@ + mtype_text(t)
}

/// The slot for an entry function returning `ret` (no type: unit): a
/// primitive type once its variables are defaulted; any other type is
/// refused with its structural text.
pub open spec fn slot_spec(ret: Option<MType>) -> Result<ResultSlot, Seq<char>> {
    match ret {
        None => Ok(ResultSlot::Unit),
        Some(t) => match defaulted(t) {
            MType::App(TFun::Int, ts) if ts.len() == 0 => Ok(ResultSlot::Int),
            MType::App(TFun::Float, ts) if ts.len() == 0 => Ok(ResultSlot::Float),
            MType::App(TFun::Bool, ts) if ts.len() == 0 => Ok(ResultSlot::Bool),
            MType::App(TFun::Str, ts) if ts.len() == 0 => Ok(ResultSlot::Str),
            MType::App(TFun::Unit, ts) if ts.len() == 0 => Ok(ResultSlot::Unit),
            _ => Err(unrunnable_msg(t)),
        },
    }
}

pub open spec fn slot_result(r: Result<ResultSlot, String>) -> Result<ResultSlot, Seq<char>> {
    match r {
        Ok(k) => Ok(k),
        Err(m) => Err(m@),
    }
}

/// Choose how to read the result of running a module (see `slot_spec`).
pub fn result_slot(ret: &Option<Monotype>) -> (r: Result<ResultSlot, String>)
    ensures
        slot_result(r) == slot_spec(opt_mono(*ret)),
{
    match ret {
        None => Ok(ResultSlot::Unit),
        Some(m) => {
            let d = default_free_vars(m);
            match &d {
                Monotype::TypeFuncApplication(f, args) => {
                    proof {
                        crate::types::lemma_app_view(&**f, args);
                    }
                    if args.len() == 0 {
                        match &**f {
                            TypeFunc::Int => {
                                return Ok(ResultSlot::Int);
                            },
                            TypeFunc::Float => {
                                return Ok(ResultSlot::Float);
                            },
                            TypeFunc::Bool => {
                                return Ok(ResultSlot::Bool);
                            },
                            TypeFunc::Str => {
                                return Ok(ResultSlot::Str);
                            },
                            TypeFunc::Unit => {
                                return Ok(ResultSlot::Unit);
                            },
                            _ => {},
                        }
                    }
                },
                _ => {},
            }
            let mut msg = text("codegen: cannot JIT-execute type ");
            m.push_text(&mut msg);
            proof {
                reveal_strlit("codegen: cannot JIT-execute type ");
            }
            Err(msg)
        },
    }
}

} // verus!
