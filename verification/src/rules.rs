//! What the results of algorithm W satisfy of the typing rules: for each
//! rule that combines the types of subexpressions, the types found, under
//! the substitutions found after them, have the shape that the rule asks.
use vstd::prelude::*;
use crate::ast::{ArithOp, CompOp, Expr, ENode};
use crate::types::{MType, TFun, compose, ctx_apply, CtxView};
use crate::unification::unify_spec;
use crate::soundness::lemma_unify_sound;
use crate::inference::{
    app_rule, arith_rule, comparison_rule, logical_rule, cons_rule, infer_spec, prim, fn_of, list_of, unifies,
};

verus! {

/// A type function application with substitution applied is the type
/// function applied to its arguments with the substitution applied.
pub proof fn lemma_apply_app(f: TFun, ts: Seq<MType>, s: Map<Seq<char>, MType>)
    ensures
        MType::App(f, ts).apply(s) == MType::App(f, Seq::new(ts.len(), |i: int| ts[i].apply(s))),
{
    assert(MType::App(f, ts).apply(s)->App_1 =~= Seq::new(ts.len(), |i: int| ts[i].apply(s)));
}

pub proof fn lemma_apply_fn(a: MType, b: MType, s: Map<Seq<char>, MType>)
    ensures
        fn_of(a, b).apply(s) == fn_of(a.apply(s), b.apply(s)),
{
    lemma_apply_app(TFun::Fn, seq![a, b], s);
    assert(Seq::new(2, |i: int| seq![a, b][i].apply(s)) =~= seq![a.apply(s), b.apply(s)]);
}

proof fn lemma_apply_list(a: MType, s: Map<Seq<char>, MType>)
    ensures
        list_of(a).apply(s) == list_of(a.apply(s)),
{
    lemma_apply_app(TFun::List, seq![a], s);
    assert(Seq::new(1, |i: int| seq![a][i].apply(s)) =~= seq![a.apply(s)]);
}

pub proof fn lemma_apply_prim(f: TFun, s: Map<Seq<char>, MType>)
    ensures
        prim(f).apply(s) == prim(f),
{
    lemma_apply_app(f, Seq::empty(), s);
    assert(Seq::new(0, |i: int| Seq::<MType>::empty()[i].apply(s)) =~= Seq::<MType>::empty());
}

/// A type function application unifies with a primitive type only when it
/// is that type.
pub proof fn lemma_unifies_prim(t: MType, f: TFun)
    requires
        t is App,
        unifies(t, prim(f)),
    ensures
        t == prim(f),
{
    if let MType::App(g, ts) = t {
        assert(g == f);
        assert(ts.len() == 0);
        assert(ts =~= Seq::<MType>::empty());
    }
}

/// Application: the function part's type, under the substitutions found
/// after it, is a function from the argument's type to the result type.
pub proof fn lemma_application_rule(s1: Map<Seq<char>, MType>, t1: MType, s2: Map<Seq<char>, MType>, t2: MType, ret: MType)
    ensures
        app_rule(s1, t1, s2, t2, ret) matches Ok((s, t)) ==> {
            &&& unify_spec(t1.apply(s2), fn_of(t2, ret)) matches Ok(s3)
            &&& s == compose(compose(s1, s2), s3)
            &&& t1.apply(s2).apply(s3) == fn_of(t2.apply(s3), t)
        },
{
    if let Ok(s3) = unify_spec(t1.apply(s2), fn_of(t2, ret)) {
        lemma_unify_sound(t1.apply(s2), fn_of(t2, ret));
        lemma_apply_fn(t2, ret, s3);
    }
}

/// Arithmetic: both operands have the result type under the substitutions
/// found after them, and that type is a type variable or one the operator
/// takes (int, float, and for `+` string).
pub proof fn lemma_arithmetic_rule(op: ArithOp, s1: Map<Seq<char>, MType>, t1: MType, s2: Map<Seq<char>, MType>, t2: MType)
    ensures
        arith_rule(op, s1, t1, s2, t2) matches Ok((s, t)) ==> {
            &&& unify_spec(t1.apply(s2), t2) matches Ok(s3)
            &&& s == compose(compose(s1, s2), s3)
            &&& t1.apply(s2).apply(s3) == t
            &&& t2.apply(s3) == t
            &&& (t is Var || t == prim(TFun::Int) || t == prim(TFun::Float) || (op == ArithOp::Plus && t == prim(TFun::Str)))
        },
{
    if let Ok(s3) = unify_spec(t1.apply(s2), t2) {
        lemma_unify_sound(t1.apply(s2), t2);
        let u = t1.apply(s2).apply(s3);
        if u is App {
            if unifies(u, prim(TFun::Int)) {
                lemma_unifies_prim(u, TFun::Int);
            } else if unifies(u, prim(TFun::Float)) {
                lemma_unifies_prim(u, TFun::Float);
            } else if unifies(u, prim(TFun::Str)) {
                lemma_unifies_prim(u, TFun::Str);
            }
        }
    }
}

/// Comparison: both operands have one type under the substitutions found
/// after them, which is a type variable or one the comparison takes (int,
/// float, and for `==` and `!=` string or bool); the result is bool.
pub proof fn lemma_comparison_rule(op: CompOp, s1: Map<Seq<char>, MType>, t1: MType, s2: Map<Seq<char>, MType>, t2: MType)
    ensures
        comparison_rule(op, s1, t1, s2, t2) matches Ok((s, t)) ==> {
            &&& t == prim(TFun::Bool)
            &&& unify_spec(t1.apply(s2), t2) matches Ok(s3)
            &&& s == compose(compose(s1, s2), s3)
            &&& t1.apply(s2).apply(s3) == t2.apply(s3)
            &&& {
                let u = t2.apply(s3);
                ||| u is Var
                ||| u == prim(TFun::Int)
                ||| u == prim(TFun::Float)
                ||| ((op == CompOp::Eq || op == CompOp::NotEq) && (u == prim(TFun::Str) || u == prim(TFun::Bool)))
            }
        },
{
    if let Ok(s3) = unify_spec(t1.apply(s2), t2) {
        lemma_unify_sound(t1.apply(s2), t2);
        let u = t1.apply(s2).apply(s3);
        if u is App {
            if unifies(u, prim(TFun::Int)) {
                lemma_unifies_prim(u, TFun::Int);
            } else if unifies(u, prim(TFun::Float)) {
                lemma_unifies_prim(u, TFun::Float);
            } else if unifies(u, prim(TFun::Str)) {
                lemma_unifies_prim(u, TFun::Str);
            } else if unifies(u, prim(TFun::Bool)) {
                lemma_unifies_prim(u, TFun::Bool);
            }
        }
    }
}

/// Logical operators: both operands are bool under the substitutions found
/// after them, and so is the result.
pub proof fn lemma_logical_rule(s1: Map<Seq<char>, MType>, t1: MType, s2: Map<Seq<char>, MType>, t2: MType)
    ensures
        logical_rule(s1, t1, s2, t2) matches Ok((s, t)) ==> {
            &&& t == prim(TFun::Bool)
            &&& unify_spec(t1.apply(s2), t2) matches Ok(s3)
            &&& unify_spec(t1.apply(s2).apply(s3), prim(TFun::Bool)) matches Ok(s4)
            &&& s == compose(compose(compose(s1, s2), s3), s4)
            &&& t1.apply(s2).apply(s3).apply(s4) == prim(TFun::Bool)
            &&& t2.apply(s3).apply(s4) == prim(TFun::Bool)
        },
{
    if let Ok(s3) = unify_spec(t1.apply(s2), t2) {
        lemma_unify_sound(t1.apply(s2), t2);
        let u = t1.apply(s2).apply(s3);
        if let Ok(s4) = unify_spec(u, prim(TFun::Bool)) {
            lemma_unify_sound(u, prim(TFun::Bool));
            lemma_apply_prim(TFun::Bool, s4);
        }
    }
}

/// Cons: the tail is, under the substitutions found after it, a list of
/// the head's type, and so is the result.
pub proof fn lemma_cons_rule(s1: Map<Seq<char>, MType>, t1: MType, s2: Map<Seq<char>, MType>, t2: MType)
    ensures
        cons_rule(s1, t1, s2, t2) matches Ok((s, t)) ==> {
            &&& unify_spec(t2, list_of(t1.apply(s2))) matches Ok(s3)
            &&& s == compose(compose(s1, s2), s3)
            &&& t2.apply(s3) == t
            &&& t == list_of(t1.apply(s2).apply(s3))
        },
{
    let elem = t1.apply(s2);
    if let Ok(s3) = unify_spec(t2, list_of(elem)) {
        lemma_unify_sound(t2, list_of(elem));
        lemma_apply_list(elem, s3);
    }
}

/// Conditional: the condition is bool under the substitution found right
/// after it, and the two branches, under the substitutions found after
/// them, have the result type.
pub proof fn lemma_if_rule(c: CtxView, e: Expr)
    requires
        *e.e is IfElse,
    ensures
        infer_spec(c, e).1 matches Ok((s, t)) ==> {
            let (cond, th, el) = ((*e.e)->IfElse_0, (*e.e)->IfElse_1, (*e.e)->IfElse_2);
            let (c1, r1, _) = infer_spec(c, *cond);
            r1 matches Ok((s1, t1)) && unify_spec(t1, prim(TFun::Bool)) matches Ok(s2) && t1.apply(s2) == prim(TFun::Bool) && {
                let (c3, r3, _) = infer_spec(ctx_apply(ctx_apply(c1, s1), s2), *th);
                r3 matches Ok((s3, t3)) && {
                    let (_, r4, _) = infer_spec(ctx_apply(c3, s3), *el);
                    r4 matches Ok((s4, t4)) && unify_spec(t3.apply(s4), t4) matches Ok(s5)
                        && t3.apply(s4).apply(s5) == t && t4.apply(s5) == t
                }
            }
        },
{
    reveal(infer_spec);
    if let ENode::IfElse(cond, th, el) = *e.e {
        let (c1, r1, p1) = infer_spec(c, *cond);
        if let Ok((s1, t1)) = r1 {
            lemma_unify_sound(t1, prim(TFun::Bool));
            if let Ok(s2) = unify_spec(t1, prim(TFun::Bool)) {
                lemma_apply_prim(TFun::Bool, s2);
                let (c3, r3, p3) = infer_spec(ctx_apply(ctx_apply(c1, s1), s2), *th);
                if let Ok((s3, t3)) = r3 {
                    let (c4, r4, p4) = infer_spec(ctx_apply(c3, s3), *el);
                    if let Ok((s4, t4)) = r4 {
                        lemma_unify_sound(t3.apply(s4), t4);
                    }
                }
            }
        }
    }
}

} // verus!
