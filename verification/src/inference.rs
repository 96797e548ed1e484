//! Bottom-up type inference of expressions (algorithm W).
use vstd::prelude::*;
use crate::ast::{Expr, ENode, Stmt, SNode, Lit, ArithOp, CompOp, UnaryOp, LogicalOp, Binding, same_shape, stmt_same_shape, lemma_same_shape_refl, lemma_stmt_same_shape_refl};
use crate::types::{
    Monotype, Polytype, TypeFunc, TypeContext, Substitution, UnificationError, MType, TFun, PType, CtxView,
    compose, gen_bind, typevar_name, ctx_apply, ctx_bind, ctx_restore,
};
use crate::unification::{unify, unify_spec};
use crate::declarations::{expand_spec, with_counter, type_to_typefn};
use crate::debug_text::mtype_text;
use crate::text::{text, push_str};

verus! {

// ---------------------------------------------------------------------------
// Vocabulary
// ---------------------------------------------------------------------------

/// The larger of two counters.
pub open spec fn top(a: nat, b: nat) -> nat {
    if a >= b {
        a
    } else {
        b
    }
}

/// A type function applied to nothing.
pub open spec fn prim(f: TFun) -> MType {
    MType::App(f, Seq::empty())
}

/// The function type from `a` to `b`.
pub open spec fn fn_of(a: MType, b: MType) -> MType {
    MType::App(TFun::Fn, seq![a, b])
}

/// The list type with elements of type `a`.
pub open spec fn list_of(a: MType) -> MType {
    MType::App(TFun::List, seq![a])
}

/// The type variable that the next fresh name of `c` denotes.
pub open spec fn fresh_var(c: CtxView) -> MType {
    MType::Var(typevar_name(c.counter))
}

/// `c` after drawing one fresh name.
pub open spec fn bump(c: CtxView) -> CtxView {
    with_counter(c, c.counter + 1)
}

/// Whether `a` and `b` unify.
pub open spec fn unifies(a: MType, b: MType) -> bool {
    unify_spec(a, b) is Ok
}

/// The result of inference in mathematical form.
pub open spec fn w_result(r: Result<(Substitution, Monotype), UnificationError>) -> Result<(Map<Seq<char>, MType>, MType), Seq<char>> {
    match r {
        Ok((s, t)) => Ok((s@, t@)),
        Err(e) => Err(e.message@),
    }
}

// ---------------------------------------------------------------------------
// Diagnostics
// ---------------------------------------------------------------------------

pub open spec fn undefined_msg(n: Seq<char>) -> Seq<char> {
    "Undefined variable "@ + n + "!"@
}

pub open spec fn char_msg() -> Seq<char> {
    "Char literals have no type"@
}

pub open spec fn match_msg() -> Seq<char> {
    "Match expressions cannot be inferred"@
}

pub open spec fn decl_target_msg() -> Seq<char> {
    "Expected a variable name in declaration"@
}

pub open spec fn block_typedecl_msg() -> Seq<char> {
    "Type declarations are not allowed inside block expressions"@
}

pub open spec fn arith_op_name(op: ArithOp) -> Seq<char> {
    match op {
        ArithOp::Plus => "Plus"@,
        ArithOp::Minus => "Minus"@,
        ArithOp::Div => "Div"@,
        ArithOp::Times => "Times"@,
        ArithOp::Mod => "Mod"@,
    }
}

pub open spec fn plus_msg(t: MType) -> Seq<char> {
    "'+' requires int, float, or string operands, got "@ + mtype_text(t)
}

pub open spec fn numeric_msg(op: ArithOp, t: MType) -> Seq<char> {
    arith_op_name(op) + " requires int or float operands, got "@ + mtype_text(t)
}

pub open spec fn fn_compare_msg() -> Seq<char> {
    "Cannot compare function types"@
}

pub open spec fn equality_msg(op: CompOp) -> Seq<char> {
    "'"@ + (if op == CompOp::Eq { "=="@ } else { "!="@ }) + "' requires int, float, string, or bool operands"@
}

pub open spec fn ordering_msg() -> Seq<char> {
    "Comparison requires int or float operands"@
}

pub open spec fn logical_msg(t: MType) -> Seq<char> {
    "Logical operations require bool operands, got "@ + mtype_text(t)
}

pub open spec fn negate_msg(t: MType) -> Seq<char> {
    "Unary negation requires int or float operand, got "@ + mtype_text(t)
}

// ---------------------------------------------------------------------------
// Typing rules
// ---------------------------------------------------------------------------

/// The type of a literal.
pub open spec fn lit_type(l: Lit) -> Result<MType, Seq<char>> {
    match l {
        Lit::Int(_) => Ok(prim(TFun::Int)),
        Lit::Float(_) => Ok(prim(TFun::Float)),
        Lit::Bool(_) => Ok(prim(TFun::Bool)),
        Lit::Str(_) => Ok(prim(TFun::Str)),
        Lit::Char(_) => Err(char_msg()),
        Lit::Unit => Ok(prim(TFun::Unit)),
    }
}

/// Operand check of an arithmetic operator on the unified operand type: a
/// type variable passes; otherwise `+` needs a type that unifies with int,
/// float or string, and the others one that unifies with int or float.
pub open spec fn arith_check(op: ArithOp, t: MType) -> Result<(), Seq<char>> {
    if t is Var {
        Ok(())
    } else if op == ArithOp::Plus {
        if unifies(t, prim(TFun::Int)) || unifies(t, prim(TFun::Float)) || unifies(t, prim(TFun::Str)) {
            Ok(())
        } else {
            Err(plus_msg(t))
        }
    } else if unifies(t, prim(TFun::Int)) || unifies(t, prim(TFun::Float)) {
        Ok(())
    } else {
        Err(numeric_msg(op, t))
    }
}

/// Operand check of a comparison on the unified operand type: a type
/// variable passes; `==` and `!=` refuse function types and need a type
/// that unifies with int, float, string or bool; the orderings need int or
/// float.
pub open spec fn comparison_check(op: CompOp, t: MType) -> Result<(), Seq<char>> {
    if t is Var {
        Ok(())
    } else if op == CompOp::Eq || op == CompOp::NotEq {
        if t matches MType::App(TFun::Fn, _) {
            Err(fn_compare_msg())
        } else if unifies(t, prim(TFun::Int)) || unifies(t, prim(TFun::Float)) || unifies(t, prim(TFun::Str))
            || unifies(t, prim(TFun::Bool)) {
            Ok(())
        } else {
            Err(equality_msg(op))
        }
    } else if unifies(t, prim(TFun::Int)) || unifies(t, prim(TFun::Float)) {
        Ok(())
    } else {
        Err(ordering_msg())
    }
}

/// Application `f x` once `f : t1` under `s1` and `x : t2` under `s2`:
/// unify `t1` (with `s2` applied) with `t2 -> ret`.
pub open spec fn app_rule(s1: Map<Seq<char>, MType>, t1: MType, s2: Map<Seq<char>, MType>, t2: MType, ret: MType) -> Result<(Map<Seq<char>, MType>, MType), Seq<char>> {
    match unify_spec(t1.apply(s2), fn_of(t2, ret)) {
        Err(m) => Err(m),
        Ok(s3) => Ok((compose(compose(s1, s2), s3), ret.apply(s3))),
    }
}

/// Cons `h :: t`: the tail must be a list of the head's type.
pub open spec fn cons_rule(s1: Map<Seq<char>, MType>, t1: MType, s2: Map<Seq<char>, MType>, t2: MType) -> Result<(Map<Seq<char>, MType>, MType), Seq<char>> {
    let elem = t1.apply(s2);
    match unify_spec(t2, list_of(elem)) {
        Err(m) => Err(m),
        Ok(s3) => Ok((compose(compose(s1, s2), s3), list_of(elem.apply(s3)))),
    }
}

/// Arithmetic: both operands unify to the result type, which must pass
/// `arith_check`. An operand type that is still a type variable is left
/// open: it may yet become int, float or (for `+`) string.
pub open spec fn arith_rule(op: ArithOp, s1: Map<Seq<char>, MType>, t1: MType, s2: Map<Seq<char>, MType>, t2: MType) -> Result<(Map<Seq<char>, MType>, MType), Seq<char>> {
    match unify_spec(t1.apply(s2), t2) {
        Err(m) => Err(m),
        Ok(s3) => {
            let u = t1.apply(s2).apply(s3);
            match arith_check(op, u) {
                Err(m) => Err(m),
                Ok(_) => Ok((compose(compose(s1, s2), s3), u)),
            }
        },
    }
}

/// Comparison: both operands unify, pass `comparison_check`, and the
/// result is bool. An operand type that is still a type variable is left
/// open.
pub open spec fn comparison_rule(op: CompOp, s1: Map<Seq<char>, MType>, t1: MType, s2: Map<Seq<char>, MType>, t2: MType) -> Result<(Map<Seq<char>, MType>, MType), Seq<char>> {
    match unify_spec(t1.apply(s2), t2) {
        Err(m) => Err(m),
        Ok(s3) => {
            let u = t1.apply(s2).apply(s3);
            match comparison_check(op, u) {
                Err(m) => Err(m),
                Ok(_) => Ok((compose(compose(s1, s2), s3), prim(TFun::Bool))),
            }
        },
    }
}

/// Logical operators: both operands unify with each other and with bool.
pub open spec fn logical_rule(s1: Map<Seq<char>, MType>, t1: MType, s2: Map<Seq<char>, MType>, t2: MType) -> Result<(Map<Seq<char>, MType>, MType), Seq<char>> {
    match unify_spec(t1.apply(s2), t2) {
        Err(m) => Err(m),
        Ok(s3) => {
            let u = t1.apply(s2).apply(s3);
            match unify_spec(u, prim(TFun::Bool)) {
                Err(_) => Err(logical_msg(u)),
                Ok(s4) => Ok((compose(compose(compose(s1, s2), s3), s4), prim(TFun::Bool))),
            }
        },
    }
}

/// The unifier of `t` with int, or else with float, if either exists.
pub open spec fn numeric_unifier(t: MType) -> Option<Map<Seq<char>, MType>> {
    match unify_spec(t, prim(TFun::Int)) {
        Ok(s) => Some(s),
        Err(_) => match unify_spec(t, prim(TFun::Float)) {
            Ok(s) => Some(s),
            Err(_) => None,
        },
    }
}

/// Number of statements of a block, or of elements of a list.
pub open spec fn node_len(e: Expr) -> nat {
    match *e.e {
        ENode::Block(ss, _) => ss@.len(),
        ENode::List(es) => es@.len(),
        _ => 0,
    }
}

/// Algorithm W on `e` in context `c`. The outcome is the context afterwards
/// (fresh names drawn, substitutions applied, bindings added and restored),
/// the substitution and type found or the diagnostic, and the highest
/// fresh-name counter reached on the way.
#[verifier::rlimit(60)]
#[verifier::opaque]
pub open spec fn infer_spec(c: CtxView, e: Expr) -> (CtxView, Result<(Map<Seq<char>, MType>, MType), Seq<char>>, nat)
    decreases e, node_len(e) + 1, 0nat,
{
    match *e.e {
        ENode::Variable(name) => if c.vars.contains_key(name@) {
            let p = c.vars[name@];
            let c1 = with_counter(c, c.counter + p.quantifiers());
            (c1, Ok((Map::empty(), p.inst(c.counter, Map::empty()))), c1.counter)
        } else {
            (c, Err(undefined_msg(name@)), c.counter)
        },
        ENode::Literal(lit) => match lit_type(*lit) {
            Ok(t) => (c, Ok((Map::empty(), t)), c.counter),
            Err(m) => (c, Err(m), c.counter),
        },
        ENode::Abstraction(bind, body) => {
            let (n1, r) = expand_spec(bind.1.t@, c.counter, c.aliases, Seq::empty());
            let c1 = with_counter(c, n1);
            match r {
                Err(m) => (c1, Err(m), n1),
                Ok(beta) => {
                    let (c2, r2, p2) = infer_spec(ctx_bind(c1, bind.0@, PType::Mono(beta)), *body);
                    match r2 {
                        Err(m) => (c2, Err(m), top(n1, p2)),
                        Ok((s1, t1)) => (ctx_restore(c2, bind.0@, c1), Ok((s1, fn_of(beta, t1).apply(s1))), top(n1, p2)),
                    }
                },
            }
        },
        ENode::Application(f, x) => {
            let (c1, r1, p1) = infer_spec(c, *f);
            match r1 {
                Err(m) => (c1, Err(m), p1),
                Ok((s1, t1)) => {
                    let (c2, r2, p2) = infer_spec(ctx_apply(c1, s1), *x);
                    match r2 {
                        Err(m) => (c2, Err(m), top(p1, p2)),
                        Ok((s2, t2)) => (bump(c2), app_rule(s1, t1, s2, t2, fresh_var(c2)), top(top(p1, p2), c2.counter + 1)),
                    }
                },
            }
        },
        ENode::Let(name, v, body) => {
            let rec = fresh_var(c);
            let c1 = ctx_bind(bump(c), name@, PType::Mono(rec));
            let (c2, r1, p1) = infer_spec(c1, *v);
            let pk = top(c.counter + 1, p1);
            match r1 {
                Err(m) => (c2, Err(m), pk),
                Ok((s1, t1)) => {
                    let c3 = ctx_apply(c2, s1);
                    match unify_spec(t1, rec.apply(s1)) {
                        Err(m) => (c3, Err(m), pk),
                        Ok(srec) => {
                            let comb = compose(s1, srec);
                            let c4 = ctx_restore(ctx_apply(c3, comb), name@, c);
                            let c5 = gen_bind(c4, name@, t1.apply(srec));
                            let (c6, r2, p2) = infer_spec(c5, *body);
                            let pk2 = top(pk, p2);
                            match r2 {
                                Err(m) => (c6, Err(m), pk2),
                                Ok((s2, t2)) => (c6, Ok((compose(comb, s2), t2)), pk2),
                            }
                        },
                    }
                },
            }
        },
        ENode::IfElse(cond, th, el) => {
            let (c1, r1, p1) = infer_spec(c, *cond);
            match r1 {
                Err(m) => (c1, Err(m), p1),
                Ok((s1, t1)) => match unify_spec(t1, prim(TFun::Bool)) {
                    Err(m) => (c1, Err(m), p1),
                    Ok(s2) => {
                        let (c3, r3, p3) = infer_spec(ctx_apply(ctx_apply(c1, s1), s2), *th);
                        match r3 {
                            Err(m) => (c3, Err(m), top(p1, p3)),
                            Ok((s3, t3)) => {
                                let (c4, r4, p4) = infer_spec(ctx_apply(c3, s3), *el);
                                let pk = top(top(p1, p3), p4);
                                match r4 {
                                    Err(m) => (c4, Err(m), pk),
                                    Ok((s4, t4)) => match unify_spec(t3.apply(s4), t4) {
                                        Err(m) => (c4, Err(m), pk),
                                        Ok(s5) => (
                                            c4,
                                            Ok((compose(compose(compose(compose(s1, s2), s3), s4), s5), t3.apply(s4).apply(s5))),
                                            pk,
                                        ),
                                    },
                                }
                            },
                        }
                    },
                },
            }
        },
        ENode::Block(_, _) => infer_block(c, e, 0, Map::empty(), c.counter),
        ENode::Comparison(op, a, b) => {
            let (c1, r1, p1) = infer_spec(c, *a);
            match r1 {
                Err(m) => (c1, Err(m), p1),
                Ok((s1, t1)) => {
                    let (c2, r2, p2) = infer_spec(ctx_apply(c1, s1), *b);
                    match r2 {
                        Err(m) => (c2, Err(m), top(p1, p2)),
                        Ok((s2, t2)) => (c2, comparison_rule(op, s1, t1, s2, t2), top(p1, p2)),
                    }
                },
            }
        },
        ENode::Arithmetic(op, a, b) => {
            let (c1, r1, p1) = infer_spec(c, *a);
            match r1 {
                Err(m) => (c1, Err(m), p1),
                Ok((s1, t1)) => {
                    let (c2, r2, p2) = infer_spec(ctx_apply(c1, s1), *b);
                    match r2 {
                        Err(m) => (c2, Err(m), top(p1, p2)),
                        Ok((s2, t2)) => (c2, arith_rule(op, s1, t1, s2, t2), top(p1, p2)),
                    }
                },
            }
        },
        ENode::Logical(_, a, b) => {
            let (c1, r1, p1) = infer_spec(c, *a);
            match r1 {
                Err(m) => (c1, Err(m), p1),
                Ok((s1, t1)) => {
                    let (c2, r2, p2) = infer_spec(ctx_apply(c1, s1), *b);
                    match r2 {
                        Err(m) => (c2, Err(m), top(p1, p2)),
                        Ok((s2, t2)) => (c2, logical_rule(s1, t1, s2, t2), top(p1, p2)),
                    }
                },
            }
        },
        ENode::Unary(op, x) => {
            let (c1, r1, p1) = infer_spec(c, *x);
            match r1 {
                Err(m) => (c1, Err(m), p1),
                Ok((s1, t1)) => match op {
                    UnaryOp::Negate => if t1 is Var {
                        (ctx_apply(c1, s1), Ok((s1, t1)), p1)
                    } else {
                        match numeric_unifier(t1) {
                            None => (c1, Err(negate_msg(t1)), p1),
                            Some(s2) => (ctx_apply(c1, compose(s1, s2)), Ok((compose(s1, s2), t1.apply(compose(s1, s2)))), p1),
                        }
                    },
                    UnaryOp::Not => match unify_spec(t1, prim(TFun::Bool)) {
                        Err(m) => (c1, Err(m), p1),
                        Ok(s2) => (ctx_apply(c1, compose(s1, s2)), Ok((compose(s1, s2), prim(TFun::Bool))), p1),
                    },
                },
            }
        },
        ENode::List(es) => if es@.len() == 0 {
            (bump(c), Ok((Map::empty(), list_of(fresh_var(c)))), c.counter + 1)
        } else {
            let (c1, r, p) = infer_spec(c, es@[0]);
            match r {
                Err(m) => (c1, Err(m), p),
                Ok((s0, t0)) => infer_list(ctx_apply(c1, s0), e, 1, s0, t0, p),
            }
        },
        ENode::Cons(h, t) => {
            let (c1, r1, p1) = infer_spec(c, *h);
            match r1 {
                Err(m) => (c1, Err(m), p1),
                Ok((s1, t1)) => {
                    let (c2, r2, p2) = infer_spec(ctx_apply(c1, s1), *t);
                    match r2 {
                        Err(m) => (c2, Err(m), top(p1, p2)),
                        Ok((s2, t2)) => (c2, cons_rule(s1, t1, s2, t2), top(p1, p2)),
                    }
                },
            }
        },
        ENode::Match(_, _) => (c, Err(match_msg()), c.counter),
    }
}

/// The statements of block `e` from position `i` on, then its final
/// expression; `comb` is the substitution gathered so far and `pk` the
/// highest counter reached so far.
pub open spec fn infer_block(c: CtxView, e: Expr, i: int, comb: Map<Seq<char>, MType>, pk: nat) -> (CtxView, Result<(Map<Seq<char>, MType>, MType), Seq<char>>, nat)
    decreases e, node_len(e) - i, 2nat,
{
    match *e.e {
        ENode::Block(ss, tail) => if i < 0 || i >= ss@.len() {
            let (c1, r, p) = infer_spec(c, *tail);
            match r {
                Err(m) => (c1, Err(m), top(pk, p)),
                Ok((s, t)) => (c1, Ok((compose(comb, s), t)), top(pk, p)),
            }
        } else {
            let (c1, r, p1) = stmt_step(c, e, i, comb, pk);
            match r {
                Err(m) => (c1, Err(m), p1),
                Ok(comb1) => infer_block(c1, e, i + 1, comb1, p1),
            }
        },
        _ => (c, Ok((comb, prim(TFun::Unit))), pk),
    }
}

/// Statement `i` of block `e`: a declaration (see `decl_step`), an
/// expression inferred for its substitution only, or a type declaration,
/// which is refused.
pub open spec fn stmt_step(c: CtxView, e: Expr, i: int, comb: Map<Seq<char>, MType>, pk: nat) -> (CtxView, Result<Map<Seq<char>, MType>, Seq<char>>, nat)
    decreases e, node_len(e) - i, 1nat,
{
    match *e.e {
        ENode::Block(ss, _) => if 0 <= i < ss@.len() {
            match *ss@[i].s {
                SNode::Decl(_, _, _) => decl_step(c, e, i, comb, pk),
                SNode::Expr(x) => {
                    let (c1, r, p) = infer_spec(c, *x);
                    let pk1 = top(pk, p);
                    match r {
                        Err(m) => (c1, Err(m), pk1),
                        Ok((s1, _)) => (ctx_apply(c1, s1), Ok(compose(comb, s1)), pk1),
                    }
                },
                SNode::TypeDecl(_, _) => (c, Err(block_typedecl_msg()), pk),
            }
        } else {
            (c, Ok(comb), pk)
        },
        _ => (c, Ok(comb), pk),
    }
}

/// Declaration `let n [: ty] = v;` at position `i` of block `e`: the written
/// type is elaborated and bound to `n` while `v` is inferred; the written
/// type, with everything found applied, must unify with the inferred one;
/// then the previous binding of `n` is restored and `n` is bound to the
/// generalised type. The result is the gathered substitution.
pub open spec fn decl_step(c: CtxView, e: Expr, i: int, comb: Map<Seq<char>, MType>, pk: nat) -> (CtxView, Result<Map<Seq<char>, MType>, Seq<char>>, nat)
    decreases e, node_len(e) - i, 0nat,
{
    match *e.e {
        ENode::Block(ss, _) => if 0 <= i < ss@.len() {
            match *ss@[i].s {
                SNode::Decl(target, ty, v) => match *target.e {
                    ENode::Variable(n) => {
                        let (n1, r) = expand_spec(ty.t@, c.counter, c.aliases, Seq::empty());
                        let c1 = with_counter(c, n1);
                        let pk1 = top(pk, n1);
                        match r {
                            Err(m) => (c1, Err(m), pk1),
                            Ok(bt) => {
                                let (c2, r2, p2) = infer_spec(ctx_bind(c1, n@, PType::Mono(bt)), *v);
                                let pk2 = top(pk1, p2);
                                match r2 {
                                    Err(m) => (c2, Err(m), pk2),
                                    Ok((s1, it)) => {
                                        let c3 = ctx_apply(c2, s1);
                                        let comb1 = compose(comb, s1);
                                        match unify_spec(bt.apply(comb1), it) {
                                            Err(m) => (c3, Err(m), pk2),
                                            Ok(s2) => {
                                                let comb2 = compose(comb1, s2);
                                                let c4 = ctx_restore(ctx_apply(c3, s2), n@, c1);
                                                (gen_bind(c4, n@, bt.apply(comb2)), Ok(comb2), pk2)
                                            },
                                        }
                                    },
                                }
                            },
                        }
                    },
                    _ => (c, Err(decl_target_msg()), pk),
                },
                _ => (c, Ok(comb), pk),
            }
        } else {
            (c, Ok(comb), pk)
        },
        _ => (c, Ok(comb), pk),
    }
}

/// The elements of list `e` from position `i` on; `elem` is the element
/// type found so far.
pub open spec fn infer_list(c: CtxView, e: Expr, i: int, comb: Map<Seq<char>, MType>, elem: MType, pk: nat) -> (CtxView, Result<(Map<Seq<char>, MType>, MType), Seq<char>>, nat)
    decreases e, node_len(e) - i, 0nat,
{
    match *e.e {
        ENode::List(es) => if i < 0 || i >= es@.len() {
            (c, Ok((comb, list_of(elem))), pk)
        } else {
            let (c1, r, p) = infer_spec(c, es@[i]);
            let pk1 = top(pk, p);
            match r {
                Err(m) => (c1, Err(m), pk1),
                Ok((si, ti)) => {
                    let c2 = ctx_apply(c1, si);
                    match unify_spec(elem, ti) {
                        Err(m) => (c2, Err(m), pk1),
                        Ok(su) => infer_list(c2, e, i + 1, compose(compose(comb, si), su), elem.apply(su), pk1),
                    }
                },
            }
        },
        _ => (c, Ok((comb, list_of(elem))), pk),
    }
}

/// The types that algorithm W records when it checks `e` in context `c`:
/// `n` is `e` where every subexpression that W inferred successfully holds
/// the type found for it, in the context in which it was inferred (see
/// `infer_spec`). Subexpressions that W did not reach are not constrained.
pub open spec fn w_annot(c: CtxView, e: Expr, n: Expr) -> bool
    decreases e, node_len(e) + 1, 0nat,
{
    &&& (infer_spec(c, e).1 matches Ok((_, t)) ==> n.typ@ == t)
    &&& match *e.e {
        ENode::Abstraction(b, body) => match *n.e {
            ENode::Abstraction(_, nb) => {
                let (n1, r) = expand_spec(b.1.t@, c.counter, c.aliases, Seq::empty());
                r matches Ok(beta) ==> w_annot(ctx_bind(with_counter(c, n1), b.0@, PType::Mono(beta)), *body, *nb)
            },
            _ => false,
        },
        ENode::Application(a, x) => match *n.e {
            ENode::Application(na, nx) => {
                &&& w_annot(c, *a, *na)
                &&& (infer_spec(c, *a) matches (c1, Ok((s1, _)), _) ==> w_annot(ctx_apply(c1, s1), *x, *nx))
            },
            _ => false,
        },
        ENode::Let(name, v, body) => match *n.e {
            ENode::Let(_, nv, nb) => {
                let rec = fresh_var(c);
                let c1 = ctx_bind(bump(c), name@, PType::Mono(rec));
                &&& w_annot(c1, *v, *nv)
                &&& (infer_spec(c1, *v) matches (c2, Ok((s1, t1)), _) ==> (unify_spec(t1, rec.apply(s1)) matches Ok(srec) ==> {
                    let c4 = ctx_restore(ctx_apply(ctx_apply(c2, s1), compose(s1, srec)), name@, c);
                    w_annot(gen_bind(c4, name@, t1.apply(srec)), *body, *nb)
                }))
            },
            _ => false,
        },
        ENode::IfElse(cond, th, el) => match *n.e {
            ENode::IfElse(ncond, nth, nel) => {
                &&& w_annot(c, *cond, *ncond)
                &&& (infer_spec(c, *cond) matches (c1, Ok((s1, t1)), _) ==> (unify_spec(t1, prim(TFun::Bool)) matches Ok(s2) ==> {
                    let ct = ctx_apply(ctx_apply(c1, s1), s2);
                    &&& w_annot(ct, *th, *nth)
                    &&& (infer_spec(ct, *th) matches (c3, Ok((s3, _)), _) ==> w_annot(ctx_apply(c3, s3), *el, *nel))
                }))
            },
            _ => false,
        },
        ENode::Block(ss, tail) => match *n.e {
            ENode::Block(ns, ntail) => ns@.len() == ss@.len() && block_annot(c, e, ns@, *ntail, 0, Map::empty(), c.counter),
            _ => false,
        },
        ENode::Comparison(_, a, b) => match *n.e {
            ENode::Comparison(_, na, nb) => {
                &&& w_annot(c, *a, *na)
                &&& (infer_spec(c, *a) matches (c1, Ok((s1, _)), _) ==> w_annot(ctx_apply(c1, s1), *b, *nb))
            },
            _ => false,
        },
        ENode::Arithmetic(_, a, b) => match *n.e {
            ENode::Arithmetic(_, na, nb) => {
                &&& w_annot(c, *a, *na)
                &&& (infer_spec(c, *a) matches (c1, Ok((s1, _)), _) ==> w_annot(ctx_apply(c1, s1), *b, *nb))
            },
            _ => false,
        },
        ENode::Logical(_, a, b) => match *n.e {
            ENode::Logical(_, na, nb) => {
                &&& w_annot(c, *a, *na)
                &&& (infer_spec(c, *a) matches (c1, Ok((s1, _)), _) ==> w_annot(ctx_apply(c1, s1), *b, *nb))
            },
            _ => false,
        },
        ENode::Unary(_, x) => match *n.e {
            ENode::Unary(_, nx) => w_annot(c, *x, *nx),
            _ => false,
        },
        ENode::List(es) => match *n.e {
            ENode::List(ns) => {
                &&& ns@.len() == es@.len()
                &&& (es@.len() > 0 ==> {
                    &&& w_annot(c, es@[0], ns@[0])
                    &&& (infer_spec(c, es@[0]) matches (c1, Ok((s0, t0)), p) ==> list_annot(ctx_apply(c1, s0), e, ns@, 1, s0, t0, p))
                })
            },
            _ => false,
        },
        ENode::Cons(h, t) => match *n.e {
            ENode::Cons(nh, nt) => {
                &&& w_annot(c, *h, *nh)
                &&& (infer_spec(c, *h) matches (c1, Ok((s1, _)), _) ==> w_annot(ctx_apply(c1, s1), *t, *nt))
            },
            _ => false,
        },
        _ => true,
    }
}

/// The recorded types of the elements of list `e` from position `i` on,
/// with the state of `infer_list` at that position.
pub open spec fn list_annot(c: CtxView, e: Expr, ns: Seq<Expr>, i: int, comb: Map<Seq<char>, MType>, elem: MType, pk: nat) -> bool
    decreases e, node_len(e) - i, 0nat,
{
    match *e.e {
        ENode::List(es) => if i < 0 || i >= es@.len() || ns.len() != es@.len() {
            true
        } else {
            let (c1, r, p) = infer_spec(c, es@[i]);
            &&& w_annot(c, es@[i], ns[i])
            &&& (r matches Ok((si, ti)) ==> (unify_spec(elem, ti) matches Ok(su) ==> list_annot(
                ctx_apply(c1, si),
                e,
                ns,
                i + 1,
                compose(compose(comb, si), su),
                elem.apply(su),
                top(pk, p),
            )))
        },
        _ => true,
    }
}

/// The recorded types of the statements of block `e` from position `i` on,
/// and of its final expression, with the state of `infer_block` there. A
/// declaration records the types of its value, an expression statement
/// those of its expression.
pub open spec fn block_annot(c: CtxView, e: Expr, ns: Seq<Stmt>, ntail: Expr, i: int, comb: Map<Seq<char>, MType>, pk: nat) -> bool
    decreases e, node_len(e) - i, 1nat,
{
    match *e.e {
        ENode::Block(ss, tail) => if ns.len() != ss@.len() {
            true
        } else if i < 0 || i >= ss@.len() {
            w_annot(c, *tail, ntail)
        } else {
            &&& stmt_annot(c, ss@[i], ns[i])
            &&& (stmt_outcome(c, e, i, comb, pk) matches (c1, Ok(comb1), p1) ==> block_annot(c1, e, ns, ntail, i + 1, comb1, p1))
        },
        _ => true,
    }
}

/// The recorded types of a statement of a block checked in `c`.
pub open spec fn stmt_annot(c: CtxView, s: Stmt, t: Stmt) -> bool
    decreases s, 0nat, 0nat,
{
    match *s.s {
        SNode::Decl(target, ty, v) => match *t.s {
            SNode::Decl(_, _, nv) => match *target.e {
                ENode::Variable(name) => {
                    let (n1, r) = expand_spec(ty.t@, c.counter, c.aliases, Seq::empty());
                    r matches Ok(bt) ==> w_annot(ctx_bind(with_counter(c, n1), name@, PType::Mono(bt)), *v, *nv)
                },
                _ => true,
            },
            _ => false,
        },
        SNode::Expr(x) => match *t.s {
            SNode::Expr(nx) => w_annot(c, *x, *nx),
            _ => false,
        },
        SNode::TypeDecl(_, _) => true,
    }
}

} // verus!

verus! {

/// The recorded types of two operands inferred left to right (see `w_annot`).
pub open spec fn pair_annot(c: CtxView, a: Expr, b: Expr, na: Expr, nb: Expr) -> bool {
    &&& w_annot(c, a, na)
    &&& (infer_spec(c, a) matches (c1, Ok((s1, _)), _) ==> w_annot(ctx_apply(c1, s1), b, nb))
}

/// The recorded types of the body of an abstraction (see `w_annot`).
pub open spec fn abs_annot(c: CtxView, b: Binding, body: Expr, nb: Expr) -> bool {
    let (n1, r) = expand_spec(b.1.t@, c.counter, c.aliases, Seq::empty());
    r matches Ok(beta) ==> w_annot(ctx_bind(with_counter(c, n1), b.0@, PType::Mono(beta)), body, nb)
}

/// The recorded types of the parts of a `let` (see `w_annot`).
pub open spec fn let_annot(c: CtxView, name: Seq<char>, v: Expr, body: Expr, nv: Expr, nb: Expr) -> bool {
    let rec = fresh_var(c);
    let c1 = ctx_bind(bump(c), name, PType::Mono(rec));
    &&& w_annot(c1, v, nv)
    &&& (infer_spec(c1, v) matches (c2, Ok((s1, t1)), _) ==> (unify_spec(t1, rec.apply(s1)) matches Ok(srec) ==> {
        let c4 = ctx_restore(ctx_apply(ctx_apply(c2, s1), compose(s1, srec)), name, c);
        w_annot(gen_bind(c4, name, t1.apply(srec)), body, nb)
    }))
}

/// The recorded types of the parts of a conditional (see `w_annot`).
pub open spec fn if_annot(c: CtxView, cond: Expr, th: Expr, el: Expr, ncond: Expr, nth: Expr, nel: Expr) -> bool {
    &&& w_annot(c, cond, ncond)
    &&& (infer_spec(c, cond) matches (c1, Ok((s1, t1)), _) ==> (unify_spec(t1, prim(TFun::Bool)) matches Ok(s2) ==> {
        let ct = ctx_apply(ctx_apply(c1, s1), s2);
        &&& w_annot(ct, th, nth)
        &&& (infer_spec(ct, th) matches (c3, Ok((s3, _)), _) ==> w_annot(ctx_apply(c3, s3), el, nel))
    }))
}

/// The recorded types of the elements of a list (see `w_annot`).
pub open spec fn elems_annot(c: CtxView, e: Expr, es: Seq<Expr>, ns: Seq<Expr>) -> bool {
    &&& ns.len() == es.len()
    &&& (es.len() > 0 ==> {
        &&& w_annot(c, es[0], ns[0])
        &&& (infer_spec(c, es[0]) matches (c1, Ok((s0, t0)), p) ==> list_annot(ctx_apply(c1, s0), e, ns, 1, s0, t0, p))
    })
}

/// The recorded types of the value of a declaration in a block (see
/// `stmt_annot`).
pub open spec fn decl_annot(c: CtxView, target: Expr, ty: crate::ast::Type, v: Expr, nv: Expr) -> bool {
    match *target.e {
        ENode::Variable(name) => {
            let (n1, r) = expand_spec(ty.t@, c.counter, c.aliases, Seq::empty());
            r matches Ok(bt) ==> w_annot(ctx_bind(with_counter(c, n1), name@, PType::Mono(bt)), v, nv)
        },
        _ => true,
    }
}

/// The first two operands of a binary node, inferred left to right (the
/// second in the context updated by the first).
pub open spec fn operands_spec(c: CtxView, a: Expr, b: Expr) -> (CtxView, Result<(Map<Seq<char>, MType>, MType, Map<Seq<char>, MType>, MType), Seq<char>>, nat) {
    let (c1, r1, p1) = infer_spec(c, a);
    match r1 {
        Err(m) => (c1, Err(m), p1),
        Ok((s1, t1)) => {
            let (c2, r2, p2) = infer_spec(ctx_apply(c1, s1), b);
            match r2 {
                Err(m) => (c2, Err(m), top(p1, p2)),
                Ok((s2, t2)) => (c2, Ok((s1, t1, s2, t2)), top(p1, p2)),
            }
        },
    }
}

pub open spec fn pair_result(r: Result<(Substitution, Monotype, Substitution, Monotype), UnificationError>) -> Result<(Map<Seq<char>, MType>, MType, Map<Seq<char>, MType>, MType), Seq<char>> {
    match r {
        Ok((s1, t1, s2, t2)) => Ok((s1@, t1@, s2@, t2@)),
        Err(e) => Err(e.message@),
    }
}

pub open spec fn check_result(r: Result<(), UnificationError>) -> Result<(), Seq<char>> {
    match r {
        Ok(_) => Ok(()),
        Err(e) => Err(e.message@),
    }
}

pub(crate) fn fn_type(a: Monotype, b: Monotype) -> (r: Monotype)
    ensures
        r@ == fn_of(a@, b@),
{
    let mut v: Vec<Monotype> = Vec::new();
    v.push(a);
    v.push(b);
    proof {
        assert(crate::types::views(v@) =~= seq![a@, b@]);
    }
    Monotype::func(v)
}

pub(crate) fn list_type(a: Monotype) -> (r: Monotype)
    ensures
        r@ == list_of(a@),
{
    let mut v: Vec<Monotype> = Vec::new();
    v.push(a);
    proof {
        assert(crate::types::views(v@) =~= seq![a@]);
    }
    Monotype::list(v)
}

/// Put the binding of `name` back to `prev`, the binding it had in the
/// context `pc`.
pub(crate) fn restore_binding(context: &mut TypeContext, name: &String, prev: Option<Polytype>, Ghost(pc): Ghost<CtxView>)
    requires
        match prev {
            Some(p) => pc.vars.contains_key(name@) && p@ == pc.vars[name@],
            None => !pc.vars.contains_key(name@),
        },
    ensures
        final(context)@ == ctx_restore(old(context)@, name@, pc),
{
    match prev {
        Some(p) => context.add(name.clone(), p),
        None => context.remove(name.as_str()),
    }
}

/// Whether `t` unifies with `u`.
pub(crate) fn unifies_exec(t: &Monotype, u: &Monotype) -> (b: bool)
    ensures
        b == unifies(t@, u@),
{
    match unify(t, u) {
        Ok(_) => true,
        Err(_) => false,
    }
}

pub(crate) fn is_type_var(t: &Monotype) -> (b: bool)
    ensures
        b == (t@ is Var),
{
    match t {
        Monotype::TypeVariable(_) => true,
        Monotype::TypeFuncApplication(_, _) => false,
    }
}

/// See `arith_check`.
pub(crate) fn check_arith(op: &ArithOp, t: &Monotype) -> (r: Result<(), UnificationError>)
    ensures
        check_result(r) == arith_check(*op, t@),
        r matches Err(e) ==> e.pos is None,
{
    if is_type_var(t) {
        return Ok(());
    }
    let numeric = unifies_exec(t, &Monotype::integer()) || unifies_exec(t, &Monotype::float());
    match op {
        ArithOp::Plus => {
            if numeric || unifies_exec(t, &Monotype::string()) {
                Ok(())
            } else {
                let mut msg = text("'+' requires int, float, or string operands, got ");
                t.push_text(&mut msg);
                Err(UnificationError::new(msg))
            }
        },
        _ => {
            if numeric {
                Ok(())
            } else {
                let mut msg = match op {
                    ArithOp::Plus => text("Plus"),
                    ArithOp::Minus => text("Minus"),
                    ArithOp::Div => text("Div"),
                    ArithOp::Times => text("Times"),
                    ArithOp::Mod => text("Mod"),
                };
                push_str(&mut msg, " requires int or float operands, got ");
                t.push_text(&mut msg);
                Err(UnificationError::new(msg))
            }
        },
    }
}

/// See `comparison_check`.
pub(crate) fn check_comparison(op: &CompOp, t: &Monotype) -> (r: Result<(), UnificationError>)
    ensures
        check_result(r) == comparison_check(*op, t@),
        r matches Err(e) ==> e.pos is None,
{
    if is_type_var(t) {
        return Ok(());
    }
    let numeric = unifies_exec(t, &Monotype::integer()) || unifies_exec(t, &Monotype::float());
    let equality = match op {
        CompOp::Eq => true,
        CompOp::NotEq => true,
        _ => false,
    };
    if equality {
        if let Monotype::TypeFuncApplication(f, _) = t {
            if let TypeFunc::Fn = **f {
                return Err(UnificationError::new(text("Cannot compare function types")));
            }
        }
        if numeric || unifies_exec(t, &Monotype::string()) || unifies_exec(t, &Monotype::bool()) {
            Ok(())
        } else {
            let mut msg = text("'");
            match op {
                CompOp::Eq => push_str(&mut msg, "=="),
                _ => push_str(&mut msg, "!="),
            }
            push_str(&mut msg, "' requires int, float, string, or bool operands");
            Err(UnificationError::new(msg))
        }
    } else if numeric {
        Ok(())
    } else {
        Err(UnificationError::new(text("Comparison requires int or float operands")))
    }
}

pub(crate) fn literal_type(lit: &Lit) -> (r: Result<(Substitution, Monotype), UnificationError>)
    ensures
        w_result(r) == (match lit_type(*lit) {
            Ok(t) => Ok((Map::<Seq<char>, MType>::empty(), t)),
            Err(m) => Err(m),
        }),
        r matches Err(e) ==> e.pos is None,
{
    let t = match lit {
        Lit::Int(_) => Monotype::integer(),
        Lit::Float(_) => Monotype::float(),
        Lit::Bool(_) => Monotype::bool(),
        Lit::Str(_) => Monotype::string(),
        Lit::Char(_) => {
            return Err(UnificationError::new(text("Char literals have no type")));
        },
        Lit::Unit => Monotype::unit(),
    };
    Ok((Substitution::new(), t))
}

} // verus!

verus! {

/// Algorithm W with recording: infer the type of `expr` in `context` (see
/// `infer_spec`), recording in the expression and in each subexpression it
/// inferred the type found there (see `w_annot`). The tree keeps its shape.
/// Errors carry no position yet.
pub fn annotate_w(context: &mut TypeContext, expr: &mut Expr) -> (r: Result<(Substitution, Monotype), UnificationError>)
    requires
        infer_spec(old(context)@, *old(expr)).2 <= u32::MAX,
    ensures
        final(context)@ == infer_spec(old(context)@, *old(expr)).0,
        w_result(r) == infer_spec(old(context)@, *old(expr)).1,
        same_shape(*final(expr), *old(expr)),
        r matches Ok((_, t)) ==> final(expr).typ@ == t@,
        w_annot(old(context)@, *old(expr), *final(expr)),
        r matches Err(e) ==> e.pos is None,
    decreases *old(expr), 3nat,
{
    let ghost parent = *expr;
    let r = match &mut *expr.e {
        ENode::Variable(name) => infer_variable(context, Ghost(parent), name),
        ENode::Literal(lit) => infer_literal(context, Ghost(parent), lit),
        ENode::Abstraction(bind, body) => infer_abstraction(context, Ghost(parent), bind, body),
        ENode::Application(f, x) => infer_application(context, Ghost(parent), f, x),
        ENode::Let(name, v, body) => infer_let(context, Ghost(parent), name, v, body),
        ENode::IfElse(cond, th, el) => infer_if(context, Ghost(parent), cond, th, el),
        ENode::Block(stmts, tail) => infer_block_exec(context, Ghost(parent), stmts, tail),
        ENode::Comparison(op, a, b) => infer_comparison(context, Ghost(parent), op, a, b),
        ENode::Arithmetic(op, a, b) => infer_arithmetic(context, Ghost(parent), op, a, b),
        ENode::Logical(op, a, b) => infer_logical(context, Ghost(parent), op, a, b),
        ENode::Unary(op, x) => infer_unary(context, Ghost(parent), op, x),
        ENode::List(es) => infer_list_exec(context, Ghost(parent), es),
        ENode::Cons(h, t) => infer_cons(context, Ghost(parent), h, t),
        ENode::Match(scrutinee, cases) => {
            let ghost g = (*scrutinee, *cases);
            proof {
                lemma_infer_match(context@, parent);
                lemma_same_shape_refl(parent);
            }
            Err(UnificationError::new(text("Match expressions cannot be inferred")))
        },
    };
    if let Ok((_, t)) = &r {
        expr.typ = t.duplicate();
    }
    proof {
        reveal(same_shape);
    }
    r
}

proof fn lemma_infer_match(c: CtxView, e: Expr)
    requires
        *e.e is Match,
    ensures
        infer_spec(c, e) == (c, Err::<(Map<Seq<char>, MType>, MType), Seq<char>>(match_msg()), c.counter),
{
    reveal(infer_spec);
}

fn infer_literal(context: &mut TypeContext, Ghost(parent): Ghost<Expr>, lit: &Lit) -> (r: Result<(Substitution, Monotype), UnificationError>)
    requires
        *parent.e == ENode::Literal(Box::new(*lit)),
    ensures
        final(context)@ == infer_spec(old(context)@, parent).0,
        w_result(r) == infer_spec(old(context)@, parent).1,
        r matches Err(e) ==> e.pos is None,
{
    proof {
        reveal(infer_spec);
    }
    literal_type(lit)
}

fn infer_variable(context: &mut TypeContext, Ghost(parent): Ghost<Expr>, name: &String) -> (r: Result<(Substitution, Monotype), UnificationError>)
    requires
        *parent.e == ENode::Variable(*name),
        infer_spec(old(context)@, parent).2 <= u32::MAX,
    ensures
        final(context)@ == infer_spec(old(context)@, parent).0,
        w_result(r) == infer_spec(old(context)@, parent).1,
        r matches Err(e) ==> e.pos is None,
{
    proof {
        reveal(infer_spec);
    }
    match context.get(name) {
        Some(poly) => {
            let t = poly.instantiate(context, None);
            Ok((Substitution::new(), t))
        },
        None => {
            let mut msg = text("Undefined variable ");
            push_str(&mut msg, name.as_str());
            push_str(&mut msg, "!");
            Err(UnificationError::new(msg))
        },
    }
}

#[verifier::rlimit(30)]
fn infer_abstraction(context: &mut TypeContext, Ghost(parent): Ghost<Expr>, bind: &Binding, body: &mut Expr) -> (r: Result<(Substitution, Monotype), UnificationError>)
    requires
        *parent.e == ENode::Abstraction(Box::new(*bind), Box::new(*old(body))),
        infer_spec(old(context)@, parent).2 <= u32::MAX,
    ensures
        final(context)@ == infer_spec(old(context)@, parent).0,
        w_result(r) == infer_spec(old(context)@, parent).1,
        same_shape(*final(body), *old(body)),
        abs_annot(old(context)@, *bind, *old(body), *final(body)),
        r matches Err(e) ==> e.pos is None,
    decreases parent, 2nat,
{
    proof {
        reveal(infer_spec);
        lemma_same_shape_refl(*body);
    }
    let beta_mon = match type_to_typefn(&bind.1, context) {
        Ok(t) => t,
        Err(e) => {
            return Err(e);
        },
    };
    let ghost c1 = context@;
    let old_binding = context.get(&bind.0);
    context.add(bind.0.clone(), Polytype::Mono(Box::new(beta_mon.duplicate())));
    let (sub1, t1) = match annotate_w(context, body) {
        Ok(p) => p,
        Err(e) => {
            return Err(e);
        },
    };
    restore_binding(context, &bind.0, old_binding, Ghost(c1));
    let beta = fn_type(beta_mon, t1).apply(&sub1);
    Ok((sub1, beta))
}

fn infer_operands(context: &mut TypeContext, Ghost(parent): Ghost<Expr>, a: &mut Expr, b: &mut Expr) -> (r: Result<(Substitution, Monotype, Substitution, Monotype), UnificationError>)
    requires
        decreases_to!(parent => *old(a)),
        decreases_to!(parent => *old(b)),
        operands_spec(old(context)@, *old(a), *old(b)).2 <= u32::MAX,
    ensures
        final(context)@ == operands_spec(old(context)@, *old(a), *old(b)).0,
        pair_result(r) == operands_spec(old(context)@, *old(a), *old(b)).1,
        same_shape(*final(a), *old(a)),
        same_shape(*final(b), *old(b)),
        pair_annot(old(context)@, *old(a), *old(b), *final(a), *final(b)),
        r matches Err(e) ==> e.pos is None,
    decreases parent, 1nat,
{
    proof {
        lemma_same_shape_refl(*b);
    }
    let (s1, t1) = match annotate_w(context, a) {
        Ok(p) => p,
        Err(e) => {
            return Err(e);
        },
    };
    let applied = context.apply(&s1);
    *context = applied;
    let (s2, t2) = match annotate_w(context, b) {
        Ok(p) => p,
        Err(e) => {
            return Err(e);
        },
    };
    Ok((s1, t1, s2, t2))
}

fn infer_application(context: &mut TypeContext, Ghost(parent): Ghost<Expr>, f: &mut Expr, x: &mut Expr) -> (r: Result<(Substitution, Monotype), UnificationError>)
    requires
        *parent.e == ENode::Application(Box::new(*old(f)), Box::new(*old(x))),
        infer_spec(old(context)@, parent).2 <= u32::MAX,
    ensures
        final(context)@ == infer_spec(old(context)@, parent).0,
        w_result(r) == infer_spec(old(context)@, parent).1,
        same_shape(*final(f), *old(f)),
        same_shape(*final(x), *old(x)),
        pair_annot(old(context)@, *old(f), *old(x), *final(f), *final(x)),
        r matches Err(e) ==> e.pos is None,
    decreases parent, 2nat,
{
    proof {
        reveal(infer_spec);
    }
    let (s1, t1, s2, t2) = match infer_operands(context, Ghost(parent), f, x) {
        Ok(q) => q,
        Err(e) => {
            return Err(e);
        },
    };
    let ret = Monotype::var(context.new_typevar());
    let beta = fn_type(t2, ret.duplicate());
    match unify(&t1.apply(&s2), &beta) {
        Err(e) => Err(e),
        Ok(s3) => {
            let rt = ret.apply(&s3);
            Ok((s1.combine(s2).combine(s3), rt))
        },
    }
}

#[verifier::rlimit(30)]
fn infer_let(context: &mut TypeContext, Ghost(parent): Ghost<Expr>, name: &String, v: &mut Expr, body: &mut Expr) -> (r: Result<(Substitution, Monotype), UnificationError>)
    requires
        *parent.e == ENode::Let(*name, Box::new(*old(v)), Box::new(*old(body))),
        infer_spec(old(context)@, parent).2 <= u32::MAX,
    ensures
        final(context)@ == infer_spec(old(context)@, parent).0,
        w_result(r) == infer_spec(old(context)@, parent).1,
        same_shape(*final(v), *old(v)),
        same_shape(*final(body), *old(body)),
        let_annot(old(context)@, name@, *old(v), *old(body), *final(v), *final(body)),
        r matches Err(e) ==> e.pos is None,
    decreases parent, 2nat,
{
    proof {
        reveal(infer_spec);
        lemma_same_shape_refl(*body);
    }
    let rec_var = Monotype::var(context.new_typevar());
    let ghost c1 = context@;
    let old_binding = context.get(name);
    context.add(name.clone(), Polytype::Mono(Box::new(rec_var.duplicate())));
    let (s1, t1) = match annotate_w(context, v) {
        Ok(p) => p,
        Err(e) => {
            return Err(e);
        },
    };
    let applied = context.apply(&s1);
    *context = applied;
    let s_rec = match unify(&t1, &rec_var.apply(&s1)) {
        Ok(s) => s,
        Err(e) => {
            return Err(e);
        },
    };
    let t1r = t1.apply(&s_rec);
    let combined = s1.combine(s_rec);
    let applied = context.apply(&combined);
    *context = applied;
    restore_binding(context, name, old_binding, Ghost(c1));
    let g = context.generalise(&t1r);
    context.add(name.clone(), g);
    let (s2, t2) = match annotate_w(context, body) {
        Ok(p) => p,
        Err(e) => {
            return Err(e);
        },
    };
    Ok((combined.combine(s2), t2))
}

#[verifier::rlimit(30)]
fn infer_if(context: &mut TypeContext, Ghost(parent): Ghost<Expr>, cond: &mut Expr, th: &mut Expr, el: &mut Expr) -> (r: Result<(Substitution, Monotype), UnificationError>)
    requires
        *parent.e == ENode::IfElse(Box::new(*old(cond)), Box::new(*old(th)), Box::new(*old(el))),
        infer_spec(old(context)@, parent).2 <= u32::MAX,
    ensures
        final(context)@ == infer_spec(old(context)@, parent).0,
        w_result(r) == infer_spec(old(context)@, parent).1,
        same_shape(*final(cond), *old(cond)),
        same_shape(*final(th), *old(th)),
        same_shape(*final(el), *old(el)),
        if_annot(old(context)@, *old(cond), *old(th), *old(el), *final(cond), *final(th), *final(el)),
        r matches Err(e) ==> e.pos is None,
    decreases parent, 2nat,
{
    proof {
        reveal(infer_spec);
        lemma_same_shape_refl(*th);
        lemma_same_shape_refl(*el);
    }
    let (s1, t1) = match annotate_w(context, cond) {
        Ok(p) => p,
        Err(e) => {
            return Err(e);
        },
    };
    let s2 = match unify(&t1, &Monotype::bool()) {
        Ok(s) => s,
        Err(e) => {
            return Err(e);
        },
    };
    let applied = context.apply(&s1).apply(&s2);
    *context = applied;
    let (s3, t3) = match annotate_w(context, th) {
        Ok(p) => p,
        Err(e) => {
            return Err(e);
        },
    };
    let applied = context.apply(&s3);
    *context = applied;
    let (s4, t4) = match annotate_w(context, el) {
        Ok(p) => p,
        Err(e) => {
            return Err(e);
        },
    };
    let t3a = t3.apply(&s4);
    let s5 = match unify(&t3a, &t4) {
        Ok(s) => s,
        Err(e) => {
            return Err(e);
        },
    };
    let rt = t3a.apply(&s5);
    Ok((s1.combine(s2).combine(s3).combine(s4).combine(s5), rt))
}

fn infer_comparison(context: &mut TypeContext, Ghost(parent): Ghost<Expr>, op: &CompOp, a: &mut Expr, b: &mut Expr) -> (r: Result<(Substitution, Monotype), UnificationError>)
    requires
        *parent.e == ENode::Comparison(*op, Box::new(*old(a)), Box::new(*old(b))),
        infer_spec(old(context)@, parent).2 <= u32::MAX,
    ensures
        final(context)@ == infer_spec(old(context)@, parent).0,
        w_result(r) == infer_spec(old(context)@, parent).1,
        same_shape(*final(a), *old(a)),
        same_shape(*final(b), *old(b)),
        pair_annot(old(context)@, *old(a), *old(b), *final(a), *final(b)),
        r matches Err(e) ==> e.pos is None,
    decreases parent, 2nat,
{
    proof {
        reveal(infer_spec);
    }
    let (s1, t1, s2, t2) = match infer_operands(context, Ghost(parent), a, b) {
        Ok(q) => q,
        Err(e) => {
            return Err(e);
        },
    };
    let t1a = t1.apply(&s2);
    let s3 = match unify(&t1a, &t2) {
        Ok(s) => s,
        Err(e) => {
            return Err(e);
        },
    };
    let u = t1a.apply(&s3);
    match check_comparison(op, &u) {
        Ok(()) => {},
        Err(e) => {
            return Err(e);
        },
    }
    Ok((s1.combine(s2).combine(s3), Monotype::bool()))
}

fn infer_arithmetic(context: &mut TypeContext, Ghost(parent): Ghost<Expr>, op: &ArithOp, a: &mut Expr, b: &mut Expr) -> (r: Result<(Substitution, Monotype), UnificationError>)
    requires
        *parent.e == ENode::Arithmetic(*op, Box::new(*old(a)), Box::new(*old(b))),
        infer_spec(old(context)@, parent).2 <= u32::MAX,
    ensures
        final(context)@ == infer_spec(old(context)@, parent).0,
        w_result(r) == infer_spec(old(context)@, parent).1,
        same_shape(*final(a), *old(a)),
        same_shape(*final(b), *old(b)),
        pair_annot(old(context)@, *old(a), *old(b), *final(a), *final(b)),
        r matches Err(e) ==> e.pos is None,
    decreases parent, 2nat,
{
    proof {
        reveal(infer_spec);
    }
    let (s1, t1, s2, t2) = match infer_operands(context, Ghost(parent), a, b) {
        Ok(q) => q,
        Err(e) => {
            return Err(e);
        },
    };
    let t1a = t1.apply(&s2);
    let s3 = match unify(&t1a, &t2) {
        Ok(s) => s,
        Err(e) => {
            return Err(e);
        },
    };
    let u = t1a.apply(&s3);
    match check_arith(op, &u) {
        Ok(()) => {},
        Err(e) => {
            return Err(e);
        },
    }
    Ok((s1.combine(s2).combine(s3), u))
}

fn infer_logical(context: &mut TypeContext, Ghost(parent): Ghost<Expr>, op: &LogicalOp, a: &mut Expr, b: &mut Expr) -> (r: Result<(Substitution, Monotype), UnificationError>)
    requires
        *parent.e == ENode::Logical(*op, Box::new(*old(a)), Box::new(*old(b))),
        infer_spec(old(context)@, parent).2 <= u32::MAX,
    ensures
        final(context)@ == infer_spec(old(context)@, parent).0,
        w_result(r) == infer_spec(old(context)@, parent).1,
        same_shape(*final(a), *old(a)),
        same_shape(*final(b), *old(b)),
        pair_annot(old(context)@, *old(a), *old(b), *final(a), *final(b)),
        r matches Err(e) ==> e.pos is None,
    decreases parent, 2nat,
{
    proof {
        reveal(infer_spec);
    }
    let (s1, t1, s2, t2) = match infer_operands(context, Ghost(parent), a, b) {
        Ok(q) => q,
        Err(e) => {
            return Err(e);
        },
    };
    let t1a = t1.apply(&s2);
    let s3 = match unify(&t1a, &t2) {
        Ok(s) => s,
        Err(e) => {
            return Err(e);
        },
    };
    let u = t1a.apply(&s3);
    let s4 = match unify(&u, &Monotype::bool()) {
        Ok(s) => s,
        Err(_) => {
            let mut msg = text("Logical operations require bool operands, got ");
            u.push_text(&mut msg);
            return Err(UnificationError::new(msg));
        },
    };
    Ok((s1.combine(s2).combine(s3).combine(s4), Monotype::bool()))
}

fn infer_cons(context: &mut TypeContext, Ghost(parent): Ghost<Expr>, h: &mut Expr, t: &mut Expr) -> (r: Result<(Substitution, Monotype), UnificationError>)
    requires
        *parent.e == ENode::Cons(Box::new(*old(h)), Box::new(*old(t))),
        infer_spec(old(context)@, parent).2 <= u32::MAX,
    ensures
        final(context)@ == infer_spec(old(context)@, parent).0,
        w_result(r) == infer_spec(old(context)@, parent).1,
        same_shape(*final(h), *old(h)),
        same_shape(*final(t), *old(t)),
        pair_annot(old(context)@, *old(h), *old(t), *final(h), *final(t)),
        r matches Err(e) ==> e.pos is None,
    decreases parent, 2nat,
{
    proof {
        reveal(infer_spec);
    }
    let (s1, t1, s2, t2) = match infer_operands(context, Ghost(parent), h, t) {
        Ok(q) => q,
        Err(e) => {
            return Err(e);
        },
    };
    let elem = t1.apply(&s2);
    let s3 = match unify(&t2, &list_type(elem.duplicate())) {
        Ok(s) => s,
        Err(e) => {
            return Err(e);
        },
    };
    let rt = list_type(elem.apply(&s3));
    Ok((s1.combine(s2).combine(s3), rt))
}

fn infer_unary(context: &mut TypeContext, Ghost(parent): Ghost<Expr>, op: &UnaryOp, x: &mut Expr) -> (r: Result<(Substitution, Monotype), UnificationError>)
    requires
        *parent.e == ENode::Unary(*op, Box::new(*old(x))),
        infer_spec(old(context)@, parent).2 <= u32::MAX,
    ensures
        final(context)@ == infer_spec(old(context)@, parent).0,
        w_result(r) == infer_spec(old(context)@, parent).1,
        same_shape(*final(x), *old(x)),
        w_annot(old(context)@, *old(x), *final(x)),
        r matches Err(e) ==> e.pos is None,
    decreases parent, 2nat,
{
    proof {
        reveal(infer_spec);
    }
    let (s1, t1) = match annotate_w(context, x) {
        Ok(p) => p,
        Err(e) => {
            return Err(e);
        },
    };
    match op {
        UnaryOp::Negate => {
            if is_type_var(&t1) {
                let applied = context.apply(&s1);
                *context = applied;
                return Ok((s1, t1));
            }
            let s2 = match unify(&t1, &Monotype::integer()) {
                Ok(s) => s,
                Err(_) => match unify(&t1, &Monotype::float()) {
                    Ok(s) => s,
                    Err(_) => {
                        let mut msg = text("Unary negation requires int or float operand, got ");
                        t1.push_text(&mut msg);
                        return Err(UnificationError::new(msg));
                    },
                },
            };
            let s3 = s1.combine(s2);
            let applied = context.apply(&s3);
            *context = applied;
            let rt = t1.apply(&s3);
            Ok((s3, rt))
        },
        UnaryOp::Not => {
            let s2 = match unify(&t1, &Monotype::bool()) {
                Ok(s) => s,
                Err(e) => {
                    return Err(e);
                },
            };
            let s3 = s1.combine(s2);
            let applied = context.apply(&s3);
            *context = applied;
            Ok((s3, Monotype::bool()))
        },
    }
}

/// The rest of a block from statement `i` on (see `infer_block`), kept
/// folded where loops reason about it.
#[verifier::opaque]
pub open spec fn block_rest(c: CtxView, e: Expr, i: int, comb: Map<Seq<char>, MType>, pk: nat) -> (CtxView, Result<(Map<Seq<char>, MType>, MType), Seq<char>>, nat) {
    infer_block(c, e, i, comb, pk)
}

/// Statement `i` of block `e` (see `stmt_step`), kept folded.
#[verifier::opaque]
pub open spec fn stmt_outcome(c: CtxView, e: Expr, i: int, comb: Map<Seq<char>, MType>, pk: nat) -> (CtxView, Result<Map<Seq<char>, MType>, Seq<char>>, nat) {
    stmt_step(c, e, i, comb, pk)
}

proof fn lemma_stmt_outcome(c: CtxView, e: Expr, i: int, comb: Map<Seq<char>, MType>, pk: nat)
    requires
        *e.e is Block,
        0 <= i < (*e.e)->Block_0@.len(),
    ensures
        stmt_outcome(c, e, i, comb, pk) == (match *(*e.e)->Block_0@[i].s {
            SNode::Decl(_, _, _) => decl_step(c, e, i, comb, pk),
            SNode::Expr(x) => {
                let (c1, r, p) = infer_spec(c, *x);
                let pk1 = top(pk, p);
                match r {
                    Err(m) => (c1, Err(m), pk1),
                    Ok((s1, _)) => (ctx_apply(c1, s1), Ok(compose(comb, s1)), pk1),
                }
            },
            SNode::TypeDecl(_, _) => (c, Err(block_typedecl_msg()), pk),
        }),
{
    reveal(infer_spec);
    reveal(stmt_outcome);
}

proof fn lemma_block_arm(c: CtxView, e: Expr)
    requires
        *e.e is Block,
    ensures
        infer_spec(c, e) == block_rest(c, e, 0, Map::empty(), c.counter),
{
    reveal(infer_spec);
    reveal(block_rest);
}

proof fn lemma_list_arm(c: CtxView, e: Expr)
    requires
        *e.e is List,
    ensures
        infer_spec(c, e) == (if (*e.e)->List_0@.len() == 0 {
            (bump(c), Ok((Map::<Seq<char>, MType>::empty(), list_of(fresh_var(c)))), c.counter + 1)
        } else {
            let (c1, r, p) = infer_spec(c, (*e.e)->List_0@[0]);
            match r {
                Err(m) => (c1, Err(m), p),
                Ok((s0, t0)) => infer_list(ctx_apply(c1, s0), e, 1, s0, t0, p),
            }
        }),
{
    reveal(infer_spec);
}

proof fn lemma_list_step(c: CtxView, e: Expr, i: int, comb: Map<Seq<char>, MType>, elem: MType, pk: nat)
    requires
        *e.e is List,
        0 <= i < (*e.e)->List_0@.len(),
    ensures
        infer_list(c, e, i, comb, elem, pk) == ({
            let (c1, r, p) = infer_spec(c, (*e.e)->List_0@[i]);
            let pk1 = top(pk, p);
            match r {
                Err(m) => (c1, Err(m), pk1),
                Ok((si, ti)) => {
                    let c2 = ctx_apply(c1, si);
                    match unify_spec(elem, ti) {
                        Err(m) => (c2, Err(m), pk1),
                        Ok(su) => infer_list(c2, e, i + 1, compose(compose(comb, si), su), elem.apply(su), pk1),
                    }
                },
            }
        }),
{
    reveal(infer_spec);
}

proof fn lemma_list_end(c: CtxView, e: Expr, i: int, comb: Map<Seq<char>, MType>, elem: MType, pk: nat)
    requires
        *e.e is List,
        i >= (*e.e)->List_0@.len(),
    ensures
        infer_list(c, e, i, comb, elem, pk) == (c, Ok::<(Map<Seq<char>, MType>, MType), Seq<char>>((comb, list_of(elem))), pk),
{
    reveal(infer_spec);
}

proof fn lemma_block_end(c: CtxView, e: Expr, i: int, comb: Map<Seq<char>, MType>, pk: nat)
    requires
        *e.e is Block,
        i >= (*e.e)->Block_0@.len(),
    ensures
        block_rest(c, e, i, comb, pk) == ({
            let (c1, r, p) = infer_spec(c, *(*e.e)->Block_1);
            match r {
                Err(m) => (c1, Err(m), top(pk, p)),
                Ok((s, t)) => (c1, Ok((compose(comb, s), t)), top(pk, p)),
            }
        }),
{
    reveal(infer_spec);
    reveal(block_rest);
}

proof fn lemma_block_step(c: CtxView, e: Expr, i: int, comb: Map<Seq<char>, MType>, pk: nat)
    requires
        *e.e is Block,
        0 <= i < (*e.e)->Block_0@.len(),
    ensures
        block_rest(c, e, i, comb, pk) == (match stmt_outcome(c, e, i, comb, pk) {
            (c1, Err(m), p1) => (c1, Err(m), p1),
            (c1, Ok(comb1), p1) => block_rest(c1, e, i + 1, comb1, p1),
        }),
        block_rest(c, e, i, comb, pk).2 >= stmt_outcome(c, e, i, comb, pk).2,
{
    reveal(infer_spec);
    reveal(block_rest);
    reveal(stmt_outcome);
    let (c1, r, p1) = stmt_step(c, e, i, comb, pk);
    if let Ok(comb1) = r {
        lemma_block_peak(c1, e, i + 1, comb1, p1);
    }
}

proof fn lemma_decl_peak(c: CtxView, e: Expr, i: int, comb: Map<Seq<char>, MType>, pk: nat)
    ensures
        decl_step(c, e, i, comb, pk).2 >= pk,
{
    reveal(infer_spec);
}

/// The highest counter of a block's rest is at least the one reached so far.
proof fn lemma_block_peak(c: CtxView, e: Expr, i: int, comb: Map<Seq<char>, MType>, pk: nat)
    ensures
        infer_block(c, e, i, comb, pk).2 >= pk,
    decreases node_len(e) - i,
{
    reveal(infer_spec);
    if let ENode::Block(ss, _) = *e.e {
        if 0 <= i < ss@.len() {
            lemma_decl_peak(c, e, i, comb, pk);
            let (c1, r, p1) = stmt_step(c, e, i, comb, pk);
            if let Ok(comb1) = r {
                lemma_block_peak(c1, e, i + 1, comb1, p1);
            }
        }
    }
}

/// The highest counter of a list's rest is at least the one reached so far.
proof fn lemma_list_peak(c: CtxView, e: Expr, i: int, comb: Map<Seq<char>, MType>, elem: MType, pk: nat)
    ensures
        infer_list(c, e, i, comb, elem, pk).2 >= pk,
    decreases node_len(e) - i,
{
    reveal(infer_spec);
    if let ENode::List(es) = *e.e {
        if 0 <= i < es@.len() {
            let (c1, r, p) = infer_spec(c, es@[i]);
            if let Ok((si, ti)) = r {
                let c2 = ctx_apply(c1, si);
                if let Ok(su) = unify_spec(elem, ti) {
                    lemma_list_peak(c2, e, i + 1, compose(compose(comb, si), su), elem.apply(su), top(pk, p));
                    assert(infer_list(c, e, i, comb, elem, pk) == infer_list(c2, e, i + 1, compose(compose(comb, si), su), elem.apply(su), top(pk, p)));
                } else {
                    assert(infer_list(c, e, i, comb, elem, pk).2 == top(pk, p));
                }
            } else {
                assert(infer_list(c, e, i, comb, elem, pk).2 == top(pk, p));
            }
        } else {
            assert(infer_list(c, e, i, comb, elem, pk).2 == pk);
        }
    } else {
        assert(infer_list(c, e, i, comb, elem, pk).2 == pk);
    }
}

#[verifier::rlimit(30)]
proof fn lemma_list_annot_step(c: CtxView, e: Expr, ns: Seq<Expr>, i: int, comb: Map<Seq<char>, MType>, elem: MType, pk: nat)
    requires
        *e.e is List,
        0 <= i < (*e.e)->List_0@.len(),
        ns.len() == (*e.e)->List_0@.len(),
    ensures
        list_annot(c, e, ns, i, comb, elem, pk) == ({
            let es = (*e.e)->List_0@;
            let (c1, r, p) = infer_spec(c, es[i]);
            &&& w_annot(c, es[i], ns[i])
            &&& (r matches Ok((si, ti)) ==> (unify_spec(elem, ti) matches Ok(su) ==> list_annot(
                ctx_apply(c1, si),
                e,
                ns,
                i + 1,
                compose(compose(comb, si), su),
                elem.apply(su),
                top(pk, p),
            )))
        }),
{
    
}

proof fn lemma_list_annot_end(c: CtxView, e: Expr, ns: Seq<Expr>, i: int, comb: Map<Seq<char>, MType>, elem: MType, pk: nat)
    requires
        *e.e is List,
        i >= (*e.e)->List_0@.len(),
    ensures
        list_annot(c, e, ns, i, comb, elem, pk),
{
    
}

proof fn lemma_block_annot_step(c: CtxView, e: Expr, ns: Seq<Stmt>, nt: Expr, i: int, comb: Map<Seq<char>, MType>, pk: nat)
    requires
        *e.e is Block,
        0 <= i < (*e.e)->Block_0@.len(),
        ns.len() == (*e.e)->Block_0@.len(),
    ensures
        block_annot(c, e, ns, nt, i, comb, pk) == ({
            &&& stmt_annot(c, (*e.e)->Block_0@[i], ns[i])
            &&& (stmt_outcome(c, e, i, comb, pk) matches (c1, Ok(comb1), p1) ==> block_annot(c1, e, ns, nt, i + 1, comb1, p1))
        }),
{
    
}

proof fn lemma_block_annot_end(c: CtxView, e: Expr, ns: Seq<Stmt>, nt: Expr, i: int, comb: Map<Seq<char>, MType>, pk: nat)
    requires
        *e.e is Block,
        i >= (*e.e)->Block_0@.len(),
        ns.len() == (*e.e)->Block_0@.len(),
    ensures
        block_annot(c, e, ns, nt, i, comb, pk) == w_annot(c, *(*e.e)->Block_1, nt),
{
    
}

fn infer_list_exec(context: &mut TypeContext, Ghost(parent): Ghost<Expr>, es: &mut Vec<Expr>) -> (r: Result<(Substitution, Monotype), UnificationError>)
    requires
        *parent.e == ENode::List(*old(es)),
        infer_spec(old(context)@, parent).2 <= u32::MAX,
    ensures
        final(context)@ == infer_spec(old(context)@, parent).0,
        w_result(r) == infer_spec(old(context)@, parent).1,
        final(es)@.len() == old(es)@.len(),
        forall|j: int| 0 <= j < old(es)@.len() ==> same_shape(#[trigger] final(es)@[j], old(es)@[j]),
        elems_annot(old(context)@, parent, old(es)@, final(es)@),
        r matches Err(e) ==> e.pos is None,
    decreases parent, 2nat,
{
    let ghost c0 = context@;
    let ghost olds = es@;
    proof {
        lemma_list_arm(c0, parent);
        assert forall|j: int| 0 <= j < olds.len() implies same_shape(#[trigger] olds[j], olds[j]) by {
            lemma_same_shape_refl(olds[j]);
        }
        assert forall|c: CtxView, i: int, comb: Map<Seq<char>, MType>, elem: MType, pk: nat|
            #[trigger] infer_list(c, parent, i, comb, elem, pk).2 >= pk by {
            lemma_list_peak(c, parent, i, comb, elem, pk);
        }
    }
    if es.len() == 0 {
        let tv = Monotype::var(context.new_typevar());
        return Ok((Substitution::new(), list_type(tv)));
    }
    let (s0, t0) = match annotate_w(context, &mut es[0]) {
        Ok(p) => p,
        Err(e) => {
            return Err(e);
        },
    };
    let ghost pk0 = infer_spec(c0, olds[0]).2;
    let applied = context.apply(&s0);
    *context = applied;
    let ghost cstart = context@;
    let ghost s0v = s0@;
    let ghost t0v = t0@;
    let mut combined = s0;
    let mut elem = t0;
    let ghost mut pk: nat = pk0;
    let mut i: usize = 1;
    while i < es.len()
        invariant
            w_annot(c0, olds[0], es@[0]),
            infer_spec(c0, olds[0]) == (infer_spec(c0, olds[0]).0, Ok::<(Map<Seq<char>, MType>, MType), Seq<char>>((s0v, t0v)), pk0),
            cstart == ctx_apply(infer_spec(c0, olds[0]).0, s0v),
            forall|ns: Seq<Expr>|
                #[trigger] list_annot(context@, parent, ns, i as int, combined@, elem@, pk) && ns.len() == olds.len()
                    && (forall|j: int| 0 <= j < i ==> ns[j] == es@[j])
                    ==> list_annot(cstart, parent, ns, 1, s0v, t0v, pk0),
            olds == old(es)@,
            c0 == old(context)@,
            es@.len() == olds.len(),
            1 <= i <= olds.len(),
            forall|j: int| 0 <= j < olds.len() ==> same_shape(#[trigger] olds[j], olds[j]),
            forall|j: int| 0 <= j < i ==> same_shape(#[trigger] es@[j], olds[j]),
            forall|j: int| i <= j < olds.len() ==> #[trigger] es@[j] == olds[j],
            forall|j: int| 0 <= j < olds.len() ==> decreases_to!(parent => olds[j]),
            forall|c: CtxView, i: int, comb: Map<Seq<char>, MType>, elem: MType, pk: nat|
                #[trigger] infer_list(c, parent, i, comb, elem, pk).2 >= pk,
            *parent.e == ENode::List(*old(es)),
            infer_spec(c0, parent) == infer_list(context@, parent, i as int, combined@, elem@, pk),
            infer_spec(c0, parent).2 <= u32::MAX,
        decreases olds.len() - i,
    {
        let ghost ci = context@;
        let ghost combi = combined@;
        let ghost elemi = elem@;
        let ghost pkb = pk;
        let ghost before = es@;
        proof {
            lemma_list_step(ci, parent, i as int, combined@, elem@, pk);
        }
        let ghost pki = infer_spec(ci, olds[i as int]).2;
        let (si, ti) = match annotate_w(context, &mut es[i]) {
            Ok(p) => p,
            Err(e) => {
                proof {
                    lemma_list_annot_step(ci, parent, es@, i as int, combi, elemi, pkb);
                    assert forall|j: int| 0 <= j < i implies es@[j] == before[j] by {}
                }
                return Err(e);
            },
        };
        let applied = context.apply(&si);
        *context = applied;
        combined = combined.combine(si);
        let su = match unify(&elem, &ti) {
            Ok(s) => s,
            Err(e) => {
                proof {
                    lemma_list_annot_step(ci, parent, es@, i as int, combi, elemi, pkb);
                    assert forall|j: int| 0 <= j < i implies es@[j] == before[j] by {}
                }
                return Err(e);
            },
        };
        elem = elem.apply(&su);
        combined = combined.combine(su);
        proof {
            pk = top(pk, pki);
            assert forall|ns: Seq<Expr>|
                #[trigger] list_annot(context@, parent, ns, i + 1, combined@, elem@, pk) && ns.len() == olds.len()
                    && (forall|j: int| 0 <= j < i + 1 ==> ns[j] == es@[j])
                    implies list_annot(cstart, parent, ns, 1, s0v, t0v, pk0) by {
                lemma_list_annot_step(ci, parent, ns, i as int, combi, elemi, pkb);
                assert forall|j: int| 0 <= j < i implies ns[j] == before[j] by {}
                assert(list_annot(ci, parent, ns, i as int, combi, elemi, pkb));
            }
        }
        i = i + 1;
    }
    proof {
        lemma_list_end(context@, parent, i as int, combined@, elem@, pk);
        lemma_list_annot_end(context@, parent, es@, i as int, combined@, elem@, pk);
    }
    Ok((combined, list_type(elem)))
}

fn infer_block_exec(context: &mut TypeContext, Ghost(parent): Ghost<Expr>, stmts: &mut Vec<Stmt>, tail: &mut Expr) -> (r: Result<(Substitution, Monotype), UnificationError>)
    requires
        *parent.e == ENode::Block(*old(stmts), Box::new(*old(tail))),
        infer_spec(old(context)@, parent).2 <= u32::MAX,
    ensures
        final(context)@ == infer_spec(old(context)@, parent).0,
        w_result(r) == infer_spec(old(context)@, parent).1,
        final(stmts)@.len() == old(stmts)@.len(),
        forall|j: int| 0 <= j < old(stmts)@.len() ==> stmt_same_shape(#[trigger] final(stmts)@[j], old(stmts)@[j]),
        same_shape(*final(tail), *old(tail)),
        block_annot(old(context)@, parent, final(stmts)@, *final(tail), 0, Map::empty(), old(context)@.counter),
        r matches Err(e) ==> e.pos is None,
    decreases parent, 2nat,
{
    let ghost c0 = context@;
    let ghost olds = stmts@;

    proof {
        lemma_block_arm(c0, parent);
        lemma_same_shape_refl(*tail);
        assert forall|j: int| 0 <= j < olds.len() implies stmt_same_shape(#[trigger] olds[j], olds[j]) by {
            lemma_stmt_same_shape_refl(olds[j]);
        }
        assert forall|j: int| 0 <= j < olds.len() implies decreases_to!(parent => olds[j]) by {
            let ss = (*parent.e)->Block_0;
            assert(decreases_to!(parent => ss));
            assert(decreases_to!(ss => ss@));
            assert(decreases_to!(ss@ => ss@[j]));
        }
    }
    let mut combined = Substitution::new();
    let ghost mut pk: nat = c0.counter;
    let mut i: usize = 0;
    while i < stmts.len()
        invariant
            olds == old(stmts)@,
            c0 == old(context)@,
            stmts@.len() == olds.len(),
            0 <= i <= olds.len(),
            *tail == *old(tail),
            same_shape(*old(tail), *old(tail)),
            forall|j: int| 0 <= j < olds.len() ==> decreases_to!(parent => olds[j]),
            forall|j: int| 0 <= j < olds.len() ==> stmt_same_shape(#[trigger] olds[j], olds[j]),
            forall|j: int| 0 <= j < i ==> stmt_same_shape(#[trigger] stmts@[j], olds[j]),
            forall|j: int| i <= j < olds.len() ==> #[trigger] stmts@[j] == olds[j],
            *parent.e == ENode::Block(*old(stmts), Box::new(*old(tail))),
            infer_spec(c0, parent) == block_rest(context@, parent, i as int, combined@, pk),
            infer_spec(c0, parent).2 <= u32::MAX,
            forall|ns: Seq<Stmt>, nt: Expr|
                #[trigger] block_annot(context@, parent, ns, nt, i as int, combined@, pk) && ns.len() == olds.len()
                    && (forall|j: int| 0 <= j < i ==> ns[j] == stmts@[j])
                    ==> block_annot(c0, parent, ns, nt, 0, Map::empty(), c0.counter),
        decreases olds.len() - i,
    {
        let ghost ci = context@;
        let ghost combi = combined@;
        let ghost pkb = pk;
        let ghost before = stmts@;
        let ghost st = stmt_outcome(ci, parent, i as int, combined@, pk);
        proof {
            lemma_block_step(ci, parent, i as int, combined@, pk);
        }
        combined = match infer_stmt(context, Ghost(parent), Ghost(i as int), Ghost(pk), combined, &mut stmts[i]) {
            Ok(s) => s,
            Err(e) => {
                proof {
                    assert forall|nt: Expr| #[trigger] block_annot(c0, parent, stmts@, nt, 0, Map::empty(), c0.counter) by {
                        lemma_block_annot_step(ci, parent, stmts@, nt, i as int, combi, pkb);
                        assert forall|j: int| 0 <= j < i implies stmts@[j] == before[j] by {}
                        assert(block_annot(ci, parent, stmts@, nt, i as int, combi, pkb));
                    }
                }
                return Err(e);
            },
        };
        proof {
            pk = st.2;
            assert forall|ns: Seq<Stmt>, nt: Expr|
                #[trigger] block_annot(context@, parent, ns, nt, i + 1, combined@, pk) && ns.len() == olds.len()
                    && (forall|j: int| 0 <= j < i + 1 ==> ns[j] == stmts@[j])
                    implies block_annot(c0, parent, ns, nt, 0, Map::empty(), c0.counter) by {
                lemma_block_annot_step(ci, parent, ns, nt, i as int, combi, pkb);
                assert forall|j: int| 0 <= j < i implies ns[j] == before[j] by {}
                assert(block_annot(ci, parent, ns, nt, i as int, combi, pkb));
            }
        }
        i = i + 1;
    }
    proof {
        lemma_block_end(context@, parent, i as int, combined@, pk);
    }
    let ghost cend = context@;
    let ghost combe = combined@;
    let ghost pke = pk;
    let (s_exp, t_exp) = match annotate_w(context, tail) {
        Ok(p) => p,
        Err(e) => {
            proof {
                lemma_block_annot_end(cend, parent, stmts@, *tail, i as int, combe, pke);
            }
            return Err(e);
        },
    };
    proof {
        lemma_block_annot_end(cend, parent, stmts@, *tail, i as int, combe, pke);
    }
    Ok((combined.combine(s_exp), t_exp))
}

pub open spec fn sub_result(r: Result<Substitution, UnificationError>) -> Result<Map<Seq<char>, MType>, Seq<char>> {
    match r {
        Ok(s) => Ok(s@),
        Err(e) => Err(e.message@),
    }
}

/// A declaration statement of a block (see `decl_step`).
#[verifier::rlimit(30)]
fn infer_decl(
    context: &mut TypeContext,
    Ghost(parent): Ghost<Expr>,
    Ghost(i): Ghost<int>,
    Ghost(pk): Ghost<nat>,
    combined: Substitution,
    target: &Expr,
    ty: &crate::ast::Type,
    v: &mut Expr,
) -> (r: Result<Substitution, UnificationError>)
    requires
        *parent.e is Block,
        0 <= i < (*parent.e)->Block_0@.len(),
        *(*parent.e)->Block_0@[i].s == SNode::Decl(Box::new(*target), Box::new(*ty), Box::new(*old(v))),
        decreases_to!(parent => *old(v)),
        decl_step(old(context)@, parent, i, combined@, pk).2 <= u32::MAX,
    ensures
        final(context)@ == decl_step(old(context)@, parent, i, combined@, pk).0,
        sub_result(r) == decl_step(old(context)@, parent, i, combined@, pk).1,
        same_shape(*final(v), *old(v)),
        decl_annot(old(context)@, *target, *ty, *old(v), *final(v)),
        r matches Err(e) ==> e.pos is None,
    decreases parent, 0nat,
{
    proof {
        reveal(infer_spec);
        lemma_same_shape_refl(*v);
    }
    let var_name = match &*target.e {
        ENode::Variable(n) => n.clone(),
        _ => {
            return Err(UnificationError::new(text("Expected a variable name in declaration")));
        },
    };
    let binding_type = match type_to_typefn(ty, context) {
        Ok(t) => t,
        Err(e) => {
            return Err(e);
        },
    };
    let ghost c1 = context@;
    let old_binding = context.get(&var_name);
    context.add(var_name.clone(), Polytype::Mono(Box::new(binding_type.duplicate())));
    let (s1, inferred) = match annotate_w(context, v) {
        Ok(p) => p,
        Err(e) => {
            return Err(e);
        },
    };
    let applied = context.apply(&s1);
    *context = applied;
    let combined = combined.combine(s1);
    let s2 = match unify(&binding_type.apply(&combined), &inferred) {
        Ok(s) => s,
        Err(e) => {
            return Err(e);
        },
    };
    let applied = context.apply(&s2);
    *context = applied;
    let combined = combined.combine(s2);
    restore_binding(context, &var_name, old_binding, Ghost(c1));
    let resolved = binding_type.apply(&combined);
    let g = context.generalise(&resolved);
    context.add(var_name, g);
    Ok(combined)
}

/// The recorded types of a declaration statement, from those of its value.
proof fn lemma_stmt_annot_decl(c: CtxView, s: Stmt, t: Stmt)
    requires
        *s.s is Decl,
        *t.s is Decl,
        decl_annot(c, *(*s.s)->Decl_0, *(*s.s)->Decl_1, *(*s.s)->Decl_2, *(*t.s)->Decl_2),
    ensures
        stmt_annot(c, s, t),
{
}

/// The recorded types of an expression statement, from those of its
/// expression.
proof fn lemma_stmt_annot_expr(c: CtxView, s: Stmt, t: Stmt)
    requires
        *s.s is Expr,
        *t.s is Expr,
        w_annot(c, *(*s.s)->Expr_0, *(*t.s)->Expr_0),
    ensures
        stmt_annot(c, s, t),
{
}

/// A statement of a block (see `stmt_step`).
#[verifier::spinoff_prover]
#[verifier::rlimit(60)]
fn infer_stmt(
    context: &mut TypeContext,
    Ghost(parent): Ghost<Expr>,
    Ghost(i): Ghost<int>,
    Ghost(pk): Ghost<nat>,
    combined: Substitution,
    stmt: &mut Stmt,
) -> (r: Result<Substitution, UnificationError>)
    requires
        *parent.e is Block,
        0 <= i < (*parent.e)->Block_0@.len(),
        (*parent.e)->Block_0@[i] == *old(stmt),
        decreases_to!(parent => *old(stmt)),
        stmt_outcome(old(context)@, parent, i, combined@, pk).2 <= u32::MAX,
    ensures
        final(context)@ == stmt_outcome(old(context)@, parent, i, combined@, pk).0,
        sub_result(r) == stmt_outcome(old(context)@, parent, i, combined@, pk).1,
        stmt_same_shape(*final(stmt), *old(stmt)),
        stmt_annot(old(context)@, *old(stmt), *final(stmt)),
        r matches Err(e) ==> e.pos is None,
    decreases parent, 1nat,
{
    let ghost c0 = context@;
    let ghost s0 = *stmt;
    proof {
        reveal(same_shape);
        lemma_stmt_same_shape_refl(*stmt);
        lemma_stmt_outcome(old(context)@, parent, i, combined@, pk);
    }
    let r = match &mut *stmt.s {
        SNode::Decl(target, ty, v) => {
            proof {
                lemma_same_shape_refl(**target);
            }
            infer_decl(context, Ghost(parent), Ghost(i), Ghost(pk), combined, target, ty, v)
        },
        SNode::Expr(x) => match annotate_w(context, x) {
            Ok((s1, _t)) => {
                let applied = context.apply(&s1);
                *context = applied;
                Ok(combined.combine(s1))
            },
            Err(e) => Err(e),
        },
        SNode::TypeDecl(h, d) => {
            let ghost g = (*h, *d);
            Err(UnificationError::new(text("Type declarations are not allowed inside block expressions")))
        },
    };
    proof {
        if *s0.s is Decl {
            lemma_stmt_annot_decl(c0, s0, *stmt);
        } else if *s0.s is Expr {
            lemma_stmt_annot_expr(c0, s0, *stmt);
        }
    }
    r
}

} // verus!

verus! {

/// Algorithm W: infer the type of `expr` in `context` (see `infer_spec`).
/// The tree is left as it is; `annotate_w` also records the types found.
/// Errors carry no position yet.
pub fn algo_w(context: &mut TypeContext, expr: &Expr) -> (r: Result<(Substitution, Monotype), UnificationError>)
    requires
        infer_spec(old(context)@, *expr).2 <= u32::MAX,
    ensures
        final(context)@ == infer_spec(old(context)@, *expr).0,
        w_result(r) == infer_spec(old(context)@, *expr).1,
        r matches Err(e) ==> e.pos is None,
    decreases *expr, 3nat,
{
    let ghost parent = *expr;
    let r = match &*expr.e {
        ENode::Variable(name) => infer_variable(context, Ghost(parent), name),
        ENode::Literal(lit) => infer_literal(context, Ghost(parent), lit),
        ENode::Abstraction(bind, body) => w_abstraction(context, Ghost(parent), bind, body),
        ENode::Application(f, x) => w_application(context, Ghost(parent), f, x),
        ENode::Let(name, v, body) => w_let(context, Ghost(parent), name, v, body),
        ENode::IfElse(cond, th, el) => w_if(context, Ghost(parent), cond, th, el),
        ENode::Block(stmts, tail) => w_block(context, Ghost(parent), stmts, tail),
        ENode::Comparison(op, a, b) => w_comparison(context, Ghost(parent), op, a, b),
        ENode::Arithmetic(op, a, b) => w_arithmetic(context, Ghost(parent), op, a, b),
        ENode::Logical(op, a, b) => w_logical(context, Ghost(parent), op, a, b),
        ENode::Unary(op, x) => w_unary(context, Ghost(parent), op, x),
        ENode::List(es) => w_list(context, Ghost(parent), es),
        ENode::Cons(h, t) => w_cons(context, Ghost(parent), h, t),
        ENode::Match(scrutinee, cases) => {
            let ghost g = (*scrutinee, *cases);
            proof {
                lemma_infer_match(context@, parent);
            }
            Err(UnificationError::new(text("Match expressions cannot be inferred")))
        },
    };
    r
}

fn w_abstraction(context: &mut TypeContext, Ghost(parent): Ghost<Expr>, bind: &Binding, body: &Expr) -> (r: Result<(Substitution, Monotype), UnificationError>)
    requires
        *parent.e == ENode::Abstraction(Box::new(*bind), Box::new(*body)),
        infer_spec(old(context)@, parent).2 <= u32::MAX,
    ensures
        final(context)@ == infer_spec(old(context)@, parent).0,
        w_result(r) == infer_spec(old(context)@, parent).1,
        r matches Err(e) ==> e.pos is None,
    decreases parent, 2nat,
{
    proof {
        reveal(infer_spec);
    }
    let beta_mon = match type_to_typefn(&bind.1, context) {
        Ok(t) => t,
        Err(e) => {
            return Err(e);
        },
    };
    let ghost c1 = context@;
    let old_binding = context.get(&bind.0);
    context.add(bind.0.clone(), Polytype::Mono(Box::new(beta_mon.duplicate())));
    let (sub1, t1) = match algo_w(context, body) {
        Ok(p) => p,
        Err(e) => {
            return Err(e);
        },
    };
    restore_binding(context, &bind.0, old_binding, Ghost(c1));
    let beta = fn_type(beta_mon, t1).apply(&sub1);
    Ok((sub1, beta))
}

fn w_operands(context: &mut TypeContext, Ghost(parent): Ghost<Expr>, a: &Expr, b: &Expr) -> (r: Result<(Substitution, Monotype, Substitution, Monotype), UnificationError>)
    requires
        decreases_to!(parent => *a),
        decreases_to!(parent => *b),
        operands_spec(old(context)@, *a, *b).2 <= u32::MAX,
    ensures
        final(context)@ == operands_spec(old(context)@, *a, *b).0,
        pair_result(r) == operands_spec(old(context)@, *a, *b).1,
        r matches Err(e) ==> e.pos is None,
    decreases parent, 1nat,
{
    proof {
    }
    let (s1, t1) = match algo_w(context, a) {
        Ok(p) => p,
        Err(e) => {
            return Err(e);
        },
    };
    let applied = context.apply(&s1);
    *context = applied;
    let (s2, t2) = match algo_w(context, b) {
        Ok(p) => p,
        Err(e) => {
            return Err(e);
        },
    };
    Ok((s1, t1, s2, t2))
}

fn w_application(context: &mut TypeContext, Ghost(parent): Ghost<Expr>, f: &Expr, x: &Expr) -> (r: Result<(Substitution, Monotype), UnificationError>)
    requires
        *parent.e == ENode::Application(Box::new(*f), Box::new(*x)),
        infer_spec(old(context)@, parent).2 <= u32::MAX,
    ensures
        final(context)@ == infer_spec(old(context)@, parent).0,
        w_result(r) == infer_spec(old(context)@, parent).1,
        r matches Err(e) ==> e.pos is None,
    decreases parent, 2nat,
{
    proof {
        reveal(infer_spec);
    }
    let (s1, t1, s2, t2) = match w_operands(context, Ghost(parent), f, x) {
        Ok(q) => q,
        Err(e) => {
            return Err(e);
        },
    };
    let ret = Monotype::var(context.new_typevar());
    let beta = fn_type(t2, ret.duplicate());
    match unify(&t1.apply(&s2), &beta) {
        Err(e) => Err(e),
        Ok(s3) => {
            let rt = ret.apply(&s3);
            Ok((s1.combine(s2).combine(s3), rt))
        },
    }
}

fn w_let(context: &mut TypeContext, Ghost(parent): Ghost<Expr>, name: &String, v: &Expr, body: &Expr) -> (r: Result<(Substitution, Monotype), UnificationError>)
    requires
        *parent.e == ENode::Let(*name, Box::new(*v), Box::new(*body)),
        infer_spec(old(context)@, parent).2 <= u32::MAX,
    ensures
        final(context)@ == infer_spec(old(context)@, parent).0,
        w_result(r) == infer_spec(old(context)@, parent).1,
        r matches Err(e) ==> e.pos is None,
    decreases parent, 2nat,
{
    proof {
        reveal(infer_spec);
    }
    let rec_var = Monotype::var(context.new_typevar());
    let ghost c1 = context@;
    let old_binding = context.get(name);
    context.add(name.clone(), Polytype::Mono(Box::new(rec_var.duplicate())));
    let (s1, t1) = match algo_w(context, v) {
        Ok(p) => p,
        Err(e) => {
            return Err(e);
        },
    };
    let applied = context.apply(&s1);
    *context = applied;
    let s_rec = match unify(&t1, &rec_var.apply(&s1)) {
        Ok(s) => s,
        Err(e) => {
            return Err(e);
        },
    };
    let t1r = t1.apply(&s_rec);
    let combined = s1.combine(s_rec);
    let applied = context.apply(&combined);
    *context = applied;
    restore_binding(context, name, old_binding, Ghost(c1));
    let g = context.generalise(&t1r);
    context.add(name.clone(), g);
    let (s2, t2) = match algo_w(context, body) {
        Ok(p) => p,
        Err(e) => {
            return Err(e);
        },
    };
    Ok((combined.combine(s2), t2))
}

fn w_if(context: &mut TypeContext, Ghost(parent): Ghost<Expr>, cond: &Expr, th: &Expr, el: &Expr) -> (r: Result<(Substitution, Monotype), UnificationError>)
    requires
        *parent.e == ENode::IfElse(Box::new(*cond), Box::new(*th), Box::new(*el)),
        infer_spec(old(context)@, parent).2 <= u32::MAX,
    ensures
        final(context)@ == infer_spec(old(context)@, parent).0,
        w_result(r) == infer_spec(old(context)@, parent).1,
        r matches Err(e) ==> e.pos is None,
    decreases parent, 2nat,
{
    proof {
        reveal(infer_spec);
    }
    let (s1, t1) = match algo_w(context, cond) {
        Ok(p) => p,
        Err(e) => {
            return Err(e);
        },
    };
    let s2 = match unify(&t1, &Monotype::bool()) {
        Ok(s) => s,
        Err(e) => {
            return Err(e);
        },
    };
    let applied = context.apply(&s1).apply(&s2);
    *context = applied;
    let (s3, t3) = match algo_w(context, th) {
        Ok(p) => p,
        Err(e) => {
            return Err(e);
        },
    };
    let applied = context.apply(&s3);
    *context = applied;
    let (s4, t4) = match algo_w(context, el) {
        Ok(p) => p,
        Err(e) => {
            return Err(e);
        },
    };
    let t3a = t3.apply(&s4);
    let s5 = match unify(&t3a, &t4) {
        Ok(s) => s,
        Err(e) => {
            return Err(e);
        },
    };
    let rt = t3a.apply(&s5);
    Ok((s1.combine(s2).combine(s3).combine(s4).combine(s5), rt))
}

fn w_comparison(context: &mut TypeContext, Ghost(parent): Ghost<Expr>, op: &CompOp, a: &Expr, b: &Expr) -> (r: Result<(Substitution, Monotype), UnificationError>)
    requires
        *parent.e == ENode::Comparison(*op, Box::new(*a), Box::new(*b)),
        infer_spec(old(context)@, parent).2 <= u32::MAX,
    ensures
        final(context)@ == infer_spec(old(context)@, parent).0,
        w_result(r) == infer_spec(old(context)@, parent).1,
        r matches Err(e) ==> e.pos is None,
    decreases parent, 2nat,
{
    proof {
        reveal(infer_spec);
    }
    let (s1, t1, s2, t2) = match w_operands(context, Ghost(parent), a, b) {
        Ok(q) => q,
        Err(e) => {
            return Err(e);
        },
    };
    let t1a = t1.apply(&s2);
    let s3 = match unify(&t1a, &t2) {
        Ok(s) => s,
        Err(e) => {
            return Err(e);
        },
    };
    let u = t1a.apply(&s3);
    match check_comparison(op, &u) {
        Ok(()) => {},
        Err(e) => {
            return Err(e);
        },
    }
    Ok((s1.combine(s2).combine(s3), Monotype::bool()))
}

fn w_arithmetic(context: &mut TypeContext, Ghost(parent): Ghost<Expr>, op: &ArithOp, a: &Expr, b: &Expr) -> (r: Result<(Substitution, Monotype), UnificationError>)
    requires
        *parent.e == ENode::Arithmetic(*op, Box::new(*a), Box::new(*b)),
        infer_spec(old(context)@, parent).2 <= u32::MAX,
    ensures
        final(context)@ == infer_spec(old(context)@, parent).0,
        w_result(r) == infer_spec(old(context)@, parent).1,
        r matches Err(e) ==> e.pos is None,
    decreases parent, 2nat,
{
    proof {
        reveal(infer_spec);
    }
    let (s1, t1, s2, t2) = match w_operands(context, Ghost(parent), a, b) {
        Ok(q) => q,
        Err(e) => {
            return Err(e);
        },
    };
    let t1a = t1.apply(&s2);
    let s3 = match unify(&t1a, &t2) {
        Ok(s) => s,
        Err(e) => {
            return Err(e);
        },
    };
    let u = t1a.apply(&s3);
    match check_arith(op, &u) {
        Ok(()) => {},
        Err(e) => {
            return Err(e);
        },
    }
    Ok((s1.combine(s2).combine(s3), u))
}

fn w_logical(context: &mut TypeContext, Ghost(parent): Ghost<Expr>, op: &LogicalOp, a: &Expr, b: &Expr) -> (r: Result<(Substitution, Monotype), UnificationError>)
    requires
        *parent.e == ENode::Logical(*op, Box::new(*a), Box::new(*b)),
        infer_spec(old(context)@, parent).2 <= u32::MAX,
    ensures
        final(context)@ == infer_spec(old(context)@, parent).0,
        w_result(r) == infer_spec(old(context)@, parent).1,
        r matches Err(e) ==> e.pos is None,
    decreases parent, 2nat,
{
    proof {
        reveal(infer_spec);
    }
    let (s1, t1, s2, t2) = match w_operands(context, Ghost(parent), a, b) {
        Ok(q) => q,
        Err(e) => {
            return Err(e);
        },
    };
    let t1a = t1.apply(&s2);
    let s3 = match unify(&t1a, &t2) {
        Ok(s) => s,
        Err(e) => {
            return Err(e);
        },
    };
    let u = t1a.apply(&s3);
    let s4 = match unify(&u, &Monotype::bool()) {
        Ok(s) => s,
        Err(_) => {
            let mut msg = text("Logical operations require bool operands, got ");
            u.push_text(&mut msg);
            return Err(UnificationError::new(msg));
        },
    };
    Ok((s1.combine(s2).combine(s3).combine(s4), Monotype::bool()))
}

fn w_cons(context: &mut TypeContext, Ghost(parent): Ghost<Expr>, h: &Expr, t: &Expr) -> (r: Result<(Substitution, Monotype), UnificationError>)
    requires
        *parent.e == ENode::Cons(Box::new(*h), Box::new(*t)),
        infer_spec(old(context)@, parent).2 <= u32::MAX,
    ensures
        final(context)@ == infer_spec(old(context)@, parent).0,
        w_result(r) == infer_spec(old(context)@, parent).1,
        r matches Err(e) ==> e.pos is None,
    decreases parent, 2nat,
{
    proof {
        reveal(infer_spec);
    }
    let (s1, t1, s2, t2) = match w_operands(context, Ghost(parent), h, t) {
        Ok(q) => q,
        Err(e) => {
            return Err(e);
        },
    };
    let elem = t1.apply(&s2);
    let s3 = match unify(&t2, &list_type(elem.duplicate())) {
        Ok(s) => s,
        Err(e) => {
            return Err(e);
        },
    };
    let rt = list_type(elem.apply(&s3));
    Ok((s1.combine(s2).combine(s3), rt))
}

fn w_unary(context: &mut TypeContext, Ghost(parent): Ghost<Expr>, op: &UnaryOp, x: &Expr) -> (r: Result<(Substitution, Monotype), UnificationError>)
    requires
        *parent.e == ENode::Unary(*op, Box::new(*x)),
        infer_spec(old(context)@, parent).2 <= u32::MAX,
    ensures
        final(context)@ == infer_spec(old(context)@, parent).0,
        w_result(r) == infer_spec(old(context)@, parent).1,
        r matches Err(e) ==> e.pos is None,
    decreases parent, 2nat,
{
    proof {
        reveal(infer_spec);
    }
    let (s1, t1) = match algo_w(context, x) {
        Ok(p) => p,
        Err(e) => {
            return Err(e);
        },
    };
    match op {
        UnaryOp::Negate => {
            if is_type_var(&t1) {
                let applied = context.apply(&s1);
                *context = applied;
                return Ok((s1, t1));
            }
            let s2 = match unify(&t1, &Monotype::integer()) {
                Ok(s) => s,
                Err(_) => match unify(&t1, &Monotype::float()) {
                    Ok(s) => s,
                    Err(_) => {
                        let mut msg = text("Unary negation requires int or float operand, got ");
                        t1.push_text(&mut msg);
                        return Err(UnificationError::new(msg));
                    },
                },
            };
            let s3 = s1.combine(s2);
            let applied = context.apply(&s3);
            *context = applied;
            let rt = t1.apply(&s3);
            Ok((s3, rt))
        },
        UnaryOp::Not => {
            let s2 = match unify(&t1, &Monotype::bool()) {
                Ok(s) => s,
                Err(e) => {
                    return Err(e);
                },
            };
            let s3 = s1.combine(s2);
            let applied = context.apply(&s3);
            *context = applied;
            Ok((s3, Monotype::bool()))
        },
    }
}

fn w_list(context: &mut TypeContext, Ghost(parent): Ghost<Expr>, es: &Vec<Expr>) -> (r: Result<(Substitution, Monotype), UnificationError>)
    requires
        *parent.e == ENode::List(*es),
        infer_spec(old(context)@, parent).2 <= u32::MAX,
    ensures
        final(context)@ == infer_spec(old(context)@, parent).0,
        w_result(r) == infer_spec(old(context)@, parent).1,
        r matches Err(e) ==> e.pos is None,
    decreases parent, 2nat,
{
    let ghost c0 = context@;
    let ghost olds = es@;
    proof {
        lemma_list_arm(c0, parent);
        assert forall|c: CtxView, i: int, comb: Map<Seq<char>, MType>, elem: MType, pk: nat|
            #[trigger] infer_list(c, parent, i, comb, elem, pk).2 >= pk by {
            lemma_list_peak(c, parent, i, comb, elem, pk);
        }
    }
    if es.len() == 0 {
        let tv = Monotype::var(context.new_typevar());
        return Ok((Substitution::new(), list_type(tv)));
    }
    let (s0, t0) = match algo_w(context, &es[0]) {
        Ok(p) => p,
        Err(e) => {
            return Err(e);
        },
    };
    let ghost pk0 = infer_spec(c0, olds[0]).2;
    let applied = context.apply(&s0);
    *context = applied;
    let mut combined = s0;
    let mut elem = t0;
    let ghost mut pk: nat = pk0;
    let mut i: usize = 1;
    while i < es.len()
        invariant
            olds == es@,
            c0 == old(context)@,
            1 <= i <= olds.len(),
            forall|j: int| 0 <= j < olds.len() ==> decreases_to!(parent => olds[j]),
            forall|c: CtxView, i: int, comb: Map<Seq<char>, MType>, elem: MType, pk: nat|
                #[trigger] infer_list(c, parent, i, comb, elem, pk).2 >= pk,
            *parent.e == ENode::List(*es),
            infer_spec(c0, parent) == infer_list(context@, parent, i as int, combined@, elem@, pk),
            infer_spec(c0, parent).2 <= u32::MAX,
        decreases olds.len() - i,
    {
        let ghost ci = context@;
        proof {
            lemma_list_step(ci, parent, i as int, combined@, elem@, pk);
        }
        let ghost pki = infer_spec(ci, olds[i as int]).2;
        let (si, ti) = match algo_w(context, &es[i]) {
            Ok(p) => p,
            Err(e) => {
                return Err(e);
            },
        };
        let applied = context.apply(&si);
        *context = applied;
        combined = combined.combine(si);
        let su = match unify(&elem, &ti) {
            Ok(s) => s,
            Err(e) => {
                return Err(e);
            },
        };
        elem = elem.apply(&su);
        combined = combined.combine(su);
        proof {
            pk = top(pk, pki);
        }
        i = i + 1;
    }
    proof {
        lemma_list_end(context@, parent, i as int, combined@, elem@, pk);
    }
    Ok((combined, list_type(elem)))
}

fn w_block(context: &mut TypeContext, Ghost(parent): Ghost<Expr>, stmts: &Vec<Stmt>, tail: &Expr) -> (r: Result<(Substitution, Monotype), UnificationError>)
    requires
        *parent.e == ENode::Block(*stmts, Box::new(*tail)),
        infer_spec(old(context)@, parent).2 <= u32::MAX,
    ensures
        final(context)@ == infer_spec(old(context)@, parent).0,
        w_result(r) == infer_spec(old(context)@, parent).1,
        r matches Err(e) ==> e.pos is None,
    decreases parent, 2nat,
{
    let ghost c0 = context@;
    let ghost olds = stmts@;
    proof {
        lemma_block_arm(c0, parent);
        assert forall|j: int| 0 <= j < olds.len() implies decreases_to!(parent => olds[j]) by {
            let ss = (*parent.e)->Block_0;
            assert(decreases_to!(parent => ss));
            assert(decreases_to!(ss => ss@));
            assert(decreases_to!(ss@ => ss@[j]));
        }
    }
    let mut combined = Substitution::new();
    let ghost mut pk: nat = c0.counter;
    let mut i: usize = 0;
    while i < stmts.len()
        invariant
            olds == stmts@,
            c0 == old(context)@,
            0 <= i <= olds.len(),
            forall|j: int| 0 <= j < olds.len() ==> decreases_to!(parent => olds[j]),
            *parent.e == ENode::Block(*stmts, Box::new(*tail)),
            infer_spec(c0, parent) == block_rest(context@, parent, i as int, combined@, pk),
            infer_spec(c0, parent).2 <= u32::MAX,
        decreases olds.len() - i,
    {
        let ghost ci = context@;
        let ghost st = stmt_outcome(ci, parent, i as int, combined@, pk);
        proof {
            lemma_block_step(ci, parent, i as int, combined@, pk);
        }
        combined = match w_stmt(context, Ghost(parent), Ghost(i as int), Ghost(pk), combined, &stmts[i]) {
            Ok(s) => s,
            Err(e) => {
                return Err(e);
            },
        };
        proof {
            pk = st.2;
        }
        i = i + 1;
    }
    proof {
        lemma_block_end(context@, parent, i as int, combined@, pk);
    }
    let (s_exp, t_exp) = match algo_w(context, tail) {
        Ok(p) => p,
        Err(e) => {
            return Err(e);
        },
    };
    Ok((combined.combine(s_exp), t_exp))
}

fn w_decl(
    context: &mut TypeContext,
    Ghost(parent): Ghost<Expr>,
    Ghost(i): Ghost<int>,
    Ghost(pk): Ghost<nat>,
    combined: Substitution,
    target: &Expr,
    ty: &crate::ast::Type,
    v: &Expr,
) -> (r: Result<Substitution, UnificationError>)
    requires
        *parent.e is Block,
        0 <= i < (*parent.e)->Block_0@.len(),
        *(*parent.e)->Block_0@[i].s == SNode::Decl(Box::new(*target), Box::new(*ty), Box::new(*v)),
        decreases_to!(parent => *v),
        decl_step(old(context)@, parent, i, combined@, pk).2 <= u32::MAX,
    ensures
        final(context)@ == decl_step(old(context)@, parent, i, combined@, pk).0,
        sub_result(r) == decl_step(old(context)@, parent, i, combined@, pk).1,
        r matches Err(e) ==> e.pos is None,
    decreases parent, 0nat,
{
    proof {
        reveal(infer_spec);
    }
    let var_name = match &*target.e {
        ENode::Variable(n) => n.clone(),
        _ => {
            return Err(UnificationError::new(text("Expected a variable name in declaration")));
        },
    };
    let binding_type = match type_to_typefn(ty, context) {
        Ok(t) => t,
        Err(e) => {
            return Err(e);
        },
    };
    let ghost c1 = context@;
    let old_binding = context.get(&var_name);
    context.add(var_name.clone(), Polytype::Mono(Box::new(binding_type.duplicate())));
    let (s1, inferred) = match algo_w(context, v) {
        Ok(p) => p,
        Err(e) => {
            return Err(e);
        },
    };
    let applied = context.apply(&s1);
    *context = applied;
    let combined = combined.combine(s1);
    let s2 = match unify(&binding_type.apply(&combined), &inferred) {
        Ok(s) => s,
        Err(e) => {
            return Err(e);
        },
    };
    let applied = context.apply(&s2);
    *context = applied;
    let combined = combined.combine(s2);
    restore_binding(context, &var_name, old_binding, Ghost(c1));
    let resolved = binding_type.apply(&combined);
    let g = context.generalise(&resolved);
    context.add(var_name, g);
    Ok(combined)
}

fn w_stmt(
    context: &mut TypeContext,
    Ghost(parent): Ghost<Expr>,
    Ghost(i): Ghost<int>,
    Ghost(pk): Ghost<nat>,
    combined: Substitution,
    stmt: &Stmt,
) -> (r: Result<Substitution, UnificationError>)
    requires
        *parent.e is Block,
        0 <= i < (*parent.e)->Block_0@.len(),
        (*parent.e)->Block_0@[i] == *stmt,
        decreases_to!(parent => *stmt),
        stmt_outcome(old(context)@, parent, i, combined@, pk).2 <= u32::MAX,
    ensures
        final(context)@ == stmt_outcome(old(context)@, parent, i, combined@, pk).0,
        sub_result(r) == stmt_outcome(old(context)@, parent, i, combined@, pk).1,
        r matches Err(e) ==> e.pos is None,
    decreases parent, 1nat,
{
    let ghost c0 = context@;
    let ghost s0 = *stmt;
    proof {
        lemma_stmt_outcome(old(context)@, parent, i, combined@, pk);
    }
    let r = match &*stmt.s {
        SNode::Decl(target, ty, v) => w_decl(context, Ghost(parent), Ghost(i), Ghost(pk), combined, target, ty, v),
        SNode::Expr(x) => match algo_w(context, x) {
            Ok((s1, _t)) => {
                let applied = context.apply(&s1);
                *context = applied;
                Ok(combined.combine(s1))
            },
            Err(e) => Err(e),
        },
        SNode::TypeDecl(h, d) => {
            let ghost g = (*h, *d);
            Err(UnificationError::new(text("Type declarations are not allowed inside block expressions")))
        },
    };
    r
}

} // verus!
