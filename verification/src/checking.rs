//! Top-down type checking of expressions against an expected type
//! (algorithm M).
use vstd::prelude::*;
use crate::ast::{Expr, ENode, Stmt, SNode, Lit, ArithOp, CompOp, UnaryOp, LogicalOp, Binding};
use crate::types::{
    Monotype, Polytype, TypeContext, Substitution, UnificationError, MType, TFun, PType, CtxView, compose,
    gen_bind, typevar_name, ctx_apply, ctx_bind, ctx_restore,
};
use crate::unification::{unify, unify_spec};
use crate::declarations::{expand_spec, with_counter, type_to_typefn};
use crate::debug_text::mtype_text;
use crate::text::{text, push_str};
use crate::inference::{
    top, prim, fn_of, list_of, fresh_var, bump, lit_type, arith_check, comparison_check, numeric_unifier, node_len,
    undefined_msg, negate_msg, decl_target_msg, block_typedecl_msg, sub_result, restore_binding,
};

verus! {

pub open spec fn comparison_result_msg(t: MType) -> Seq<char> {
    "Comparison requires bool result, got "@ + mtype_text(t)
}

pub open spec fn logical_result_msg(t: MType) -> Seq<char> {
    "Logical operations require bool result, got "@ + mtype_text(t)
}

pub open spec fn not_result_msg(t: MType) -> Seq<char> {
    "Unary not requires bool result, got "@ + mtype_text(t)
}

pub open spec fn match_check_msg() -> Seq<char> {
    "Match expressions cannot be checked"@
}

/// Arithmetic against `t`, once the operands are checked: the resolved
/// operand type must unify with `t` and pass `arith_check`.
pub open spec fn m_arith_rule(op: ArithOp, t: MType, res: MType, s1: Map<Seq<char>, MType>, s2: Map<Seq<char>, MType>) -> Result<Map<Seq<char>, MType>, Seq<char>> {
    match unify_spec(t, res) {
        Err(m) => Err(m),
        Ok(s0) => match arith_check(op, res.apply(s0)) {
            Err(m) => Err(m),
            Ok(_) => Ok(compose(compose(s0, s1), s2)),
        },
    }
}

/// Algorithm M: check `e` against the expected type `t` in context `c`.
/// The outcome is the context afterwards, the substitution found or the
/// diagnostic, and the highest fresh-name counter reached. Some operands
/// are checked in a copy of the context whose fresh names are then dropped.
#[verifier::rlimit(60)]
#[verifier::opaque]
pub open spec fn m_spec(c: CtxView, e: Expr, t: MType) -> (CtxView, Result<Map<Seq<char>, MType>, Seq<char>>, nat)
    decreases e, node_len(e) + 1, 0nat,
{
    match *e.e {
        ENode::Variable(name) => if c.vars.contains_key(name@) {
            let p = c.vars[name@];
            let c1 = with_counter(c, c.counter + p.quantifiers());
            (c1, unify_spec(t, p.inst(c.counter, Map::empty())), c1.counter)
        } else {
            (c, Err(undefined_msg(name@)), c.counter)
        },
        ENode::Literal(lit) => match lit_type(*lit) {
            Ok(lt) => (c, unify_spec(t, lt), c.counter),
            Err(m) => (c, Err(m), c.counter),
        },
        ENode::Abstraction(bind, body) => {
            let b1 = fresh_var(c);
            let b2 = MType::Var(typevar_name(c.counter + 1));
            let c1 = with_counter(c, c.counter + 2);
            match unify_spec(t, fn_of(b1, b2)) {
                Err(m) => (c1, Err(m), c1.counter),
                Ok(s1) => {
                    let (n2, r) = expand_spec(bind.1.t@, c1.counter, c1.aliases, Seq::empty());
                    let c2 = with_counter(c1, n2);
                    let pk = top(c1.counter, n2);
                    match r {
                        Err(m) => (c2, Err(m), pk),
                        Ok(bm) => match unify_spec(bm, b1.apply(s1)) {
                            Err(m) => (c2, Err(m), pk),
                            Ok(s2) => {
                                let (c3, r3, p3) = m_spec(ctx_bind(c2, bind.0@, PType::Mono(bm.apply(s2))), *body, b2.apply(s1).apply(s2));
                                match r3 {
                                    Err(m) => (c3, Err(m), top(pk, p3)),
                                    Ok(s3) => (ctx_restore(c3, bind.0@, c2), Ok(compose(compose(s1, s2), s3)), top(pk, p3)),
                                }
                            },
                        },
                    }
                },
            }
        },
        ENode::Application(f, x) => {
            let beta = fresh_var(c);
            let c1 = bump(c);
            let (c2, r1, p1) = m_spec(c1, *f, fn_of(beta, t));
            let pk = top(c1.counter, p1);
            match r1 {
                Err(m) => (c2, Err(m), pk),
                Ok(s1) => {
                    let (_, r2, p2) = m_spec(ctx_apply(c2, s1), *x, beta.apply(s1));
                    match r2 {
                        Err(m) => (c2, Err(m), top(pk, p2)),
                        Ok(s2) => (c2, Ok(compose(s1, s2)), top(pk, p2)),
                    }
                },
            }
        },
        ENode::Let(name, v, body) => {
            let rec = fresh_var(c);
            let c1 = ctx_bind(bump(c), name@, PType::Mono(rec));
            let beta = fresh_var(c1);
            let c2 = bump(c1);
            let (c3, r1, p1) = m_spec(c2, *v, beta);
            let pk = top(c2.counter, p1);
            match r1 {
                Err(m) => (c3, Err(m), pk),
                Ok(s1) => {
                    let c4 = ctx_apply(c3, s1);
                    match unify_spec(beta.apply(s1), rec.apply(s1)) {
                        Err(m) => (c4, Err(m), pk),
                        Ok(srec) => {
                            let comb = compose(s1, srec);
                            let c5 = ctx_restore(ctx_apply(c4, comb), name@, c);
                            let c6 = gen_bind(c5, name@, beta.apply(comb));
                            let (c7, r2, p2) = m_spec(c6, *body, t.apply(comb));
                            let pk2 = top(pk, p2);
                            match r2 {
                                Err(m) => (c7, Err(m), pk2),
                                Ok(s2) => (c7, Ok(compose(comb, s2)), pk2),
                            }
                        },
                    }
                },
            }
        },
        ENode::IfElse(cond, th, el) => {
            let (c1, r1, p1) = m_spec(c, *cond, prim(TFun::Bool));
            match r1 {
                Err(m) => (c1, Err(m), p1),
                Ok(s1) => {
                    let t1 = t.apply(s1);
                    let (_, r2, p2) = m_spec(ctx_apply(c1, s1), *th, t1);
                    match r2 {
                        Err(m) => (c1, Err(m), top(p1, p2)),
                        Ok(s2) => {
                            let (_, r3, p3) = m_spec(ctx_apply(ctx_apply(c1, s1), s2), *el, t1.apply(s2));
                            let pk = top(top(p1, p2), p3);
                            match r3 {
                                Err(m) => (c1, Err(m), pk),
                                Ok(s3) => (c1, Ok(compose(compose(s1, s2), s3)), pk),
                            }
                        },
                    }
                },
            }
        },
        ENode::Block(_, _) => m_block(c, e, t, 0, Map::empty(), c.counter),
        ENode::Comparison(op, a, b) => match unify_spec(t, prim(TFun::Bool)) {
            Err(_) => (c, Err(comparison_result_msg(t)), c.counter),
            Ok(s0) => {
                let beta = fresh_var(c);
                let c1 = bump(c);
                let (c2, r1, p1) = m_spec(c1, *a, beta);
                let pk = top(c1.counter, p1);
                match r1 {
                    Err(m) => (c2, Err(m), pk),
                    Ok(s1) => {
                        let (_, r2, p2) = m_spec(ctx_apply(c2, s1), *b, beta.apply(s1));
                        match r2 {
                            Err(m) => (c2, Err(m), top(pk, p2)),
                            Ok(s2) => match comparison_check(op, beta.apply(s1).apply(s2)) {
                                Err(m) => (c2, Err(m), top(pk, p2)),
                                Ok(_) => (c2, Ok(compose(compose(s0, s1), s2)), top(pk, p2)),
                            },
                        }
                    },
                }
            },
        },
        ENode::Arithmetic(op, a, b) => {
            let beta = fresh_var(c);
            let c1 = bump(c);
            let (c2, r1, p1) = m_spec(c1, *a, beta);
            let pk = top(c1.counter, p1);
            match r1 {
                Err(m) => (c2, Err(m), pk),
                Ok(s1) => {
                    let (_, r2, p2) = m_spec(ctx_apply(c2, s1), *b, beta.apply(s1));
                    match r2 {
                        Err(m) => (c2, Err(m), top(pk, p2)),
                        Ok(s2) => (c2, m_arith_rule(op, t, beta.apply(s1).apply(s2), s1, s2), top(pk, p2)),
                    }
                },
            }
        },
        ENode::Logical(_, a, b) => match unify_spec(t, prim(TFun::Bool)) {
            Err(_) => (c, Err(logical_result_msg(t)), c.counter),
            Ok(s0) => {
                let (c1, r1, p1) = m_spec(c, *a, prim(TFun::Bool));
                match r1 {
                    Err(m) => (c1, Err(m), p1),
                    Ok(s1) => {
                        let (_, r2, p2) = m_spec(ctx_apply(c1, s1), *b, prim(TFun::Bool));
                        match r2 {
                            Err(m) => (c1, Err(m), top(p1, p2)),
                            Ok(s2) => (c1, Ok(compose(compose(s0, s1), s2)), top(p1, p2)),
                        }
                    },
                }
            },
        },
        ENode::Unary(op, x) => match op {
            UnaryOp::Negate => {
                let beta = fresh_var(c);
                let c1 = bump(c);
                let (c2, r, p) = m_spec(c1, *x, beta);
                let pk = top(c1.counter, p);
                match r {
                    Err(m) => (c2, Err(m), pk),
                    Ok(s0) => match unify_spec(beta.apply(s0), t) {
                        Err(m) => (c2, Err(m), pk),
                        Ok(s0t) => {
                            let res = beta.apply(s0).apply(s0t);
                            let s1 = compose(s0, s0t);
                            if res is Var {
                                (ctx_apply(c2, s1), Ok(s1), pk)
                            } else {
                                match numeric_unifier(res) {
                                    None => (c2, Err(negate_msg(res)), pk),
                                    Some(s2) => (ctx_apply(c2, compose(s1, s2)), Ok(compose(s1, s2)), pk),
                                }
                            }
                        },
                    },
                }
            },
            UnaryOp::Not => match unify_spec(t, prim(TFun::Bool)) {
                Err(_) => (c, Err(not_result_msg(t)), c.counter),
                Ok(s0) => {
                    let beta = fresh_var(c);
                    let c1 = bump(c);
                    let (c2, r, p) = m_spec(c1, *x, beta);
                    let pk = top(c1.counter, p);
                    match r {
                        Err(m) => (c2, Err(m), pk),
                        Ok(s1) => match unify_spec(beta.apply(s1), prim(TFun::Bool)) {
                            Err(m) => (c2, Err(m), pk),
                            Ok(s2) => (c2, Ok(compose(compose(s0, s1), s2)), pk),
                        },
                    }
                },
            },
        },
        ENode::List(es) => if es@.len() == 0 {
            (bump(c), unify_spec(list_of(fresh_var(c)), t), c.counter + 1)
        } else {
            let beta = fresh_var(c);
            let c1 = bump(c);
            match unify_spec(list_of(beta), t) {
                Err(m) => (c1, Err(m), c1.counter),
                Ok(s0) => m_list(ctx_apply(c1, s0), e, 0, s0, beta.apply(s0), c1.counter),
            }
        },
        ENode::Cons(h, tl) => {
            let beta = fresh_var(c);
            let c1 = bump(c);
            match unify_spec(list_of(beta), t) {
                Err(m) => (c1, Err(m), c1.counter),
                Ok(s0) => {
                    let elem = beta.apply(s0);
                    let (c3, r1, p1) = m_spec(ctx_apply(c1, s0), *h, elem);
                    let pk = top(c1.counter, p1);
                    match r1 {
                        Err(m) => (c3, Err(m), pk),
                        Ok(s1) => {
                            let (c5, r2, p2) = m_spec(ctx_apply(c3, s1), *tl, list_of(elem.apply(s1)));
                            match r2 {
                                Err(m) => (c5, Err(m), top(pk, p2)),
                                Ok(s2) => (c5, Ok(compose(compose(s0, s1), s2)), top(pk, p2)),
                            }
                        },
                    }
                },
            }
        },
        ENode::Match(_, _) => (c, Err(match_check_msg()), c.counter),
    }
}

/// The statements of block `e` from position `i` on, then its final
/// expression checked against `t` with the gathered substitution applied.
pub open spec fn m_block(c: CtxView, e: Expr, t: MType, i: int, comb: Map<Seq<char>, MType>, pk: nat) -> (CtxView, Result<Map<Seq<char>, MType>, Seq<char>>, nat)
    decreases e, node_len(e) - i, 2nat,
{
    match *e.e {
        ENode::Block(ss, tail) => if i < 0 || i >= ss@.len() {
            let (c1, r, p) = m_spec(c, *tail, t.apply(comb));
            match r {
                Err(m) => (c1, Err(m), top(pk, p)),
                Ok(s) => (c1, Ok(compose(comb, s)), top(pk, p)),
            }
        } else {
            let (c1, r, p1) = m_stmt_step(c, e, i, comb, pk);
            match r {
                Err(m) => (c1, Err(m), p1),
                Ok(comb1) => m_block(c1, e, t, i + 1, comb1, p1),
            }
        },
        _ => (c, Ok(comb), pk),
    }
}

/// Statement `i` of block `e`: a declaration (see `m_decl_step`), an
/// expression checked against a fresh type variable, or a type
/// declaration, which is refused.
pub open spec fn m_stmt_step(c: CtxView, e: Expr, i: int, comb: Map<Seq<char>, MType>, pk: nat) -> (CtxView, Result<Map<Seq<char>, MType>, Seq<char>>, nat)
    decreases e, node_len(e) - i, 1nat,
{
    match *e.e {
        ENode::Block(ss, _) => if 0 <= i < ss@.len() {
            match *ss@[i].s {
                SNode::Decl(_, _, _) => m_decl_step(c, e, i, comb, pk),
                SNode::Expr(x) => {
                    let beta = fresh_var(c);
                    let c1 = bump(c);
                    let (c2, r, p) = m_spec(c1, *x, beta);
                    let pk1 = top(top(pk, c1.counter), p);
                    match r {
                        Err(m) => (c2, Err(m), pk1),
                        Ok(s1) => (ctx_apply(c2, s1), Ok(compose(comb, s1)), pk1),
                    }
                },
                SNode::TypeDecl(_, _) => (c, Err(block_typedecl_msg()), pk),
            }
        } else {
            (c, Ok(comb), pk)
        },
        _ => (c, Ok(comb), pk),
    }
}

/// Declaration `let n [: ty] = v;` at position `i` of block `e`: `v` is
/// checked against a fresh variable while `n` is bound to the written
/// type; the written type, with everything found applied, must unify with
/// what the variable became; then `n` gets its previous binding back and is
/// bound to the generalised type.
pub open spec fn m_decl_step(c: CtxView, e: Expr, i: int, comb: Map<Seq<char>, MType>, pk: nat) -> (CtxView, Result<Map<Seq<char>, MType>, Seq<char>>, nat)
    decreases e, node_len(e) - i, 0nat,
{
    match *e.e {
        ENode::Block(ss, _) => if 0 <= i < ss@.len() {
            match *ss@[i].s {
                SNode::Decl(target, ty, v) => match *target.e {
                    ENode::Variable(n) => {
                        let (n1, r) = expand_spec(ty.t@, c.counter, c.aliases, Seq::empty());
                        let c1 = with_counter(c, n1);
                        let pk1 = top(pk, n1);
                        match r {
                            Err(m) => (c1, Err(m), pk1),
                            Ok(bt) => {
                                let c2 = ctx_bind(c1, n@, PType::Mono(bt));
                                let beta = fresh_var(c2);
                                let c3 = bump(c2);
                                let (c4, r1, p1) = m_spec(c3, *v, beta);
                                let pk2 = top(top(pk1, c3.counter), p1);
                                match r1 {
                                    Err(m) => (c4, Err(m), pk2),
                                    Ok(s1) => {
                                        let c5 = ctx_apply(c4, s1);
                                        let comb1 = compose(comb, s1);
                                        match unify_spec(bt.apply(comb1), beta.apply(s1)) {
                                            Err(m) => (c5, Err(m), pk2),
                                            Ok(s2) => {
                                                let comb2 = compose(comb1, s2);
                                                let c6 = ctx_restore(ctx_apply(c5, s2), n@, c1);
                                                (gen_bind(c6, n@, bt.apply(comb2)), Ok(comb2), pk2)
                                            },
                                        }
                                    },
                                }
                            },
                        }
                    },
                    _ => (c, Err(decl_target_msg()), pk),
                },
                _ => (c, Ok(comb), pk),
            }
        } else {
            (c, Ok(comb), pk)
        },
        _ => (c, Ok(comb), pk),
    }
}

/// The elements of list `e` from position `i` on, each checked against the
/// element type found so far.
pub open spec fn m_list(c: CtxView, e: Expr, i: int, comb: Map<Seq<char>, MType>, elem: MType, pk: nat) -> (CtxView, Result<Map<Seq<char>, MType>, Seq<char>>, nat)
    decreases e, node_len(e) - i, 0nat,
{
    match *e.e {
        ENode::List(es) => if i < 0 || i >= es@.len() {
            (c, Ok(comb), pk)
        } else {
            let (c1, r, p) = m_spec(c, es@[i], elem);
            let pk1 = top(pk, p);
            match r {
                Err(m) => (c1, Err(m), pk1),
                Ok(si) => m_list(ctx_apply(c1, si), e, i + 1, compose(comb, si), elem.apply(si), pk1),
            }
        },
        _ => (c, Ok(comb), pk),
    }
}

} // verus!

verus! {

proof fn lemma_m_match(c: CtxView, e: Expr, t: MType)
    requires
        *e.e is Match,
    ensures
        m_spec(c, e, t) == (c, Err::<Map<Seq<char>, MType>, Seq<char>>(match_check_msg()), c.counter),
{
    reveal(m_spec);
}

/// Algorithm M: check `expr` against `typ` in `context` (see `m_spec`).
/// Errors carry no position yet.
pub fn algo_m(context: &mut TypeContext, expr: &Expr, typ: &Monotype) -> (r: Result<Substitution, UnificationError>)
    requires
        m_spec(old(context)@, *expr, typ@).2 <= u32::MAX,
    ensures
        final(context)@ == m_spec(old(context)@, *expr, typ@).0,
        sub_result(r) == m_spec(old(context)@, *expr, typ@).1,
        r matches Err(e) ==> e.pos is None,
    decreases *expr, 3nat,
{
    let ghost parent = *expr;
    match &*expr.e {
        ENode::Variable(name) => m_variable(context, Ghost(parent), name, typ),
        ENode::Literal(lit) => m_literal(context, Ghost(parent), lit, typ),
        ENode::Abstraction(bind, body) => m_abstraction(context, Ghost(parent), bind, body, typ),
        ENode::Application(f, x) => m_application(context, Ghost(parent), f, x, typ),
        ENode::Let(name, v, body) => m_let(context, Ghost(parent), name, v, body, typ),
        ENode::IfElse(cond, th, el) => m_if(context, Ghost(parent), cond, th, el, typ),
        ENode::Block(stmts, tail) => m_block_exec(context, Ghost(parent), stmts, tail, typ),
        ENode::Comparison(op, a, b) => m_comparison(context, Ghost(parent), op, a, b, typ),
        ENode::Arithmetic(op, a, b) => m_arithmetic(context, Ghost(parent), op, a, b, typ),
        ENode::Logical(op, a, b) => m_logical(context, Ghost(parent), op, a, b, typ),
        ENode::Unary(op, x) => m_unary(context, Ghost(parent), op, x, typ),
        ENode::List(es) => m_list_exec(context, Ghost(parent), es, typ),
        ENode::Cons(h, t) => m_cons(context, Ghost(parent), h, t, typ),
        ENode::Match(_, _) => {
            proof {
                lemma_m_match(context@, parent, typ@);
            }
            Err(UnificationError::new(text("Match expressions cannot be checked")))
        },
    }
}

fn m_variable(context: &mut TypeContext, Ghost(parent): Ghost<Expr>, name: &String, typ: &Monotype) -> (r: Result<Substitution, UnificationError>)
    requires
        *parent.e == ENode::Variable(*name),
        m_spec(old(context)@, parent, typ@).2 <= u32::MAX,
    ensures
        final(context)@ == m_spec(old(context)@, parent, typ@).0,
        sub_result(r) == m_spec(old(context)@, parent, typ@).1,
        r matches Err(e) ==> e.pos is None,
{
    proof {
        reveal(m_spec);
    }
    match context.get(name) {
        Some(poly) => {
            let t = poly.instantiate(context, None);
            unify(typ, &t)
        },
        None => {
            let mut msg = text("Undefined variable ");
            push_str(&mut msg, name.as_str());
            push_str(&mut msg, "!");
            Err(UnificationError::new(msg))
        },
    }
}

fn m_literal(context: &mut TypeContext, Ghost(parent): Ghost<Expr>, lit: &Lit, typ: &Monotype) -> (r: Result<Substitution, UnificationError>)
    requires
        *parent.e == ENode::Literal(Box::new(*lit)),
    ensures
        final(context)@ == m_spec(old(context)@, parent, typ@).0,
        sub_result(r) == m_spec(old(context)@, parent, typ@).1,
        r matches Err(e) ==> e.pos is None,
{
    proof {
        reveal(m_spec);
    }
    let t = match crate::inference::literal_type(lit) {
        Ok((_, t)) => t,
        Err(e) => {
            return Err(e);
        },
    };
    unify(typ, &t)
}

#[verifier::rlimit(30)]
fn m_abstraction(context: &mut TypeContext, Ghost(parent): Ghost<Expr>, bind: &Binding, body: &Expr, typ: &Monotype) -> (r: Result<Substitution, UnificationError>)
    requires
        *parent.e == ENode::Abstraction(Box::new(*bind), Box::new(*body)),
        m_spec(old(context)@, parent, typ@).2 <= u32::MAX,
    ensures
        final(context)@ == m_spec(old(context)@, parent, typ@).0,
        sub_result(r) == m_spec(old(context)@, parent, typ@).1,
        r matches Err(e) ==> e.pos is None,
    decreases parent, 2nat,
{
    proof {
        reveal(m_spec);
    }
    let beta1 = Monotype::var(context.new_typevar());
    let beta2 = Monotype::var(context.new_typevar());
    let s1 = match unify(typ, &crate::inference::fn_type(beta1.duplicate(), beta2.duplicate())) {
        Ok(s) => s,
        Err(e) => {
            return Err(e);
        },
    };
    let beta_mon = match type_to_typefn(&bind.1, context) {
        Ok(t) => t,
        Err(e) => {
            return Err(e);
        },
    };
    let s2 = match unify(&beta_mon, &beta1.apply(&s1)) {
        Ok(s) => s,
        Err(e) => {
            return Err(e);
        },
    };
    let ghost c2 = context@;
    let old_binding = context.get(&bind.0);
    context.add(bind.0.clone(), Polytype::Mono(Box::new(beta_mon.apply(&s2))));
    let expected = beta2.apply(&s1).apply(&s2);
    let s3 = match algo_m(context, body, &expected) {
        Ok(s) => s,
        Err(e) => {
            return Err(e);
        },
    };
    restore_binding(context, &bind.0, old_binding, Ghost(c2));
    Ok(s1.combine(s2).combine(s3))
}

fn m_application(context: &mut TypeContext, Ghost(parent): Ghost<Expr>, f: &Expr, x: &Expr, typ: &Monotype) -> (r: Result<Substitution, UnificationError>)
    requires
        *parent.e == ENode::Application(Box::new(*f), Box::new(*x)),
        m_spec(old(context)@, parent, typ@).2 <= u32::MAX,
    ensures
        final(context)@ == m_spec(old(context)@, parent, typ@).0,
        sub_result(r) == m_spec(old(context)@, parent, typ@).1,
        r matches Err(e) ==> e.pos is None,
    decreases parent, 2nat,
{
    proof {
        reveal(m_spec);
    }
    let beta = Monotype::var(context.new_typevar());
    let s1 = match algo_m(context, f, &crate::inference::fn_type(beta.duplicate(), typ.duplicate())) {
        Ok(s) => s,
        Err(e) => {
            return Err(e);
        },
    };
    let mut scratch = context.apply(&s1);
    let s2 = match algo_m(&mut scratch, x, &beta.apply(&s1)) {
        Ok(s) => s,
        Err(e) => {
            return Err(e);
        },
    };
    Ok(s1.combine(s2))
}

#[verifier::rlimit(30)]
fn m_let(context: &mut TypeContext, Ghost(parent): Ghost<Expr>, name: &String, v: &Expr, body: &Expr, typ: &Monotype) -> (r: Result<Substitution, UnificationError>)
    requires
        *parent.e == ENode::Let(*name, Box::new(*v), Box::new(*body)),
        m_spec(old(context)@, parent, typ@).2 <= u32::MAX,
    ensures
        final(context)@ == m_spec(old(context)@, parent, typ@).0,
        sub_result(r) == m_spec(old(context)@, parent, typ@).1,
        r matches Err(e) ==> e.pos is None,
    decreases parent, 2nat,
{
    proof {
        reveal(m_spec);
    }
    let rec_var = Monotype::var(context.new_typevar());
    let ghost c1 = context@;
    let old_binding = context.get(name);
    context.add(name.clone(), Polytype::Mono(Box::new(rec_var.duplicate())));
    let beta = Monotype::var(context.new_typevar());
    let s1 = match algo_m(context, v, &beta) {
        Ok(s) => s,
        Err(e) => {
            return Err(e);
        },
    };
    let applied = context.apply(&s1);
    *context = applied;
    let s_rec = match unify(&beta.apply(&s1), &rec_var.apply(&s1)) {
        Ok(s) => s,
        Err(e) => {
            return Err(e);
        },
    };
    let combined = s1.combine(s_rec);
    let applied = context.apply(&combined);
    *context = applied;
    restore_binding(context, name, old_binding, Ghost(c1));
    let g = context.generalise(&beta.apply(&combined));
    context.add(name.clone(), g);
    let s2 = match algo_m(context, body, &typ.apply(&combined)) {
        Ok(s) => s,
        Err(e) => {
            return Err(e);
        },
    };
    Ok(combined.combine(s2))
}

#[verifier::rlimit(30)]
fn m_if(context: &mut TypeContext, Ghost(parent): Ghost<Expr>, cond: &Expr, th: &Expr, el: &Expr, typ: &Monotype) -> (r: Result<Substitution, UnificationError>)
    requires
        *parent.e == ENode::IfElse(Box::new(*cond), Box::new(*th), Box::new(*el)),
        m_spec(old(context)@, parent, typ@).2 <= u32::MAX,
    ensures
        final(context)@ == m_spec(old(context)@, parent, typ@).0,
        sub_result(r) == m_spec(old(context)@, parent, typ@).1,
        r matches Err(e) ==> e.pos is None,
    decreases parent, 2nat,
{
    proof {
        reveal(m_spec);
    }
    let s1 = match algo_m(context, cond, &Monotype::bool()) {
        Ok(s) => s,
        Err(e) => {
            return Err(e);
        },
    };
    let t1 = typ.apply(&s1);
    let mut scratch = context.apply(&s1);
    let s2 = match algo_m(&mut scratch, th, &t1) {
        Ok(s) => s,
        Err(e) => {
            return Err(e);
        },
    };
    let t2 = t1.apply(&s2);
    let mut scratch2 = context.apply(&s1).apply(&s2);
    let s3 = match algo_m(&mut scratch2, el, &t2) {
        Ok(s) => s,
        Err(e) => {
            return Err(e);
        },
    };
    Ok(s1.combine(s2).combine(s3))
}

#[verifier::rlimit(30)]
fn m_comparison(context: &mut TypeContext, Ghost(parent): Ghost<Expr>, op: &CompOp, a: &Expr, b: &Expr, typ: &Monotype) -> (r: Result<Substitution, UnificationError>)
    requires
        *parent.e == ENode::Comparison(*op, Box::new(*a), Box::new(*b)),
        m_spec(old(context)@, parent, typ@).2 <= u32::MAX,
    ensures
        final(context)@ == m_spec(old(context)@, parent, typ@).0,
        sub_result(r) == m_spec(old(context)@, parent, typ@).1,
        r matches Err(e) ==> e.pos is None,
    decreases parent, 2nat,
{
    proof {
        reveal(m_spec);
    }
    let s0 = match unify(typ, &Monotype::bool()) {
        Ok(s) => s,
        Err(_) => {
            let mut msg = text("Comparison requires bool result, got ");
            typ.push_text(&mut msg);
            return Err(UnificationError::new(msg));
        },
    };
    let beta = Monotype::var(context.new_typevar());
    let s1 = match algo_m(context, a, &beta) {
        Ok(s) => s,
        Err(e) => {
            return Err(e);
        },
    };
    let mut scratch = context.apply(&s1);
    let s2 = match algo_m(&mut scratch, b, &beta.apply(&s1)) {
        Ok(s) => s,
        Err(e) => {
            return Err(e);
        },
    };
    let resolved = beta.apply(&s1).apply(&s2);
    match crate::inference::check_comparison(op, &resolved) {
        Ok(()) => {},
        Err(e) => {
            return Err(e);
        },
    }
    Ok(s0.combine(s1).combine(s2))
}

#[verifier::rlimit(30)]
fn m_arithmetic(context: &mut TypeContext, Ghost(parent): Ghost<Expr>, op: &ArithOp, a: &Expr, b: &Expr, typ: &Monotype) -> (r: Result<Substitution, UnificationError>)
    requires
        *parent.e == ENode::Arithmetic(*op, Box::new(*a), Box::new(*b)),
        m_spec(old(context)@, parent, typ@).2 <= u32::MAX,
    ensures
        final(context)@ == m_spec(old(context)@, parent, typ@).0,
        sub_result(r) == m_spec(old(context)@, parent, typ@).1,
        r matches Err(e) ==> e.pos is None,
    decreases parent, 2nat,
{
    proof {
        reveal(m_spec);
    }
    let beta = Monotype::var(context.new_typevar());
    let s1 = match algo_m(context, a, &beta) {
        Ok(s) => s,
        Err(e) => {
            return Err(e);
        },
    };
    let mut scratch = context.apply(&s1);
    let s2 = match algo_m(&mut scratch, b, &beta.apply(&s1)) {
        Ok(s) => s,
        Err(e) => {
            return Err(e);
        },
    };
    let resolved = beta.apply(&s1).apply(&s2);
    let s0 = match unify(typ, &resolved) {
        Ok(s) => s,
        Err(e) => {
            return Err(e);
        },
    };
    let resolved = resolved.apply(&s0);
    match crate::inference::check_arith(op, &resolved) {
        Ok(()) => {},
        Err(e) => {
            return Err(e);
        },
    }
    Ok(s0.combine(s1).combine(s2))
}

fn m_logical(context: &mut TypeContext, Ghost(parent): Ghost<Expr>, op: &LogicalOp, a: &Expr, b: &Expr, typ: &Monotype) -> (r: Result<Substitution, UnificationError>)
    requires
        *parent.e == ENode::Logical(*op, Box::new(*a), Box::new(*b)),
        m_spec(old(context)@, parent, typ@).2 <= u32::MAX,
    ensures
        final(context)@ == m_spec(old(context)@, parent, typ@).0,
        sub_result(r) == m_spec(old(context)@, parent, typ@).1,
        r matches Err(e) ==> e.pos is None,
    decreases parent, 2nat,
{
    proof {
        reveal(m_spec);
    }
    let s0 = match unify(typ, &Monotype::bool()) {
        Ok(s) => s,
        Err(_) => {
            let mut msg = text("Logical operations require bool result, got ");
            typ.push_text(&mut msg);
            return Err(UnificationError::new(msg));
        },
    };
    let s1 = match algo_m(context, a, &Monotype::bool()) {
        Ok(s) => s,
        Err(e) => {
            return Err(e);
        },
    };
    let mut scratch = context.apply(&s1);
    let s2 = match algo_m(&mut scratch, b, &Monotype::bool()) {
        Ok(s) => s,
        Err(e) => {
            return Err(e);
        },
    };
    Ok(s0.combine(s1).combine(s2))
}

#[verifier::rlimit(30)]
fn m_unary(context: &mut TypeContext, Ghost(parent): Ghost<Expr>, op: &UnaryOp, x: &Expr, typ: &Monotype) -> (r: Result<Substitution, UnificationError>)
    requires
        *parent.e == ENode::Unary(*op, Box::new(*x)),
        m_spec(old(context)@, parent, typ@).2 <= u32::MAX,
    ensures
        final(context)@ == m_spec(old(context)@, parent, typ@).0,
        sub_result(r) == m_spec(old(context)@, parent, typ@).1,
        r matches Err(e) ==> e.pos is None,
    decreases parent, 2nat,
{
    proof {
        reveal(m_spec);
    }
    match op {
        UnaryOp::Negate => {
            let beta = Monotype::var(context.new_typevar());
            let s0 = match algo_m(context, x, &beta) {
                Ok(s) => s,
                Err(e) => {
                    return Err(e);
                },
            };
            let resolved = beta.apply(&s0);
            let s0_typ = match unify(&resolved, typ) {
                Ok(s) => s,
                Err(e) => {
                    return Err(e);
                },
            };
            let resolved = resolved.apply(&s0_typ);
            let s1 = s0.combine(s0_typ);
            if crate::inference::is_type_var(&resolved) {
                let applied = context.apply(&s1);
                *context = applied;
                return Ok(s1);
            }
            let s2 = match unify(&resolved, &Monotype::integer()) {
                Ok(s) => s,
                Err(_) => match unify(&resolved, &Monotype::float()) {
                    Ok(s) => s,
                    Err(_) => {
                        let mut msg = text("Unary negation requires int or float operand, got ");
                        resolved.push_text(&mut msg);
                        return Err(UnificationError::new(msg));
                    },
                },
            };
            let s3 = s1.combine(s2);
            let applied = context.apply(&s3);
            *context = applied;
            Ok(s3)
        },
        UnaryOp::Not => {
            let s0 = match unify(typ, &Monotype::bool()) {
                Ok(s) => s,
                Err(_) => {
                    let mut msg = text("Unary not requires bool result, got ");
                    typ.push_text(&mut msg);
                    return Err(UnificationError::new(msg));
                },
            };
            let beta = Monotype::var(context.new_typevar());
            let s1 = match algo_m(context, x, &beta) {
                Ok(s) => s,
                Err(e) => {
                    return Err(e);
                },
            };
            let s2 = match unify(&beta.apply(&s1), &Monotype::bool()) {
                Ok(s) => s,
                Err(e) => {
                    return Err(e);
                },
            };
            Ok(s0.combine(s1).combine(s2))
        },
    }
}

#[verifier::rlimit(30)]
fn m_cons(context: &mut TypeContext, Ghost(parent): Ghost<Expr>, h: &Expr, t: &Expr, typ: &Monotype) -> (r: Result<Substitution, UnificationError>)
    requires
        *parent.e == ENode::Cons(Box::new(*h), Box::new(*t)),
        m_spec(old(context)@, parent, typ@).2 <= u32::MAX,
    ensures
        final(context)@ == m_spec(old(context)@, parent, typ@).0,
        sub_result(r) == m_spec(old(context)@, parent, typ@).1,
        r matches Err(e) ==> e.pos is None,
    decreases parent, 2nat,
{
    proof {
        reveal(m_spec);
    }
    let beta = Monotype::var(context.new_typevar());
    let s0 = match unify(&crate::inference::list_type(beta.duplicate()), typ) {
        Ok(s) => s,
        Err(e) => {
            return Err(e);
        },
    };
    let applied = context.apply(&s0);
    *context = applied;
    let elem = beta.apply(&s0);
    let s1 = match algo_m(context, h, &elem) {
        Ok(s) => s,
        Err(e) => {
            return Err(e);
        },
    };
    let applied = context.apply(&s1);
    *context = applied;
    let s2 = match algo_m(context, t, &crate::inference::list_type(elem.apply(&s1))) {
        Ok(s) => s,
        Err(e) => {
            return Err(e);
        },
    };
    Ok(s0.combine(s1).combine(s2))
}

} // verus!

verus! {

/// The rest of a block from statement `i` on (see `m_block`), kept folded
/// where loops reason about it.
#[verifier::opaque]
pub open spec fn m_block_rest(c: CtxView, e: Expr, t: MType, i: int, comb: Map<Seq<char>, MType>, pk: nat) -> (CtxView, Result<Map<Seq<char>, MType>, Seq<char>>, nat) {
    m_block(c, e, t, i, comb, pk)
}

/// Statement `i` of block `e` (see `m_stmt_step`), kept folded.
#[verifier::opaque]
pub open spec fn m_stmt_outcome(c: CtxView, e: Expr, i: int, comb: Map<Seq<char>, MType>, pk: nat) -> (CtxView, Result<Map<Seq<char>, MType>, Seq<char>>, nat) {
    m_stmt_step(c, e, i, comb, pk)
}

proof fn lemma_m_block_arm(c: CtxView, e: Expr, t: MType)
    requires
        *e.e is Block,
    ensures
        m_spec(c, e, t) == m_block_rest(c, e, t, 0, Map::empty(), c.counter),
{
    reveal(m_spec);
    reveal(m_block_rest);
}

proof fn lemma_m_block_end(c: CtxView, e: Expr, t: MType, i: int, comb: Map<Seq<char>, MType>, pk: nat)
    requires
        *e.e is Block,
        i >= (*e.e)->Block_0@.len(),
    ensures
        m_block_rest(c, e, t, i, comb, pk) == ({
            let (c1, r, p) = m_spec(c, *(*e.e)->Block_1, t.apply(comb));
            match r {
                Err(m) => (c1, Err(m), top(pk, p)),
                Ok(s) => (c1, Ok(compose(comb, s)), top(pk, p)),
            }
        }),
{
    reveal(m_spec);
    reveal(m_block_rest);
}

proof fn lemma_m_decl_peak(c: CtxView, e: Expr, i: int, comb: Map<Seq<char>, MType>, pk: nat)
    ensures
        m_decl_step(c, e, i, comb, pk).2 >= pk,
{
    reveal(m_spec);
}

proof fn lemma_m_block_peak(c: CtxView, e: Expr, t: MType, i: int, comb: Map<Seq<char>, MType>, pk: nat)
    ensures
        m_block(c, e, t, i, comb, pk).2 >= pk,
    decreases node_len(e) - i,
{
    reveal(m_spec);
    if let ENode::Block(ss, _) = *e.e {
        if 0 <= i < ss@.len() {
            lemma_m_decl_peak(c, e, i, comb, pk);
            let (c1, r, p1) = m_stmt_step(c, e, i, comb, pk);
            if let Ok(comb1) = r {
                lemma_m_block_peak(c1, e, t, i + 1, comb1, p1);
            }
        }
    }
}

proof fn lemma_m_block_step(c: CtxView, e: Expr, t: MType, i: int, comb: Map<Seq<char>, MType>, pk: nat)
    requires
        *e.e is Block,
        0 <= i < (*e.e)->Block_0@.len(),
    ensures
        m_block_rest(c, e, t, i, comb, pk) == (match m_stmt_outcome(c, e, i, comb, pk) {
            (c1, Err(m), p1) => (c1, Err(m), p1),
            (c1, Ok(comb1), p1) => m_block_rest(c1, e, t, i + 1, comb1, p1),
        }),
        m_block_rest(c, e, t, i, comb, pk).2 >= m_stmt_outcome(c, e, i, comb, pk).2,
{
    reveal(m_spec);
    reveal(m_block_rest);
    reveal(m_stmt_outcome);
    let (c1, r, p1) = m_stmt_step(c, e, i, comb, pk);
    if let Ok(comb1) = r {
        lemma_m_block_peak(c1, e, t, i + 1, comb1, p1);
    }
}

proof fn lemma_m_stmt_outcome(c: CtxView, e: Expr, i: int, comb: Map<Seq<char>, MType>, pk: nat)
    requires
        *e.e is Block,
        0 <= i < (*e.e)->Block_0@.len(),
    ensures
        m_stmt_outcome(c, e, i, comb, pk) == (match *(*e.e)->Block_0@[i].s {
            SNode::Decl(_, _, _) => m_decl_step(c, e, i, comb, pk),
            SNode::Expr(x) => {
                let beta = fresh_var(c);
                let c1 = bump(c);
                let (c2, r, p) = m_spec(c1, *x, beta);
                let pk1 = top(top(pk, c1.counter), p);
                match r {
                    Err(m) => (c2, Err(m), pk1),
                    Ok(s1) => (ctx_apply(c2, s1), Ok(compose(comb, s1)), pk1),
                }
            },
            SNode::TypeDecl(_, _) => (c, Err(block_typedecl_msg()), pk),
        }),
{
    reveal(m_spec);
    reveal(m_stmt_outcome);
}

proof fn lemma_m_list_arm(c: CtxView, e: Expr, t: MType)
    requires
        *e.e is List,
    ensures
        m_spec(c, e, t) == (if (*e.e)->List_0@.len() == 0 {
            (bump(c), unify_spec(list_of(fresh_var(c)), t), c.counter + 1)
        } else {
            let beta = fresh_var(c);
            let c1 = bump(c);
            match unify_spec(list_of(beta), t) {
                Err(m) => (c1, Err(m), c1.counter),
                Ok(s0) => m_list(ctx_apply(c1, s0), e, 0, s0, beta.apply(s0), c1.counter),
            }
        }),
{
    reveal(m_spec);
}

proof fn lemma_m_list_step(c: CtxView, e: Expr, i: int, comb: Map<Seq<char>, MType>, elem: MType, pk: nat)
    requires
        *e.e is List,
        0 <= i < (*e.e)->List_0@.len(),
    ensures
        m_list(c, e, i, comb, elem, pk) == ({
            let (c1, r, p) = m_spec(c, (*e.e)->List_0@[i], elem);
            let pk1 = top(pk, p);
            match r {
                Err(m) => (c1, Err(m), pk1),
                Ok(si) => m_list(ctx_apply(c1, si), e, i + 1, compose(comb, si), elem.apply(si), pk1),
            }
        }),
{
    reveal(m_spec);
}

proof fn lemma_m_list_end(c: CtxView, e: Expr, i: int, comb: Map<Seq<char>, MType>, elem: MType, pk: nat)
    requires
        *e.e is List,
        i >= (*e.e)->List_0@.len(),
    ensures
        m_list(c, e, i, comb, elem, pk) == (c, Ok::<Map<Seq<char>, MType>, Seq<char>>(comb), pk),
{
    reveal(m_spec);
}

proof fn lemma_m_list_peak(c: CtxView, e: Expr, i: int, comb: Map<Seq<char>, MType>, elem: MType, pk: nat)
    ensures
        m_list(c, e, i, comb, elem, pk).2 >= pk,
    decreases node_len(e) - i,
{
    reveal(m_spec);
    if let ENode::List(es) = *e.e {
        if 0 <= i < es@.len() {
            let (c1, r, p) = m_spec(c, es@[i], elem);
            if let Ok(si) = r {
                lemma_m_list_peak(ctx_apply(c1, si), e, i + 1, compose(comb, si), elem.apply(si), top(pk, p));
            }
        }
    }
}

fn m_list_exec(context: &mut TypeContext, Ghost(parent): Ghost<Expr>, es: &Vec<Expr>, typ: &Monotype) -> (r: Result<Substitution, UnificationError>)
    requires
        *parent.e == ENode::List(*es),
        m_spec(old(context)@, parent, typ@).2 <= u32::MAX,
    ensures
        final(context)@ == m_spec(old(context)@, parent, typ@).0,
        sub_result(r) == m_spec(old(context)@, parent, typ@).1,
        r matches Err(e) ==> e.pos is None,
    decreases parent, 2nat,
{
    let ghost c0 = context@;
    proof {
        lemma_m_list_arm(c0, parent, typ@);
        assert forall|c: CtxView, i: int, comb: Map<Seq<char>, MType>, el: MType, p: nat|
            #[trigger] m_list(c, parent, i, comb, el, p).2 >= p by {
            lemma_m_list_peak(c, parent, i, comb, el, p);
        }
    }
    if es.len() == 0 {
        let tv = Monotype::var(context.new_typevar());
        return unify(&crate::inference::list_type(tv), typ);
    }
    let beta = Monotype::var(context.new_typevar());
    let s0 = match unify(&crate::inference::list_type(beta.duplicate()), typ) {
        Ok(s) => s,
        Err(e) => {
            return Err(e);
        },
    };
    let applied = context.apply(&s0);
    *context = applied;
    let mut elem = beta.apply(&s0);
    let mut combined = s0;
    let ghost mut pk: nat = (c0.counter + 1) as nat;
    let mut i: usize = 0;
    while i < es.len()
        invariant
            c0 == old(context)@,
            *parent.e == ENode::List(*es),
            0 <= i <= es@.len(),
            forall|j: int| 0 <= j < es@.len() ==> decreases_to!(parent => es@[j]),
            forall|c: CtxView, i: int, comb: Map<Seq<char>, MType>, el: MType, p: nat|
                #[trigger] m_list(c, parent, i, comb, el, p).2 >= p,
            m_spec(c0, parent, typ@) == m_list(context@, parent, i as int, combined@, elem@, pk),
            m_spec(c0, parent, typ@).2 <= u32::MAX,
        decreases es@.len() - i,
    {
        let ghost ci = context@;
        proof {
            lemma_m_list_step(ci, parent, i as int, combined@, elem@, pk);
        }
        let ghost pki = m_spec(ci, es@[i as int], elem@).2;
        let si = match algo_m(context, &es[i], &elem) {
            Ok(s) => s,
            Err(e) => {
                return Err(e);
            },
        };
        let applied = context.apply(&si);
        *context = applied;
        elem = elem.apply(&si);
        combined = combined.combine(si);
        proof {
            pk = top(pk, pki);
        }
        i = i + 1;
    }
    proof {
        lemma_m_list_end(context@, parent, i as int, combined@, elem@, pk);
    }
    Ok(combined)
}

fn m_block_exec(context: &mut TypeContext, Ghost(parent): Ghost<Expr>, stmts: &Vec<Stmt>, tail: &Expr, typ: &Monotype) -> (r: Result<Substitution, UnificationError>)
    requires
        *parent.e == ENode::Block(*stmts, Box::new(*tail)),
        m_spec(old(context)@, parent, typ@).2 <= u32::MAX,
    ensures
        final(context)@ == m_spec(old(context)@, parent, typ@).0,
        sub_result(r) == m_spec(old(context)@, parent, typ@).1,
        r matches Err(e) ==> e.pos is None,
    decreases parent, 2nat,
{
    let ghost c0 = context@;
    proof {
        lemma_m_block_arm(c0, parent, typ@);
        assert forall|j: int| 0 <= j < stmts@.len() implies decreases_to!(parent => stmts@[j]) by {
            let ss = (*parent.e)->Block_0;
            assert(decreases_to!(parent => ss));
            assert(decreases_to!(ss => ss@));
            assert(decreases_to!(ss@ => ss@[j]));
        }
    }
    let mut combined = Substitution::new();
    let ghost mut pk: nat = c0.counter;
    let mut i: usize = 0;
    while i < stmts.len()
        invariant
            c0 == old(context)@,
            *parent.e == ENode::Block(*stmts, Box::new(*tail)),
            0 <= i <= stmts@.len(),
            forall|j: int| 0 <= j < stmts@.len() ==> decreases_to!(parent => stmts@[j]),
            m_spec(c0, parent, typ@) == m_block_rest(context@, parent, typ@, i as int, combined@, pk),
            m_spec(c0, parent, typ@).2 <= u32::MAX,
        decreases stmts@.len() - i,
    {
        let ghost ci = context@;
        let ghost st = m_stmt_outcome(ci, parent, i as int, combined@, pk);
        proof {
            lemma_m_block_step(ci, parent, typ@, i as int, combined@, pk);
        }
        combined = match m_stmt(context, Ghost(parent), Ghost(i as int), Ghost(pk), combined, &stmts[i]) {
            Ok(s) => s,
            Err(e) => {
                return Err(e);
            },
        };
        proof {
            pk = st.2;
        }
        i = i + 1;
    }
    proof {
        lemma_m_block_end(context@, parent, typ@, i as int, combined@, pk);
    }
    let s_final = match algo_m(context, tail, &typ.apply(&combined)) {
        Ok(s) => s,
        Err(e) => {
            return Err(e);
        },
    };
    Ok(combined.combine(s_final))
}

/// A statement of a block (see `m_stmt_step`).
#[verifier::spinoff_prover]
#[verifier::rlimit(60)]
fn m_stmt(
    context: &mut TypeContext,
    Ghost(parent): Ghost<Expr>,
    Ghost(i): Ghost<int>,
    Ghost(pk): Ghost<nat>,
    combined: Substitution,
    stmt: &Stmt,
) -> (r: Result<Substitution, UnificationError>)
    requires
        *parent.e is Block,
        0 <= i < (*parent.e)->Block_0@.len(),
        (*parent.e)->Block_0@[i] == *stmt,
        decreases_to!(parent => *stmt),
        m_stmt_outcome(old(context)@, parent, i, combined@, pk).2 <= u32::MAX,
    ensures
        final(context)@ == m_stmt_outcome(old(context)@, parent, i, combined@, pk).0,
        sub_result(r) == m_stmt_outcome(old(context)@, parent, i, combined@, pk).1,
        r matches Err(e) ==> e.pos is None,
    decreases parent, 1nat,
{
    proof {
        lemma_m_stmt_outcome(old(context)@, parent, i, combined@, pk);
    }
    match &*stmt.s {
        SNode::Decl(target, ty, v) => m_decl(context, Ghost(parent), Ghost(i), Ghost(pk), combined, target, ty, v),
        SNode::Expr(x) => {
            let beta = Monotype::var(context.new_typevar());
            let s1 = match algo_m(context, x, &beta) {
                Ok(s) => s,
                Err(e) => {
                    return Err(e);
                },
            };
            let applied = context.apply(&s1);
            *context = applied;
            Ok(combined.combine(s1))
        },
        SNode::TypeDecl(_, _) => {
            Err(UnificationError::new(text("Type declarations are not allowed inside block expressions")))
        },
    }
}

/// A declaration statement of a block (see `m_decl_step`).
#[verifier::rlimit(30)]
fn m_decl(
    context: &mut TypeContext,
    Ghost(parent): Ghost<Expr>,
    Ghost(i): Ghost<int>,
    Ghost(pk): Ghost<nat>,
    combined: Substitution,
    target: &Expr,
    ty: &crate::ast::Type,
    v: &Expr,
) -> (r: Result<Substitution, UnificationError>)
    requires
        *parent.e is Block,
        0 <= i < (*parent.e)->Block_0@.len(),
        *(*parent.e)->Block_0@[i].s == SNode::Decl(Box::new(*target), Box::new(*ty), Box::new(*v)),
        decreases_to!(parent => *v),
        m_decl_step(old(context)@, parent, i, combined@, pk).2 <= u32::MAX,
    ensures
        final(context)@ == m_decl_step(old(context)@, parent, i, combined@, pk).0,
        sub_result(r) == m_decl_step(old(context)@, parent, i, combined@, pk).1,
        r matches Err(e) ==> e.pos is None,
    decreases parent, 0nat,
{
    proof {
        reveal(m_spec);
    }
    let var_name = match &*target.e {
        ENode::Variable(n) => n.clone(),
        _ => {
            return Err(UnificationError::new(text("Expected a variable name in declaration")));
        },
    };
    let binding_type = match type_to_typefn(ty, context) {
        Ok(t) => t,
        Err(e) => {
            return Err(e);
        },
    };
    let ghost c1 = context@;
    let old_binding = context.get(&var_name);
    context.add(var_name.clone(), Polytype::Mono(Box::new(binding_type.duplicate())));
    let beta = Monotype::var(context.new_typevar());
    let s1 = match algo_m(context, v, &beta) {
        Ok(s) => s,
        Err(e) => {
            return Err(e);
        },
    };
    let applied = context.apply(&s1);
    *context = applied;
    let beta_s1 = beta.apply(&s1);
    let combined = combined.combine(s1);
    let s2 = match unify(&binding_type.apply(&combined), &beta_s1) {
        Ok(s) => s,
        Err(e) => {
            return Err(e);
        },
    };
    let applied = context.apply(&s2);
    *context = applied;
    let combined = combined.combine(s2);
    restore_binding(context, &var_name, old_binding, Ghost(c1));
    let resolved = binding_type.apply(&combined);
    let g = context.generalise(&resolved);
    context.add(var_name, g);
    Ok(combined)
}

} // verus!
