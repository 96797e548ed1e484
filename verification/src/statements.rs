//! Type checking of top-level statements and of whole programs.
use vstd::prelude::*;
use crate::ast::{ENode, Stmt, SNode, Program, same_shape, stmt_same_shape, lemma_stmt_same_shape_trans};
use crate::types::{
    Monotype, Polytype, TypeContext, Substitution, UnificationError, MType, TFun, PType, CtxView, compose,
    gen_bind, ctx_apply, ctx_bind, ctx_restore, is_builtin_name,
};
use crate::unification::{unify, unify_spec};
use crate::declarations::{expand_spec, with_counter, type_to_typefn, handle_type_decl, decl_spec, unit_result};
use crate::inference::{algo_w, annotate_w, infer_spec, w_result, top, prim, restore_binding, w_annot, decl_annot};
use crate::passes::{resolve_stmt_types, retyped, stmt_retyped};
use crate::text::{text, push_str};

verus! {

/// The name of the kind of an expression node.
pub open spec fn enode_kind(n: ENode) -> Seq<char> {
    match n {
        ENode::Variable(_) => "Variable"@,
        ENode::Literal(_) => "Literal"@,
        ENode::Abstraction(_, _) => "Abstraction"@,
        ENode::Application(_, _) => "Application"@,
        ENode::Let(_, _, _) => "Let"@,
        ENode::IfElse(_, _, _) => "IfElse"@,
        ENode::Block(_, _) => "Block"@,
        ENode::Comparison(_, _, _) => "Comparison"@,
        ENode::Arithmetic(_, _, _) => "Arithmetic"@,
        ENode::Logical(_, _, _) => "Logical"@,
        ENode::Unary(_, _) => "Unary"@,
        ENode::List(_) => "List"@,
        ENode::Cons(_, _) => "Cons"@,
        ENode::Match(_, _) => "Match"@,
    }
}

pub open spec fn decl_name_msg(n: ENode) -> Seq<char> {
    "Expected a variable name in declaration, got "@ + enode_kind(n)
}

pub open spec fn builtin_msg(n: Seq<char>) -> Seq<char> {
    "Redefinition of builtin function '"@ + n + "' not allowed"@
}

/// Checking of a statement node in context `c`: a declaration binds its
/// name (which may not be a builtin) to the generalised type of its value,
/// which must unify with the written type; an expression is inferred and
/// its substitution applied to the context; a type declaration is
/// registered. The outcome is the context for the following statements,
/// the substitution and type found or the diagnostic, and the highest
/// fresh-name counter reached.
pub open spec fn node_spec(c: CtxView, node: SNode) -> (CtxView, Result<(Map<Seq<char>, MType>, MType), Seq<char>>, nat) {
    match node {
        SNode::Decl(target, ty, v) => match *target.e {
            ENode::Variable(n) => if is_builtin_name(n@) {
                (c, Err(builtin_msg(n@)), c.counter)
            } else {
                let (n1, r) = expand_spec(ty.t@, c.counter, c.aliases, Seq::empty());
                let c1 = with_counter(c, n1);
                match r {
                    Err(m) => (c1, Err(m), n1),
                    Ok(bt) => {
                        let (c2, r2, p2) = infer_spec(ctx_bind(c1, n@, PType::Mono(bt)), *v);
                        let pk = top(n1, p2);
                        match r2 {
                            Err(m) => (c2, Err(m), pk),
                            Ok((s1, it)) => match unify_spec(bt.apply(s1), it) {
                                Err(m) => (c2, Err(m), pk),
                                Ok(s2) => {
                                    let comb = compose(s1, s2);
                                    let c3 = ctx_restore(ctx_apply(c2, comb), n@, c1);
                                    let resolved = bt.apply(comb);
                                    (gen_bind(c3, n@, resolved), Ok((comb, resolved)), pk)
                                },
                            },
                        }
                    },
                }
            },
            other => (c, Err(decl_name_msg(other)), c.counter),
        },
        SNode::Expr(x) => {
            let (c1, r, p) = infer_spec(c, *x);
            match r {
                Err(m) => (c1, Err(m), p),
                Ok((s, t)) => (ctx_apply(c1, s), Ok((s, t)), p),
            }
        },
        SNode::TypeDecl(h, d) => {
            let (c1, r) = decl_spec(h@.0, h@.1, (*d)@, c);
            match r {
                Err(m) => (c1, Err(m), c1.counter),
                Ok(_) => (c1, Ok((Map::empty(), prim(TFun::Unit))), c1.counter),
            }
        },
    }
}

/// The types recorded in a top-level statement checked in `c`, before
/// they are resolved: those of the value of a declaration of a name that is
/// not a builtin, or those of an expression (see `w_annot`).
pub open spec fn top_annot(c: CtxView, s: Stmt, t: Stmt) -> bool {
    match *s.s {
        SNode::Decl(target, ty, v) => match *t.s {
            SNode::Decl(_, _, nv) => match *target.e {
                ENode::Variable(n) => !is_builtin_name(n@) ==> decl_annot(c, *target, *ty, *v, *nv),
                _ => true,
            },
            _ => false,
        },
        SNode::Expr(x) => match *t.s {
            SNode::Expr(nx) => w_annot(c, *x, *nx),
            _ => false,
        },
        SNode::TypeDecl(_, _) => true,
    }
}

/// `t` is statement `s` after a successful check in `c`: its recorded
/// types are those that checking found (see `top_annot`), resolved by the
/// substitution of the statement.
#[verifier::opaque]
pub open spec fn stmt_typed(c: CtxView, s: Stmt, t: Stmt) -> bool {
    node_spec(c, *s.s).1 matches Ok((sub, _)) ==> exists|m: Stmt|
        #[trigger] top_annot(c, s, m) && stmt_retyped(Stmt { ctx: s.ctx, ..t }, m, sub)
}

/// The context in which statement `j` of `ss` is checked, starting from `c`.
pub open spec fn prog_ctx(c: CtxView, ss: Seq<Stmt>, j: int) -> CtxView
    decreases j,
{
    if j <= 0 {
        c
    } else {
        node_spec(prog_ctx(c, ss, j - 1), *ss[j - 1].s).0
    }
}

fn enode_kind_text(n: &ENode) -> (r: String)
    ensures
        r@ == enode_kind(*n),
{
    match n {
        ENode::Variable(_) => text("Variable"),
        ENode::Literal(_) => text("Literal"),
        ENode::Abstraction(_, _) => text("Abstraction"),
        ENode::Application(_, _) => text("Application"),
        ENode::Let(_, _, _) => text("Let"),
        ENode::IfElse(_, _, _) => text("IfElse"),
        ENode::Block(_, _) => text("Block"),
        ENode::Comparison(_, _, _) => text("Comparison"),
        ENode::Arithmetic(_, _, _) => text("Arithmetic"),
        ENode::Logical(_, _, _) => text("Logical"),
        ENode::Unary(_, _) => text("Unary"),
        ENode::List(_) => text("List"),
        ENode::Cons(_, _) => text("Cons"),
        ENode::Match(_, _) => text("Match"),
    }
}

/// Check the node of `stmt` (see `node_spec`), leaving in `context` the
/// context for the following statements.
#[verifier::rlimit(30)]
fn check_node(stmt: &mut Stmt, context: &mut TypeContext) -> (r: Result<(Substitution, Monotype), UnificationError>)
    requires
        node_spec(old(context)@, *old(stmt).s).2 <= u32::MAX,
    ensures
        final(context)@ == node_spec(old(context)@, *old(stmt).s).0,
        w_result(r) == node_spec(old(context)@, *old(stmt).s).1,
        stmt_same_shape(*final(stmt), *old(stmt)),
        r matches Ok((_, t)) ==> (*final(stmt).s matches SNode::Expr(x) ==> x.typ@ == t@),
        top_annot(old(context)@, *old(stmt), *final(stmt)),
        final(stmt).ctx == old(stmt).ctx,
        r matches Err(e) ==> e.pos is None,
{
    proof {
        crate::ast::lemma_stmt_same_shape_refl(*stmt);
        reveal(same_shape);
    }
    match &mut *stmt.s {
        SNode::Decl(target, ty, v) => {
            proof {
                crate::ast::lemma_same_shape_refl(**target);
                crate::ast::lemma_same_shape_refl(**v);
            }
            let var_name = match &*target.e {
                ENode::Variable(n) => n.clone(),
                other => {
                    let mut msg = text("Expected a variable name in declaration, got ");
                    let kind = enode_kind_text(other);
                    push_str(&mut msg, kind.as_str());
                    return Err(UnificationError::new(msg));
                },
            };
            if TypeContext::is_builtin(var_name.as_str()) {
                let mut msg = text("Redefinition of builtin function '");
                push_str(&mut msg, var_name.as_str());
                push_str(&mut msg, "' not allowed");
                return Err(UnificationError::new(msg));
            }
            let binding_type = match type_to_typefn(ty, context) {
                Ok(t) => t,
                Err(e) => {
                    return Err(e);
                },
            };
            let ghost c1 = context@;
            let old_binding = context.get(&var_name);
            context.add(var_name.clone(), Polytype::Mono(Box::new(binding_type.duplicate())));
            let (s1, inferred) = match annotate_w(context, v) {
                Ok(p) => p,
                Err(e) => {
                    return Err(e);
                },
            };
            let s2 = match unify(&binding_type.apply(&s1), &inferred) {
                Ok(s) => s,
                Err(e) => {
                    return Err(e);
                },
            };
            let combined = s1.combine(s2);
            let applied = context.apply(&combined);
            *context = applied;
            restore_binding(context, &var_name, old_binding, Ghost(c1));
            let resolved = binding_type.apply(&combined);
            let g = context.generalise(&resolved);
            context.add(var_name, g);
            Ok((combined, resolved))
        },
        SNode::Expr(x) => {
            let (sub, typ) = match annotate_w(context, x) {
                Ok(p) => p,
                Err(e) => {
                    return Err(e);
                },
            };
            let applied = context.apply(&sub);
            *context = applied;
            Ok((sub, typ))
        },
        SNode::TypeDecl(h, d) => {
            match handle_type_decl(h, d, context) {
                Ok(()) => {},
                Err(e) => {
                    return Err(e);
                },
            }
            Ok((Substitution::new(), Monotype::unit()))
        },
    }
}

/// Decide the node of `stmt` (see `node_spec`) without recording anything
/// in it, leaving in `context` the context for the following statements.
#[verifier::rlimit(30)]
fn decide_node(stmt: &Stmt, context: &mut TypeContext) -> (r: Result<(Substitution, Monotype), UnificationError>)
    requires
        node_spec(old(context)@, *stmt.s).2 <= u32::MAX,
    ensures
        final(context)@ == node_spec(old(context)@, *stmt.s).0,
        w_result(r) == node_spec(old(context)@, *stmt.s).1,
        r matches Err(e) ==> e.pos is None,
{
    match &*stmt.s {
        SNode::Decl(target, ty, v) => {
            let var_name = match &*target.e {
                ENode::Variable(n) => n.clone(),
                other => {
                    let mut msg = text("Expected a variable name in declaration, got ");
                    let kind = enode_kind_text(other);
                    push_str(&mut msg, kind.as_str());
                    return Err(UnificationError::new(msg));
                },
            };
            if TypeContext::is_builtin(var_name.as_str()) {
                let mut msg = text("Redefinition of builtin function '");
                push_str(&mut msg, var_name.as_str());
                push_str(&mut msg, "' not allowed");
                return Err(UnificationError::new(msg));
            }
            let binding_type = match type_to_typefn(ty, context) {
                Ok(t) => t,
                Err(e) => {
                    return Err(e);
                },
            };
            let ghost c1 = context@;
            let old_binding = context.get(&var_name);
            context.add(var_name.clone(), Polytype::Mono(Box::new(binding_type.duplicate())));
            let (s1, inferred) = match algo_w(context, v) {
                Ok(p) => p,
                Err(e) => {
                    return Err(e);
                },
            };
            let s2 = match unify(&binding_type.apply(&s1), &inferred) {
                Ok(s) => s,
                Err(e) => {
                    return Err(e);
                },
            };
            let combined = s1.combine(s2);
            let applied = context.apply(&combined);
            *context = applied;
            restore_binding(context, &var_name, old_binding, Ghost(c1));
            let resolved = binding_type.apply(&combined);
            let g = context.generalise(&resolved);
            context.add(var_name, g);
            Ok((combined, resolved))
        },
        SNode::Expr(x) => {
            let (sub, typ) = match algo_w(context, x) {
                Ok(p) => p,
                Err(e) => {
                    return Err(e);
                },
            };
            let applied = context.apply(&sub);
            *context = applied;
            Ok((sub, typ))
        },
        SNode::TypeDecl(h, d) => {
            match handle_type_decl(h, d, context) {
                Ok(()) => {},
                Err(e) => {
                    return Err(e);
                },
            }
            Ok((Substitution::new(), Monotype::unit()))
        },
    }
}

impl Stmt {
    /// Check this statement in a copy of `ctx` (see `node_spec`). On success
    /// the statement keeps the context for the following statements and
    /// every type recorded in it is resolved by the substitution found; the
    /// tree keeps its shape. On failure the statement is left as it was and
    /// the error is located at it.
    pub fn typecheck(&mut self, ctx: &TypeContext) -> (r: Result<(Substitution, Monotype), UnificationError>)
        requires
            node_spec(ctx@, *old(self).s).2 <= u32::MAX,
        ensures
            w_result(r) == node_spec(ctx@, *old(self).s).1,
            r is Ok ==> final(self).ctx@ == node_spec(ctx@, *old(self).s).0,
            r matches Err(e) ==> e.pos == Some(old(self).pos),
            r is Err ==> *final(self) == *old(self),
            stmt_same_shape(Stmt { ctx: old(self).ctx, ..*final(self) }, *old(self)),
            r matches Ok((s, t)) ==> (*final(self).s matches SNode::Expr(x) ==> x.typ@ == t@.apply(s@)),
            stmt_typed(ctx@, *old(self), *final(self)),
    {
        let mut trial = ctx.duplicate();
        if let Err(e) = decide_node(self, &mut trial) {
            let p = self.pos.duplicate();
            proof {
                crate::ast::lemma_stmt_same_shape_refl(*self);
                reveal(stmt_typed);
            }
            return Err(e.with_pos(p));
        }
        let mut context = ctx.duplicate();
        let ghost before = *self;
        match check_node(self, &mut context) {
            Ok((combined, typ)) => {
                let ghost mid = *self;
                resolve_stmt_types(self, &combined);
                proof {
                    lemma_stmt_same_shape_trans(*self, mid, before);
                    reveal(retyped);
                }
                self.ctx = context;
                proof {
                    reveal(stmt_typed);
                    assert(top_annot(ctx@, before, mid));
                    assert(stmt_retyped(Stmt { ctx: before.ctx, ..*self }, mid, combined@));
                }
                Ok((combined, typ))
            },
            Err(e) => {
                proof {
                    assert(false);
                }
                Err(e)
            },
        }
    }
}

/// Checking of the statements of `ss` from position `i` on, each in the
/// context that the previous one left. The outcome is the final context,
/// success or the first diagnostic, and the highest counter reached.
pub open spec fn program_spec(c: CtxView, ss: Seq<Stmt>, i: int) -> (CtxView, Result<(), Seq<char>>, nat)
    decreases ss.len() - i,
{
    if i < 0 || i >= ss.len() {
        (c, Ok(()), c.counter)
    } else {
        let (c1, r, p) = node_spec(c, *ss[i].s);
        match r {
            Err(m) => (c, Err(m), p),
            Ok(_) => {
                let (c2, r2, p2) = program_spec(c1, ss, i + 1);
                (c2, r2, top(p, p2))
            },
        }
    }
}

impl Program {
    /// Check every statement in order, each in the context left by the one
    /// before (see `program_spec`), stopping at the first error; the
    /// statement that fails and those after it are left as they were.
    #[verifier::rlimit(40)]
    pub fn typecheck(prog: &mut Program) -> (r: Result<(), UnificationError>)
        requires
            program_spec(old(prog).ctx@, old(prog).stmts@, 0).2 <= u32::MAX,
        ensures
            final(prog).ctx@ == program_spec(old(prog).ctx@, old(prog).stmts@, 0).0,
            unit_result(r) == program_spec(old(prog).ctx@, old(prog).stmts@, 0).1,
            r matches Err(e) ==> e.pos is Some,
            final(prog).stmts@.len() == old(prog).stmts@.len(),
            forall|j: int| 0 <= j < old(prog).stmts@.len() ==> stmt_same_shape(
                Stmt { ctx: old(prog).stmts@[j].ctx, ..#[trigger] final(prog).stmts@[j] },
                old(prog).stmts@[j],
            ),
            r is Ok ==> forall|j: int| 0 <= j < old(prog).stmts@.len() ==> stmt_typed(
                prog_ctx(old(prog).ctx@, old(prog).stmts@, j),
                old(prog).stmts@[j],
                #[trigger] final(prog).stmts@[j],
            ),
            r is Err ==> exists|k: int| {
                &&& 0 <= k < old(prog).stmts@.len()
                &&& final(prog).ctx@ == #[trigger] prog_ctx(old(prog).ctx@, old(prog).stmts@, k)
                &&& forall|j: int| 0 <= j < k ==> stmt_typed(
                    prog_ctx(old(prog).ctx@, old(prog).stmts@, j),
                    old(prog).stmts@[j],
                    #[trigger] final(prog).stmts@[j],
                )
                &&& forall|j: int| k <= j < old(prog).stmts@.len() ==> #[trigger] final(prog).stmts@[j] == old(prog).stmts@[j]
            },
    {
        let ghost olds = prog.stmts@;
        let ghost c0 = prog.ctx@;
        let ghost mut pk: nat = 0;
        let mut i: usize = 0;
        proof {
            assert forall|j: int| 0 <= j < olds.len() implies stmt_same_shape(Stmt { ctx: olds[j].ctx, ..#[trigger] olds[j] }, olds[j]) by {
                crate::ast::lemma_stmt_same_shape_refl(olds[j]);
            }
        }
        while i < prog.stmts.len()
            invariant
                olds == old(prog).stmts@,
                c0 == old(prog).ctx@,
                prog.stmts@.len() == olds.len(),
                0 <= i <= olds.len(),
                program_spec(c0, olds, 0) == ({
                    let (c2, r2, p2) = program_spec(prog.ctx@, olds, i as int);
                    (c2, r2, top(pk, p2))
                }),
                program_spec(c0, olds, 0).2 <= u32::MAX,
                forall|j: int| 0 <= j < olds.len() ==> stmt_same_shape(
                    Stmt { ctx: olds[j].ctx, ..#[trigger] prog.stmts@[j] },
                    olds[j],
                ),
                forall|j: int| i <= j < olds.len() ==> #[trigger] prog.stmts@[j] == olds[j],
                prog.ctx@ == prog_ctx(c0, olds, i as int),
                forall|j: int| 0 <= j < i ==> stmt_typed(prog_ctx(c0, olds, j), olds[j], #[trigger] prog.stmts@[j]),
            decreases olds.len() - i,
        {
            let ghost ci = prog.ctx@;
            let ghost st = node_spec(ci, *olds[i as int].s);
            let ghost rest = program_spec(st.0, olds, i + 1);
            let res = prog.stmts[i].typecheck(&prog.ctx);
            match res {
                Ok(_) => {},
                Err(e) => {
                    proof {
                        assert(0 <= i < olds.len() && prog.ctx@ == prog_ctx(c0, olds, i as int));
                        assert forall|j: int| i <= j < olds.len() implies #[trigger] prog.stmts@[j] == olds[j] by {
                        }
                    }
                    return Err(e);
                },
            }
            let next = prog.stmts[i].ctx.duplicate();
            prog.ctx = next;
            proof {
                assert(prog_ctx(c0, olds, i + 1) == node_spec(prog_ctx(c0, olds, i as int), *olds[i as int].s).0);
            }
            proof {
                pk = top(pk, st.2);
            }
            i = i + 1;
        }
        Ok(())
    }
}

/// Decide the statements of `a` followed by those of `b` (see
/// `program_spec`) without recording anything in them, starting from
/// `context`. An error is located at the statement where it arose.
pub fn decide_statements(context: &mut TypeContext, a: &Vec<Stmt>, b: &Vec<Stmt>) -> (r: Result<(), UnificationError>)
    requires
        program_spec(old(context)@, a@ + b@, 0).2 <= u32::MAX,
        a@.len() + b@.len() <= usize::MAX,
    ensures
        unit_result(r) == program_spec(old(context)@, a@ + b@, 0).1,
        r is Ok ==> final(context)@ == program_spec(old(context)@, a@ + b@, 0).0,
        r matches Err(e) ==> e.pos is Some,
{
    let ghost all = a@ + b@;
    let ghost c0 = context@;
    let ghost mut pk: nat = 0;
    let n = a.len() + b.len();
    let mut i: usize = 0;
    while i < n
        invariant
            all == a@ + b@,
            n == all.len(),
            0 <= i <= n,
            c0 == old(context)@,
            program_spec(c0, all, 0) == ({
                let (c2, r2, p2) = program_spec(context@, all, i as int);
                (c2, r2, top(pk, p2))
            }),
            program_spec(c0, all, 0).2 <= u32::MAX,
        decreases n - i,
    {
        let stmt = if i < a.len() {
            &a[i]
        } else {
            &b[i - a.len()]
        };
        assert(*stmt == all[i as int]);
        let ghost st = node_spec(context@, *all[i as int].s);
        match decide_node(stmt, context) {
            Ok(_) => {},
            Err(e) => {
                let p = stmt.pos.duplicate();
                return Err(e.with_pos(p));
            },
        }
        proof {
            pk = top(pk, st.2);
        }
        i = i + 1;
    }
    Ok(())
}

} // verus!
