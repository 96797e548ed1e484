//! Passes over a checked tree: resolving the recorded types and filling the
//! line/column data of positions.
use vstd::prelude::*;
use vstd::string::StringSliceAdditionalSpecFns;
use crate::ast::{Expr, ENode, Stmt, SNode, MatchCase, Pos, LineIndex, Program, line_start_offsets, same_shape, stmt_same_shape};
use crate::types::{Substitution, MType};

verus! {

/// `a` is `b` with the substitution `s` applied to every recorded type.
#[verifier::opaque]
pub open spec fn retyped(a: Expr, b: Expr, s: Map<Seq<char>, MType>) -> bool
    decreases a,
{
    &&& a.ctx == b.ctx
    &&& a.pos == b.pos
    &&& a.typ@ == b.typ@.apply(s)
    &&& match (*a.e, *b.e) {
        (ENode::Variable(x), ENode::Variable(y)) => x == y,
        (ENode::Literal(x), ENode::Literal(y)) => x == y,
        (ENode::Abstraction(x, m), ENode::Abstraction(y, n)) => x == y && retyped(*m, *n, s),
        (ENode::Application(x1, x2), ENode::Application(y1, y2)) => retyped(*x1, *y1, s) && retyped(*x2, *y2, s),
        (ENode::Let(x, x1, x2), ENode::Let(y, y1, y2)) => x == y && retyped(*x1, *y1, s) && retyped(*x2, *y2, s),
        (ENode::IfElse(x1, x2, x3), ENode::IfElse(y1, y2, y3)) => retyped(*x1, *y1, s) && retyped(*x2, *y2, s) && retyped(*x3, *y3, s),
        (ENode::Block(xs, x), ENode::Block(ys, y)) => {
            &&& xs@.len() == ys@.len()
            &&& forall|i: int| 0 <= i < xs@.len() ==> stmt_retyped(#[trigger] xs@[i], ys@[i], s)
            &&& retyped(*x, *y, s)
        },
        (ENode::Comparison(o, x1, x2), ENode::Comparison(p, y1, y2)) => o == p && retyped(*x1, *y1, s) && retyped(*x2, *y2, s),
        (ENode::Arithmetic(o, x1, x2), ENode::Arithmetic(p, y1, y2)) => o == p && retyped(*x1, *y1, s) && retyped(*x2, *y2, s),
        (ENode::Logical(o, x1, x2), ENode::Logical(p, y1, y2)) => o == p && retyped(*x1, *y1, s) && retyped(*x2, *y2, s),
        (ENode::Unary(o, x), ENode::Unary(p, y)) => o == p && retyped(*x, *y, s),
        (ENode::List(xs), ENode::List(ys)) => {
            &&& xs@.len() == ys@.len()
            &&& forall|i: int| 0 <= i < xs@.len() ==> retyped(#[trigger] xs@[i], ys@[i], s)
        },
        (ENode::Cons(x1, x2), ENode::Cons(y1, y2)) => retyped(*x1, *y1, s) && retyped(*x2, *y2, s),
        (ENode::Match(x, xs), ENode::Match(y, ys)) => {
            &&& retyped(*x, *y, s)
            &&& xs@.len() == ys@.len()
            &&& forall|i: int| 0 <= i < xs@.len() ==> retyped(*(#[trigger] xs@[i]).val, *ys@[i].val, s)
            &&& forall|i: int| 0 <= i < xs@.len() ==> retyped(*(#[trigger] xs@[i]).exp, *ys@[i].exp, s)
        },
        _ => false,
    }
}

/// `a` is `b` with the substitution `s` applied to every recorded type.
pub open spec fn stmt_retyped(a: Stmt, b: Stmt, s: Map<Seq<char>, MType>) -> bool
    decreases a,
{
    &&& a.ctx == b.ctx
    &&& a.pos == b.pos
    &&& match (*a.s, *b.s) {
        (SNode::Decl(x1, t, x2), SNode::Decl(y1, u, y2)) => retyped(*x1, *y1, s) && t == u && retyped(*x2, *y2, s),
        (SNode::Expr(x), SNode::Expr(y)) => retyped(*x, *y, s),
        (SNode::TypeDecl(h, d), SNode::TypeDecl(k, f)) => h == k && d == f,
        _ => false,
    }
}

/// Apply `sub` to the recorded type of every expression reachable from
/// `stmt`.
pub fn resolve_stmt_types(stmt: &mut Stmt, sub: &Substitution)
    ensures
        stmt_retyped(*final(stmt), *old(stmt), sub@),
        stmt_same_shape(*final(stmt), *old(stmt)),
    decreases *old(stmt), 2nat,
{
    match &mut *stmt.s {
        SNode::Decl(e1, t, e2) => {
            let ghost g = *t;
            resolve_expr_types(e1, sub);
            resolve_expr_types(e2, sub);
        },
        SNode::Expr(e1) => resolve_expr_types(e1, sub),
        SNode::TypeDecl(h, d) => {
            let ghost g = (*h, *d);
        },
    }
    proof {
        reveal(retyped);
        reveal(same_shape);
        assert(stmt.ctx == old(stmt).ctx);
        assert(stmt.pos == old(stmt).pos);
        if *old(stmt).s is Decl {
            assert(*stmt.s is Decl);
            assert((*stmt.s)->Decl_1 == (*old(stmt).s)->Decl_1);
            assert(retyped(*(*stmt.s)->Decl_0, *(*old(stmt).s)->Decl_0, sub@));
        }
        if *old(stmt).s is TypeDecl {
            assert(*stmt.s == *old(stmt).s);
        }
    }
}

/// Apply `sub` to the recorded type of `expr` and of everything reachable
/// from it.
pub fn apply_substitution(expr: &mut Expr, sub: &Substitution)
    ensures
        retyped(*final(expr), *old(expr), sub@),
        same_shape(*final(expr), *old(expr)),
{
    resolve_expr_types(expr, sub);
}

fn resolve_list(es: &mut Vec<Expr>, sub: &Substitution, Ghost(parent): Ghost<Expr>)
    requires
        forall|j: int| 0 <= j < old(es)@.len() ==> decreases_to!(parent => old(es)@[j]),
    ensures
        final(es)@.len() == old(es)@.len(),
        forall|j: int| 0 <= j < old(es)@.len() ==> retyped(#[trigger] final(es)@[j], old(es)@[j], sub@),
        forall|j: int| 0 <= j < old(es)@.len() ==> same_shape(#[trigger] final(es)@[j], old(es)@[j]),
    decreases parent, 0nat,
{
    let ghost olds = es@;
    let mut i: usize = 0;
    while i < es.len()
        invariant
            olds == old(es)@,
            es@.len() == olds.len(),
            0 <= i <= olds.len(),
            forall|j: int| 0 <= j < olds.len() ==> decreases_to!(parent => olds[j]),
            forall|j: int| 0 <= j < i ==> retyped(#[trigger] es@[j], olds[j], sub@),
            forall|j: int| 0 <= j < i ==> same_shape(#[trigger] es@[j], olds[j]),
            forall|j: int| i <= j < olds.len() ==> #[trigger] es@[j] == olds[j],
        decreases olds.len() - i,
    {
        resolve_expr_types(&mut es[i], sub);
        i = i + 1;
    }
}

fn resolve_stmts(ss: &mut Vec<Stmt>, sub: &Substitution, Ghost(parent): Ghost<Expr>)
    requires
        forall|j: int| 0 <= j < old(ss)@.len() ==> decreases_to!(parent => old(ss)@[j]),
    ensures
        final(ss)@.len() == old(ss)@.len(),
        forall|j: int| 0 <= j < old(ss)@.len() ==> stmt_retyped(#[trigger] final(ss)@[j], old(ss)@[j], sub@),
        forall|j: int| 0 <= j < old(ss)@.len() ==> stmt_same_shape(#[trigger] final(ss)@[j], old(ss)@[j]),
    decreases parent, 0nat,
{
    let ghost olds = ss@;
    let mut i: usize = 0;
    while i < ss.len()
        invariant
            olds == old(ss)@,
            ss@.len() == olds.len(),
            0 <= i <= olds.len(),
            forall|j: int| 0 <= j < olds.len() ==> decreases_to!(parent => olds[j]),
            forall|j: int| 0 <= j < i ==> stmt_retyped(#[trigger] ss@[j], olds[j], sub@),
            forall|j: int| 0 <= j < i ==> stmt_same_shape(#[trigger] ss@[j], olds[j]),
            forall|j: int| i <= j < olds.len() ==> #[trigger] ss@[j] == olds[j],
        decreases olds.len() - i,
    {
        resolve_stmt_types(&mut ss[i], sub);
        i = i + 1;
    }
}

fn resolve_cases(cs: &mut Vec<MatchCase>, sub: &Substitution, Ghost(parent): Ghost<Expr>)
    requires
        forall|j: int| 0 <= j < old(cs)@.len() ==> decreases_to!(parent => *old(cs)@[j].val),
        forall|j: int| 0 <= j < old(cs)@.len() ==> decreases_to!(parent => *old(cs)@[j].exp),
    ensures
        final(cs)@.len() == old(cs)@.len(),
        forall|j: int| 0 <= j < old(cs)@.len() ==> retyped(*(#[trigger] final(cs)@[j]).val, *old(cs)@[j].val, sub@),
        forall|j: int| 0 <= j < old(cs)@.len() ==> retyped(*(#[trigger] final(cs)@[j]).exp, *old(cs)@[j].exp, sub@),
        forall|j: int| 0 <= j < old(cs)@.len() ==> same_shape(*(#[trigger] final(cs)@[j]).val, *old(cs)@[j].val),
        forall|j: int| 0 <= j < old(cs)@.len() ==> same_shape(*(#[trigger] final(cs)@[j]).exp, *old(cs)@[j].exp),
    decreases parent, 0nat,
{
    let ghost olds = cs@;
    let mut i: usize = 0;
    while i < cs.len()
        invariant
            olds == old(cs)@,
            cs@.len() == olds.len(),
            0 <= i <= olds.len(),
            forall|j: int| 0 <= j < olds.len() ==> decreases_to!(parent => *olds[j].val),
            forall|j: int| 0 <= j < olds.len() ==> decreases_to!(parent => *olds[j].exp),
            forall|j: int| 0 <= j < i ==> retyped(*(#[trigger] cs@[j]).val, *olds[j].val, sub@),
            forall|j: int| 0 <= j < i ==> retyped(*(#[trigger] cs@[j]).exp, *olds[j].exp, sub@),
            forall|j: int| 0 <= j < i ==> same_shape(*(#[trigger] cs@[j]).val, *olds[j].val),
            forall|j: int| 0 <= j < i ==> same_shape(*(#[trigger] cs@[j]).exp, *olds[j].exp),
            forall|j: int| i <= j < olds.len() ==> #[trigger] cs@[j] == olds[j],
        decreases olds.len() - i,
    {
        let case = &mut cs[i];
        resolve_expr_types(&mut case.val, sub);
        resolve_expr_types(&mut case.exp, sub);
        i = i + 1;
    }
}

/// Apply `sub` to the recorded type of `expr` and of everything reachable
/// from it.
fn resolve_expr_types(expr: &mut Expr, sub: &Substitution)
    ensures
        retyped(*final(expr), *old(expr), sub@),
        same_shape(*final(expr), *old(expr)),
    decreases *old(expr), 1nat,
{
    let ghost parent = *expr;
    let t = expr.typ.apply(sub);
    expr.typ = t;
    match &mut *expr.e {
        ENode::Variable(x) => {
            let ghost g = *x;
        },
        ENode::Literal(l) => {
            let ghost g = *l;
        },
        ENode::Abstraction(b, body) => {
            let ghost g = *b;
            resolve_expr_types(body, sub);
        },
        ENode::Application(f, x) => {
            resolve_expr_types(f, sub);
            resolve_expr_types(x, sub);
        },
        ENode::Let(n, a, b) => {
            let ghost g = *n;
            resolve_expr_types(a, sub);
            resolve_expr_types(b, sub);
        },
        ENode::IfElse(c, t, e) => {
            resolve_expr_types(c, sub);
            resolve_expr_types(t, sub);
            resolve_expr_types(e, sub);
        },
        ENode::Block(stmts, e) => {
            proof {
                let ss = (*parent.e)->Block_0;
                assert forall|j: int| 0 <= j < ss@.len() implies decreases_to!(parent => ss@[j]) by {
                    assert(decreases_to!(parent => ss));
                    assert(decreases_to!(ss => ss@));
                    assert(decreases_to!(ss@ => ss@[j]));
                }
            }
            resolve_stmts(stmts, sub, Ghost(parent));
            resolve_expr_types(e, sub);
        },
        ENode::Comparison(op, a, b) => {
            let ghost g = *op;
            resolve_expr_types(a, sub);
            resolve_expr_types(b, sub);
        },
        ENode::Arithmetic(op, a, b) => {
            let ghost g = *op;
            resolve_expr_types(a, sub);
            resolve_expr_types(b, sub);
        },
        ENode::Logical(op, a, b) => {
            let ghost g = *op;
            resolve_expr_types(a, sub);
            resolve_expr_types(b, sub);
        },
        ENode::Unary(op, x) => {
            let ghost g = *op;
            resolve_expr_types(x, sub);
        },
        ENode::List(es) => {
            proof {
                let xs = (*parent.e)->List_0;
                assert forall|j: int| 0 <= j < xs@.len() implies decreases_to!(parent => xs@[j]) by {
                    assert(decreases_to!(parent => xs));
                    assert(decreases_to!(xs => xs@));
                    assert(decreases_to!(xs@ => xs@[j]));
                }
            }
            resolve_list(es, sub, Ghost(parent));
        },
        ENode::Cons(h, t) => {
            resolve_expr_types(h, sub);
            resolve_expr_types(t, sub);
        },
        ENode::Match(scrutinee, cases) => {
            proof {
                let cs = (*parent.e)->Match_1;
                assert forall|j: int| 0 <= j < cs@.len() implies decreases_to!(parent => *cs@[j].val) && decreases_to!(parent => *cs@[j].exp) by {
                    assert(decreases_to!(parent => cs));
                    assert(decreases_to!(cs => cs@));
                    assert(decreases_to!(cs@ => cs@[j]));
                    assert(decreases_to!(cs@[j] => cs@[j].val));
                    assert(decreases_to!(cs@[j] => cs@[j].exp));
                }
            }
            resolve_expr_types(scrutinee, sub);
            resolve_cases(cases, sub, Ghost(parent));
        },
    }
    proof {
        reveal(retyped);
        reveal(same_shape);
    }
}

// ---------------------------------------------------------------------------
// Positions
// ---------------------------------------------------------------------------

/// `p` with its line/column fields computed from its byte offsets; a nil
/// position stays as it is.
pub open spec fn filled_pos(p: Pos, index: LineIndex) -> Pos {
    if p.start == 0 && p.end == 0 {
        p
    } else {
        Pos {
            start_line: index.spec_line_col(p.start).0,
            start_col: index.spec_line_col(p.start).1,
            end_line: index.spec_line_col(p.end).0,
            end_col: index.spec_line_col(p.end).1,
            ..p
        }
    }
}

/// The offsets of `p` can be converted: it is nil, or both offsets are
/// below the largest `u32`.
pub open spec fn pos_fits(p: Pos) -> bool {
    (p.start == 0 && p.end == 0) || (p.start < u32::MAX && p.end < u32::MAX)
}

/// Every position reachable from `e` can be converted.
#[verifier::opaque]
pub open spec fn fits(e: Expr) -> bool
    decreases e,
{
    &&& pos_fits(e.pos)
    &&& match *e.e {
        ENode::Variable(_) => true,
        ENode::Literal(_) => true,
        ENode::Abstraction(_, m) => fits(*m),
        ENode::Application(x1, x2) => fits(*x1) && fits(*x2),
        ENode::Let(_, x1, x2) => fits(*x1) && fits(*x2),
        ENode::IfElse(x1, x2, x3) => fits(*x1) && fits(*x2) && fits(*x3),
        ENode::Block(xs, x) => (forall|i: int| 0 <= i < xs@.len() ==> stmt_fits(#[trigger] xs@[i])) && fits(*x),
        ENode::Comparison(_, x1, x2) => fits(*x1) && fits(*x2),
        ENode::Arithmetic(_, x1, x2) => fits(*x1) && fits(*x2),
        ENode::Logical(_, x1, x2) => fits(*x1) && fits(*x2),
        ENode::Unary(_, x) => fits(*x),
        ENode::List(xs) => forall|i: int| 0 <= i < xs@.len() ==> fits(#[trigger] xs@[i]),
        ENode::Cons(x1, x2) => fits(*x1) && fits(*x2),
        ENode::Match(x, xs) => {
            &&& fits(*x)
            &&& forall|i: int| 0 <= i < xs@.len() ==> fits(*(#[trigger] xs@[i]).val)
            &&& forall|i: int| 0 <= i < xs@.len() ==> fits(*(#[trigger] xs@[i]).exp)
        },
    }
}

/// Every position reachable from `s` can be converted.
pub open spec fn stmt_fits(s: Stmt) -> bool
    decreases s,
{
    &&& pos_fits(s.pos)
    &&& match *s.s {
        SNode::Decl(x1, _, x2) => fits(*x1) && fits(*x2),
        SNode::Expr(x) => fits(*x),
        SNode::TypeDecl(_, _) => true,
    }
}

/// `a` is `b` with every position filled from `index`.
#[verifier::opaque]
pub open spec fn positioned(a: Expr, b: Expr, index: LineIndex) -> bool
    decreases a,
{
    &&& a.ctx == b.ctx
    &&& a.typ == b.typ
    &&& a.pos == filled_pos(b.pos, index)
    &&& match (*a.e, *b.e) {
        (ENode::Variable(x), ENode::Variable(y)) => x == y,
        (ENode::Literal(x), ENode::Literal(y)) => x == y,
        (ENode::Abstraction(x, m), ENode::Abstraction(y, n)) => x == y && positioned(*m, *n, index),
        (ENode::Application(x1, x2), ENode::Application(y1, y2)) => positioned(*x1, *y1, index) && positioned(*x2, *y2, index),
        (ENode::Let(x, x1, x2), ENode::Let(y, y1, y2)) => x == y && positioned(*x1, *y1, index) && positioned(*x2, *y2, index),
        (ENode::IfElse(x1, x2, x3), ENode::IfElse(y1, y2, y3)) => positioned(*x1, *y1, index) && positioned(*x2, *y2, index) && positioned(*x3, *y3, index),
        (ENode::Block(xs, x), ENode::Block(ys, y)) => {
            &&& xs@.len() == ys@.len()
            &&& forall|i: int| 0 <= i < xs@.len() ==> stmt_positioned(#[trigger] xs@[i], ys@[i], index)
            &&& positioned(*x, *y, index)
        },
        (ENode::Comparison(o, x1, x2), ENode::Comparison(p, y1, y2)) => o == p && positioned(*x1, *y1, index) && positioned(*x2, *y2, index),
        (ENode::Arithmetic(o, x1, x2), ENode::Arithmetic(p, y1, y2)) => o == p && positioned(*x1, *y1, index) && positioned(*x2, *y2, index),
        (ENode::Logical(o, x1, x2), ENode::Logical(p, y1, y2)) => o == p && positioned(*x1, *y1, index) && positioned(*x2, *y2, index),
        (ENode::Unary(o, x), ENode::Unary(p, y)) => o == p && positioned(*x, *y, index),
        (ENode::List(xs), ENode::List(ys)) => {
            &&& xs@.len() == ys@.len()
            &&& forall|i: int| 0 <= i < xs@.len() ==> positioned(#[trigger] xs@[i], ys@[i], index)
        },
        (ENode::Cons(x1, x2), ENode::Cons(y1, y2)) => positioned(*x1, *y1, index) && positioned(*x2, *y2, index),
        (ENode::Match(x, xs), ENode::Match(y, ys)) => {
            &&& positioned(*x, *y, index)
            &&& xs@.len() == ys@.len()
            &&& forall|i: int| 0 <= i < xs@.len() ==> positioned(*(#[trigger] xs@[i]).val, *ys@[i].val, index)
            &&& forall|i: int| 0 <= i < xs@.len() ==> positioned(*(#[trigger] xs@[i]).exp, *ys@[i].exp, index)
        },
        _ => false,
    }
}

/// `a` is `b` with every position filled from `index`.
pub open spec fn stmt_positioned(a: Stmt, b: Stmt, index: LineIndex) -> bool
    decreases a,
{
    &&& a.ctx == b.ctx
    &&& a.pos == filled_pos(b.pos, index)
    &&& match (*a.s, *b.s) {
        (SNode::Decl(x1, t, x2), SNode::Decl(y1, u, y2)) => positioned(*x1, *y1, index) && t == u && positioned(*x2, *y2, index),
        (SNode::Expr(x), SNode::Expr(y)) => positioned(*x, *y, index),
        (SNode::TypeDecl(h, d), SNode::TypeDecl(k, f)) => h == k && d == f,
        _ => false,
    }
}

fn fill_pos(pos: &mut Pos, index: &LineIndex)
    requires
        pos_fits(*old(pos)),
    ensures
        *final(pos) == filled_pos(*old(pos), *index),
{
    if !pos.is_nil() {
        pos.fill(index);
    }
}

/// Fill every position reachable from `stmt` with line/column data derived
/// from `index`.
pub fn fill_stmt_positions(stmt: &mut Stmt, index: &LineIndex)
    requires
        stmt_fits(*old(stmt)),
    ensures
        stmt_positioned(*final(stmt), *old(stmt), *index),
    decreases *old(stmt), 2nat,
{
    proof {
        reveal(fits);
    }
    fill_pos(&mut stmt.pos, index);
    match &mut *stmt.s {
        SNode::Decl(e1, t, e2) => {
            let ghost g = *t;
            fill_expr_positions(e1, index);
            fill_expr_positions(e2, index);
        },
        SNode::Expr(e1) => fill_expr_positions(e1, index),
        SNode::TypeDecl(h, d) => {
            let ghost g = (*h, *d);
        },
    }
    proof {
        reveal(positioned);
        if *old(stmt).s is TypeDecl {
            assert(*stmt.s == *old(stmt).s);
        }
        if *old(stmt).s is Decl {
            assert((*stmt.s)->Decl_1 == (*old(stmt).s)->Decl_1);
        }
    }
}

fn fill_list(es: &mut Vec<Expr>, index: &LineIndex, Ghost(parent): Ghost<Expr>)
    requires
        forall|j: int| 0 <= j < old(es)@.len() ==> decreases_to!(parent => old(es)@[j]),
        forall|j: int| 0 <= j < old(es)@.len() ==> fits(#[trigger] old(es)@[j]),
    ensures
        final(es)@.len() == old(es)@.len(),
        forall|j: int| 0 <= j < old(es)@.len() ==> positioned(#[trigger] final(es)@[j], old(es)@[j], *index),
    decreases parent, 0nat,
{
    let ghost olds = es@;
    let mut i: usize = 0;
    while i < es.len()
        invariant
            olds == old(es)@,
            es@.len() == olds.len(),
            0 <= i <= olds.len(),
            forall|j: int| 0 <= j < olds.len() ==> decreases_to!(parent => olds[j]),
            forall|j: int| 0 <= j < olds.len() ==> fits(#[trigger] olds[j]),
            forall|j: int| 0 <= j < i ==> positioned(#[trigger] es@[j], olds[j], *index),
            forall|j: int| i <= j < olds.len() ==> #[trigger] es@[j] == olds[j],
        decreases olds.len() - i,
    {
        fill_expr_positions(&mut es[i], index);
        i = i + 1;
    }
}

fn fill_stmts(ss: &mut Vec<Stmt>, index: &LineIndex, Ghost(parent): Ghost<Expr>)
    requires
        forall|j: int| 0 <= j < old(ss)@.len() ==> decreases_to!(parent => old(ss)@[j]),
        forall|j: int| 0 <= j < old(ss)@.len() ==> stmt_fits(#[trigger] old(ss)@[j]),
    ensures
        final(ss)@.len() == old(ss)@.len(),
        forall|j: int| 0 <= j < old(ss)@.len() ==> stmt_positioned(#[trigger] final(ss)@[j], old(ss)@[j], *index),
    decreases parent, 0nat,
{
    let ghost olds = ss@;
    let mut i: usize = 0;
    while i < ss.len()
        invariant
            olds == old(ss)@,
            ss@.len() == olds.len(),
            0 <= i <= olds.len(),
            forall|j: int| 0 <= j < olds.len() ==> decreases_to!(parent => olds[j]),
            forall|j: int| 0 <= j < olds.len() ==> stmt_fits(#[trigger] olds[j]),
            forall|j: int| 0 <= j < i ==> stmt_positioned(#[trigger] ss@[j], olds[j], *index),
            forall|j: int| i <= j < olds.len() ==> #[trigger] ss@[j] == olds[j],
        decreases olds.len() - i,
    {
        fill_stmt_positions(&mut ss[i], index);
        i = i + 1;
    }
}

fn fill_cases(cs: &mut Vec<MatchCase>, index: &LineIndex, Ghost(parent): Ghost<Expr>)
    requires
        forall|j: int| 0 <= j < old(cs)@.len() ==> decreases_to!(parent => *old(cs)@[j].val),
        forall|j: int| 0 <= j < old(cs)@.len() ==> decreases_to!(parent => *old(cs)@[j].exp),
        forall|j: int| 0 <= j < old(cs)@.len() ==> fits(*(#[trigger] old(cs)@[j]).val),
        forall|j: int| 0 <= j < old(cs)@.len() ==> fits(*(#[trigger] old(cs)@[j]).exp),
    ensures
        final(cs)@.len() == old(cs)@.len(),
        forall|j: int| 0 <= j < old(cs)@.len() ==> positioned(*(#[trigger] final(cs)@[j]).val, *old(cs)@[j].val, *index),
        forall|j: int| 0 <= j < old(cs)@.len() ==> positioned(*(#[trigger] final(cs)@[j]).exp, *old(cs)@[j].exp, *index),
    decreases parent, 0nat,
{
    let ghost olds = cs@;
    let mut i: usize = 0;
    while i < cs.len()
        invariant
            olds == old(cs)@,
            cs@.len() == olds.len(),
            0 <= i <= olds.len(),
            forall|j: int| 0 <= j < olds.len() ==> decreases_to!(parent => *olds[j].val),
            forall|j: int| 0 <= j < olds.len() ==> decreases_to!(parent => *olds[j].exp),
            forall|j: int| 0 <= j < olds.len() ==> fits(*(#[trigger] olds[j]).val),
            forall|j: int| 0 <= j < olds.len() ==> fits(*(#[trigger] olds[j]).exp),
            forall|j: int| 0 <= j < i ==> positioned(*(#[trigger] cs@[j]).val, *olds[j].val, *index),
            forall|j: int| 0 <= j < i ==> positioned(*(#[trigger] cs@[j]).exp, *olds[j].exp, *index),
            forall|j: int| i <= j < olds.len() ==> #[trigger] cs@[j] == olds[j],
        decreases olds.len() - i,
    {
        let case = &mut cs[i];
        fill_expr_positions(&mut case.val, index);
        fill_expr_positions(&mut case.exp, index);
        i = i + 1;
    }
}

/// Fill every position reachable from `expr` with line/column data derived
/// from `index`.
fn fill_expr_positions(expr: &mut Expr, index: &LineIndex)
    requires
        fits(*old(expr)),
    ensures
        positioned(*final(expr), *old(expr), *index),
    decreases *old(expr), 1nat,
{
    let ghost parent = *expr;
    proof {
        reveal(fits);
    }
    fill_pos(&mut expr.pos, index);
    match &mut *expr.e {
        ENode::Variable(x) => {
            let ghost g = *x;
        },
        ENode::Literal(l) => {
            let ghost g = *l;
        },
        ENode::Abstraction(b, body) => {
            let ghost g = *b;
            fill_expr_positions(body, index);
        },
        ENode::Application(f, x) => {
            fill_expr_positions(f, index);
            fill_expr_positions(x, index);
        },
        ENode::Let(n, a, b) => {
            let ghost g = *n;
            fill_expr_positions(a, index);
            fill_expr_positions(b, index);
        },
        ENode::IfElse(c, t, e) => {
            fill_expr_positions(c, index);
            fill_expr_positions(t, index);
            fill_expr_positions(e, index);
        },
        ENode::Block(stmts, e) => {
            proof {
                let ss = (*parent.e)->Block_0;
                assert forall|j: int| 0 <= j < ss@.len() implies decreases_to!(parent => ss@[j]) by {
                    assert(decreases_to!(parent => ss));
                    assert(decreases_to!(ss => ss@));
                    assert(decreases_to!(ss@ => ss@[j]));
                }
            }
            fill_stmts(stmts, index, Ghost(parent));
            fill_expr_positions(e, index);
        },
        ENode::Comparison(op, a, b) => {
            let ghost g = *op;
            fill_expr_positions(a, index);
            fill_expr_positions(b, index);
        },
        ENode::Arithmetic(op, a, b) => {
            let ghost g = *op;
            fill_expr_positions(a, index);
            fill_expr_positions(b, index);
        },
        ENode::Logical(op, a, b) => {
            let ghost g = *op;
            fill_expr_positions(a, index);
            fill_expr_positions(b, index);
        },
        ENode::Unary(op, x) => {
            let ghost g = *op;
            fill_expr_positions(x, index);
        },
        ENode::List(es) => {
            proof {
                let xs = (*parent.e)->List_0;
                assert forall|j: int| 0 <= j < xs@.len() implies decreases_to!(parent => xs@[j]) by {
                    assert(decreases_to!(parent => xs));
                    assert(decreases_to!(xs => xs@));
                    assert(decreases_to!(xs@ => xs@[j]));
                }
            }
            fill_list(es, index, Ghost(parent));
        },
        ENode::Cons(h, t) => {
            fill_expr_positions(h, index);
            fill_expr_positions(t, index);
        },
        ENode::Match(scrutinee, cases) => {
            proof {
                let cs = (*parent.e)->Match_1;
                assert forall|j: int| 0 <= j < cs@.len() implies decreases_to!(parent => *cs@[j].val) && decreases_to!(parent => *cs@[j].exp) by {
                    assert(decreases_to!(parent => cs));
                    assert(decreases_to!(cs => cs@));
                    assert(decreases_to!(cs@ => cs@[j]));
                    assert(decreases_to!(cs@[j] => cs@[j].val));
                    assert(decreases_to!(cs@[j] => cs@[j].exp));
                }
            }
            fill_expr_positions(scrutinee, index);
            fill_cases(cases, index, Ghost(parent));
        },
    }
    proof {
        reveal(positioned);
    }
}

/// Fill the positions of every statement of `prog`, as parsed from the
/// text `buf`, with line/column data of that text.
pub fn fill_program_positions(prog: &mut Program, buf: &str)
    requires
        buf.spec_bytes().len() < u32::MAX,
        forall|j: int| 0 <= j < old(prog).stmts@.len() ==> stmt_fits(#[trigger] old(prog).stmts@[j]),
    ensures
        final(prog).ctx == old(prog).ctx,
        final(prog).source_name == old(prog).source_name,
        final(prog).stmts@.len() == old(prog).stmts@.len(),
        exists|ix: LineIndex| ix.starts() == line_start_offsets(buf.spec_bytes())
            && forall|j: int| 0 <= j < old(prog).stmts@.len() ==> stmt_positioned(#[trigger] final(prog).stmts@[j], old(prog).stmts@[j], ix),
{
    let index = LineIndex::new(buf);
    let ghost olds = prog.stmts@;
    let mut i: usize = 0;
    while i < prog.stmts.len()
        invariant
            olds == old(prog).stmts@,
            prog.ctx == old(prog).ctx,
            prog.source_name == old(prog).source_name,
            prog.stmts@.len() == olds.len(),
            i <= olds.len(),
            forall|j: int| 0 <= j < olds.len() ==> stmt_fits(#[trigger] olds[j]),
            forall|j: int| 0 <= j < i ==> stmt_positioned(#[trigger] prog.stmts@[j], olds[j], index),
            forall|j: int| i <= j < olds.len() ==> #[trigger] prog.stmts@[j] == olds[j],
        decreases olds.len() - i,
    {
        fill_stmt_positions(&mut prog.stmts[i], &index);
        i = i + 1;
    }
    proof {
        assert(forall|j: int| 0 <= j < olds.len() ==> stmt_positioned(#[trigger] prog.stmts@[j], olds[j], index));
    }
}

} // verus!
