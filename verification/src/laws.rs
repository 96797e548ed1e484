//! Laws of checking, declarations, literals and rendering, stated over
//! all inputs.
use vstd::prelude::*;
use crate::ast::{ArithOp, Expr, ENode, SNode};
use crate::types::{MType, PType, TFun, CtxView, ctx_mentions, gen_bind, quantify};
use crate::unification::unify_spec;
use crate::soundness::lemma_unify_sound;
use crate::inference::{prim, fn_of, arith_check, decl_step};
use crate::checking::m_spec;
use crate::rules::{lemma_apply_app, lemma_unifies_prim};
use crate::properties::lemma_generalise_free;
use crate::display::{render_spec, render_join};

verus! {

/// Checking an arithmetic expression against a type function application
/// succeeds only when that type is one the operator yields: int, float,
/// or (for `+`) string. So `1 + 2` is never accepted as a bool.
pub proof fn lemma_check_arithmetic_expected(c: CtxView, e: Expr, t: MType)
    requires
        *e.e is Arithmetic,
        t is App,
    ensures
        m_spec(c, e, t).1 is Ok ==> t == prim(TFun::Int) || t == prim(TFun::Float)
            || ((*e.e)->Arithmetic_0 == ArithOp::Plus && t == prim(TFun::Str)),
{
    reveal(m_spec);
    if let ENode::Arithmetic(op, a, b) = *e.e {
        let beta = MType::Var(crate::types::typevar_name(c.counter));
        let c1 = crate::inference::bump(c);
        let (c2, r1, p1) = m_spec(c1, *a, beta);
        if let Ok(s1) = r1 {
            let (_, r2, p2) = m_spec(crate::types::ctx_apply(c2, s1), *b, beta.apply(s1));
            if let Ok(s2) = r2 {
                let res = beta.apply(s1).apply(s2);
                if let Ok(s0) = unify_spec(t, res) {
                    lemma_unify_sound(t, res);
                    let u = res.apply(s0);
                    if let MType::App(f, ts) = t {
                        lemma_apply_app(f, ts, s0);
                        if arith_check(op, u) is Ok {
                            let g = if crate::inference::unifies(u, prim(TFun::Int)) {
                                TFun::Int
                            } else if crate::inference::unifies(u, prim(TFun::Float)) {
                                TFun::Float
                            } else {
                                TFun::Str
                            };
                            lemma_unifies_prim(u, g);
                            assert(ts.len() == 0);
                            assert(ts =~= Seq::<MType>::empty());
                        }
                    }
                }
            }
        }
    }
}

/// The monotype under the quantifiers of `p`.
pub open spec fn ptype_body(p: PType) -> MType
    decreases p,
{
    match p {
        PType::Mono(t) => t,
        PType::Forall(_, q) => ptype_body(*q),
    }
}

proof fn lemma_quantify_body(qs: Seq<Seq<char>>, t: MType)
    ensures
        ptype_body(quantify(qs, PType::Mono(t))) == t,
    decreases qs.len(),
{
    if qs.len() > 0 {
        lemma_quantify_body(qs.drop_last(), t);
    }
}

/// Statement `i` of block `e` declares the name `n`.
pub open spec fn declares(e: Expr, i: int, n: Seq<char>) -> bool {
    &&& *e.e matches ENode::Block(ss, _)
    &&& 0 <= i < ss@.len()
    &&& *ss@[i].s matches SNode::Decl(target, _, _)
    &&& *target.e matches ENode::Variable(x)
    &&& x@ == n
}

/// After `n` is bound by generalising `t` in `c6`, whose binding of `n` is
/// that of `prev`: a variable is free in the binding exactly when `t`
/// mentions it and the rest of the context, or the earlier binding of `n`,
/// mentions it too.
pub open spec fn generalised_binding(c: CtxView, n: Seq<char>, prev: CtxView) -> bool {
    &&& c.vars.contains_key(n)
    &&& forall|v: Seq<char>| #[trigger] c.vars[n].free_vars().contains(v) <==> ptype_body(c.vars[n]).mentions(v) && (
        ctx_mentions(c.vars.remove(n), v) || (prev.vars.contains_key(n) && prev.vars[n].free_vars().contains(v))
    )
}

proof fn lemma_gen_bind_binding(c6: CtxView, n: Seq<char>, t: MType, prev: CtxView)
    requires
        prev.vars.contains_key(n) ==> c6.vars.contains_key(n) && c6.vars[n] == prev.vars[n],
        !prev.vars.contains_key(n) ==> !c6.vars.contains_key(n),
    ensures
        generalised_binding(gen_bind(c6, n, t), n, prev),
        ptype_body(gen_bind(c6, n, t).vars[n]) == t,
{
    let c2 = gen_bind(c6, n, t);
    lemma_quantify_body(t.free_vars().filter(|v: Seq<char>| !ctx_mentions(c6.vars, v)), t);
    assert forall|v: Seq<char>| #[trigger] c2.vars[n].free_vars().contains(v) <==> ptype_body(c2.vars[n]).mentions(v) && (
        ctx_mentions(c2.vars.remove(n), v) || (prev.vars.contains_key(n) && prev.vars[n].free_vars().contains(v))
    ) by {
        lemma_generalise_free(t, c6.vars, v);
        if ctx_mentions(c6.vars, v) {
            let k = choose|k: Seq<char>| c6.vars.contains_key(k) && #[trigger] c6.vars[k].free_vars().contains(v);
            if k != n {
                assert(c2.vars.remove(n).contains_key(k) && c2.vars.remove(n)[k] == c6.vars[k]);
            }
        }
        if ctx_mentions(c2.vars.remove(n), v) {
            let k = choose|k: Seq<char>| c2.vars.remove(n).contains_key(k) && #[trigger] c2.vars.remove(n)[k].free_vars().contains(v);
            assert(c6.vars.contains_key(k) && c6.vars[k] == c2.vars.remove(n)[k]);
        }
        if prev.vars.contains_key(n) && prev.vars[n].free_vars().contains(v) {
            assert(c6.vars.contains_key(n) && c6.vars[n].free_vars().contains(v));
        }
    }
}

/// A declaration `let n = v;` in a block binds `n` to a polymorphic type:
/// its type, with every variable that the context does not mention
/// quantified, so that each later use instantiates fresh variables.
pub proof fn lemma_block_declaration_generalises(c: CtxView, e: Expr, i: int, comb: Map<Seq<char>, MType>, pk: nat, n: Seq<char>)
    requires
        declares(e, i, n),
    ensures
        decl_step(c, e, i, comb, pk).1 is Ok ==> generalised_binding(decl_step(c, e, i, comb, pk).0, n, c),
{
    if let ENode::Block(ss, _) = *e.e {
        if let SNode::Decl(target, ty, v) = *ss@[i].s {
            let (n1, r) = crate::declarations::expand_spec(ty.t@, c.counter, c.aliases, Seq::empty());
            let c1 = crate::declarations::with_counter(c, n1);
            if let Ok(bt) = r {
                let (c2, r2, p2) = crate::inference::infer_spec(crate::types::ctx_bind(c1, n, PType::Mono(bt)), *v);
                if let Ok((s1, it)) = r2 {
                    let c3 = crate::types::ctx_apply(c2, s1);
                    let comb1 = crate::types::compose(comb, s1);
                    if let Ok(s2) = unify_spec(bt.apply(comb1), it) {
                        let comb2 = crate::types::compose(comb1, s2);
                        let c4 = crate::types::ctx_restore(crate::types::ctx_apply(c3, s2), n, c1);
                        lemma_gen_bind_binding(c4, n, bt.apply(comb2), c);
                    }
                }
            }
        }
    }
}

/// The same in algorithm M: a declaration in a block binds its name to its
/// generalised type.
#[verifier::spinoff_prover]
#[verifier::rlimit(60)]
pub proof fn lemma_checked_declaration_generalises(c: CtxView, e: Expr, i: int, comb: Map<Seq<char>, MType>, pk: nat, n: Seq<char>)
    requires
        declares(e, i, n),
    ensures
        crate::checking::m_decl_step(c, e, i, comb, pk).1 is Ok ==> generalised_binding(crate::checking::m_decl_step(c, e, i, comb, pk).0, n, c),
{
    if let ENode::Block(ss, _) = *e.e {
        if let SNode::Decl(target, ty, v) = *ss@[i].s {
            let (n1, r) = crate::declarations::expand_spec(ty.t@, c.counter, c.aliases, Seq::empty());
            let c1 = crate::declarations::with_counter(c, n1);
            if let Ok(bt) = r {
                let c2 = crate::types::ctx_bind(c1, n, PType::Mono(bt));
                let beta = crate::inference::fresh_var(c2);
                let c3 = crate::inference::bump(c2);
                let (c4, r1, p1) = m_spec(c3, *v, beta);
                if let Ok(s1) = r1 {
                    let c5 = crate::types::ctx_apply(c4, s1);
                    let comb1 = crate::types::compose(comb, s1);
                    if let Ok(s2) = unify_spec(bt.apply(comb1), beta.apply(s1)) {
                        let comb2 = crate::types::compose(comb1, s2);
                        let c6 = crate::types::ctx_restore(crate::types::ctx_apply(c5, s2), n, c1);
                        lemma_gen_bind_binding(c6, n, bt.apply(comb2), c);
                    }
                }
            }
        }
    }
}

/// A top-level declaration statement `let n = v;` that checks binds `n`,
/// in the context left for the following statements, to its generalised
/// type.
pub proof fn lemma_statement_declaration_generalises(c: CtxView, node: SNode, n: Seq<char>)
    requires
        node matches SNode::Decl(target, _, _) && *target.e matches ENode::Variable(x) && x@ == n,
    ensures
        crate::statements::node_spec(c, node).1 is Ok ==> generalised_binding(crate::statements::node_spec(c, node).0, n, c),
{
    if let SNode::Decl(target, ty, v) = node {
        if !crate::types::is_builtin_name(n) {
            let (n1, r) = crate::declarations::expand_spec(ty.t@, c.counter, c.aliases, Seq::empty());
            let c1 = crate::declarations::with_counter(c, n1);
            if let Ok(bt) = r {
                let (c2, r2, p2) = crate::inference::infer_spec(crate::types::ctx_bind(c1, n, PType::Mono(bt)), *v);
                if let Ok((s1, it)) = r2 {
                    if let Ok(s2) = unify_spec(bt.apply(s1), it) {
                        let comb = crate::types::compose(s1, s2);
                        let c3 = crate::types::ctx_restore(crate::types::ctx_apply(c2, comb), n, c1);
                        lemma_gen_bind_binding(c3, n, bt.apply(comb), c);
                    }
                }
            }
        }
    }
}

/// The curried function type taking `args` in order and returning `r`.
pub open spec fn curried(args: Seq<MType>, r: MType) -> MType
    decreases args.len(),
{
    if args.len() == 0 {
        r
    } else {
        fn_of(args[0], curried(args.drop_first(), r))
    }
}

proof fn lemma_curried_push(args: Seq<MType>, x: MType, r: MType)
    ensures
        curried(args, fn_of(x, r)) == curried(args.push(x), r),
    decreases args.len(),
{
    let b = args.push(x);
    if args.len() > 0 {
        assert(b.drop_first() =~= args.drop_first().push(x));
        lemma_curried_push(args.drop_first(), x, r);
        assert(b[0] == args[0]);
        assert(curried(b, r) == fn_of(b[0], curried(b.drop_first(), r)));
    } else {
        assert(b.drop_first() =~= Seq::<MType>::empty());
        assert(b[0] == x);
        assert(curried(b, r) == fn_of(b[0], curried(b.drop_first(), r)));
        assert(curried(Seq::<MType>::empty(), r) == r);
    }
}

/// `x` is what expanding the written type `w` gives, from some counter.
pub open spec fn expands_to(w: MType, aliases: Map<Seq<char>, crate::types::AliasView>, x: MType) -> bool {
    exists|k: nat| #[trigger] crate::declarations::expand_spec(w, k, aliases, Seq::empty()).1 == Ok::<MType, Seq<char>>(x)
}

/// Building a constructor type from the first `j` fields around `ctor`
/// gives the curried function taking, in order, the expansions of those
/// fields (instantiated by `mapping`) and returning `ctor`.
pub proof fn lemma_constructor_fields_in_order(
    fs: Seq<MType>,
    j: int,
    ctor: MType,
    counter: nat,
    aliases: Map<Seq<char>, crate::types::AliasView>,
    mapping: Map<Seq<char>, MType>,
)
    requires
        0 <= j <= fs.len(),
    ensures
        crate::declarations::fields_spec(fs, j, ctor, counter, aliases, mapping).1 matches Ok(t) ==> exists|args: Seq<MType>| {
            &&& args.len() == j
            &&& t == #[trigger] curried(args, ctor)
            &&& forall|i: int| 0 <= i < j ==> expands_to(fs[i].instantiate(mapping), aliases, #[trigger] args[i])
        },
    decreases j,
{
    if j > 0 {
        let (c1, r) = crate::declarations::expand_spec(fs[j - 1].instantiate(mapping), counter, aliases, Seq::empty());
        if let Ok(x) = r {
            lemma_constructor_fields_in_order(fs, j - 1, fn_of(x, ctor), c1, aliases, mapping);
            if let Ok(t) = crate::declarations::fields_spec(fs, j, ctor, counter, aliases, mapping).1 {
                let a = choose|args: Seq<MType>| {
                    &&& args.len() == j - 1
                    &&& t == #[trigger] curried(args, fn_of(x, ctor))
                    &&& forall|i: int| 0 <= i < j - 1 ==> expands_to(fs[i].instantiate(mapping), aliases, #[trigger] args[i])
                };
                lemma_curried_push(a, x, ctor);
                let b = a.push(x);
                assert forall|i: int| 0 <= i < j implies expands_to(fs[i].instantiate(mapping), aliases, #[trigger] b[i]) by {
                    if i < j - 1 {
                        assert(b[i] == a[i]);
                    } else {
                        assert(crate::declarations::expand_spec(fs[i].instantiate(mapping), counter, aliases, Seq::empty()).1 == Ok::<MType, Seq<char>>(b[i]));
                    }
                }
                assert(t == curried(b, ctor));
            }
        }
    } else {
        if let Ok(t) = crate::declarations::fields_spec(fs, j, ctor, counter, aliases, mapping).1 {
            assert(curried(Seq::<MType>::empty(), ctor) == ctor);
        }
    }
}

/// The letters of the named escapes.
pub open spec fn named_escape(c: char) -> bool {
    c == 'n' || c == 't' || c == 'r' || c == '0' || c == 'a' || c == 'b' || c == 'f' || c == 'v'
}

/// Each named escape stands for its standard control character, given by
/// its code point (line feed 10, tab 9, carriage return 13, nul 0, bell 7,
/// backspace 8, form feed 12, vertical tab 11), and consumes just its
/// letter; quote and backslash escapes stand for themselves. Distinct
/// named escapes stand for distinct characters.
pub proof fn lemma_named_escapes(s: Seq<char>, i: int, s2: Seq<char>, i2: int)
    requires
        0 <= i < s.len(),
        0 <= i2 < s2.len(),
    ensures
        crate::literals::escape_spec(s, i).1 == i + 1 || !named_escape(s[i]),
        s[i] == 'n' ==> crate::literals::escape_spec(s, i).0 as u32 == 10,
        s[i] == 't' ==> crate::literals::escape_spec(s, i).0 as u32 == 9,
        s[i] == 'r' ==> crate::literals::escape_spec(s, i).0 as u32 == 13,
        s[i] == '0' ==> crate::literals::escape_spec(s, i).0 as u32 == 0,
        s[i] == 'a' ==> crate::literals::escape_spec(s, i).0 as u32 == 7,
        s[i] == 'b' ==> crate::literals::escape_spec(s, i).0 as u32 == 8,
        s[i] == 'f' ==> crate::literals::escape_spec(s, i).0 as u32 == 12,
        s[i] == 'v' ==> crate::literals::escape_spec(s, i).0 as u32 == 11,
        s[i] == '\\' || s[i] == '\'' || s[i] == '"' ==> crate::literals::escape_spec(s, i) == (s[i], i + 1),
        named_escape(s[i]) && named_escape(s2[i2]) && s[i] != s2[i2]
            ==> crate::literals::escape_spec(s, i).0 != crate::literals::escape_spec(s2, i2).0,
{
}

/// An applied enum type is shown as its name followed by each of its type
/// arguments, one space before each: with no arguments just the name, and
/// one argument more adds a space and that argument's text at the end.
pub proof fn lemma_render_enum_arguments(n: Seq<char>, ts: Seq<MType>, t: MType, order: Seq<Seq<char>>)
    ensures
        render_spec(MType::App(TFun::Enum(n), Seq::empty()), order) == n,
        render_spec(MType::App(TFun::Enum(n), seq![t]), order) == n + " "@ + render_spec(t, order),
        ts.len() > 0 ==> render_spec(MType::App(TFun::Enum(n), ts.push(t)), order)
            == render_spec(MType::App(TFun::Enum(n), ts), order) + " "@ + render_spec(t, order),
{
    let one = seq![t];
    assert(one[0] == t);
    assert(render_join(one, order, " "@) == render_spec(t, order));
    assert(render_spec(MType::App(TFun::Enum(n), one), order) == n + " "@ + render_join(one, order, " "@));
    if ts.len() > 0 {
        let more = ts.push(t);
        assert(more.drop_last() =~= ts);
        assert(more.last() == t);
        assert(render_join(more, order, " "@) == render_join(ts, order, " "@) + " "@ + render_spec(t, order));
        assert(render_spec(MType::App(TFun::Enum(n), more), order) == n + " "@ + render_join(more, order, " "@));
        assert(render_spec(MType::App(TFun::Enum(n), ts), order) == n + " "@ + render_join(ts, order, " "@));
        assert(n + " "@ + (render_join(ts, order, " "@) + " "@ + render_spec(t, order))
            =~= n + " "@ + render_join(ts, order, " "@) + " "@ + render_spec(t, order));
    }
}

/// A function type is shown as the texts of its parts joined by ` -> `:
/// one part more adds the arrow and that part's text at the end.
pub proof fn lemma_render_function_parts(ts: Seq<MType>, t: MType, order: Seq<Seq<char>>)
    ensures
        render_spec(MType::App(TFun::Fn, seq![t]), order) == render_spec(t, order),
        ts.len() > 0 ==> render_spec(MType::App(TFun::Fn, ts.push(t)), order)
            == render_spec(MType::App(TFun::Fn, ts), order) + " -> "@ + render_spec(t, order),
{
    let one = seq![t];
    assert(one[0] == t);
    assert(render_join(one, order, " -> "@) == render_spec(t, order));
    assert(render_spec(MType::App(TFun::Fn, one), order) == render_join(one, order, " -> "@));
    if ts.len() > 0 {
        let more = ts.push(t);
        assert(more.drop_last() =~= ts);
        assert(more.last() == t);
        assert(render_join(more, order, " -> "@) == render_join(ts, order, " -> "@) + " -> "@ + render_spec(t, order));
        assert(render_spec(MType::App(TFun::Fn, more), order) == render_join(more, order, " -> "@));
    }
}

/// Checking a comparison or a logical expression against a type function
/// application succeeds only when that type is bool.
pub proof fn lemma_check_boolean_expected(c: CtxView, e: Expr, t: MType)
    requires
        *e.e is Comparison || *e.e is Logical,
        t is App,
    ensures
        m_spec(c, e, t).1 is Ok ==> t == prim(TFun::Bool),
{
    reveal(m_spec);
    if let Ok(s0) = unify_spec(t, prim(TFun::Bool)) {
        lemma_unify_sound(t, prim(TFun::Bool));
        crate::rules::lemma_apply_prim(TFun::Bool, s0);
        if let MType::App(f, ts) = t {
            lemma_apply_app(f, ts, s0);
            assert(ts =~= Seq::<MType>::empty());
        }
    }
}

} // verus!
