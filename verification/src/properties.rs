//! Properties of substitutions, instantiation, generalisation and fresh
//! type variables that hold for every input.
use vstd::prelude::*;
use crate::types::{MType, PType, compose, quantify, generalised, ctx_mentions, typevar_name};
use crate::unification::{lemma_apply_untouched, lemma_apply_resolves, acyclic, ranked};
use crate::text::lemma_decimal_injective;

verus! {

/// Applying the empty substitution leaves a type unchanged.
pub proof fn lemma_apply_empty(t: MType)
    ensures
        t.apply(Map::empty()) == t,
{
    lemma_apply_untouched(t, Map::empty(), 0);
}

/// Combining with the empty substitution, on either side, gives the other
/// substitution back.
pub proof fn lemma_compose_empty(s: Map<Seq<char>, MType>)
    ensures
        compose(Map::empty(), s) == s,
        compose(s, Map::empty()) == s,
{
    assert forall|k: Seq<char>| s.contains_key(k) implies #[trigger] compose(Map::empty(), s)[k] == s[k] by {
        lemma_apply_empty(s[k]);
    }
    assert(compose(Map::empty(), s) =~= s);
    assert(compose(s, Map::empty()) =~= s);
}

/// Instantiating with the empty mapping leaves a type unchanged.
pub proof fn lemma_instantiate_empty(t: MType)
    ensures
        t.instantiate(Map::empty()) == t,
    decreases t,
{
    if let MType::App(f, ts) = t {
        assert forall|i: int| 0 <= i < ts.len() implies #[trigger] t.instantiate(Map::empty())->App_1[i] == ts[i] by {
            lemma_instantiate_empty(ts[i]);
        }
        assert(t.instantiate(Map::empty())->App_1 =~= ts);
    }
}

/// A polytype without quantifiers instantiates, with no mapping, to its
/// monotype, whatever the counter.
pub proof fn lemma_instantiate_mono(t: MType, counter: nat)
    ensures
        PType::Mono(t).inst(counter, Map::empty()) == t,
{
    lemma_instantiate_empty(t);
}

/// Fresh type variables are pairwise distinct: different counters give
/// different names.
pub proof fn lemma_fresh_names_distinct(n: nat, m: nat)
    requires
        n != m,
    ensures
        typevar_name(n) != typevar_name(m),
{
    lemma_decimal_injective(n, m);
    if typevar_name(n) == typevar_name(m) {
        assert(typevar_name(n).drop_first() =~= crate::text::decimal(n));
        assert(typevar_name(m).drop_first() =~= crate::text::decimal(m));
    }
}

/// An element is kept by `filter` exactly when it occurs and satisfies the
/// predicate.
proof fn lemma_filter_contains_iff(s: Seq<Seq<char>>, p: spec_fn(Seq<char>) -> bool, v: Seq<char>)
    ensures
        s.filter(p).contains(v) <==> s.contains(v) && p(v),
{
    broadcast use vstd::seq_lib::group_filter_ensures;
    if s.filter(p).contains(v) {
        s.lemma_filter_contains_rev(p, v);
        let i = choose|i: int| 0 <= i < s.filter(p).len() && s.filter(p)[i] == v;
        assert(p(s.filter(p)[i]));
    }
    if s.contains(v) && p(v) {
        let i = choose|i: int| 0 <= i < s.len() && s[i] == v;
        assert(s.filter(p).contains(s[i]));
    }
}

/// The free variables of `p` wrapped in quantifiers for `qs` are those of
/// `p` that `qs` does not name.
proof fn lemma_quantify_free(qs: Seq<Seq<char>>, p: PType, v: Seq<char>)
    ensures
        quantify(qs, p).free_vars().contains(v) <==> p.free_vars().contains(v) && !qs.contains(v),
    decreases qs.len(),
{
    if qs.len() > 0 {
        let inner = quantify(qs.drop_last(), p);
        let q = qs.last();
        lemma_quantify_free(qs.drop_last(), p, v);
        assert(quantify(qs, p) == PType::Forall(q, Box::new(inner)));
        assert(quantify(qs, p).free_vars() == inner.free_vars().filter(|n: Seq<char>| n != q));
        lemma_filter_contains_iff(inner.free_vars(), |n: Seq<char>| n != q, v);
        assert(qs =~= qs.drop_last().push(qs.last()));
        if qs.contains(v) && v != qs.last() {
            let i = choose|i: int| 0 <= i < qs.len() && qs[i] == v;
            assert(qs.drop_last()[i] == v);
        }
        if qs.drop_last().contains(v) {
            let i = choose|i: int| 0 <= i < qs.drop_last().len() && qs.drop_last()[i] == v;
            assert(qs[i] == v);
        }
    }
}

/// Generalisation quantifies exactly the variables that are not free in
/// the context: a variable of `t` stays free in the generalised type if and
/// only if the context mentions it.
pub proof fn lemma_generalise_free(t: MType, vars: Map<Seq<char>, PType>, v: Seq<char>)
    ensures
        generalised(t, vars).free_vars().contains(v) <==> t.mentions(v) && ctx_mentions(vars, v),
{
    let pred = |x: Seq<char>| !ctx_mentions(vars, x);
    let qs = t.free_vars().filter(pred);
    lemma_quantify_free(qs, PType::Mono(t), v);
    lemma_filter_contains_iff(t.free_vars(), pred, v);
}

/// Applying an acyclic substitution leaves none of its keys in the result,
/// so applying it a second time changes nothing.
pub proof fn lemma_apply_idempotent(t: MType, s: Map<Seq<char>, MType>)
    requires
        acyclic(s),
    ensures
        forall|v: Seq<char>| s.contains_key(v) ==> !#[trigger] t.apply(s).mentions(v),
        t.apply(s).apply(s) == t.apply(s),
{
    let r = choose|r: spec_fn(Seq<char>) -> nat| ranked(s, r);
    assert forall|v: Seq<char>| t.mentions(v) && s.contains_key(v) implies #[trigger] r(v) < s.len() by {}
    lemma_apply_resolves(t, s, r, s.len());
    assert forall|v: Seq<char>| s.contains_key(v) implies !#[trigger] t.apply(s).mentions(v) by {
        if t.apply_fuel(s, s.len()).mentions(v) {
        }
    }
    lemma_apply_untouched(t.apply(s), s, s.len());
}

/// The mapping that instantiating the quantifiers `qs` (the last one
/// outermost) with fresh names numbered from `c` adds to `m`: the outermost
/// quantifier gets the first name, and an inner quantifier of the same name
/// overrides an outer one.
pub open spec fn inst_map(qs: Seq<Seq<char>>, c: nat, m: Map<Seq<char>, MType>) -> Map<Seq<char>, MType>
    decreases qs.len(),
{
    if qs.len() == 0 {
        m
    } else {
        inst_map(qs.drop_last(), c + 1, m.insert(qs.last(), MType::Var(typevar_name(c))))
    }
}

/// `t` is the fresh type variable of some number in `[lo, hi)`.
pub open spec fn fresh_between(t: MType, lo: nat, hi: nat) -> bool {
    exists|k: nat| lo <= k < hi && t == MType::Var(typevar_name(k))
}

/// Instantiating quantifiers wrapped around a monotype applies `inst_map`.
proof fn lemma_inst_quantify(qs: Seq<Seq<char>>, t: MType, c: nat, m: Map<Seq<char>, MType>)
    ensures
        quantify(qs, PType::Mono(t)).inst(c, m) == t.instantiate(inst_map(qs, c, m)),
        quantify(qs, PType::Mono(t)).quantifiers() == qs.len(),
    decreases qs.len(),
{
    if qs.len() > 0 {
        lemma_inst_quantify(qs.drop_last(), t, c + 1, m.insert(qs.last(), MType::Var(typevar_name(c))));
    }
}

/// `inst_map` binds the quantified names, each to its own fresh variable,
/// and keeps the other bindings of `m`.
proof fn lemma_inst_map(qs: Seq<Seq<char>>, c: nat, m: Map<Seq<char>, MType>)
    ensures
        forall|v: Seq<char>| #[trigger] inst_map(qs, c, m).contains_key(v) <==> m.contains_key(v) || qs.contains(v),
        forall|v: Seq<char>| qs.contains(v) ==> fresh_between(#[trigger] inst_map(qs, c, m)[v], c, c + qs.len()),
        forall|v: Seq<char>| !qs.contains(v) && m.contains_key(v) ==> #[trigger] inst_map(qs, c, m)[v] == m[v],
        forall|v: Seq<char>, w: Seq<char>| qs.contains(v) && qs.contains(w) && v != w
            ==> #[trigger] inst_map(qs, c, m)[v] != #[trigger] inst_map(qs, c, m)[w],
    decreases qs.len(),
{
    if qs.len() > 0 {
        let q = qs.last();
        let rest = qs.drop_last();
        let m1 = m.insert(q, MType::Var(typevar_name(c)));
        lemma_inst_map(rest, c + 1, m1);
        let f = inst_map(qs, c, m);
        assert(f == inst_map(rest, c + 1, m1));
        assert forall|v: Seq<char>| qs.contains(v) <==> rest.contains(v) || v == q by {
            if qs.contains(v) {
                let i = choose|i: int| 0 <= i < qs.len() && qs[i] == v;
                if i < qs.len() - 1 {
                    assert(rest[i] == v);
                }
            }
            if rest.contains(v) {
                let i = choose|i: int| 0 <= i < rest.len() && rest[i] == v;
                assert(qs[i] == v);
            }
            if v == q {
                assert(qs[qs.len() - 1] == v);
            }
        }
        assert forall|v: Seq<char>| qs.contains(v) implies fresh_between(#[trigger] f[v], c, c + qs.len()) by {
            if rest.contains(v) {
                let k = choose|k: nat| c + 1 <= k < c + 1 + rest.len() && f[v] == MType::Var(typevar_name(k));
                assert(c <= k < c + qs.len());
            } else {
                assert(f[v] == MType::Var(typevar_name(c)));
            }
        }
        assert forall|v: Seq<char>, w: Seq<char>| qs.contains(v) && qs.contains(w) && v != w
            implies #[trigger] f[v] != #[trigger] f[w] by {
            if rest.contains(v) && rest.contains(w) {
            } else if rest.contains(w) {
                let k = choose|k: nat| c + 1 <= k < c + 1 + rest.len() && f[w] == MType::Var(typevar_name(k));
                assert(f[v] == MType::Var(typevar_name(c)));
                lemma_fresh_names_distinct(c, k);
            } else if rest.contains(v) {
                let k = choose|k: nat| c + 1 <= k < c + 1 + rest.len() && f[v] == MType::Var(typevar_name(k));
                assert(f[w] == MType::Var(typevar_name(c)));
                lemma_fresh_names_distinct(c, k);
            }
        }
    }
}

/// The mapping by which instantiating the generalisation of `t` over
/// `vars`, with fresh names numbered from `c`, replaces variables.
pub open spec fn generalise_map(t: MType, vars: Map<Seq<char>, PType>, c: nat) -> Map<Seq<char>, MType> {
    inst_map(t.free_vars().filter(|v: Seq<char>| !ctx_mentions(vars, v)), c, Map::empty())
}

/// Generalising a type over a context and instantiating the result with
/// fresh names numbered from `c` gives the type back with each variable
/// that the context does not mention replaced by its own fresh variable
/// (numbered below `c` plus the number of quantifiers; distinct variables
/// get distinct ones) and every other variable unchanged.
pub proof fn lemma_generalise_instantiate(t: MType, vars: Map<Seq<char>, PType>, c: nat)
    ensures
        generalised(t, vars).inst(c, Map::empty()) == t.instantiate(generalise_map(t, vars, c)),
        forall|v: Seq<char>| #[trigger] generalise_map(t, vars, c).contains_key(v) <==> t.mentions(v) && !ctx_mentions(vars, v),
        forall|v: Seq<char>| generalise_map(t, vars, c).contains_key(v) ==> fresh_between(
            #[trigger] generalise_map(t, vars, c)[v],
            c,
            c + generalised(t, vars).quantifiers(),
        ),
        forall|v: Seq<char>, w: Seq<char>|
            generalise_map(t, vars, c).contains_key(v) && generalise_map(t, vars, c).contains_key(w) && v != w
                ==> #[trigger] generalise_map(t, vars, c)[v] != #[trigger] generalise_map(t, vars, c)[w],
{
    let pred = |v: Seq<char>| !ctx_mentions(vars, v);
    let qs = t.free_vars().filter(pred);
    lemma_inst_quantify(qs, t, c, Map::empty());
    lemma_inst_map(qs, c, Map::empty());
    assert forall|v: Seq<char>| qs.contains(v) <==> t.mentions(v) && !ctx_mentions(vars, v) by {
        lemma_filter_contains_iff(t.free_vars(), pred, v);
    }
}

} // verus!
