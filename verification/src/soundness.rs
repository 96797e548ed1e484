//! Applying substitutions, composing them, and the laws of unification: a
//! substitution that `unify` returns makes its two types equal and is most
//! general, unification fails exactly when no acyclic substitution makes
//! the two types equal, and a type unifies with itself without binding
//! anything.
use vstd::prelude::*;
use crate::types::{MType, TFun, compose};
use crate::properties::{lemma_apply_empty, lemma_compose_empty};
use crate::unification::{
    unify_spec, unify_args, unify_tag, args_invariant, args_ready, pair_vars, vars, ranked, acyclic, confined,
    lemma_app_mentions, lemma_apply_untouched, lemma_args_measure, lemma_unify_confined, lemma_compose_confined,
    lemma_args_start, lemma_empty_confined, lemma_single_confined, lemma_sizes_bound,
};

verus! {

/// `f` resolves types along the bindings of `s`: a bound variable becomes
/// what its binding becomes, an unbound one stays, and type functions are
/// kept with their arguments resolved.
pub open spec fn follows(f: spec_fn(MType) -> MType, s: Map<Seq<char>, MType>) -> bool {
    &&& forall|v: Seq<char>| #[trigger] f(MType::Var(v)) == if s.contains_key(v) { f(s[v]) } else { MType::Var(v) }
    &&& forall|g: TFun, ts: Seq<MType>| #[trigger] f(MType::App(g, ts)) == MType::App(g, Seq::new(ts.len(), |i: int| f(ts[i])))
}

/// With a ranked substitution, any fuel above the ranks of the bound
/// variables of `t` gives the same result.
pub proof fn lemma_fuel_independent(t: MType, s: Map<Seq<char>, MType>, r: spec_fn(Seq<char>) -> nat, f1: nat, f2: nat)
    requires
        ranked(s, r),
        forall|v: Seq<char>| t.mentions(v) && s.contains_key(v) ==> r(v) < f1 && r(v) < f2,
    ensures
        t.apply_fuel(s, f1) == t.apply_fuel(s, f2),
    decreases f1, t,
{
    match t {
        MType::Var(x) => {
            assert(t.free_vars() == seq![x]);
            assert(seq![x][0] == x);
            assert(t.mentions(x));
            if s.contains_key(x) {
                assert forall|y: Seq<char>| s[x].mentions(y) && s.contains_key(y) implies r(y) < (f1 - 1) as nat && r(y) < (f2 - 1) as nat by {
                    assert(r(y) < r(x));
                }
                lemma_fuel_independent(s[x], s, r, (f1 - 1) as nat, (f2 - 1) as nat);
            }
        },
        MType::App(g, ts) => {
            let a = t.apply_fuel(s, f1);
            let b = t.apply_fuel(s, f2);
            assert forall|i: int| 0 <= i < ts.len() implies #[trigger] a->App_1[i] == b->App_1[i] by {
                assert forall|v: Seq<char>| ts[i].mentions(v) && s.contains_key(v) implies r(v) < f1 && r(v) < f2 by {
                    lemma_app_mentions(g, ts, v);
                }
                lemma_fuel_independent(ts[i], s, r, f1, f2);
            }
            assert(a->App_1 =~= b->App_1);
        },
    }
}

/// Applying a ranked substitution resolves types along its bindings.
pub proof fn lemma_apply_follows(s: Map<Seq<char>, MType>, r: spec_fn(Seq<char>) -> nat)
    requires
        ranked(s, r),
    ensures
        follows(|t: MType| t.apply(s), s),
{
    let f = |t: MType| t.apply(s);
    assert forall|v: Seq<char>| #[trigger] f(MType::Var(v)) == if s.contains_key(v) { f(s[v]) } else { MType::Var(v) } by {
        if s.contains_key(v) {
            assert(r(v) < s.len());
            assert forall|y: Seq<char>| s[v].mentions(y) && s.contains_key(y) implies r(y) < (s.len() - 1) as nat && r(y) < s.len() by {
                assert(r(y) < r(v));
            }
            lemma_fuel_independent(s[v], s, r, (s.len() - 1) as nat, s.len());
        }
    }
    assert forall|g: TFun, ts: Seq<MType>| #[trigger] f(MType::App(g, ts)) == MType::App(g, Seq::new(ts.len(), |i: int| f(ts[i]))) by {
        assert(MType::App(g, ts).apply(s)->App_1 =~= Seq::new(ts.len(), |i: int| f(ts[i])));
    }
}

/// Two functions that both resolve along a ranked substitution agree.
pub proof fn lemma_follows_unique(f: spec_fn(MType) -> MType, g: spec_fn(MType) -> MType, s: Map<Seq<char>, MType>, r: spec_fn(Seq<char>) -> nat, t: MType, n: nat)
    requires
        follows(f, s),
        follows(g, s),
        ranked(s, r),
        forall|v: Seq<char>| t.mentions(v) && s.contains_key(v) ==> r(v) < n,
    ensures
        f(t) == g(t),
    decreases n, t,
{
    match t {
        MType::Var(x) => {
            assert(t.free_vars() == seq![x]);
            assert(seq![x][0] == x);
            assert(t.mentions(x));
            assert(f(MType::Var(x)) == if s.contains_key(x) { f(s[x]) } else { MType::Var(x) });
            assert(g(MType::Var(x)) == if s.contains_key(x) { g(s[x]) } else { MType::Var(x) });
            if s.contains_key(x) {
                assert forall|y: Seq<char>| s[x].mentions(y) && s.contains_key(y) implies r(y) < r(x) by {
                }
                lemma_follows_unique(f, g, s, r, s[x], r(x));
            }
        },
        MType::App(h, ts) => {
            assert(f(MType::App(h, ts)) == MType::App(h, Seq::new(ts.len(), |i: int| f(ts[i]))));
            assert(g(MType::App(h, ts)) == MType::App(h, Seq::new(ts.len(), |i: int| g(ts[i]))));
            assert forall|i: int| 0 <= i < ts.len() implies f(ts[i]) == g(ts[i]) by {
                assert forall|v: Seq<char>| ts[i].mentions(v) && s.contains_key(v) implies r(v) < n by {
                    lemma_app_mentions(h, ts, v);
                }
                lemma_follows_unique(f, g, s, r, ts[i], n);
            }
            assert(Seq::new(ts.len(), |i: int| f(ts[i])) =~= Seq::new(ts.len(), |i: int| g(ts[i])));
        },
    }
}

/// Applying `compose(sub, s2)` is applying `sub` and then `s2`, when `s2`
/// neither binds nor mentions a variable that `sub` binds.
pub proof fn lemma_compose_apply(sub: Map<Seq<char>, MType>, s2: Map<Seq<char>, MType>, t: MType)
    requires
        acyclic(sub),
        acyclic(s2),
        acyclic(compose(sub, s2)),
        forall|k: Seq<char>| s2.contains_key(k) ==> !sub.contains_key(k),
        forall|k: Seq<char>, y: Seq<char>| s2.contains_key(k) && #[trigger] s2[k].mentions(y) ==> !sub.contains_key(y),
    ensures
        t.apply(compose(sub, s2)) == t.apply(sub).apply(s2),
{
    let c = compose(sub, s2);
    let rs = choose|r: spec_fn(Seq<char>) -> nat| ranked(sub, r);
    let r2 = choose|r: spec_fn(Seq<char>) -> nat| ranked(s2, r);
    let rc = choose|r: spec_fn(Seq<char>) -> nat| ranked(c, r);
    lemma_apply_follows(sub, rs);
    lemma_apply_follows(s2, r2);
    lemma_apply_follows(c, rc);
    let fs = |u: MType| u.apply(sub);
    let f2 = |u: MType| u.apply(s2);
    let fc = |u: MType| u.apply(c);
    let ff = |u: MType| u.apply(sub).apply(s2);
    assert forall|v: Seq<char>| #[trigger] ff(MType::Var(v)) == if c.contains_key(v) { ff(c[v]) } else { MType::Var(v) } by {
        assert(fs(MType::Var(v)) == if sub.contains_key(v) { fs(sub[v]) } else { MType::Var(v) });
        assert(f2(MType::Var(v)) == if s2.contains_key(v) { f2(s2[v]) } else { MType::Var(v) });
        if s2.contains_key(v) {
            assert forall|y: Seq<char>| s2[v].mentions(y) implies !sub.contains_key(y) by {
            }
            lemma_apply_untouched(s2[v], sub, sub.len());
            assert(c[v] == s2[v].apply(sub));
            assert(c[v] == s2[v]);
        } else if sub.contains_key(v) {
            assert(c[v] == sub[v]);
        }
    }
    assert forall|g: TFun, ts: Seq<MType>| #[trigger] ff(MType::App(g, ts)) == MType::App(g, Seq::new(ts.len(), |i: int| ff(ts[i]))) by {
        let inner = Seq::new(ts.len(), |i: int| fs(ts[i]));
        assert(fs(MType::App(g, ts)) == MType::App(g, inner));
        assert(f2(MType::App(g, inner)) == MType::App(g, Seq::new(inner.len(), |i: int| f2(inner[i]))));
        assert(Seq::new(inner.len(), |i: int| f2(inner[i])) =~= Seq::new(ts.len(), |i: int| ff(ts[i])));
    }
    assert(follows(ff, c));
    assert(follows(fc, c));
    lemma_follows_unique(fc, ff, c, rc, t, c.len());
}

/// A single binding `x ↦ t` makes `x` and `t` equal, when `t` does not
/// mention `x`.
proof fn lemma_single_sound(x: Seq<char>, t: MType)
    requires
        !t.mentions(x),
    ensures
        MType::Var(x).apply(map![x => t]) == t.apply(map![x => t]),
{
    let s = map![x => t];
    let v = vars(MType::Var(x)).union(vars(t));
    assert(MType::Var(x).free_vars() == seq![x]);
    assert(seq![x][0] == x);
    assert(vars(MType::Var(x)).contains(x));
    assert forall|y: Seq<char>| t.mentions(y) implies v.contains(y) by {
        assert(vars(t).contains(y));
    }
    lemma_single_confined(x, t, v);
    let r = choose|r: spec_fn(Seq<char>) -> nat| ranked(s, r);
    lemma_apply_follows(s, r);
    let f = |u: MType| u.apply(s);
    assert(f(MType::Var(x)) == f(s[x]));
}

/// Unification is sound: when it succeeds, applying its result to the two
/// types gives equal types.
pub proof fn lemma_unify_sound(a: MType, b: MType)
    ensures
        unify_spec(a, b) matches Ok(s) ==> a.apply(s) == b.apply(s),
    decreases pair_vars(a, b).len(), a.size() + b.size(), unify_tag(a),
{
    match a {
        MType::Var(v1) => match b {
            MType::Var(v2) => {
                if v1 != v2 && !b.mentions(v1) {
                    lemma_single_sound(v1, b);
                }
            },
            MType::App(_, _) => {
                if !b.mentions(v1) {
                    lemma_single_sound(v1, b);
                }
            },
        },
        MType::App(f1, ts1) => match b {
            MType::Var(_) => {
                assert(pair_vars(b, a) =~= pair_vars(a, b));
                lemma_unify_sound(b, a);
            },
            MType::App(f2, ts2) => {
                if f1 == f2 && ts1.len() == ts2.len() {
                    lemma_args_start(f1, ts1, f2, ts2);
                    lemma_args_sound(ts1, ts2, 0, Map::empty(), pair_vars(a, b), a.size() + b.size());
                    if let Ok(s) = unify_spec(a, b) {
                        assert(unify_spec(a, b) == unify_args(ts1, ts2, 0, Map::empty(), pair_vars(a, b), a.size() + b.size()));
                        let x = a.apply_fuel(s, s.len());
                        let y = b.apply_fuel(s, s.len());
                        assert forall|j: int| 0 <= j < ts1.len() implies #[trigger] x->App_1[j] == y->App_1[j] by {
                            assert(ts1[j].apply(s) == ts2[j].apply(s));
                        }
                        assert(x->App_1 =~= y->App_1);
                    }
                }
            },
        },
    }
}

/// The argument loop of unification makes every pair of arguments equal,
/// those before `i` by the substitution so far, the others by the pairs'
/// own unifiers.
proof fn lemma_args_sound(ts1: Seq<MType>, ts2: Seq<MType>, i: int, sub: Map<Seq<char>, MType>, v: Set<Seq<char>>, total: nat)
    requires
        args_invariant(ts1, ts2, i, sub, v, total),
        forall|j: int| 0 <= j < i ==> #[trigger] ts1[j].apply(sub) == ts2[j].apply(sub),
    ensures
        unify_args(ts1, ts2, i, sub, v, total) matches Ok(s) ==> forall|j: int| 0 <= j < ts1.len() ==> #[trigger] ts1[j].apply(s) == ts2[j].apply(s),
    decreases v.len(), total, ts1.len() - i,
{
    if i < ts1.len() {
        assert(pair_vars(ts1[i], ts2[i]).subset_of(v));
        assert(ts1[i].size() + ts2[i].size() < total);
        assert(args_ready(ts1, ts2, i, sub, v, total));
        let a = ts1[i].apply(sub);
        let b = ts2[i].apply(sub);
        lemma_args_measure(ts1[i], ts2[i], sub, v, total);
        lemma_unify_confined(a, b);
        lemma_unify_sound(a, b);
        if let Ok(s2) = unify_spec(a, b) {
            let w = pair_vars(a, b);
            lemma_compose_confined(sub, s2, v, w);
            let c = compose(sub, s2);
            assert forall|k: Seq<char>| s2.contains_key(k) implies !sub.contains_key(k) by {
                assert(w.contains(k));
            }
            assert forall|k: Seq<char>, y: Seq<char>| s2.contains_key(k) && #[trigger] s2[k].mentions(y) implies !sub.contains_key(y) by {
                assert(w.contains(y));
            }
            assert forall|j: int| 0 <= j < i + 1 implies #[trigger] ts1[j].apply(c) == ts2[j].apply(c) by {
                lemma_compose_apply(sub, s2, ts1[j]);
                lemma_compose_apply(sub, s2, ts2[j]);
            }
            lemma_args_sound(ts1, ts2, i + 1, c, v, total);
        }
    }
}

/// Unifying a type with itself succeeds with the empty substitution.
pub proof fn lemma_unify_self(a: MType)
    ensures
        unify_spec(a, a) == Ok::<Map<Seq<char>, MType>, Seq<char>>(Map::empty()),
    decreases pair_vars(a, a).len(), a.size() + a.size(), unify_tag(a),
{
    if let MType::App(f, ts) = a {
        lemma_args_start(f, ts, f, ts);
        lemma_args_self(ts, 0, pair_vars(a, a), a.size() + a.size());
    }
}

/// The argument loop on two equal argument lists keeps the empty
/// substitution.
proof fn lemma_args_self(ts: Seq<MType>, i: int, v: Set<Seq<char>>, total: nat)
    requires
        args_invariant(ts, ts, i, Map::empty(), v, total),
    ensures
        unify_args(ts, ts, i, Map::empty(), v, total) == Ok::<Map<Seq<char>, MType>, Seq<char>>(Map::empty()),
    decreases v.len(), total, ts.len() - i,
{
    if i < ts.len() {
        assert(pair_vars(ts[i], ts[i]).subset_of(v));
        assert(ts[i].size() + ts[i].size() < total);
        assert(args_ready(ts, ts, i, Map::empty(), v, total));
        lemma_args_measure(ts[i], ts[i], Map::empty(), v, total);
        lemma_apply_empty(ts[i]);
        lemma_unify_self(ts[i]);
        lemma_compose_empty(Map::empty());
        lemma_args_self(ts, i + 1, v, total);
    }
}

/// Every binding of `s` is made equal to its variable by `s2`.
pub open spec fn unified_by(s: Map<Seq<char>, MType>, s2: Map<Seq<char>, MType>) -> bool {
    forall|v: Seq<char>| #[trigger] s.contains_key(v) ==> MType::Var(v).apply(s2) == s[v].apply(s2)
}

/// Two functions that map each type function application to the
/// application of their images, that pass a bound variable of a ranked `s`
/// on to its binding, and that agree on the other variables, agree.
proof fn lemma_agree_along(f: spec_fn(MType) -> MType, g: spec_fn(MType) -> MType, s: Map<Seq<char>, MType>, r: spec_fn(Seq<char>) -> nat, t: MType, n: nat)
    requires
        forall|v: Seq<char>| s.contains_key(v) ==> #[trigger] f(MType::Var(v)) == f(s[v]),
        forall|v: Seq<char>| s.contains_key(v) ==> #[trigger] g(MType::Var(v)) == g(s[v]),
        forall|v: Seq<char>| !s.contains_key(v) ==> #[trigger] f(MType::Var(v)) == g(MType::Var(v)),
        forall|h: TFun, ts: Seq<MType>| #[trigger] f(MType::App(h, ts)) == MType::App(h, Seq::new(ts.len(), |i: int| f(ts[i]))),
        forall|h: TFun, ts: Seq<MType>| #[trigger] g(MType::App(h, ts)) == MType::App(h, Seq::new(ts.len(), |i: int| g(ts[i]))),
        ranked(s, r),
        forall|v: Seq<char>| t.mentions(v) && s.contains_key(v) ==> r(v) < n,
    ensures
        f(t) == g(t),
    decreases n, t,
{
    match t {
        MType::Var(x) => {
            assert(t.free_vars() == seq![x]);
            assert(seq![x][0] == x);
            assert(t.mentions(x));
            if s.contains_key(x) {
                assert(f(MType::Var(x)) == f(s[x]));
                assert(g(MType::Var(x)) == g(s[x]));
                assert forall|y: Seq<char>| s[x].mentions(y) && s.contains_key(y) implies r(y) < r(x) by {
                }
                lemma_agree_along(f, g, s, r, s[x], r(x));
            } else {
                assert(f(MType::Var(x)) == g(MType::Var(x)));
            }
        },
        MType::App(h, ts) => {
            assert(f(MType::App(h, ts)) == MType::App(h, Seq::new(ts.len(), |i: int| f(ts[i]))));
            assert(g(MType::App(h, ts)) == MType::App(h, Seq::new(ts.len(), |i: int| g(ts[i]))));
            assert forall|i: int| 0 <= i < ts.len() implies f(ts[i]) == g(ts[i]) by {
                assert forall|v: Seq<char>| ts[i].mentions(v) && s.contains_key(v) implies r(v) < n by {
                    lemma_app_mentions(h, ts, v);
                }
                lemma_agree_along(f, g, s, r, ts[i], n);
            }
            assert(Seq::new(ts.len(), |i: int| f(ts[i])) =~= Seq::new(ts.len(), |i: int| g(ts[i])));
        },
    }
}

/// When `s2` makes every binding of `s` equal to its variable, applying
/// `s` first changes nothing about what `s2` gives.
proof fn lemma_absorbs(s: Map<Seq<char>, MType>, s2: Map<Seq<char>, MType>, t: MType)
    requires
        acyclic(s),
        acyclic(s2),
        unified_by(s, s2),
    ensures
        t.apply(s).apply(s2) == t.apply(s2),
{
    let r = choose|r: spec_fn(Seq<char>) -> nat| ranked(s, r);
    let r2 = choose|r: spec_fn(Seq<char>) -> nat| ranked(s2, r);
    lemma_apply_follows(s, r);
    lemma_apply_follows(s2, r2);
    let fs = |u: MType| u.apply(s);
    let f2 = |u: MType| u.apply(s2);
    let f = |u: MType| u.apply(s).apply(s2);
    assert forall|v: Seq<char>| s.contains_key(v) implies #[trigger] f(MType::Var(v)) == f(s[v]) by {
        assert(fs(MType::Var(v)) == fs(s[v]));
    }
    assert forall|v: Seq<char>| s.contains_key(v) implies #[trigger] f2(MType::Var(v)) == f2(s[v]) by {
    }
    assert forall|v: Seq<char>| !s.contains_key(v) implies #[trigger] f(MType::Var(v)) == f2(MType::Var(v)) by {
        assert(fs(MType::Var(v)) == MType::Var(v));
    }
    assert forall|g: TFun, ts: Seq<MType>| #[trigger] f(MType::App(g, ts)) == MType::App(g, Seq::new(ts.len(), |i: int| f(ts[i]))) by {
        let inner = Seq::new(ts.len(), |i: int| fs(ts[i]));
        assert(fs(MType::App(g, ts)) == MType::App(g, inner));
        assert(f2(MType::App(g, inner)) == MType::App(g, Seq::new(inner.len(), |i: int| f2(inner[i]))));
        assert(Seq::new(inner.len(), |i: int| f2(inner[i])) =~= Seq::new(ts.len(), |i: int| f(ts[i])));
    }
    assert forall|g: TFun, ts: Seq<MType>| #[trigger] f2(MType::App(g, ts)) == MType::App(g, Seq::new(ts.len(), |i: int| f2(ts[i]))) by {
    }
    assert forall|v: Seq<char>| t.mentions(v) && s.contains_key(v) implies r(v) < s.len() by {
    }
    lemma_agree_along(f, f2, s, r, t, s.len());
}

/// A type function application that mentions `v` becomes, under any
/// substitution, strictly larger than what `v` becomes.
proof fn lemma_mentions_size(t: MType, v: Seq<char>, s: Map<Seq<char>, MType>)
    requires
        t is App,
        t.mentions(v),
    ensures
        t.apply(s).size() > MType::Var(v).apply(s).size(),
    decreases t,
{
    if let MType::App(g, ts) = t {
        lemma_app_mentions(g, ts, v);
        let i = choose|i: int| 0 <= i < ts.len() && #[trigger] ts[i].mentions(v);
        let out = t.apply(s)->App_1;
        assert(out[i] == ts[i].apply(s));
        lemma_sizes_bound(out, i);
        match ts[i] {
            MType::Var(x) => {
                assert(ts[i].free_vars() == seq![x]);
                assert(seq![x].contains(v));
                let k = choose|k: int| 0 <= k < seq![x].len() && seq![x][k] == v;
                assert(x == v);
            },
            MType::App(_, _) => {
                lemma_mentions_size(ts[i], v, s);
            },
        }
    }
}

/// When an acyclic `s2` makes `a` and `b` equal, unification succeeds and
/// `s2` makes every binding it finds equal to its variable.
proof fn lemma_unify_principal(a: MType, b: MType, s2: Map<Seq<char>, MType>)
    requires
        acyclic(s2),
        a.apply(s2) == b.apply(s2),
    ensures
        unify_spec(a, b) is Ok,
        unify_spec(a, b) matches Ok(s) ==> unified_by(s, s2),
    decreases pair_vars(a, b).len(), a.size() + b.size(), unify_tag(a),
{
    match a {
        MType::Var(v1) => {
            if b.mentions(v1) {
                match b {
                    MType::Var(v2) => {
                        assert(b.free_vars() == seq![v2]);
                        let k = choose|k: int| 0 <= k < seq![v2].len() && seq![v2][k] == v1;
                        assert(v1 == v2);
                    },
                    MType::App(_, _) => {
                        lemma_mentions_size(b, v1, s2);
                    },
                }
            }
        },
        MType::App(f1, ts1) => match b {
            MType::Var(_) => {
                assert(pair_vars(b, a) =~= pair_vars(a, b));
                lemma_unify_principal(b, a, s2);
                if let Ok(s) = unify_spec(a, b) {
                    assert(unify_spec(a, b) == unify_spec(b, a));
                    assert forall|v: Seq<char>| #[trigger] s.contains_key(v) implies MType::Var(v).apply(s2) == s[v].apply(s2) by {
                    }
                }
            },
            MType::App(f2, ts2) => {
                let x = a.apply(s2)->App_1;
                let y = b.apply(s2)->App_1;
                assert(x.len() == ts1.len() && y.len() == ts2.len());
                assert forall|j: int| 0 <= j < ts1.len() implies #[trigger] ts1[j].apply(s2) == ts2[j].apply(s2) by {
                    assert(x[j] == ts1[j].apply(s2));
                    assert(y[j] == ts2[j].apply(s2));
                }
                lemma_args_start(f1, ts1, f2, ts2);
                lemma_empty_confined(pair_vars(a, b));
                lemma_args_principal(ts1, ts2, 0, Map::empty(), pair_vars(a, b), a.size() + b.size(), s2);
                assert(unify_spec(a, b) == unify_args(ts1, ts2, 0, Map::empty(), pair_vars(a, b), a.size() + b.size()));
            },
        },
    }
}

/// The argument loop of unification, under an acyclic `s2` that makes
/// every pair of arguments equal and every binding found so far equal to
/// its variable, succeeds, and `s2` does the same for its result.
proof fn lemma_args_principal(
    ts1: Seq<MType>,
    ts2: Seq<MType>,
    i: int,
    sub: Map<Seq<char>, MType>,
    v: Set<Seq<char>>,
    total: nat,
    s2: Map<Seq<char>, MType>,
)
    requires
        args_invariant(ts1, ts2, i, sub, v, total),
        acyclic(s2),
        unified_by(sub, s2),
        forall|j: int| 0 <= j < ts1.len() ==> #[trigger] ts1[j].apply(s2) == ts2[j].apply(s2),
    ensures
        unify_args(ts1, ts2, i, sub, v, total) is Ok,
        unify_args(ts1, ts2, i, sub, v, total) matches Ok(s) ==> unified_by(s, s2),
    decreases v.len(), total, ts1.len() - i,
{
    if i < ts1.len() {
        assert(pair_vars(ts1[i], ts2[i]).subset_of(v));
        assert(ts1[i].size() + ts2[i].size() < total);
        assert(args_ready(ts1, ts2, i, sub, v, total));
        let a = ts1[i].apply(sub);
        let b = ts2[i].apply(sub);
        lemma_args_measure(ts1[i], ts2[i], sub, v, total);
        lemma_unify_confined(a, b);
        lemma_absorbs(sub, s2, ts1[i]);
        lemma_absorbs(sub, s2, ts2[i]);
        lemma_unify_principal(a, b, s2);
        if let Ok(si) = unify_spec(a, b) {
            let w = pair_vars(a, b);
            lemma_compose_confined(sub, si, v, w);
            let c = compose(sub, si);
            assert forall|k: Seq<char>| #[trigger] c.contains_key(k) implies MType::Var(k).apply(s2) == c[k].apply(s2) by {
                if si.contains_key(k) {
                    assert(c[k] == si[k]);
                } else {
                    assert(c[k] == sub[k]);
                }
            }
            lemma_args_principal(ts1, ts2, i + 1, c, v, total, s2);
        }
    }
}

/// Unification finds a most general unifier: when an acyclic substitution
/// `s2` makes `a` and `b` equal, unification succeeds, and applying its
/// result before `s2` gives what `s2` alone gives, on every type.
pub proof fn lemma_unify_most_general(a: MType, b: MType, s2: Map<Seq<char>, MType>, t: MType)
    requires
        acyclic(s2),
        a.apply(s2) == b.apply(s2),
    ensures
        unify_spec(a, b) is Ok,
        unify_spec(a, b) matches Ok(s) ==> t.apply(s).apply(s2) == t.apply(s2),
{
    lemma_unify_principal(a, b, s2);
    lemma_unify_confined(a, b);
    if let Ok(s) = unify_spec(a, b) {
        lemma_absorbs(s, s2, t);
    }
}

/// Unification fails exactly when no acyclic substitution makes the two
/// types equal; hence it succeeds on `a` and `b` exactly when it succeeds
/// on `b` and `a`.
pub proof fn lemma_unify_fails_iff(a: MType, b: MType)
    ensures
        unify_spec(a, b) is Err <==> !exists|s: Map<Seq<char>, MType>| #![trigger a.apply(s)] acyclic(s) && a.apply(s) == b.apply(s),
        unify_spec(a, b) is Ok <==> unify_spec(b, a) is Ok,
{
    lemma_unify_sound(a, b);
    lemma_unify_confined(a, b);
    lemma_unify_sound(b, a);
    lemma_unify_confined(b, a);
    if let Ok(s) = unify_spec(a, b) {
        assert(acyclic(s) && a.apply(s) == b.apply(s));
        lemma_unify_principal(b, a, s);
    }
    if let Ok(s) = unify_spec(b, a) {
        lemma_unify_principal(a, b, s);
    }
    if exists|s: Map<Seq<char>, MType>| #![trigger a.apply(s)] acyclic(s) && a.apply(s) == b.apply(s) {
        let s = choose|s: Map<Seq<char>, MType>| #![trigger a.apply(s)] acyclic(s) && a.apply(s) == b.apply(s);
        lemma_unify_principal(a, b, s);
    }
}

} // verus!
