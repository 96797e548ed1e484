//! Syntactic unification of monotypes.
use vstd::prelude::*;
use vstd::set_lib::*;
use crate::types::{MType, TFun, Monotype, Substitution, UnificationError, compose, sizes, views, lemma_app_view, lemma_free_vars_all_contains};
use crate::names::NameMap;
use crate::text::{text, push_str};
use crate::debug_text::push_list_text;
use crate::debug_text::{tfun_text, mtype_text, list_text};

verus! {

broadcast use vstd::seq_lib::group_seq_properties, vstd::set::group_set_axioms, vstd::seq_lib::seq_to_set_is_finite;

/// The set of variables of `t`.
pub open spec fn vars(t: MType) -> Set<Seq<char>> {
    t.free_vars().to_set()
}

/// Variables of two types together.
pub open spec fn pair_vars(a: MType, b: MType) -> Set<Seq<char>> {
    vars(a).union(vars(b))
}

/// Whether some binding of `s` mentions `v`.
pub open spec fn range_mentions(s: Map<Seq<char>, MType>, v: Seq<char>) -> bool {
    exists|x: Seq<char>| s.contains_key(x) && #[trigger] s[x].mentions(v)
}

/// `r` ranks the bound variables of `s` below the number of bindings, and
/// every bound variable mentioned by a binding is ranked below the bound one.
pub open spec fn ranked(s: Map<Seq<char>, MType>, r: spec_fn(Seq<char>) -> nat) -> bool {
    forall|x: Seq<char>| #[trigger] s.contains_key(x) ==> {
        &&& r(x) < s.len()
        &&& forall|y: Seq<char>| s[x].mentions(y) && s.contains_key(y) ==> #[trigger] r(y) < r(x)
    }
}

/// No bound variable depends on itself through the bindings.
pub open spec fn acyclic(s: Map<Seq<char>, MType>) -> bool {
    &&& s.dom().finite()
    &&& exists|r: spec_fn(Seq<char>) -> nat| ranked(s, r)
}

/// An acyclic substitution that binds and mentions only variables of `v`.
pub open spec fn confined(s: Map<Seq<char>, MType>, v: Set<Seq<char>>) -> bool {
    &&& acyclic(s)
    &&& s.dom().subset_of(v)
    &&& forall|x: Seq<char>, y: Seq<char>| s.contains_key(x) && #[trigger] s[x].mentions(y) ==> v.contains(y)
}

pub proof fn lemma_app_mentions(f: TFun, ts: Seq<MType>, v: Seq<char>)
    ensures
        MType::App(f, ts).mentions(v) <==> exists|i: int| 0 <= i < ts.len() && #[trigger] ts[i].mentions(v),
{
    lemma_free_vars_all_contains(ts, v);
    if MType::App(f, ts).mentions(v) {
        let i = choose|i: int| 0 <= i < ts.len() && #[trigger] ts[i].free_vars().contains(v);
        assert(ts[i].mentions(v));
    }
    if exists|i: int| 0 <= i < ts.len() && #[trigger] ts[i].mentions(v) {
        let i = choose|i: int| 0 <= i < ts.len() && #[trigger] ts[i].mentions(v);
        assert(ts[i].free_vars().contains(v));
    }
}

pub proof fn lemma_sizes_bound(ts: Seq<MType>, i: int)
    requires
        0 <= i < ts.len(),
    ensures
        ts[i].size() <= sizes(ts),
    decreases ts.len(),
{
    if i < ts.len() - 1 {
        lemma_sizes_bound(ts.drop_last(), i);
        assert(ts.drop_last()[i] == ts[i]);
    }
}

/// Applying a substitution that binds no variable of `t` leaves `t` unchanged.
pub proof fn lemma_apply_untouched(t: MType, s: Map<Seq<char>, MType>, f: nat)
    requires
        forall|v: Seq<char>| t.mentions(v) ==> !s.contains_key(v),
    ensures
        t.apply_fuel(s, f) == t,
    decreases t,
{
    match t {
        MType::Var(v) => {
            assert(t.free_vars() == seq![v]);
            assert(seq![v][0] == v);
            assert(t.mentions(v));
        },
        MType::App(g, ts) => {
            let r = t.apply_fuel(s, f);
            assert forall|i: int| 0 <= i < ts.len() implies #[trigger] r->App_1[i] == ts[i] by {
                assert forall|v: Seq<char>| ts[i].mentions(v) implies !s.contains_key(v) by {
                    lemma_app_mentions(g, ts, v);
                }
                lemma_apply_untouched(ts[i], s, f);
            }
            assert(r->App_1 =~= ts);
        },
    }
}

/// With enough fuel, applying a ranked substitution resolves every bound
/// variable; what remains comes from the type or from the bindings.
pub proof fn lemma_apply_resolves(t: MType, s: Map<Seq<char>, MType>, r: spec_fn(Seq<char>) -> nat, f: nat)
    requires
        ranked(s, r),
        forall|v: Seq<char>| t.mentions(v) && s.contains_key(v) ==> #[trigger] r(v) < f,
    ensures
        forall|v: Seq<char>| #[trigger] t.apply_fuel(s, f).mentions(v) ==> !s.contains_key(v) && (t.mentions(v) || range_mentions(s, v)),
    decreases f, t,
{
    match t {
        MType::Var(x) => {
            assert(t.free_vars() == seq![x]);
            assert(seq![x][0] == x);
            if s.contains_key(x) {
                assert(t.mentions(x));
                assert(r(x) < f);
                let inner = s[x];
                assert forall|v: Seq<char>| inner.mentions(v) && s.contains_key(v) implies #[trigger] r(v) < (f - 1) as nat by {
                    assert(r(v) < r(x));
                }
                lemma_apply_resolves(inner, s, r, (f - 1) as nat);
                assert forall|v: Seq<char>| #[trigger] t.apply_fuel(s, f).mentions(v) implies !s.contains_key(v) && (t.mentions(v) || range_mentions(s, v)) by {
                    assert(inner.apply_fuel(s, (f - 1) as nat).mentions(v));
                    if inner.mentions(v) {
                        assert(s.contains_key(x) && s[x].mentions(v));
                    }
                }
            } else {
                assert forall|v: Seq<char>| #[trigger] t.apply_fuel(s, f).mentions(v) implies !s.contains_key(v) && (t.mentions(v) || range_mentions(s, v)) by {
                    assert(seq![x].contains(v));
                    assert(v == x);
                }
            }
        },
        MType::App(g, ts) => {
            let res = t.apply_fuel(s, f);
            let rs = res->App_1;
            assert forall|i: int, v: Seq<char>| 0 <= i < ts.len() && #[trigger] rs[i].mentions(v) implies !s.contains_key(v) && (ts[i].mentions(v) || range_mentions(s, v)) by {
                assert forall|u: Seq<char>| ts[i].mentions(u) && s.contains_key(u) implies #[trigger] r(u) < f by {
                    lemma_app_mentions(g, ts, u);
                }
                lemma_apply_resolves(ts[i], s, r, f);
                assert(rs[i] == ts[i].apply_fuel(s, f));
            }
            assert forall|v: Seq<char>| #[trigger] res.mentions(v) implies !s.contains_key(v) && (t.mentions(v) || range_mentions(s, v)) by {
                lemma_app_mentions(g, rs, v);
                let i = choose|i: int| 0 <= i < rs.len() && #[trigger] rs[i].mentions(v);
                assert(rs[i].mentions(v));
                if ts[i].mentions(v) {
                    lemma_app_mentions(g, ts, v);
                }
            }
        },
    }
}

/// Applying a confined substitution to a type removes the bound variables and
/// keeps within the type's variables and the confining set.
pub proof fn lemma_apply_confined(t: MType, s: Map<Seq<char>, MType>, v: Set<Seq<char>>)
    requires
        confined(s, v),
    ensures
        forall|y: Seq<char>| #[trigger] t.apply(s).mentions(y) ==> !s.contains_key(y) && (t.mentions(y) || v.contains(y)),
{
    let r = choose|r: spec_fn(Seq<char>) -> nat| ranked(s, r);
    assert forall|y: Seq<char>| t.mentions(y) && s.contains_key(y) implies #[trigger] r(y) < s.len() by {
    }
    lemma_apply_resolves(t, s, r, s.len());
    assert forall|y: Seq<char>| #[trigger] t.apply(s).mentions(y) implies !s.contains_key(y) && (t.mentions(y) || v.contains(y)) by {
        if range_mentions(s, y) && !t.mentions(y) {
            let x = choose|x: Seq<char>| s.contains_key(x) && #[trigger] s[x].mentions(y);
        }
    }
}

pub proof fn lemma_empty_confined(v: Set<Seq<char>>)
    ensures
        confined(Map::<Seq<char>, MType>::empty(), v),
{
    let r = |x: Seq<char>| 0nat;
    assert(ranked(Map::<Seq<char>, MType>::empty(), r));
}

/// A single binding of a variable to a type that does not mention it.
pub proof fn lemma_single_confined(x: Seq<char>, t: MType, v: Set<Seq<char>>)
    requires
        !t.mentions(x),
        v.contains(x),
        forall|y: Seq<char>| t.mentions(y) ==> v.contains(y),
    ensures
        confined(map![x => t], v),
{
    let s = map![x => t];
    assert(s.dom() =~= set![x]);
    assert(s.len() == 1);
    let r = |y: Seq<char>| 0nat;
    assert(ranked(s, r));
}

/// Composing a confined substitution with one confined to variables that the
/// first neither binds nor mentions stays confined.
pub proof fn lemma_compose_confined(s1: Map<Seq<char>, MType>, s2: Map<Seq<char>, MType>, v: Set<Seq<char>>, w: Set<Seq<char>>)
    requires
        confined(s1, v),
        confined(s2, w),
        w.subset_of(v),
        forall|y: Seq<char>| w.contains(y) ==> !s1.contains_key(y),
    ensures
        confined(compose(s1, s2), v),
        forall|k: Seq<char>| s2.contains_key(k) ==> #[trigger] compose(s1, s2)[k] == s2[k],
{
    let c = compose(s1, s2);
    let r1 = choose|r: spec_fn(Seq<char>) -> nat| ranked(s1, r);
    let r2 = choose|r: spec_fn(Seq<char>) -> nat| ranked(s2, r);
    assert(c.dom() =~= s1.dom().union(s2.dom()));
    assert(s1.dom().disjoint(s2.dom()));
    lemma_set_disjoint_lens(s1.dom(), s2.dom());
    assert forall|k: Seq<char>| s2.contains_key(k) implies #[trigger] c[k] == s2[k] by {
        assert forall|y: Seq<char>| s2[k].mentions(y) implies !s1.contains_key(y) by {
        }
        lemma_apply_untouched(s2[k], s1, s1.len());
    }
    let n2 = s2.len();
    let r = |k: Seq<char>| if s2.contains_key(k) { r2(k) } else { n2 + r1(k) };
    assert forall|x: Seq<char>| #[trigger] c.contains_key(x) implies {
        &&& r(x) < c.len()
        &&& forall|y: Seq<char>| c[x].mentions(y) && c.contains_key(y) ==> #[trigger] r(y) < r(x)
    } by {
        if s2.contains_key(x) {
            assert(r2(x) < s2.len());
            assert forall|y: Seq<char>| c[x].mentions(y) && c.contains_key(y) implies #[trigger] r(y) < r(x) by {
                assert(w.contains(y));
                assert(!s1.contains_key(y));
                assert(r2(y) < r2(x));
            }
        } else {
            assert(s1.contains_key(x));
            assert(r1(x) < s1.len());
            assert forall|y: Seq<char>| c[x].mentions(y) && c.contains_key(y) implies #[trigger] r(y) < r(x) by {
                if s2.contains_key(y) {
                    assert(r2(y) < s2.len());
                } else {
                    assert(s1.contains_key(y));
                    assert(r1(y) < r1(x));
                }
            }
        }
    }
    assert(ranked(c, r));
    assert forall|x: Seq<char>, y: Seq<char>| c.contains_key(x) && #[trigger] c[x].mentions(y) implies v.contains(y) by {
        if s2.contains_key(x) {
            assert(w.contains(y));
        }
    }
}


// ---------------------------------------------------------------------------
// The unification algorithm
// ---------------------------------------------------------------------------

pub open spec fn infinite_msg() -> Seq<char> {
    "Infinite recursive type"@
}

pub open spec fn mismatch_msg(f1: TFun, f2: TFun, a: MType, b: MType) -> Seq<char> {
    "Type function application mismatch: "@ + tfun_text(f1) + " != "@ + tfun_text(f2) + " (full: "@
        + mtype_text(a) + " vs "@ + mtype_text(b) + ")"@
}

pub open spec fn arity_msg(ts1: Seq<MType>, ts2: Seq<MType>) -> Seq<char> {
    "Type functions have different number of args: "@ + list_text(ts1) + ", "@ + list_text(ts2)
}

pub open spec fn unify_tag(a: MType) -> nat {
    match a {
        MType::Var(_) => 1,
        MType::App(_, ts) => ts.len() + 2,
    }
}

/// The conditions under which the `i`-th argument pair is unified: the
/// substitution so far is confined to `v`, and the pair lies within `v`
/// and is smaller than `total`. They always hold (see `lemma_unify_confined`).
pub open spec fn args_ready(ts1: Seq<MType>, ts2: Seq<MType>, i: int, sub: Map<Seq<char>, MType>, v: Set<Seq<char>>, total: nat) -> bool {
    &&& confined(sub, v)
    &&& v.finite()
    &&& pair_vars(ts1[i], ts2[i]).subset_of(v)
    &&& ts1[i].size() + ts2[i].size() < total
}

/// Robinson unification with an occurs check. Arguments of matching type
/// functions are unified left to right, each pair after applying the
/// substitution found so far, and the results are combined with `compose`.
/// Errors carry the diagnostic text.
pub open spec fn unify_spec(a: MType, b: MType) -> Result<Map<Seq<char>, MType>, Seq<char>>
    decreases pair_vars(a, b).len(), a.size() + b.size(), unify_tag(a),
{
    match a {
        MType::Var(v1) => match b {
            MType::Var(v2) => if v1 == v2 {
                Ok(Map::empty())
            } else if b.mentions(v1) {
                Err(infinite_msg())
            } else {
                Ok(map![v1 => b])
            },
            MType::App(_, _) => if b.mentions(v1) {
                Err(infinite_msg())
            } else {
                Ok(map![v1 => b])
            },
        },
        MType::App(f1, ts1) => match b {
            MType::Var(_) => {
                proof {
                    assert(pair_vars(b, a) =~= pair_vars(a, b));
                }
                unify_spec(b, a)
            },
            MType::App(f2, ts2) => if f1 != f2 {
                Err(mismatch_msg(f1, f2, a, b))
            } else if ts1.len() != ts2.len() {
                Err(arity_msg(ts1, ts2))
            } else {
                unify_args(ts1, ts2, 0, Map::empty(), pair_vars(a, b), a.size() + b.size())
            },
        },
    }
}

/// Unify the argument pairs from position `i` on, starting from `sub`.
pub open spec fn unify_args(ts1: Seq<MType>, ts2: Seq<MType>, i: int, sub: Map<Seq<char>, MType>, v: Set<Seq<char>>, total: nat) -> Result<Map<Seq<char>, MType>, Seq<char>>
    decreases v.len(), total, ts1.len() - i,
{
    if i < 0 || i >= ts1.len() || ts1.len() != ts2.len() {
        Ok(sub)
    } else if !args_ready(ts1, ts2, i, sub, v, total) {
        Err(Seq::empty())
    } else {
        let a = ts1[i].apply(sub);
        let b = ts2[i].apply(sub);
        proof {
            lemma_args_measure(ts1[i], ts2[i], sub, v, total);
        }
        match unify_spec(a, b) {
            Err(e) => Err(e),
            Ok(s2) => unify_args(ts1, ts2, i + 1, compose(sub, s2), v, total),
        }
    }
}

/// Applying the substitution found so far shrinks the next pair: it has
/// fewer variables, or as many and fewer nodes.
pub proof fn lemma_args_measure(x: MType, y: MType, sub: Map<Seq<char>, MType>, v: Set<Seq<char>>, total: nat)
    requires
        confined(sub, v),
        v.finite(),
        pair_vars(x, y).subset_of(v),
        x.size() + y.size() < total,
    ensures
        pair_vars(x.apply(sub), y.apply(sub)).subset_of(v),
        forall|z: Seq<char>| #[trigger] pair_vars(x.apply(sub), y.apply(sub)).contains(z) ==> !sub.contains_key(z),
        pair_vars(x.apply(sub), y.apply(sub)).len() < v.len()
            || (pair_vars(x.apply(sub), y.apply(sub)).len() <= v.len() && x.apply(sub).size() + y.apply(sub).size() < total),
{
    let a = x.apply(sub);
    let b = y.apply(sub);
    lemma_apply_confined(x, sub, v);
    lemma_apply_confined(y, sub, v);
    let w = pair_vars(a, b);
    assert forall|z: Seq<char>| #[trigger] w.contains(z) implies v.contains(z) && !sub.contains_key(z) by {
        if vars(a).contains(z) {
            assert(a.mentions(z));
            if x.mentions(z) {
                assert(vars(x).contains(z));
            }
        } else {
            assert(b.mentions(z));
            if y.mentions(z) {
                assert(vars(y).contains(z));
            }
        }
    }
    assert(w.subset_of(v));
    lemma_len_subset(w, v);
    if sub.dom().len() == 0 {
        assert(sub.dom() =~= Set::<Seq<char>>::empty());
        lemma_apply_untouched(x, sub, sub.len());
        lemma_apply_untouched(y, sub, sub.len());
    } else {
        let k = sub.dom().choose();
        assert(sub.dom().contains(k));
        assert(v.contains(k));
        assert(w.subset_of(v.remove(k)));
        lemma_len_subset(w, v.remove(k));
    }
}

/// Every variable of an argument is a variable of the application.
pub proof fn lemma_arg_vars(f: TFun, ts: Seq<MType>, i: int)
    requires
        0 <= i < ts.len(),
    ensures
        vars(ts[i]).subset_of(vars(MType::App(f, ts))),
{
    assert forall|z: Seq<char>| vars(ts[i]).contains(z) implies vars(MType::App(f, ts)).contains(z) by {
        assert(ts[i].mentions(z));
        lemma_app_mentions(f, ts, z);
    }
}

pub open spec fn args_invariant(ts1: Seq<MType>, ts2: Seq<MType>, i: int, sub: Map<Seq<char>, MType>, v: Set<Seq<char>>, total: nat) -> bool {
    &&& 0 <= i <= ts1.len()
    &&& ts1.len() == ts2.len()
    &&& confined(sub, v)
    &&& v.finite()
    &&& forall|j: int| i <= j < ts1.len() ==> #[trigger] pair_vars(ts1[j], ts2[j]).subset_of(v)
    &&& forall|j: int| i <= j < ts1.len() ==> #[trigger] ts1[j].size() + ts2[j].size() < total
}

/// The arguments of two applications satisfy the loop conditions initially.
pub proof fn lemma_args_start(f1: TFun, ts1: Seq<MType>, f2: TFun, ts2: Seq<MType>)
    requires
        ts1.len() == ts2.len(),
    ensures
        args_invariant(ts1, ts2, 0, Map::empty(), pair_vars(MType::App(f1, ts1), MType::App(f2, ts2)), MType::App(f1, ts1).size() + MType::App(f2, ts2).size()),
{
    let a = MType::App(f1, ts1);
    let b = MType::App(f2, ts2);
    lemma_empty_confined(pair_vars(a, b));
    assert forall|j: int| 0 <= j < ts1.len() implies #[trigger] pair_vars(ts1[j], ts2[j]).subset_of(pair_vars(a, b)) by {
        lemma_arg_vars(f1, ts1, j);
        lemma_arg_vars(f2, ts2, j);
    }
    assert forall|j: int| 0 <= j < ts1.len() implies #[trigger] ts1[j].size() + ts2[j].size() < a.size() + b.size() by {
        lemma_sizes_bound(ts1, j);
        lemma_sizes_bound(ts2, j);
    }
}

/// Unification yields substitutions confined to the variables of its inputs.
pub proof fn lemma_unify_confined(a: MType, b: MType)
    ensures
        unify_spec(a, b) matches Ok(s) ==> confined(s, pair_vars(a, b)),
    decreases pair_vars(a, b).len(), a.size() + b.size(), unify_tag(a),
{
    let pv = pair_vars(a, b);
    match a {
        MType::Var(v1) => {
            assert(a.free_vars() == seq![v1]);
            assert(seq![v1][0] == v1);
            assert(vars(a).contains(v1));
            match b {
                MType::Var(v2) => {
                    if v1 == v2 {
                        lemma_empty_confined(pv);
                    } else if !b.mentions(v1) {
                        assert forall|y: Seq<char>| b.mentions(y) implies pv.contains(y) by {
                            assert(vars(b).contains(y));
                        }
                        lemma_single_confined(v1, b, pv);
                    }
                },
                MType::App(_, _) => {
                    if !b.mentions(v1) {
                        assert forall|y: Seq<char>| b.mentions(y) implies pv.contains(y) by {
                            assert(vars(b).contains(y));
                        }
                        lemma_single_confined(v1, b, pv);
                    }
                },
            }
        },
        MType::App(f1, ts1) => match b {
            MType::Var(_) => {
                assert(pair_vars(b, a) =~= pair_vars(a, b));
                lemma_unify_confined(b, a);
            },
            MType::App(f2, ts2) => {
                if f1 == f2 && ts1.len() == ts2.len() {
                    lemma_args_start(f1, ts1, f2, ts2);
                    lemma_args_confined(ts1, ts2, 0, Map::empty(), pv, a.size() + b.size());
                }
            },
        },
    }
}

pub proof fn lemma_args_confined(ts1: Seq<MType>, ts2: Seq<MType>, i: int, sub: Map<Seq<char>, MType>, v: Set<Seq<char>>, total: nat)
    requires
        args_invariant(ts1, ts2, i, sub, v, total),
    ensures
        unify_args(ts1, ts2, i, sub, v, total) matches Ok(s) ==> confined(s, v),
    decreases v.len(), total, ts1.len() - i,
{
    if i < ts1.len() {
        assert(pair_vars(ts1[i], ts2[i]).subset_of(v));
        assert(ts1[i].size() + ts2[i].size() < total);
        assert(args_ready(ts1, ts2, i, sub, v, total));
        let a = ts1[i].apply(sub);
        let b = ts2[i].apply(sub);
        lemma_args_measure(ts1[i], ts2[i], sub, v, total);
        lemma_unify_confined(a, b);
        if let Ok(s2) = unify_spec(a, b) {
            let w = pair_vars(a, b);
            lemma_compose_confined(sub, s2, v, w);
            lemma_args_confined(ts1, ts2, i + 1, compose(sub, s2), v, total);
        }
    }
}

} // verus!

verus! {

/// The outcome of unification in mathematical form.
pub open spec fn unify_result(r: Result<Substitution, UnificationError>) -> Result<Map<Seq<char>, MType>, Seq<char>> {
    match r {
        Ok(s) => Ok(s@),
        Err(e) => Err(e.message@),
    }
}

/// Unify `typ1` with `typ2` (see `unify_spec`). On success the substitution
/// is acyclic and binds and mentions only variables of the two types.
pub fn unify(typ1: &Monotype, typ2: &Monotype) -> (r: Result<Substitution, UnificationError>)
    ensures
        unify_result(r) == unify_spec(typ1@, typ2@),
        r matches Err(e) ==> e.pos is None,
        r matches Ok(s) ==> confined(s@, pair_vars(typ1@, typ2@)),
    decreases pair_vars(typ1@, typ2@).len(), typ1@.size() + typ2@.size(), unify_tag(typ1@),
{
    proof {
        lemma_unify_confined(typ1@, typ2@);
    }
    match typ1 {
        Monotype::TypeVariable(v1) => {
            if let Monotype::TypeVariable(v2) = typ2 {
                if *v1 == *v2 {
                    return Ok(Substitution::new());
                }
            }
            if typ2.contains(typ1) {
                Err(UnificationError::new(text("Infinite recursive type")))
            } else {
                let mut m: NameMap<Monotype> = NameMap::new();
                m.insert(v1.clone(), typ2.duplicate());
                let s = Substitution::make(m);
                proof {
                    assert(s@ =~= map![v1@ => typ2@]);
                }
                Ok(s)
            }
        },
        Monotype::TypeFuncApplication(f1, ts1) => match typ2 {
            Monotype::TypeVariable(_) => {
                proof {
                    assert(pair_vars(typ2@, typ1@) =~= pair_vars(typ1@, typ2@));
                }
                unify(typ2, typ1)
            },
            Monotype::TypeFuncApplication(f2, ts2) => {
                proof {
                    lemma_app_view(&**f1, ts1);
                    lemma_app_view(&**f2, ts2);
                }
                if !(**f1).same(&**f2) {
                    let mut msg = text("Type function application mismatch: ");
                    (**f1).push_text(&mut msg);
                    push_str(&mut msg, " != ");
                    (**f2).push_text(&mut msg);
                    push_str(&mut msg, " (full: ");
                    typ1.push_text(&mut msg);
                    push_str(&mut msg, " vs ");
                    typ2.push_text(&mut msg);
                    push_str(&mut msg, ")");
                    proof {
                        assert(msg@ =~= mismatch_msg((**f1)@, (**f2)@, typ1@, typ2@));
                    }
                    Err(UnificationError::new(msg))
                } else if ts1.len() != ts2.len() {
                    let mut msg = text("Type functions have different number of args: ");
                    push_list_text(ts1, &mut msg);
                    push_str(&mut msg, ", ");
                    push_list_text(ts2, &mut msg);
                    proof {
                        assert(msg@ =~= arity_msg(views(ts1@), views(ts2@)));
                    }
                    Err(UnificationError::new(msg))
                } else {
                    let ghost tv1 = views(ts1@);
                    let ghost tv2 = views(ts2@);
                    let ghost pv = pair_vars(typ1@, typ2@);
                    let ghost total = typ1@.size() + typ2@.size();
                    let mut sub = Substitution::new();
                    proof {
                        lemma_args_start((**f1)@, tv1, (**f2)@, tv2);
                    }
                    let mut i: usize = 0;
                    while i < ts1.len()
                        invariant
                            ts1@.len() == ts2@.len(),
                            tv1 == views(ts1@),
                            tv2 == views(ts2@),
                            pv == pair_vars(typ1@, typ2@),
                            total == typ1@.size() + typ2@.size(),
                            typ1@ == MType::App((**f1)@, tv1),
                            typ2@ == MType::App((**f2)@, tv2),
                            (**f1)@ == (**f2)@,
                            args_invariant(tv1, tv2, i as int, sub@, pv, total),
                            unify_spec(typ1@, typ2@) == unify_args(tv1, tv2, i as int, sub@, pv, total),
                        decreases ts1@.len() - i,
                    {
                        let a = ts1[i].apply(&sub);
                        let b = ts2[i].apply(&sub);
                        proof {
                            assert(args_ready(tv1, tv2, i as int, sub@, pv, total));
                            lemma_args_measure(tv1[i as int], tv2[i as int], sub@, pv, total);
                            lemma_unify_confined(a@, b@);
                        }
                        match unify(&a, &b) {
                            Err(e) => {
                                return Err(e);
                            },
                            Ok(s2) => {
                                proof {
                                    lemma_compose_confined(sub@, s2@, pv, pair_vars(a@, b@));
                                }
                                sub = sub.combine(s2);
                            },
                        }
                        i = i + 1;
                    }
                    Ok(sub)
                }
            },
        },
    }
}

} // verus!
