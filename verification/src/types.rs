//! Monotypes, polytypes, substitutions and typing contexts for
//! Hindley–Milner inference.
use vstd::prelude::*;
use crate::names::NameMap;
use crate::text::{decimal, push_decimal, push_char, text};
use crate::ast::Pos;

verus! {

#[derive(Debug, Clone, PartialEq)]
pub enum TypeFunc {
    Infer,
    Unit,
    Int,
    Float,
    Bool,
    Str,
    Fn,
    List,
    Enum(String),
}

#[derive(Debug, PartialEq)]
pub enum Monotype {
    TypeVariable(String),
    TypeFuncApplication(Box<TypeFunc>, Vec<Monotype>),
}

/// Mathematical form of a type function.
pub enum TFun {
    Infer,
    Unit,
    Int,
    Float,
    Bool,
    Str,
    Fn,
    List,
    Enum(Seq<char>),
}

/// Mathematical form of a monotype.
pub enum MType {
    Var(Seq<char>),
    App(TFun, Seq<MType>),
}

/// Mathematical form of a polytype.
pub enum PType {
    Mono(MType),
    Forall(Seq<char>, Box<PType>),
}

impl View for TypeFunc {
    type V = TFun;

    open spec fn view(&self) -> TFun {
        match self {
            TypeFunc::Infer => TFun::Infer,
            TypeFunc::Unit => TFun::Unit,
            TypeFunc::Int => TFun::Int,
            TypeFunc::Float => TFun::Float,
            TypeFunc::Bool => TFun::Bool,
            TypeFunc::Str => TFun::Str,
            TypeFunc::Fn => TFun::Fn,
            TypeFunc::List => TFun::List,
            TypeFunc::Enum(n) => TFun::Enum(n@),
        }
    }
}

impl View for Monotype {
    type V = MType;

    open spec fn view(&self) -> MType
        decreases self,
    {
        match self {
            Monotype::TypeVariable(n) => MType::Var(n@),
            Monotype::TypeFuncApplication(f, ts) => MType::App(
                (**f)@,
                Seq::new(
                    ts@.len(),
                    |i: int|
                        if 0 <= i < ts@.len() {
                            ts@[i].view()
                        } else {
                            MType::Var(Seq::empty())
                        },
                ),
            ),
        }
    }
}

/// Views of a sequence of monotypes.
pub open spec fn views(ts: Seq<Monotype>) -> Seq<MType> {
    Seq::new(ts.len(), |i: int| ts[i]@)
}

pub proof fn lemma_app_view(f: &TypeFunc, ts: &Vec<Monotype>)
    ensures
        Monotype::TypeFuncApplication(Box::new(*f), *ts)@ == MType::App(f@, views(ts@)),
{
    assert(Monotype::TypeFuncApplication(Box::new(*f), *ts)@->App_1 =~= views(ts@));
}

#[derive(Debug, PartialEq)]
pub enum Polytype {
    Mono(Box<Monotype>),
    TypeQuantifier(String, Box<Polytype>),
}

impl View for Polytype {
    type V = PType;

    open spec fn view(&self) -> PType
        decreases self,
    {
        match self {
            Polytype::Mono(m) => PType::Mono((**m)@),
            Polytype::TypeQuantifier(q, p) => PType::Forall(q@, Box::new((**p).view())),
        }
    }
}

impl TypeFunc {
    /// A copy of this type function.
    pub fn duplicate(&self) -> (r: TypeFunc)
        ensures
            r@ == self@,
    {
        match self {
            TypeFunc::Infer => TypeFunc::Infer,
            TypeFunc::Unit => TypeFunc::Unit,
            TypeFunc::Int => TypeFunc::Int,
            TypeFunc::Float => TypeFunc::Float,
            TypeFunc::Bool => TypeFunc::Bool,
            TypeFunc::Str => TypeFunc::Str,
            TypeFunc::Fn => TypeFunc::Fn,
            TypeFunc::List => TypeFunc::List,
            TypeFunc::Enum(n) => TypeFunc::Enum(n.clone()),
        }
    }

    /// Whether two type functions are the same.
    pub fn same(&self, other: &TypeFunc) -> (b: bool)
        ensures
            b <==> self@ == other@,
    {
        match self {
            TypeFunc::Enum(a) => match other {
                TypeFunc::Enum(b) => *a == *b,
                _ => false,
            },
            TypeFunc::Infer => matches!(other, TypeFunc::Infer),
            TypeFunc::Unit => matches!(other, TypeFunc::Unit),
            TypeFunc::Int => matches!(other, TypeFunc::Int),
            TypeFunc::Float => matches!(other, TypeFunc::Float),
            TypeFunc::Bool => matches!(other, TypeFunc::Bool),
            TypeFunc::Str => matches!(other, TypeFunc::Str),
            TypeFunc::Fn => matches!(other, TypeFunc::Fn),
            TypeFunc::List => matches!(other, TypeFunc::List),
        }
    }
}

impl Monotype {
    /// A deep copy of this monotype.
    pub fn duplicate(&self) -> (r: Monotype)
        ensures
            r@ == self@,
        decreases self,
    {
        match self {
            Monotype::TypeVariable(n) => Monotype::TypeVariable(n.clone()),
            Monotype::TypeFuncApplication(f, ts) => {
                let mut out: Vec<Monotype> = Vec::new();
                let mut i: usize = 0;
                #[verifier::loop_isolation(false)]
                while i < ts.len()
                    invariant
                        i <= ts@.len(),
                        out@.len() == i,
                        forall|j: int| 0 <= j < i ==> out@[j]@ == ts@[j]@,
                    decreases ts@.len() - i,
                {
                    proof {
                        assert(decreases_to!(*ts => ts[i as int]));
                    }
                    out.push(ts[i].duplicate());
                    i = i + 1;
                }
                let g = (**f).duplicate();
                proof {
                    lemma_app_view(&g, &out);
                    assert(views(out@) =~= self@->App_1);
                }
                Monotype::TypeFuncApplication(Box::new(g), out)
            },
        }
    }
}

impl Clone for Monotype {
    fn clone(&self) -> (r: Self)
        ensures
            r@ == self@,
    {
        self.duplicate()
    }
}

impl Polytype {
    /// A deep copy of this polytype.
    pub fn duplicate(&self) -> (r: Polytype)
        ensures
            r@ == self@,
        decreases self,
    {
        match self {
            Polytype::Mono(m) => Polytype::Mono(Box::new((**m).duplicate())),
            Polytype::TypeQuantifier(q, p) => Polytype::TypeQuantifier(q.clone(), Box::new((**p).duplicate())),
        }
    }
}

impl Clone for Polytype {
    fn clone(&self) -> (r: Self)
        ensures
            r@ == self@,
    {
        self.duplicate()
    }
}

// ---------------------------------------------------------------------------
// Mathematical operations on types
// ---------------------------------------------------------------------------

impl MType {
    /// Number of nodes.
    pub open spec fn size(self) -> nat
        decreases self,
    {
        match self {
            MType::Var(_) => 1,
            MType::App(_, ts) => 1 + sizes(ts),
        }
    }

    /// Type variables in left-to-right order, with repetitions.
    pub open spec fn free_vars(self) -> Seq<Seq<char>>
        decreases self,
    {
        match self {
            MType::Var(v) => seq![v],
            MType::App(_, ts) => free_vars_all(ts),
        }
    }

    /// Whether the variable `v` occurs in this type.
    pub open spec fn mentions(self, v: Seq<char>) -> bool {
        self.free_vars().contains(v)
    }

    /// Replace the variables that `m` maps by their images (no repetition).
    pub open spec fn instantiate(self, m: Map<Seq<char>, MType>) -> MType
        decreases self,
    {
        match self {
            MType::Var(v) => if m.contains_key(v) {
                m[v]
            } else {
                MType::Var(v)
            },
            MType::App(f, ts) => MType::App(
                f,
                Seq::new(
                    ts.len(),
                    |i: int|
                        if 0 <= i < ts.len() {
                            ts[i].instantiate(m)
                        } else {
                            MType::Var(Seq::empty())
                        },
                ),
            ),
        }
    }

    /// Apply `s`, following bindings of variables found in images at most
    /// `fuel` times along any path.
    pub open spec fn apply_fuel(self, s: Map<Seq<char>, MType>, fuel: nat) -> MType
        decreases fuel, self,
    {
        match self {
            MType::Var(v) => if s.contains_key(v) && fuel > 0 {
                s[v].apply_fuel(s, (fuel - 1) as nat)
            } else {
                MType::Var(v)
            },
            MType::App(f, ts) => MType::App(
                f,
                Seq::new(
                    ts.len(),
                    |i: int|
                        if 0 <= i < ts.len() {
                            ts[i].apply_fuel(s, fuel)
                        } else {
                            MType::Var(Seq::empty())
                        },
                ),
            ),
        }
    }

    /// Apply substitution `s` exhaustively: each variable bound by `s` is
    /// replaced by the application of `s` to its binding. Bindings are
    /// followed at most as many times in a row as `s` has entries, which is
    /// enough to resolve every variable when no variable depends on itself.
    pub open spec fn apply(self, s: Map<Seq<char>, MType>) -> MType {
        self.apply_fuel(s, s.len())
    }
}

pub open spec fn sizes(ts: Seq<MType>) -> nat
    decreases ts,
{
    if ts.len() == 0 {
        0
    } else {
        sizes(ts.drop_last()) + ts.last().size()
    }
}

pub open spec fn free_vars_all(ts: Seq<MType>) -> Seq<Seq<char>>
    decreases ts,
{
    if ts.len() == 0 {
        Seq::empty()
    } else {
        free_vars_all(ts.drop_last()) + ts.last().free_vars()
    }
}

impl PType {
    /// Apply `s` under the quantifiers (the quantified names are not protected).
    pub open spec fn apply(self, s: Map<Seq<char>, MType>) -> PType
        decreases self,
    {
        match self {
            PType::Mono(m) => PType::Mono(m.apply(s)),
            PType::Forall(q, p) => PType::Forall(q, Box::new(p.apply(s))),
        }
    }

    /// Free type variables, in order, with repetitions.
    pub open spec fn free_vars(self) -> Seq<Seq<char>>
        decreases self,
    {
        match self {
            PType::Mono(m) => m.free_vars(),
            PType::Forall(q, p) => p.free_vars().filter(|n: Seq<char>| n != q),
        }
    }
}


// ---------------------------------------------------------------------------
// Views of collections
// ---------------------------------------------------------------------------

/// Views of a sequence of names.
pub open spec fn names(v: Seq<String>) -> Seq<Seq<char>> {
    Seq::new(v.len(), |i: int| v[i]@)
}

/// The monotype bindings of `m`, as mathematical types.
pub open spec fn mono_map(m: NameMap<Monotype>) -> Map<Seq<char>, MType> {
    Map::new(|k: Seq<char>| m.map().contains_key(k), |k: Seq<char>| m.map()[k]@)
}

/// The polytype bindings of `m`, as mathematical types.
pub open spec fn poly_map(m: NameMap<Polytype>) -> Map<Seq<char>, PType> {
    Map::new(|k: Seq<char>| m.map().contains_key(k), |k: Seq<char>| m.map()[k]@)
}

pub proof fn lemma_free_vars_all_step(ts: Seq<MType>, i: int)
    requires
        0 <= i < ts.len(),
    ensures
        free_vars_all(ts.take(i + 1)) == free_vars_all(ts.take(i)) + ts[i].free_vars(),
{
    assert(ts.take(i + 1).drop_last() =~= ts.take(i));
}

pub proof fn lemma_free_vars_all_contains(ts: Seq<MType>, v: Seq<char>)
    ensures
        free_vars_all(ts).contains(v) <==> exists|i: int| 0 <= i < ts.len() && #[trigger] ts[i].free_vars().contains(v),
    decreases ts.len(),
{
    if ts.len() > 0 {
        lemma_free_vars_all_contains(ts.drop_last(), v);
        let a = free_vars_all(ts.drop_last());
        let b = ts.last().free_vars();
        if (a + b).contains(v) {
            let k = choose|k: int| 0 <= k < (a + b).len() && (a + b)[k] == v;
            if k < a.len() {
                assert(a[k] == v);
                let i = choose|i: int| 0 <= i < ts.drop_last().len() && #[trigger] ts.drop_last()[i].free_vars().contains(v);
                assert(ts[i] == ts.drop_last()[i]);
            } else {
                assert(b[k - a.len()] == v);
                assert(ts[ts.len() - 1].free_vars().contains(v));
            }
        }
        if exists|i: int| 0 <= i < ts.len() && #[trigger] ts[i].free_vars().contains(v) {
            let i = choose|i: int| 0 <= i < ts.len() && #[trigger] ts[i].free_vars().contains(v);
            if i < ts.len() - 1 {
                assert(ts.drop_last()[i] == ts[i]);
                assert(a.contains(v));
                let k = choose|k: int| 0 <= k < a.len() && a[k] == v;
                assert((a + b)[k] == v);
            } else {
                let k = choose|k: int| 0 <= k < b.len() && b[k] == v;
                assert((a + b)[a.len() + k] == v);
            }
        }
    }
}

impl Monotype {
    pub fn default() -> (r: Monotype)
        ensures
            r@ == MType::Var(Seq::empty()),
    {
        Monotype::TypeVariable(String::new())
    }

    pub fn var(name: String) -> (r: Monotype)
        ensures
            r@ == MType::Var(name@),
    {
        Monotype::TypeVariable(name)
    }

    fn nullary(f: TypeFunc) -> (r: Monotype)
        ensures
            r@ == MType::App(f@, Seq::empty()),
    {
        let v: Vec<Monotype> = Vec::new();
        proof {
            lemma_app_view(&f, &v);
            assert(views(v@) =~= Seq::<MType>::empty());
        }
        Monotype::TypeFuncApplication(Box::new(f), v)
    }

    fn applied(f: TypeFunc, vars: Vec<Monotype>) -> (r: Monotype)
        ensures
            r@ == MType::App(f@, views(vars@)),
    {
        proof {
            lemma_app_view(&f, &vars);
        }
        Monotype::TypeFuncApplication(Box::new(f), vars)
    }

    pub fn infer() -> (r: Monotype)
        ensures
            r@ == MType::App(TFun::Infer, Seq::empty()),
    {
        Self::nullary(TypeFunc::Infer)
    }

    pub fn bool() -> (r: Monotype)
        ensures
            r@ == MType::App(TFun::Bool, Seq::empty()),
    {
        Self::nullary(TypeFunc::Bool)
    }

    pub fn integer() -> (r: Monotype)
        ensures
            r@ == MType::App(TFun::Int, Seq::empty()),
    {
        Self::nullary(TypeFunc::Int)
    }

    pub fn float() -> (r: Monotype)
        ensures
            r@ == MType::App(TFun::Float, Seq::empty()),
    {
        Self::nullary(TypeFunc::Float)
    }

    pub fn string() -> (r: Monotype)
        ensures
            r@ == MType::App(TFun::Str, Seq::empty()),
    {
        Self::nullary(TypeFunc::Str)
    }

    pub fn unit() -> (r: Monotype)
        ensures
            r@ == MType::App(TFun::Unit, Seq::empty()),
    {
        Self::nullary(TypeFunc::Unit)
    }

    pub fn func(vars: Vec<Monotype>) -> (r: Monotype)
        ensures
            r@ == MType::App(TFun::Fn, views(vars@)),
    {
        Self::applied(TypeFunc::Fn, vars)
    }

    pub fn list(vars: Vec<Monotype>) -> (r: Monotype)
        ensures
            r@ == MType::App(TFun::List, views(vars@)),
    {
        Self::applied(TypeFunc::List, vars)
    }

    pub fn enum_type(name: String) -> (r: Monotype)
        ensures
            r@ == MType::App(TFun::Enum(name@), Seq::empty()),
    {
        Self::nullary(TypeFunc::Enum(name))
    }

    pub fn enum_app(name: String, vars: Vec<Monotype>) -> (r: Monotype)
        ensures
            r@ == MType::App(TFun::Enum(name@), views(vars@)),
    {
        Self::applied(TypeFunc::Enum(name), vars)
    }

    /// The type variables of this type, left to right, with repetitions.
    pub fn free_variables(&self) -> (r: Vec<String>)
        ensures
            names(r@) == self@.free_vars(),
        decreases self,
    {
        match self {
            Monotype::TypeVariable(v) => {
                let mut r: Vec<String> = Vec::new();
                r.push(v.clone());
                proof {
                    assert(names(r@) =~= seq![v@]);
                }
                r
            },
            Monotype::TypeFuncApplication(f, ts) => {
                let ghost tv = self@->App_1;
                proof {
                    assert(tv =~= views(ts@));
                }
                let mut out: Vec<String> = Vec::new();
                let mut i: usize = 0;
                #[verifier::loop_isolation(false)]
                while i < ts.len()
                    invariant
                        i <= ts@.len(),
                        names(out@) == free_vars_all(tv.take(i as int)),
                    decreases ts@.len() - i,
                {
                    proof {
                        assert(decreases_to!(*ts => ts[i as int]));
                    }
                    let mut part = ts[i].free_variables();
                    let ghost before = out@;
                    out.append(&mut part);
                    proof {
                        lemma_free_vars_all_step(tv, i as int);
                        assert(names(out@) =~= names(before) + tv[i as int].free_vars());
                    }
                    i = i + 1;
                }
                proof {
                    assert(tv.take(ts@.len() as int) =~= tv);
                }
                out
            },
        }
    }

    /// Whether `typ` is a type variable that occurs in this type.
    pub fn contains(&self, typ: &Monotype) -> (b: bool)
        ensures
            b == match typ@ {
                MType::Var(v) => self@.mentions(v),
                MType::App(_, _) => false,
            },
        decreases self,
    {
        match typ {
            Monotype::TypeVariable(v) => match self {
                Monotype::TypeVariable(v2) => {
                    proof {
                        assert(self@.free_vars() == seq![v2@]);
                        if seq![v2@].contains(v@) {
                            assert(seq![v2@][0] == v2@);
                        }
                        if v@ == v2@ {
                            assert(seq![v2@][0] == v@);
                        }
                    }
                    *v == *v2
                },
                Monotype::TypeFuncApplication(_, ts) => {
                    let ghost tv = self@->App_1;
                    proof {
                        assert(tv =~= views(ts@));
                        lemma_free_vars_all_contains(tv, v@);
                    }
                    let mut i: usize = 0;
                    #[verifier::loop_isolation(false)]
                    while i < ts.len()
                        invariant
                            i <= ts@.len(),
                            forall|j: int| 0 <= j < i ==> !(#[trigger] tv[j].free_vars().contains(v@)),
                        decreases ts@.len() - i,
                    {
                        proof {
                            assert(decreases_to!(*ts => ts[i as int]));
                        }
                        if ts[i].contains(typ) {
                            proof {
                                assert(tv[i as int].free_vars().contains(v@));
                            }
                            return true;
                        }
                        i = i + 1;
                    }
                    false
                },
            },
            Monotype::TypeFuncApplication(_, _) => false,
        }
    }

    /// Replace every variable that `mappings` binds by (a copy of) its image.
    pub fn instantiate(&self, mappings: &mut NameMap<Monotype>) -> (r: Monotype)
        ensures
            r@ == self@.instantiate(mono_map(*old(mappings))),
            *final(mappings) == *old(mappings),
        decreases self,
    {
        match self {
            Monotype::TypeVariable(var) => match mappings.get(var.as_str()) {
                Some(monotype) => monotype.duplicate(),
                None => self.duplicate(),
            },
            Monotype::TypeFuncApplication(func, types) => {
                let ghost tv = self@->App_1;
                proof {
                    assert(tv =~= views(types@));
                }
                let mut out: Vec<Monotype> = Vec::new();
                let mut i: usize = 0;
                #[verifier::loop_isolation(false)]
                while i < types.len()
                    invariant
                        i <= types@.len(),
                        out@.len() == i,
                        *mappings == *old(mappings),
                        forall|j: int| 0 <= j < i ==> #[trigger] out@[j]@ == tv[j].instantiate(mono_map(*old(mappings))),
                    decreases types@.len() - i,
                {
                    proof {
                        assert(decreases_to!(*types => types[i as int]));
                    }
                    out.push(types[i].instantiate(mappings));
                    i = i + 1;
                }
                let r = Self::applied((**func).duplicate(), out);
                proof {
                    assert(views(out@) =~= self@.instantiate(mono_map(*old(mappings)))->App_1);
                }
                r
            },
        }
    }
}


// ---------------------------------------------------------------------------
// Substitutions
// ---------------------------------------------------------------------------

/// A substitution from type variables to monotypes.
#[derive(Debug)]
pub struct Substitution {
    pub variables: NameMap<Monotype>,
}

impl View for Substitution {
    type V = Map<Seq<char>, MType>;

    open spec fn view(&self) -> Map<Seq<char>, MType> {
        mono_map(self.variables)
    }
}

/// Composition of substitutions: the bindings of `s2`, each with `s1`
/// applied to it, together with the bindings of `s1` for the variables that
/// `s2` does not bind.
pub open spec fn compose(s1: Map<Seq<char>, MType>, s2: Map<Seq<char>, MType>) -> Map<Seq<char>, MType> {
    Map::new(
        |k: Seq<char>| s2.contains_key(k) || s1.contains_key(k),
        |k: Seq<char>| if s2.contains_key(k) { s2[k].apply(s1) } else { s1[k] },
    )
}

/// The first `i` bindings of `m`, as mathematical types.
pub open spec fn view_prefix(m: NameMap<Monotype>, i: int) -> Map<Seq<char>, MType> {
    Map::new(|k: Seq<char>| m.prefix(i).contains_key(k), |k: Seq<char>| m.prefix(i)[k]@)
}

pub proof fn lemma_mono_map_insert(a: NameMap<Monotype>, b: NameMap<Monotype>, k: Seq<char>, v: Monotype)
    requires
        b.map() == a.map().insert(k, v),
    ensures
        mono_map(b) == mono_map(a).insert(k, v@),
{
    assert(mono_map(b) =~= mono_map(a).insert(k, v@));
}

pub proof fn lemma_view_prefix_step(m: NameMap<Monotype>, i: int)
    requires
        m.distinct(),
        0 <= i < m.keys().len(),
    ensures
        view_prefix(m, i + 1) == view_prefix(m, i).insert(m.keys()[i], m.vals()[i]@),
{
    m.lemma_prefix_step(i);
    assert(view_prefix(m, i + 1) =~= view_prefix(m, i).insert(m.keys()[i], m.vals()[i]@));
}

/// A copy of a map of monotypes.
pub fn copy_mono_map(m: &NameMap<Monotype>) -> (r: NameMap<Monotype>)
    ensures
        mono_map(r) == mono_map(*m),
{
    let n = m.count();
    let mut out: NameMap<Monotype> = NameMap::new();
    let mut i: usize = 0;
    proof {
        m.lemma_prefix_ends();
        assert(mono_map(out) =~= view_prefix(*m, 0));
    }
    while i < n
        invariant
            n == m.keys().len(),
            m.distinct(),
            i <= n,
            mono_map(out) == view_prefix(*m, i as int),
        decreases n - i,
    {
        let ghost before = out;
        let k = m.key_at(i).clone();
        let v = m.value_at(i).duplicate();
        let ghost vv = v;
        out.insert(k, v);
        proof {
            lemma_mono_map_insert(before, out, m.keys()[i as int], vv);
            lemma_view_prefix_step(*m, i as int);
            assert(mono_map(out) =~= view_prefix(*m, i + 1));
        }
        i = i + 1;
    }
    proof {
        m.lemma_prefix_ends();
    }
    out
}

impl Substitution {
    pub fn new() -> (s: Substitution)
        ensures
            s@ == Map::<Seq<char>, MType>::empty(),
    {
        let s = Substitution { variables: NameMap::new() };
        proof {
            assert(s@ =~= Map::<Seq<char>, MType>::empty());
        }
        s
    }

    pub fn make(map: NameMap<Monotype>) -> (s: Substitution)
        ensures
            s@ == mono_map(map),
    {
        Substitution { variables: map }
    }

    /// A copy of this substitution.
    pub fn duplicate(&self) -> (r: Substitution)
        ensures
            r@ == self@,
    {
        Substitution { variables: copy_mono_map(&self.variables) }
    }

    /// Number of bindings (and thus of the fuel used by `apply`).
    pub fn size(&self) -> (n: usize)
        ensures
            n == self@.len(),
            self@.dom().finite(),
    {
        let n = self.variables.len();
        proof {
            assert(self@.dom() =~= self.variables.map().dom());
        }
        n
    }

    /// `s2` composed after `self` (see `compose`).
    pub fn combine(&self, s2: Substitution) -> (r: Substitution)
        ensures
            r@ == compose(self@, s2@),
    {
        let m2 = &s2.variables;
        let n2 = m2.count();
        let mut applied: NameMap<Monotype> = NameMap::new();
        let mut i: usize = 0;
        proof {
            m2.lemma_prefix_ends();
            assert(mono_map(applied) =~= Map::new(|k: Seq<char>| m2.prefix(0).contains_key(k), |k: Seq<char>| m2.prefix(0)[k]@.apply(self@)));
        }
        while i < n2
            invariant
                n2 == m2.keys().len(),
                m2.distinct(),
                i <= n2,
                mono_map(applied) == Map::new(|k: Seq<char>| m2.prefix(i as int).contains_key(k), |k: Seq<char>| m2.prefix(i as int)[k]@.apply(self@)),
            decreases n2 - i,
        {
            let v = m2.value_at(i).apply(self);
            let ghost before = applied;
            let ghost vv = v;
            applied.insert(m2.key_at(i).clone(), v);
            proof {
                lemma_mono_map_insert(before, applied, m2.keys()[i as int], vv);
                m2.lemma_prefix_step(i as int);
                assert(mono_map(applied) =~= Map::new(|k: Seq<char>| m2.prefix(i + 1).contains_key(k), |k: Seq<char>| m2.prefix(i + 1)[k]@.apply(self@)));
            }
            i = i + 1;
        }
        proof {
            m2.lemma_prefix_ends();
            assert(m2.prefix(n2 as int) == m2.map());
        }
        let m1 = &self.variables;
        let n1 = m1.count();
        let mut j: usize = 0;
        proof {
            m1.lemma_prefix_ends();
            assert(mono_map(applied) =~= Map::new(
                |k: Seq<char>| s2@.contains_key(k) || m1.prefix(0).contains_key(k),
                |k: Seq<char>| if s2@.contains_key(k) { s2@[k].apply(self@) } else { self@[k] },
            ));
        }
        while j < n1
            invariant
                n1 == m1.keys().len(),
                m1.distinct(),
                j <= n1,
                self@ == mono_map(*m1),
                s2@ == mono_map(*m2),
                mono_map(applied) == Map::new(
                    |k: Seq<char>| s2@.contains_key(k) || m1.prefix(j as int).contains_key(k),
                    |k: Seq<char>| if s2@.contains_key(k) { s2@[k].apply(self@) } else { self@[k] },
                ),
            decreases n1 - j,
        {
            let k = m1.key_at(j);
            proof {
                m1.lemma_prefix_step(j as int);
                m1.lemma_index(j as int);
            }
            let ghost before = applied;
            if !m2.contains_key(k.as_str()) {
                let v = m1.value_at(j).duplicate();
                let ghost vv = v;
                applied.insert(k.clone(), v);
                proof {
                    lemma_mono_map_insert(before, applied, m1.keys()[j as int], vv);
                }
            }
            proof {
                let kj = m1.keys()[j as int];
                assert(self@.contains_key(kj) && self@[kj] == m1.vals()[j as int]@);
                let target = Map::new(
                    |k: Seq<char>| s2@.contains_key(k) || m1.prefix(j + 1).contains_key(k),
                    |k: Seq<char>| if s2@.contains_key(k) { s2@[k].apply(self@) } else { self@[k] },
                );
                assert forall|k: Seq<char>| #[trigger] target.contains_key(k) <==> mono_map(applied).contains_key(k) by {
                    if k == kj {
                    }
                }
                assert(mono_map(applied) =~= target);
            }
            j = j + 1;
        }
        proof {
            m1.lemma_prefix_ends();
            assert(mono_map(applied) =~= compose(self@, s2@));
        }
        Substitution { variables: applied }
    }
}

impl Monotype {
    fn apply_with(&self, sub: &Substitution, fuel: usize) -> (r: Monotype)
        ensures
            r@ == self@.apply_fuel(sub@, fuel as nat),
        decreases fuel, self,
    {
        match self {
            Monotype::TypeVariable(name) => match sub.variables.get(name.as_str()) {
                Some(monotype) => {
                    if fuel > 0 {
                        monotype.apply_with(sub, fuel - 1)
                    } else {
                        Monotype::TypeVariable(name.clone())
                    }
                },
                None => Monotype::TypeVariable(name.clone()),
            },
            Monotype::TypeFuncApplication(typ_fn, types) => {
                let ghost tv = self@->App_1;
                proof {
                    assert(tv =~= views(types@));
                }
                let mut out: Vec<Monotype> = Vec::new();
                let mut i: usize = 0;
                #[verifier::loop_isolation(false)]
                while i < types.len()
                    invariant
                        i <= types@.len(),
                        out@.len() == i,
                        forall|j: int| 0 <= j < i ==> #[trigger] out@[j]@ == tv[j].apply_fuel(sub@, fuel as nat),
                    decreases types@.len() - i,
                {
                    proof {
                        assert(decreases_to!(*types => types[i as int]));
                    }
                    out.push(types[i].apply_with(sub, fuel));
                    i = i + 1;
                }
                let r = Self::applied((**typ_fn).duplicate(), out);
                proof {
                    assert(views(out@) =~= self@.apply_fuel(sub@, fuel as nat)->App_1);
                }
                r
            },
        }
    }

    /// Apply `sub` to this type (see `MType::apply`).
    pub fn apply(&self, sub: &Substitution) -> (r: Monotype)
        ensures
            r@ == self@.apply(sub@),
    {
        let n = sub.size();
        self.apply_with(sub, n)
    }
}

impl PType {
    /// Number of quantifiers in front of the monotype.
    pub open spec fn quantifiers(self) -> nat
        decreases self,
    {
        match self {
            PType::Mono(_) => 0,
            PType::Forall(_, p) => 1 + p.quantifiers(),
        }
    }

    /// Instantiation with fresh variables numbered from `counter`: each
    /// quantified name, outermost first, is mapped to the next fresh
    /// variable, and the mapping `m` (extended in this way) is applied to
    /// the monotype inside.
    pub open spec fn inst(self, counter: nat, m: Map<Seq<char>, MType>) -> MType
        decreases self,
    {
        match self {
            PType::Mono(t) => t.instantiate(m),
            PType::Forall(q, p) => p.inst(counter + 1, m.insert(q, MType::Var(typevar_name(counter)))),
        }
    }
}

/// Wrap `p` in quantifiers for `qs`, the last name outermost.
pub open spec fn quantify(qs: Seq<Seq<char>>, p: PType) -> PType
    decreases qs.len(),
{
    if qs.len() == 0 {
        p
    } else {
        PType::Forall(qs.last(), Box::new(quantify(qs.drop_last(), p)))
    }
}

/// Whether `v` is free in some binding of `vars`.
pub open spec fn ctx_mentions(vars: Map<Seq<char>, PType>, v: Seq<char>) -> bool {
    exists|k: Seq<char>| vars.contains_key(k) && #[trigger] vars[k].free_vars().contains(v)
}

/// Generalisation of `t` over a context with bindings `vars`: quantify the
/// variables of `t` (in order, with repetitions) that are not free in `vars`,
/// under their own names.
pub open spec fn generalised(t: MType, vars: Map<Seq<char>, PType>) -> PType {
    quantify(t.free_vars().filter(|v: Seq<char>| !ctx_mentions(vars, v)), PType::Mono(t))
}

/// The context `c` with `name` bound to the generalisation of `t` over it.
pub open spec fn gen_bind(c: CtxView, name: Seq<char>, t: MType) -> CtxView {
    ctx_bind(c, name, generalised(t, c.vars))
}

/// The names of the `n` fresh type variables numbered from `c`.
pub open spec fn fresh_names(c: nat, n: nat) -> Seq<Seq<char>> {
    Seq::new(n, |i: int| typevar_name((c + i) as nat))
}

/// Name of the `n`-th fresh type variable: `t` followed by `n` in decimal.
pub open spec fn typevar_name(n: nat) -> Seq<char> {
    seq!['t'] + decimal(n)
}

} // verus!

verus! {

// ---------------------------------------------------------------------------
// Polytypes
// ---------------------------------------------------------------------------

impl Polytype {
    pub fn apply(&self, sub: &Substitution) -> (r: Polytype)
        ensures
            r@ == self@.apply(sub@),
        decreases self,
    {
        match self {
            Polytype::Mono(mono) => Polytype::Mono(Box::new(mono.apply(sub))),
            Polytype::TypeQuantifier(q, poly) => Polytype::TypeQuantifier(q.clone(), Box::new(poly.apply(sub))),
        }
    }

    /// Instantiate with fresh type variables from `ctx`, applying `mappings`
    /// (absent means empty) to the remaining variables.
    pub fn instantiate(&self, ctx: &mut TypeContext, mappings: Option<NameMap<Monotype>>) -> (r: Monotype)
        requires
            old(ctx)@.counter + self@.quantifiers() <= u32::MAX,
        ensures
            r@ == self@.inst(old(ctx)@.counter, match mappings {
                Some(m) => mono_map(m),
                None => Map::empty(),
            }),
            final(ctx)@ == (CtxView { counter: old(ctx)@.counter + self@.quantifiers(), ..old(ctx)@ }),
        decreases self,
    {
        let mut maps = match mappings {
            Some(m) => m,
            None => {
                let m = NameMap::new();
                proof {
                    assert(mono_map(m) =~= Map::<Seq<char>, MType>::empty());
                }
                m
            },
        };
        match self {
            Polytype::Mono(mon) => mon.instantiate(&mut maps),
            Polytype::TypeQuantifier(quant, typ) => {
                let fresh = ctx.new_typevar();
                let ghost before = maps;
                let v = Monotype::TypeVariable(fresh);
                let ghost vv = v;
                maps.insert(quant.clone(), v);
                proof {
                    lemma_mono_map_insert(before, maps, quant@, vv);
                }
                typ.instantiate(ctx, Some(maps))
            },
        }
    }

    /// Free type variables, in order, with repetitions.
    pub fn free_variables(&self) -> (r: Vec<String>)
        ensures
            names(r@) == self@.free_vars(),
        decreases self,
    {
        match self {
            Polytype::Mono(mon) => {
                let fv = Monotype::free_variables(&**mon);
                proof {
                    assert(names(fv@) == (**mon)@.free_vars());
                    assert(self@ == PType::Mono((**mon)@));
                    assert(self@.free_vars() == (**mon)@.free_vars());
                    assert(names(fv@) == self@.free_vars());
                }
                fv
            },
            Polytype::TypeQuantifier(quant, typ) => {
                let inner = typ.free_variables();
                let mut out: Vec<String> = Vec::new();
                let mut i: usize = 0;
                while i < inner.len()
                    invariant
                        i <= inner@.len(),
                        names(out@) == names(inner@).take(i as int).filter(|n: Seq<char>| n != quant@),
                    decreases inner@.len() - i,
                {
                    let ghost before = out@;
                    if inner[i] != *quant {
                        out.push(inner[i].clone());
                    }
                    proof {
                        let ns = names(inner@);
                        assert(ns.take(i + 1).drop_last() =~= ns.take(i as int));
                        reveal_with_fuel(Seq::<_>::filter, 1);
                        if inner@[i as int]@ != quant@ {
                            assert(names(out@) =~= names(before).push(inner@[i as int]@));
                        } else {
                            assert(names(out@) =~= names(before));
                        }
                    }
                    i = i + 1;
                }
                proof {
                    assert(names(inner@).take(inner@.len() as int) =~= names(inner@));
                    let q = quant@;
                    assert(self@ == PType::Forall(q, Box::new((**typ)@)));
                    assert(self@.free_vars() == (**typ)@.free_vars().filter(|n: Seq<char>| n != q));
                    let f1 = |n: Seq<char>| n != q;
                    let f2 = |n: Seq<char>| n != quant@;
                    assert(f1 =~= f2);
                    assert(names(out@) == names(inner@).filter(f2));
                    assert(names(out@) == self@.free_vars());
                }
                out
            },
        }
    }
}

// ---------------------------------------------------------------------------
// Typing contexts
// ---------------------------------------------------------------------------

/// A type alias: parameters and right-hand side.
#[derive(Debug, PartialEq)]
pub struct TypeAlias {
    pub params: Vec<String>,
    pub rhs: Monotype,
}

/// Mathematical form of a type alias.
pub struct AliasView {
    pub params: Seq<Seq<char>>,
    pub rhs: MType,
}

impl View for TypeAlias {
    type V = AliasView;

    open spec fn view(&self) -> AliasView {
        AliasView { params: names(self.params@), rhs: self.rhs@ }
    }
}

/// A copy of a list of names.
pub fn copy_names(v: &Vec<String>) -> (r: Vec<String>)
    ensures
        names(r@) == names(v@),
{
    let mut out: Vec<String> = Vec::new();
    let mut i: usize = 0;
    while i < v.len()
        invariant
            i <= v@.len(),
            out@.len() == i,
            forall|j: int| 0 <= j < i ==> #[trigger] out@[j]@ == v@[j]@,
        decreases v@.len() - i,
    {
        out.push(v[i].clone());
        i = i + 1;
    }
    proof {
        assert(names(out@) =~= names(v@));
    }
    out
}

impl TypeAlias {
    pub fn duplicate(&self) -> (r: TypeAlias)
        ensures
            r@ == self@,
    {
        TypeAlias { params: copy_names(&self.params), rhs: self.rhs.duplicate() }
    }
}

impl Clone for TypeAlias {
    fn clone(&self) -> (r: Self)
        ensures
            r@ == self@,
    {
        self.duplicate()
    }
}

/// A typing context: bindings of term variables to polytypes, declared
/// type aliases and enum names, and the counter for fresh type variables.
#[derive(Debug)]
pub struct TypeContext {
    type_var_ctr: u32,
    pub variables: NameMap<Polytype>,
    type_aliases: NameMap<TypeAlias>,
    enum_names: NameMap<()>,
}

/// Mathematical form of a typing context.
pub struct CtxView {
    pub counter: nat,
    pub vars: Map<Seq<char>, PType>,
    pub aliases: Map<Seq<char>, AliasView>,
    pub enums: Set<Seq<char>>,
}

/// The alias bindings of `m`, as mathematical values.
pub open spec fn alias_map(m: NameMap<TypeAlias>) -> Map<Seq<char>, AliasView> {
    Map::new(|k: Seq<char>| m.map().contains_key(k), |k: Seq<char>| m.map()[k]@)
}

/// The context with `s` applied to every binding.
pub open spec fn ctx_apply(c: CtxView, s: Map<Seq<char>, MType>) -> CtxView {
    CtxView { vars: Map::new(|k: Seq<char>| c.vars.contains_key(k), |k: Seq<char>| c.vars[k].apply(s)), ..c }
}

/// The context with `n` bound to `p`.
pub open spec fn ctx_bind(c: CtxView, n: Seq<char>, p: PType) -> CtxView {
    CtxView { vars: c.vars.insert(n, p), ..c }
}

/// The context with the binding of `n` put back to what it is in `prev`
/// (removed when `prev` has none).
pub open spec fn ctx_restore(c: CtxView, n: Seq<char>, prev: CtxView) -> CtxView {
    if prev.vars.contains_key(n) {
        ctx_bind(c, n, prev.vars[n])
    } else {
        CtxView { vars: c.vars.remove(n), ..c }
    }
}

impl View for TypeContext {
    type V = CtxView;

    closed spec fn view(&self) -> CtxView {
        CtxView {
            counter: self.type_var_ctr as nat,
            vars: poly_map(self.variables),
            aliases: alias_map(self.type_aliases),
            enums: self.enum_names.map().dom(),
        }
    }
}

} // verus!

verus! {

pub proof fn lemma_concat_contains<A>(a: Seq<A>, b: Seq<A>, v: A)
    ensures
        (a + b).contains(v) <==> a.contains(v) || b.contains(v),
{
    if (a + b).contains(v) {
        let k = choose|k: int| 0 <= k < (a + b).len() && (a + b)[k] == v;
        if k < a.len() {
            assert(a[k] == v);
        } else {
            assert(b[k - a.len()] == v);
        }
    }
    if a.contains(v) {
        let k = choose|k: int| 0 <= k < a.len() && a[k] == v;
        assert((a + b)[k] == v);
    }
    if b.contains(v) {
        let k = choose|k: int| 0 <= k < b.len() && b[k] == v;
        assert((a + b)[a.len() + k] == v);
    }
}

/// A copy of a map of polytypes.
pub fn copy_poly_map(m: &NameMap<Polytype>) -> (r: NameMap<Polytype>)
    ensures
        poly_map(r) == poly_map(*m),
{
    let n = m.count();
    let mut out: NameMap<Polytype> = NameMap::new();
    let mut i: usize = 0;
    proof {
        m.lemma_prefix_ends();
        assert(poly_map(out) =~= Map::new(|k: Seq<char>| m.prefix(0).contains_key(k), |k: Seq<char>| m.prefix(0)[k]@));
    }
    while i < n
        invariant
            n == m.keys().len(),
            m.distinct(),
            i <= n,
            poly_map(out) == Map::new(|k: Seq<char>| m.prefix(i as int).contains_key(k), |k: Seq<char>| m.prefix(i as int)[k]@),
        decreases n - i,
    {
        let ghost before = poly_map(out);
        out.insert(m.key_at(i).clone(), m.value_at(i).duplicate());
        proof {
            m.lemma_prefix_step(i as int);
            assert(poly_map(out) =~= before.insert(m.keys()[i as int], m.vals()[i as int]@));
            assert(poly_map(out) =~= Map::new(|k: Seq<char>| m.prefix(i + 1).contains_key(k), |k: Seq<char>| m.prefix(i + 1)[k]@));
        }
        i = i + 1;
    }
    proof {
        m.lemma_prefix_ends();
        assert(poly_map(out) =~= poly_map(*m));
    }
    out
}

/// A copy of a map of aliases.
pub fn copy_alias_map(m: &NameMap<TypeAlias>) -> (r: NameMap<TypeAlias>)
    ensures
        alias_map(r) == alias_map(*m),
{
    let n = m.count();
    let mut out: NameMap<TypeAlias> = NameMap::new();
    let mut i: usize = 0;
    proof {
        m.lemma_prefix_ends();
        assert(alias_map(out) =~= Map::new(|k: Seq<char>| m.prefix(0).contains_key(k), |k: Seq<char>| m.prefix(0)[k]@));
    }
    while i < n
        invariant
            n == m.keys().len(),
            m.distinct(),
            i <= n,
            alias_map(out) == Map::new(|k: Seq<char>| m.prefix(i as int).contains_key(k), |k: Seq<char>| m.prefix(i as int)[k]@),
        decreases n - i,
    {
        let ghost before = alias_map(out);
        out.insert(m.key_at(i).clone(), m.value_at(i).duplicate());
        proof {
            m.lemma_prefix_step(i as int);
            assert(alias_map(out) =~= before.insert(m.keys()[i as int], m.vals()[i as int]@));
            assert(alias_map(out) =~= Map::new(|k: Seq<char>| m.prefix(i + 1).contains_key(k), |k: Seq<char>| m.prefix(i + 1)[k]@));
        }
        i = i + 1;
    }
    proof {
        m.lemma_prefix_ends();
        assert(alias_map(out) =~= alias_map(*m));
    }
    out
}

/// A copy of a set of names.
pub fn copy_name_set(m: &NameMap<()>) -> (r: NameMap<()>)
    ensures
        r.map().dom() == m.map().dom(),
{
    let n = m.count();
    let mut out: NameMap<()> = NameMap::new();
    let mut i: usize = 0;
    proof {
        m.lemma_prefix_ends();
        assert(out.map().dom() =~= m.prefix(0).dom());
    }
    while i < n
        invariant
            n == m.keys().len(),
            m.distinct(),
            i <= n,
            out.map().dom() == m.prefix(i as int).dom(),
        decreases n - i,
    {
        out.insert(m.key_at(i).clone(), ());
        proof {
            m.lemma_prefix_step(i as int);
            assert(out.map().dom() =~= m.prefix(i + 1).dom());
        }
        i = i + 1;
    }
    proof {
        m.lemma_prefix_ends();
    }
    out
}

/// `v1` without the names that occur in `v2` (order and repetitions kept).
pub fn diff(v1: Vec<String>, v2: Vec<String>) -> (r: Vec<String>)
    ensures
        names(r@) == names(v1@).filter(|x: Seq<char>| !names(v2@).contains(x)),
{
    let mut out: Vec<String> = Vec::new();
    let mut i: usize = 0;
    while i < v1.len()
        invariant
            i <= v1@.len(),
            names(out@) == names(v1@).take(i as int).filter(|x: Seq<char>| !names(v2@).contains(x)),
        decreases v1@.len() - i,
    {
        let mut found = false;
        let mut j: usize = 0;
        while j < v2.len()
            invariant
                i < v1@.len(),
                j <= v2@.len(),
                found <==> exists|k: int| 0 <= k < j && v2@[k]@ == v1@[i as int]@,
            decreases v2@.len() - j,
        {
            if v2[j] == v1[i] {
                found = true;
            }
            j = j + 1;
        }
        proof {
            if found {
                let k = choose|k: int| 0 <= k < j && v2@[k]@ == v1@[i as int]@;
                assert(names(v2@)[k] == v1@[i as int]@);
            }
            if names(v2@).contains(v1@[i as int]@) {
                let k = choose|k: int| 0 <= k < names(v2@).len() && names(v2@)[k] == v1@[i as int]@;
                assert(v2@[k]@ == v1@[i as int]@);
            }
        }
        let ghost before = out@;
        if !found {
            out.push(v1[i].clone());
        }
        proof {
            let ns = names(v1@);
            assert(ns.take(i + 1).drop_last() =~= ns.take(i as int));
            reveal_with_fuel(Seq::<_>::filter, 1);
            if !found {
                assert(names(out@) =~= names(before).push(v1@[i as int]@));
            } else {
                assert(names(out@) =~= names(before));
            }
        }
        i = i + 1;
    }
    proof {
        assert(names(v1@).take(v1@.len() as int) =~= names(v1@));
    }
    out
}

/// The names of the functions that the compiler provides.
pub open spec fn is_builtin_name(n: Seq<char>) -> bool {
    ||| n == "print"@
    ||| n == "println"@
    ||| n == "itostr"@
    ||| n == "ftostr"@
    ||| n == "btostr"@
    ||| n == "strtoi"@
    ||| n == "strtof"@
    ||| n == "strtob"@
    ||| n == "itof"@
    ||| n == "ftoi"@
    ||| n == "readin"@
}

impl TypeContext {
    /// The empty context.
    pub open spec fn empty_view() -> CtxView {
        CtxView {
            counter: 0,
            vars: Map::empty(),
            aliases: Map::empty(),
            enums: Set::empty(),
        }
    }

    /// Whether `name` is one of the functions that the compiler provides.
    pub fn is_builtin(name: &str) -> (b: bool)
        ensures
            b == is_builtin_name(name@),
    {
        let n = name.to_owned();
        n == text("print") || n == text("println") || n == text("itostr") || n == text("ftostr")
            || n == text("btostr") || n == text("strtoi") || n == text("strtof") || n == text("strtob")
            || n == text("itof") || n == text("ftoi") || n == text("readin")
    }

    pub fn new() -> (c: TypeContext)
        ensures
            c@ == TypeContext::empty_view(),
    {
        let c = TypeContext {
            type_var_ctr: 0,
            variables: NameMap::new(),
            type_aliases: NameMap::new(),
            enum_names: NameMap::new(),
        };
        proof {
            assert(c@.vars =~= Map::<Seq<char>, PType>::empty());
            assert(c@.aliases =~= Map::<Seq<char>, AliasView>::empty());
            assert(c@.enums =~= Set::<Seq<char>>::empty());
        }
        c
    }

    pub fn make(map: NameMap<Polytype>) -> (c: TypeContext)
        ensures
            c@.counter == 0,
            c@.vars == poly_map(map),
            c@.aliases == Map::<Seq<char>, AliasView>::empty(),
            c@.enums == Set::<Seq<char>>::empty(),
    {
        let c = TypeContext {
            type_var_ctr: 0,
            variables: map,
            type_aliases: NameMap::new(),
            enum_names: NameMap::new(),
        };
        proof {
            assert(c@.aliases =~= Map::<Seq<char>, AliasView>::empty());
            assert(c@.enums =~= Set::<Seq<char>>::empty());
        }
        c
    }

    /// A copy of this context.
    pub fn duplicate(&self) -> (c: TypeContext)
        ensures
            c@ == self@,
    {
        TypeContext {
            type_var_ctr: self.type_var_ctr,
            variables: copy_poly_map(&self.variables),
            type_aliases: copy_alias_map(&self.type_aliases),
            enum_names: copy_name_set(&self.enum_names),
        }
    }

    pub fn get(&self, name: &String) -> (r: Option<Polytype>)
        ensures
            match r {
                Some(p) => self@.vars.contains_key(name@) && p@ == self@.vars[name@],
                None => !self@.vars.contains_key(name@),
            },
    {
        match self.variables.get(name.as_str()) {
            Some(p) => Some(p.duplicate()),
            None => None,
        }
    }

    pub fn add(&mut self, name: String, typ: Polytype)
        ensures
            final(self)@ == ctx_bind(old(self)@, name@, typ@),
    {
        let ghost before = self.variables;
        let ghost t = typ;
        self.variables.insert(name, typ);
        proof {
            assert(poly_map(self.variables) =~= poly_map(before).insert(name@, t@));
        }
    }

    pub fn remove(&mut self, name: &str)
        ensures
            final(self)@ == (CtxView { vars: old(self)@.vars.remove(name@), ..old(self)@ }),
    {
        let ghost before = self.variables;
        self.variables.remove(name);
        proof {
            assert(poly_map(self.variables) =~= poly_map(before).remove(name@));
        }
    }

    pub fn add_alias(&mut self, name: String, alias: TypeAlias)
        ensures
            final(self)@ == (CtxView { aliases: old(self)@.aliases.insert(name@, alias@), ..old(self)@ }),
    {
        let ghost before = self.type_aliases;
        let ghost a = alias;
        self.type_aliases.insert(name, alias);
        proof {
            assert(alias_map(self.type_aliases) =~= alias_map(before).insert(name@, a@));
        }
    }

    pub fn get_alias(&self, name: &str) -> (r: Option<&TypeAlias>)
        ensures
            match r {
                Some(a) => self@.aliases.contains_key(name@) && a@ == self@.aliases[name@],
                None => !self@.aliases.contains_key(name@),
            },
    {
        self.type_aliases.get(name)
    }

    pub fn add_enum_name(&mut self, name: String)
        ensures
            final(self)@ == (CtxView { enums: old(self)@.enums.insert(name@), ..old(self)@ }),
    {
        let ghost before = self.enum_names.map();
        self.enum_names.insert(name, ());
        proof {
            assert(self.enum_names.map().dom() =~= before.dom().insert(name@));
        }
    }

    pub fn has_enum_name(&self, name: &str) -> (b: bool)
        ensures
            b <==> self@.enums.contains(name@),
    {
        self.enum_names.contains_key(name)
    }

    /// The context with `sub` applied to every binding.
    pub fn apply(&self, sub: &Substitution) -> (c: TypeContext)
        ensures
            c@ == ctx_apply(self@, sub@),
    {
        let m = &self.variables;
        let n = m.count();
        let mut out: NameMap<Polytype> = NameMap::new();
        let mut i: usize = 0;
        proof {
            m.lemma_prefix_ends();
            assert(poly_map(out) =~= Map::new(|k: Seq<char>| m.prefix(0).contains_key(k), |k: Seq<char>| m.prefix(0)[k]@.apply(sub@)));
        }
        while i < n
            invariant
                n == m.keys().len(),
                m.distinct(),
                i <= n,
                poly_map(out) == Map::new(|k: Seq<char>| m.prefix(i as int).contains_key(k), |k: Seq<char>| m.prefix(i as int)[k]@.apply(sub@)),
            decreases n - i,
        {
            let ghost before = poly_map(out);
            out.insert(m.key_at(i).clone(), m.value_at(i).apply(sub));
            proof {
                m.lemma_prefix_step(i as int);
                assert(poly_map(out) =~= before.insert(m.keys()[i as int], m.vals()[i as int]@.apply(sub@)));
                assert(poly_map(out) =~= Map::new(|k: Seq<char>| m.prefix(i + 1).contains_key(k), |k: Seq<char>| m.prefix(i + 1)[k]@.apply(sub@)));
            }
            i = i + 1;
        }
        let c = TypeContext {
            type_var_ctr: self.type_var_ctr,
            variables: out,
            type_aliases: copy_alias_map(&self.type_aliases),
            enum_names: copy_name_set(&self.enum_names),
        };
        proof {
            m.lemma_prefix_ends();
            assert(c@.vars =~= Map::new(|k: Seq<char>| self@.vars.contains_key(k), |k: Seq<char>| self@.vars[k].apply(sub@)));
        }
        c
    }

    /// The context has finitely many bindings, aliases and enum names.
    pub proof fn lemma_finite(&self)
        ensures
            self@.vars.dom().finite(),
            self@.aliases.dom().finite(),
            self@.enums.finite(),
    {
        self.variables.lemma_finite();
        self.type_aliases.lemma_finite();
        self.enum_names.lemma_finite();
        assert(self@.vars.dom() =~= self.variables.map().dom());
        assert(self@.aliases.dom() =~= self.type_aliases.map().dom());
    }

    /// A fresh type variable name, `t` followed by the counter in decimal.
    pub fn new_typevar(&mut self) -> (r: String)
        requires
            old(self)@.counter < u32::MAX,
        ensures
            r@ == typevar_name(old(self)@.counter),
            final(self)@ == (CtxView { counter: old(self)@.counter + 1, ..old(self)@ }),
    {
        let mut ret = String::new();
        push_char(&mut ret, 't');
        push_decimal(&mut ret, self.type_var_ctr);
        proof {
            assert(ret@ =~= typevar_name(self.type_var_ctr as nat));
        }
        self.type_var_ctr = self.type_var_ctr + 1;
        ret
    }

    /// The free type variables of all bindings (order unspecified).
    pub fn free_variables(&self) -> (r: Vec<String>)
        ensures
            forall|v: Seq<char>| names(r@).contains(v) <==> ctx_mentions(self@.vars, v),
    {
        let m = &self.variables;
        let n = m.count();
        let mut out: Vec<String> = Vec::new();
        let mut i: usize = 0;
        while i < n
            invariant
                n == m.keys().len(),
                m.distinct(),
                i <= n,
                forall|v: Seq<char>| names(out@).contains(v) <==> exists|j: int| 0 <= j < i && #[trigger] m.vals()[j]@.free_vars().contains(v),
            decreases n - i,
        {
            let mut part = m.value_at(i).free_variables();
            let ghost before = out@;
            let ghost p = part@;
            out.append(&mut part);
            proof {
                assert(names(out@) =~= names(before) + names(p));
                assert forall|v: Seq<char>| names(out@).contains(v) <==> exists|j: int| 0 <= j < i + 1 && #[trigger] m.vals()[j]@.free_vars().contains(v) by {
                    lemma_concat_contains(names(before), names(p), v);
                    if names(p).contains(v) {
                        assert(m.vals()[i as int]@.free_vars().contains(v));
                    }
                    if exists|j: int| 0 <= j < i + 1 && #[trigger] m.vals()[j]@.free_vars().contains(v) {
                        let j = choose|j: int| 0 <= j < i + 1 && #[trigger] m.vals()[j]@.free_vars().contains(v);
                        if j < i {
                            assert(exists|j: int| 0 <= j < i && #[trigger] m.vals()[j]@.free_vars().contains(v));
                        }
                    }
                }
            }
            i = i + 1;
        }
        proof {
            assert forall|v: Seq<char>| names(out@).contains(v) <==> ctx_mentions(self@.vars, v) by {
                if names(out@).contains(v) {
                    let j = choose|j: int| 0 <= j < n && #[trigger] m.vals()[j]@.free_vars().contains(v);
                    m.lemma_index(j);
                    assert(self@.vars.contains_key(m.keys()[j]));
                    assert(self@.vars[m.keys()[j]].free_vars().contains(v));
                }
                if ctx_mentions(self@.vars, v) {
                    let k = choose|k: Seq<char>| self@.vars.contains_key(k) && #[trigger] self@.vars[k].free_vars().contains(v);
                    let j = m.keys().index_of(k);
                    assert(m.keys().contains(k));
                    m.lemma_index(j);
                    assert(m.vals()[j]@.free_vars().contains(v));
                }
            }
        }
        out
    }

    /// Quantify the variables of `typ` that are not free in this context.
    pub fn generalise(&self, typ: &Monotype) -> (r: Polytype)
        ensures
            r@ == generalised(typ@, self@.vars),
    {
        let tfv = typ.free_variables();
        let cfv = self.free_variables();
        let ghost cnames = names(cfv@);
        let quants = diff(tfv, cfv);
        let ghost qs = names(quants@);
        proof {
            let p1 = |x: Seq<char>| !cnames.contains(x);
            let p2 = |v: Seq<char>| !ctx_mentions(self@.vars, v);
            assert(p1 =~= p2);
        }
        let mut poly = Polytype::Mono(Box::new(typ.duplicate()));
        let mut i: usize = 0;
        while i < quants.len()
            invariant
                i <= quants@.len(),
                qs == names(quants@),
                poly@ == quantify(qs.take(i as int), PType::Mono(typ@)),
            decreases quants@.len() - i,
        {
            poly = Polytype::TypeQuantifier(quants[i].clone(), Box::new(poly));
            proof {
                assert(qs.take(i + 1).drop_last() =~= qs.take(i as int));
            }
            i = i + 1;
        }
        proof {
            assert(qs.take(quants@.len() as int) =~= qs);
        }
        poly
    }
}

} // verus!

verus! {

/// A type error: a message and, once known, the position of the statement.
#[derive(Debug, PartialEq)]
pub struct UnificationError {
    pub pos: Option<Pos>,
    pub message: String,
}

impl UnificationError {
    /// An error with `message` and no position.
    pub fn new(message: String) -> (e: UnificationError)
        ensures
            e.message@ == message@,
            e.pos is None,
    {
        UnificationError { pos: None, message }
    }

    /// This error located at `pos`.
    pub fn with_pos(self, pos: Pos) -> (e: UnificationError)
        ensures
            e.message@ == self.message@,
            e.pos == Some(pos),
    {
        UnificationError { pos: Some(pos), message: self.message }
    }

    /// The text shown for this error: its message.
    pub fn to_text(&self) -> (r: String)
        ensures
            r@ == self.message@,
    {
        self.message.clone()
    }
}

} // verus!

verus! {

// ---------------------------------------------------------------------------
// Equality by meaning
// ---------------------------------------------------------------------------

/// Values that can be compared by their mathematical form.
pub trait SameAs: View + Sized {
    fn same_as(&self, other: &Self) -> (b: bool)
        ensures
            b == (self@ == other@),
    ;
}

/// The bindings of a name map, as mathematical values.
pub open spec fn map_view<V: View>(m: NameMap<V>) -> Map<Seq<char>, V::V> {
    Map::new(|k: Seq<char>| m.map().contains_key(k), |k: Seq<char>| m.map()[k]@)
}

/// Whether two name maps bind the same names to equal values.
pub fn maps_same<V: SameAs>(m: &NameMap<V>, o: &NameMap<V>) -> (b: bool)
    ensures
        b == (map_view(*m) == map_view(*o)),
{
    let n = m.count();
    let mut i: usize = 0;
    while i < n
        invariant
            n == m.keys().len(),
            m.distinct(),
            i <= n,
            forall|j: int| 0 <= j < i ==> #[trigger] map_view(*o).contains_key(m.keys()[j]) && map_view(*o)[m.keys()[j]] == m.vals()[j]@,
        decreases n - i,
    {
        let ghost key = m.keys()[i as int];
        proof {
            m.lemma_index(i as int);
            assert(map_view(*m).contains_key(key));
            assert(map_view(*m)[key] == m.vals()[i as int]@);
        }
        match o.get(m.key_at(i).as_str()) {
            Some(v) => {
                if !v.same_as(m.value_at(i)) {
                    proof {
                        assert(map_view(*o)[key] == v@);
                        assert(map_view(*o)[key] != map_view(*m)[key]);
                    }
                    return false;
                }
                proof {
                    assert(map_view(*o).contains_key(key));
                    assert(map_view(*o)[key] == v@);
                    assert forall|j: int| 0 <= j < i + 1 implies #[trigger] map_view(*o).contains_key(m.keys()[j]) && map_view(*o)[m.keys()[j]] == m.vals()[j]@ by {
                        if j == i {
                            assert(m.keys()[j] == key);
                        }
                    }
                }
            },
            None => {
                proof {
                    assert(!map_view(*o).contains_key(key));
                }
                return false;
            },
        }
        i = i + 1;
    }
    let k = o.count();
    let mut j: usize = 0;
    while j < k
        invariant
            k == o.keys().len(),
            o.distinct(),
            j <= k,
            forall|q: int| 0 <= q < j ==> #[trigger] map_view(*m).contains_key(o.keys()[q]),
        decreases k - j,
    {
        let ghost key = o.keys()[j as int];
        proof {
            o.lemma_index(j as int);
            assert(map_view(*o).contains_key(key));
        }
        if !m.contains_key(o.key_at(j).as_str()) {
            proof {
                assert(!map_view(*m).contains_key(key));
            }
            return false;
        }
        j = j + 1;
    }
    proof {
        assert forall|key: Seq<char>| map_view(*m).contains_key(key) implies map_view(*o).contains_key(key) && map_view(*o)[key] == map_view(*m)[key] by {
            let q = m.keys().index_of(key);
            assert(m.keys().contains(key));
            m.lemma_index(q);
        }
        assert forall|key: Seq<char>| map_view(*o).contains_key(key) implies map_view(*m).contains_key(key) by {
            let q = o.keys().index_of(key);
            assert(o.keys().contains(key));
            o.lemma_index(q);
        }
        assert(map_view(*m) =~= map_view(*o));
    }
    true
}

/// Whether two lists of names are equal.
pub fn names_same(a: &Vec<String>, b: &Vec<String>) -> (r: bool)
    ensures
        r == (names(a@) == names(b@)),
{
    if a.len() != b.len() {
        proof {
            assert(names(a@).len() != names(b@).len());
        }
        return false;
    }
    let mut i: usize = 0;
    while i < a.len()
        invariant
            a@.len() == b@.len(),
            i <= a@.len(),
            forall|j: int| 0 <= j < i ==> a@[j]@ == b@[j]@,
        decreases a@.len() - i,
    {
        if a[i] != b[i] {
            proof {
                assert(names(a@)[i as int] != names(b@)[i as int]);
            }
            return false;
        }
        i = i + 1;
    }
    proof {
        assert(names(a@) =~= names(b@));
    }
    true
}

impl Polytype {
    /// Whether the two polytypes are equal.
    pub fn same(&self, other: &Polytype) -> (b: bool)
        ensures
            b == (self@ == other@),
        decreases self,
    {
        match self {
            Polytype::Mono(m) => match other {
                Polytype::Mono(n) => (**m).same(&**n),
                Polytype::TypeQuantifier(_, _) => false,
            },
            Polytype::TypeQuantifier(q, p) => match other {
                Polytype::Mono(_) => false,
                Polytype::TypeQuantifier(r, s) => *q == *r && (**p).same(&**s),
            },
        }
    }
}

impl SameAs for Polytype {
    fn same_as(&self, other: &Self) -> (b: bool) {
        self.same(other)
    }
}

impl SameAs for TypeAlias {
    fn same_as(&self, other: &Self) -> (b: bool) {
        names_same(&self.params, &other.params) && self.rhs.same(&other.rhs)
    }
}

impl SameAs for () {
    fn same_as(&self, other: &Self) -> (b: bool) {
        true
    }
}

impl TypeContext {
    /// Whether the two contexts are equal: the same counter, bindings,
    /// aliases and enum names.
    pub fn same(&self, other: &TypeContext) -> (b: bool)
        ensures
            b == (self@ == other@),
    {
        let c = self.type_var_ctr == other.type_var_ctr;
        let v = maps_same(&self.variables, &other.variables);
        let a = maps_same(&self.type_aliases, &other.type_aliases);
        let e = maps_same(&self.enum_names, &other.enum_names);
        proof {
            assert(poly_map(self.variables) == map_view(self.variables));
            assert(poly_map(other.variables) == map_view(other.variables));
            assert(alias_map(self.type_aliases) == map_view(self.type_aliases));
            assert(alias_map(other.type_aliases) == map_view(other.type_aliases));
            if map_view(self.enum_names) == map_view(other.enum_names) {
                assert forall|k: Seq<char>| self.enum_names.map().dom().contains(k) <==> other.enum_names.map().dom().contains(k) by {
                    assert(map_view(self.enum_names).contains_key(k) <==> self.enum_names.map().contains_key(k));
                    assert(map_view(other.enum_names).contains_key(k) <==> other.enum_names.map().contains_key(k));
                }
                assert(self.enum_names.map().dom() =~= other.enum_names.map().dom());
            }
            if self.enum_names.map().dom() == other.enum_names.map().dom() {
                assert(map_view(self.enum_names) =~= map_view(other.enum_names));
            }
            if self@ == other@ {
                assert(self@.vars == other@.vars);
                assert(self@.aliases == other@.aliases);
                assert(self@.enums == other@.enums);
            }
        }
        c && v && a && e
    }
}

} // verus!
