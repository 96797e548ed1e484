//! Equality of types, substitutions and syntax trees by their meaning;
//! source positions take no part in the equality of trees.
use vstd::prelude::*;
use vstd::std_specs::cmp::PartialEqSpecImpl;
use crate::types::{Monotype, Substitution, views, names_same};
use crate::ast::{Expr, ENode, Stmt, SNode, Lit, MatchCase, TypeDec, Variant};
use crate::declarations::type_views;

verus! {

impl Monotype {
    /// Whether the two types are equal.
    pub fn same(&self, other: &Monotype) -> (b: bool)
        ensures
            b == (self@ == other@),
        decreases self,
    {
        match self {
            Monotype::TypeVariable(a) => match other {
                Monotype::TypeVariable(b) => *a == *b,
                Monotype::TypeFuncApplication(_, _) => false,
            },
            Monotype::TypeFuncApplication(f, ts) => match other {
                Monotype::TypeVariable(_) => false,
                Monotype::TypeFuncApplication(g, us) => {
                    proof {
                        crate::types::lemma_app_view(&**f, ts);
                        crate::types::lemma_app_view(&**g, us);
                    }
                    if !(**f).same(&**g) || ts.len() != us.len() {
                        proof {
                            if ts@.len() != us@.len() {
                                assert(views(ts@).len() != views(us@).len());
                            }
                        }
                        return false;
                    }
                    let mut i: usize = 0;
                    #[verifier::loop_isolation(false)]
                    while i < ts.len()
                        invariant
                            ts@.len() == us@.len(),
                            i <= ts@.len(),
                            forall|j: int| 0 <= j < i ==> ts@[j]@ == us@[j]@,
                        decreases ts@.len() - i,
                    {
                        proof {
                            assert(decreases_to!(*ts => ts[i as int]));
                        }
                        if !ts[i].same(&us[i]) {
                            proof {
                                assert(views(ts@)[i as int] != views(us@)[i as int]);
                            }
                            return false;
                        }
                        i = i + 1;
                    }
                    proof {
                        assert(views(ts@) =~= views(us@));
                    }
                    true
                },
            },
        }
    }
}

impl Substitution {
    /// Whether the two substitutions bind the same variables to equal types.
    pub fn same(&self, other: &Substitution) -> (b: bool)
        ensures
            b == (self@ == other@),
    {
        let m = &self.variables;
        let o = &other.variables;
        let n = m.count();
        let mut i: usize = 0;
        #[verifier::loop_isolation(false)]
        while i < n
            invariant
                n == m.keys().len(),
                m.distinct(),
                i <= n,
                forall|j: int| 0 <= j < i ==> #[trigger] other@.contains_key(m.keys()[j]) && other@[m.keys()[j]] == m.vals()[j]@,
            decreases n - i,
        {
            let ghost key = m.keys()[i as int];
            proof {
                m.lemma_index(i as int);
                assert(self@.contains_key(key));
                assert(self@[key] == m.vals()[i as int]@);
            }
            match o.get(m.key_at(i).as_str()) {
                Some(v) => {
                    if !v.same(m.value_at(i)) {
                        proof {
                            assert(other@[key] == v@);
                            assert(other@[key] != self@[key]);
                        }
                        return false;
                    }
                    proof {
                        assert(o.map().contains_key(key));
                        assert(other@.contains_key(key));
                        assert(other@[key] == v@);
                        assert(v@ == m.vals()[i as int]@);
                        assert forall|j: int| 0 <= j < i + 1 implies #[trigger] other@.contains_key(m.keys()[j]) && other@[m.keys()[j]] == m.vals()[j]@ by {
                            if j == i {
                                assert(m.keys()[j] == key);
                            }
                        }
                    }
                },
                None => {
                    proof {
                        assert(!other@.contains_key(key));
                    }
                    return false;
                },
            }
            i = i + 1;
        }
        let k = o.count();
        let mut j: usize = 0;
        #[verifier::loop_isolation(false)]
        while j < k
            invariant
                k == o.keys().len(),
                o.distinct(),
                j <= k,
                forall|q: int| 0 <= q < j ==> #[trigger] self@.contains_key(o.keys()[q]),
            decreases k - j,
        {
            let ghost key = o.keys()[j as int];
            proof {
                o.lemma_index(j as int);
                assert(other@.contains_key(key));
            }
            if !m.contains_key(o.key_at(j).as_str()) {
                proof {
                    assert(!self@.contains_key(key));
                }
                return false;
            }
            j = j + 1;
        }
        proof {
            assert forall|key: Seq<char>| self@.contains_key(key) implies other@.contains_key(key) && other@[key] == self@[key] by {
                let q = m.keys().index_of(key);
                assert(m.keys().contains(key));
                m.lemma_index(q);
            }
            assert forall|key: Seq<char>| other@.contains_key(key) implies self@.contains_key(key) by {
                let q = o.keys().index_of(key);
                assert(o.keys().contains(key));
                o.lemma_index(q);
            }
            assert(self@ =~= other@);
        }
        true
    }
}

impl PartialEq for Substitution {
    fn eq(&self, other: &Self) -> (r: bool) {
        self.same(other)
    }
}

impl PartialEqSpecImpl for Substitution {
    open spec fn obeys_eq_spec() -> bool {
        true
    }

    open spec fn eq_spec(&self, other: &Self) -> bool {
        self@ == other@
    }
}

/// Equality of literals; a float literal compares by its bit pattern.
pub open spec fn lit_eq(a: Lit, b: Lit) -> bool {
    match (a, b) {
        (Lit::Int(x), Lit::Int(y)) => x == y,
        (Lit::Float(x), Lit::Float(y)) => x == y,
        (Lit::Bool(x), Lit::Bool(y)) => x == y,
        (Lit::Str(x), Lit::Str(y)) => x@ == y@,
        (Lit::Char(x), Lit::Char(y)) => x == y,
        (Lit::Unit, Lit::Unit) => true,
        _ => false,
    }
}

/// Equality of expression trees: the same nodes with the same contexts and
/// recorded types, wherever they stand in the source.
pub open spec fn expr_eq(a: Expr, b: Expr) -> bool
    decreases a,
{
    &&& a.ctx@ == b.ctx@
    &&& a.typ@ == b.typ@
    &&& match (*a.e, *b.e) {
        (ENode::Variable(x), ENode::Variable(y)) => x@ == y@,
        (ENode::Literal(x), ENode::Literal(y)) => lit_eq(*x, *y),
        (ENode::Abstraction(x, m), ENode::Abstraction(y, n)) => x.0@ == y.0@ && x.1.t@ == y.1.t@ && expr_eq(*m, *n),
        (ENode::Application(f, x), ENode::Application(g, y)) => expr_eq(*f, *g) && expr_eq(*x, *y),
        (ENode::Let(n1, v1, b1), ENode::Let(n2, v2, b2)) => n1@ == n2@ && expr_eq(*v1, *v2) && expr_eq(*b1, *b2),
        (ENode::IfElse(c1, t1, e1), ENode::IfElse(c2, t2, e2)) => expr_eq(*c1, *c2) && expr_eq(*t1, *t2) && expr_eq(*e1, *e2),
        (ENode::Block(ss, t1), ENode::Block(us, t2)) => {
            &&& ss@.len() == us@.len()
            &&& forall|i: int| 0 <= i < ss@.len() ==> stmt_eq(#[trigger] ss@[i], us@[i])
            &&& expr_eq(*t1, *t2)
        },
        (ENode::Comparison(o1, x1, y1), ENode::Comparison(o2, x2, y2)) => o1 == o2 && expr_eq(*x1, *x2) && expr_eq(*y1, *y2),
        (ENode::Arithmetic(o1, x1, y1), ENode::Arithmetic(o2, x2, y2)) => o1 == o2 && expr_eq(*x1, *x2) && expr_eq(*y1, *y2),
        (ENode::Logical(o1, x1, y1), ENode::Logical(o2, x2, y2)) => o1 == o2 && expr_eq(*x1, *x2) && expr_eq(*y1, *y2),
        (ENode::Unary(o1, x), ENode::Unary(o2, y)) => o1 == o2 && expr_eq(*x, *y),
        (ENode::List(xs), ENode::List(ys)) => {
            &&& xs@.len() == ys@.len()
            &&& forall|i: int| 0 <= i < xs@.len() ==> expr_eq(#[trigger] xs@[i], ys@[i])
        },
        (ENode::Cons(h1, t1), ENode::Cons(h2, t2)) => expr_eq(*h1, *h2) && expr_eq(*t1, *t2),
        (ENode::Match(x, cs), ENode::Match(y, ds)) => {
            &&& expr_eq(*x, *y)
            &&& cs@.len() == ds@.len()
            &&& forall|i: int| 0 <= i < cs@.len() ==> expr_eq(*(#[trigger] cs@[i]).val, *ds@[i].val) && expr_eq(*cs@[i].exp, *ds@[i].exp)
        },
        _ => false,
    }
}

/// Equality of statements: the same node and context, wherever it stands.
pub open spec fn stmt_eq(a: Stmt, b: Stmt) -> bool
    decreases a,
{
    &&& a.ctx@ == b.ctx@
    &&& match (*a.s, *b.s) {
        (SNode::Decl(x1, t1, y1), SNode::Decl(x2, t2, y2)) => expr_eq(*x1, *x2) && t1.t@ == t2.t@ && expr_eq(*y1, *y2),
        (SNode::Expr(x), SNode::Expr(y)) => expr_eq(*x, *y),
        (SNode::TypeDecl(h1, d1), SNode::TypeDecl(h2, d2)) => h1@ == h2@ && (*d1)@ == (*d2)@,
        _ => false,
    }
}

fn lit_same(a: &Lit, b: &Lit) -> (r: bool)
    ensures
        r == lit_eq(*a, *b),
{
    match (a, b) {
        (Lit::Int(x), Lit::Int(y)) => *x == *y,
        (Lit::Float(x), Lit::Float(y)) => *x == *y,
        (Lit::Bool(x), Lit::Bool(y)) => *x == *y,
        (Lit::Str(x), Lit::Str(y)) => *x == *y,
        (Lit::Char(x), Lit::Char(y)) => *x == *y,
        (Lit::Unit, Lit::Unit) => true,
        _ => false,
    }
}

fn types_same(a: &Vec<crate::ast::Type>, b: &Vec<crate::ast::Type>) -> (r: bool)
    ensures
        r == (type_views(a@) == type_views(b@)),
{
    if a.len() != b.len() {
        proof {
            assert(type_views(a@).len() != type_views(b@).len());
        }
        return false;
    }
    let mut i: usize = 0;
    while i < a.len()
        invariant
            a@.len() == b@.len(),
            i <= a@.len(),
            forall|j: int| 0 <= j < i ==> a@[j].t@ == b@[j].t@,
        decreases a@.len() - i,
    {
        if !a[i].t.same(&b[i].t) {
            proof {
                assert(type_views(a@)[i as int] != type_views(b@)[i as int]);
            }
            return false;
        }
        i = i + 1;
    }
    proof {
        assert(type_views(a@) =~= type_views(b@));
    }
    true
}

fn dec_same(a: &TypeDec, b: &TypeDec) -> (r: bool)
    ensures
        r == (a@ == b@),
{
    match (a, b) {
        (TypeDec::Alias(x), TypeDec::Alias(y)) => x.t.same(&y.t),
        (TypeDec::Enum(vs), TypeDec::Enum(ws)) => {
            let ghost va = Seq::new(vs@.len(), |i: int| vs@[i]@);
            let ghost wa = Seq::new(ws@.len(), |i: int| ws@[i]@);
            proof {
                assert(a@->Enum_0 =~= va);
                assert(b@->Enum_0 =~= wa);
            }
            if vs.len() != ws.len() {
                proof {
                    assert(va.len() != wa.len());
                }
                return false;
            }
            let mut i: usize = 0;
            while i < vs.len()
                invariant
                    vs@.len() == ws@.len(),
                    i <= vs@.len(),
                    va == Seq::new(vs@.len(), |i: int| vs@[i]@),
                    wa == Seq::new(ws@.len(), |i: int| ws@[i]@),
                    a@ == crate::declarations::DecView::Enum(va),
                    b@ == crate::declarations::DecView::Enum(wa),
                    forall|j: int| 0 <= j < i ==> vs@[j]@ == ws@[j]@,
                decreases vs@.len() - i,
            {
                let v: &Variant = &vs[i];
                let w: &Variant = &ws[i];
                if !(v.n == w.n && types_same(&v.tparams, &w.tparams)) {
                    proof {
                        assert(va[i as int] != wa[i as int]);
                    }
                    return false;
                }
                i = i + 1;
            }
            proof {
                assert(va =~= wa);
            }
            true
        },
        _ => false,
    }
}

/// Whether two expression trees are equal (see `expr_eq`).
pub fn expr_same(a: &Expr, b: &Expr) -> (r: bool)
    ensures
        r == expr_eq(*a, *b),
    decreases a,
{
    if !a.ctx.same(&b.ctx) || !a.typ.same(&b.typ) {
        return false;
    }
    match (&*a.e, &*b.e) {
        (ENode::Variable(x), ENode::Variable(y)) => *x == *y,
        (ENode::Literal(x), ENode::Literal(y)) => lit_same(&**x, &**y),
        (ENode::Abstraction(x, m), ENode::Abstraction(y, n)) => x.0 == y.0 && x.1.t.same(&y.1.t) && expr_same(&**m, &**n),
        (ENode::Application(f, x), ENode::Application(g, y)) => expr_same(&**f, &**g) && expr_same(&**x, &**y),
        (ENode::Let(n1, v1, b1), ENode::Let(n2, v2, b2)) => *n1 == *n2 && expr_same(&**v1, &**v2) && expr_same(&**b1, &**b2),
        (ENode::IfElse(c1, t1, e1), ENode::IfElse(c2, t2, e2)) => expr_same(&**c1, &**c2) && expr_same(&**t1, &**t2) && expr_same(&**e1, &**e2),
        (ENode::Block(ss, t1), ENode::Block(us, t2)) => {
            if ss.len() != us.len() {
                return false;
            }
            let mut i: usize = 0;
            #[verifier::loop_isolation(false)]
            while i < ss.len()
                invariant
                    ss@.len() == us@.len(),
                    i <= ss@.len(),
                    forall|j: int| 0 <= j < i ==> stmt_eq(#[trigger] ss@[j], us@[j]),
                decreases ss@.len() - i,
            {
                proof {
                    assert(decreases_to!(*ss => ss[i as int]));
                }
                if !stmt_same(&ss[i], &us[i]) {
                    return false;
                }
                i = i + 1;
            }
            expr_same(&**t1, &**t2)
        },
        (ENode::Comparison(o1, x1, y1), ENode::Comparison(o2, x2, y2)) => *o1 == *o2 && expr_same(&**x1, &**x2) && expr_same(&**y1, &**y2),
        (ENode::Arithmetic(o1, x1, y1), ENode::Arithmetic(o2, x2, y2)) => *o1 == *o2 && expr_same(&**x1, &**x2) && expr_same(&**y1, &**y2),
        (ENode::Logical(o1, x1, y1), ENode::Logical(o2, x2, y2)) => *o1 == *o2 && expr_same(&**x1, &**x2) && expr_same(&**y1, &**y2),
        (ENode::Unary(o1, x), ENode::Unary(o2, y)) => *o1 == *o2 && expr_same(&**x, &**y),
        (ENode::List(xs), ENode::List(ys)) => {
            if xs.len() != ys.len() {
                return false;
            }
            let mut i: usize = 0;
            #[verifier::loop_isolation(false)]
            while i < xs.len()
                invariant
                    xs@.len() == ys@.len(),
                    i <= xs@.len(),
                    forall|j: int| 0 <= j < i ==> expr_eq(#[trigger] xs@[j], ys@[j]),
                decreases xs@.len() - i,
            {
                proof {
                    assert(decreases_to!(*xs => xs[i as int]));
                }
                if !expr_same(&xs[i], &ys[i]) {
                    return false;
                }
                i = i + 1;
            }
            true
        },
        (ENode::Cons(h1, t1), ENode::Cons(h2, t2)) => expr_same(&**h1, &**h2) && expr_same(&**t1, &**t2),
        (ENode::Match(x, cs), ENode::Match(y, ds)) => {
            if !expr_same(&**x, &**y) || cs.len() != ds.len() {
                return false;
            }
            let mut i: usize = 0;
            #[verifier::loop_isolation(false)]
            while i < cs.len()
                invariant
                    cs@.len() == ds@.len(),
                    i <= cs@.len(),
                    forall|j: int| 0 <= j < i ==> expr_eq(*(#[trigger] cs@[j]).val, *ds@[j].val) && expr_eq(*cs@[j].exp, *ds@[j].exp),
                decreases cs@.len() - i,
            {
                let c: &MatchCase = &cs[i];
                let d: &MatchCase = &ds[i];
                proof {
                    assert(decreases_to!(*cs => cs[i as int]));
                }
                if !(expr_same(&*c.val, &*d.val) && expr_same(&*c.exp, &*d.exp)) {
                    return false;
                }
                i = i + 1;
            }
            true
        },
        _ => false,
    }
}

/// Whether two statements are equal (see `stmt_eq`).
pub fn stmt_same(a: &Stmt, b: &Stmt) -> (r: bool)
    ensures
        r == stmt_eq(*a, *b),
    decreases a,
{
    if !a.ctx.same(&b.ctx) {
        return false;
    }
    match (&*a.s, &*b.s) {
        (SNode::Decl(x1, t1, y1), SNode::Decl(x2, t2, y2)) => expr_same(&**x1, &**x2) && t1.t.same(&t2.t) && expr_same(&**y1, &**y2),
        (SNode::Expr(x), SNode::Expr(y)) => expr_same(&**x, &**y),
        (SNode::TypeDecl(h1, d1), SNode::TypeDecl(h2, d2)) => {
            let names_eq = h1.n == h2.n && names_same(&h1.tvars, &h2.tvars);
            names_eq && dec_same(&**d1, &**d2)
        },
        _ => false,
    }
}

impl PartialEq for Expr {
    fn eq(&self, other: &Self) -> (r: bool) {
        expr_same(self, other)
    }
}

impl PartialEqSpecImpl for Expr {
    open spec fn obeys_eq_spec() -> bool {
        true
    }

    open spec fn eq_spec(&self, other: &Self) -> bool {
        expr_eq(*self, *other)
    }
}

impl PartialEq for Stmt {
    fn eq(&self, other: &Self) -> (r: bool) {
        stmt_same(self, other)
    }
}

impl PartialEqSpecImpl for Stmt {
    open spec fn obeys_eq_spec() -> bool {
        true
    }

    open spec fn eq_spec(&self, other: &Self) -> bool {
        stmt_eq(*self, *other)
    }
}

} // verus!
