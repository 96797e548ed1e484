//! Lowering of a checked program towards MLIR: the module container with
//! its registries of declared types, and the dispatch points of the
//! lowering. No MLIR is emitted here: statements lower to nothing, and
//! lowering an expression or a type, or running a module, reports that it
//! is not available.
use vstd::prelude::*;
use crate::ast::{Program, Stmt, Expr, ENode, MatchCase, TypeHeader, TypeDec};
use crate::types::{Monotype, MType, names, views, mono_map};
use crate::declarations::DecView;
use crate::names::NameMap;
use crate::text::{text, push_str};

verus! {

/// Layout of a declared enum: its type parameters and, in declaration
/// order, its variants with their payload field types.
pub struct EnumLayout {
    pub params: Vec<String>,
    pub variants: Vec<(String, Vec<Monotype>)>,
}

/// Mathematical form of an enum layout.
pub open spec fn layout_view(l: EnumLayout) -> (Seq<Seq<char>>, Seq<(Seq<char>, Seq<MType>)>) {
    (names(l.params@), Seq::new(l.variants@.len(), |i: int| (l.variants@[i].0@, views(l.variants@[i].1@))))
}

/// An MLIR module under construction.
pub struct Module {
    functions: usize,
    enums: NameMap<EnumLayout>,
    aliases: NameMap<Monotype>,
    constructors: NameMap<(String, usize, usize)>,
}

impl Module {
    /// Number of top-level functions emitted so far.
    pub closed spec fn spec_function_count(&self) -> nat {
        self.functions as nat
    }

    /// The declared enums and their layouts.
    pub closed spec fn spec_enums(&self) -> Map<Seq<char>, (Seq<Seq<char>>, Seq<(Seq<char>, Seq<MType>)>)> {
        Map::new(|k: Seq<char>| self.enums.map().contains_key(k), |k: Seq<char>| layout_view(self.enums.map()[k]))
    }

    /// The declared aliases and their right-hand sides.
    pub closed spec fn spec_aliases(&self) -> Map<Seq<char>, MType> {
        mono_map(self.aliases)
    }

    /// The enum constructors: enum name, variant index and arity.
    pub closed spec fn spec_constructors(&self) -> Map<Seq<char>, (Seq<char>, nat, nat)> {
        Map::new(
            |k: Seq<char>| self.constructors.map().contains_key(k),
            |k: Seq<char>| (self.constructors.map()[k].0@, self.constructors.map()[k].1 as nat, self.constructors.map()[k].2 as nat),
        )
    }

    /// Create an empty module.
    pub fn new() -> (m: Module)
        ensures
            m.spec_function_count() == 0,
            m.spec_enums() == Map::<Seq<char>, (Seq<Seq<char>>, Seq<(Seq<char>, Seq<MType>)>)>::empty(),
            m.spec_aliases() == Map::<Seq<char>, MType>::empty(),
            m.spec_constructors() == Map::<Seq<char>, (Seq<char>, nat, nat)>::empty(),
    {
        let m = Module { functions: 0, enums: NameMap::new(), aliases: NameMap::new(), constructors: NameMap::new() };
        proof {
            assert(m.spec_enums() =~= Map::<Seq<char>, (Seq<Seq<char>>, Seq<(Seq<char>, Seq<MType>)>)>::empty());
            assert(m.spec_aliases() =~= Map::<Seq<char>, MType>::empty());
            assert(m.spec_constructors() =~= Map::<Seq<char>, (Seq<char>, nat, nat)>::empty());
        }
        m
    }

    /// Number of top-level functions emitted so far.
    pub fn function_count(&self) -> (n: usize)
        ensures
            n == self.spec_function_count(),
    {
        self.functions
    }

    /// The module in MLIR textual form; empty, as nothing is emitted.
    pub fn dump(&self) -> (s: String)
        ensures
            s@ == Seq::<char>::empty(),
    {
        String::new()
    }
}

/// Lower a checked program; every statement lowers to nothing, so the
/// result is an empty module: no function and no registered type.
pub fn lower(prog: &Program) -> (r: Result<Module, String>)
    ensures
        r matches Ok(m) && {
            &&& m.spec_function_count() == 0
            &&& m.spec_enums() == Map::<Seq<char>, (Seq<Seq<char>>, Seq<(Seq<char>, Seq<MType>)>)>::empty()
            &&& m.spec_aliases() == Map::<Seq<char>, MType>::empty()
            &&& m.spec_constructors() == Map::<Seq<char>, (Seq<char>, nat, nat)>::empty()
        },
{
    let mut module = Module::new();
    let mut i: usize = 0;
    while i < prog.stmts.len()
        invariant
            i <= prog.stmts@.len(),
            module.spec_function_count() == 0,
            module.spec_enums() == Map::<Seq<char>, (Seq<Seq<char>>, Seq<(Seq<char>, Seq<MType>)>)>::empty(),
            module.spec_aliases() == Map::<Seq<char>, MType>::empty(),
            module.spec_constructors() == Map::<Seq<char>, (Seq<char>, nat, nat)>::empty(),
        decreases prog.stmts@.len() - i,
    {
        match lower_stmt(&prog.stmts[i], &mut module) {
            Ok(()) => {},
            Err(e) => {
                return Err(e);
            },
        }
        i = i + 1;
    }
    Ok(module)
}

/// Lower one statement: nothing is emitted or registered, so the module is
/// left as it was.
fn lower_stmt(stmt: &Stmt, module: &mut Module) -> (r: Result<(), String>)
    ensures
        r is Ok,
        *final(module) == *old(module),
{
    let _ = stmt;
    Ok(())
}

/// Expression lowering is not available.
pub fn lower_expr(expr: &Expr) -> (r: Result<(), String>)
    ensures
        r matches Err(m) && m@ == "codegen: expression lowering not implemented"@,
{
    let _ = expr;
    Err(text("codegen: expression lowering not implemented"))
}

/// Type lowering is not available.
pub fn lower_type(typ: &Monotype) -> (r: Result<(), String>)
    ensures
        r matches Err(m) && m@ == "codegen: type lowering not implemented"@,
{
    let _ = typ;
    Err(text("codegen: type lowering not implemented"))
}

/// Running a module is not available.
pub fn execute(module: &Module) -> (r: Result<i64, String>)
    ensures
        r matches Err(m) && m@ == "codegen: jit execution not implemented"@,
{
    let _ = module;
    Err(text("codegen: jit execution not implemented"))
}

pub open spec fn redeclared_msg(name: Seq<char>) -> Seq<char> {
    "codegen: type `"@ + name + "` is already declared"@
}

/// The constructors of the first `i` variants, registered in order over
/// `c`: each variant name maps to the enum name, its index and its arity.
pub open spec fn ctor_map(c: Map<Seq<char>, (Seq<char>, nat, nat)>, name: Seq<char>, vs: Seq<(Seq<char>, Seq<MType>)>, i: int) -> Map<Seq<char>, (Seq<char>, nat, nat)>
    decreases i,
{
    if i <= 0 || i > vs.len() {
        c
    } else {
        ctor_map(c, name, vs, i - 1).insert(vs[i - 1].0, (name, (i - 1) as nat, vs[i - 1].1.len()))
    }
}

/// Registering a type declaration: a name already declared as an enum or
/// an alias is refused; an enum records its layout (the header's type
/// variables and the variants' payload types) and its constructors; an
/// alias records its right-hand side.
pub open spec fn type_decl_spec(
    name: Seq<char>,
    tvars: Seq<Seq<char>>,
    dec: DecView,
    enums: Map<Seq<char>, (Seq<Seq<char>>, Seq<(Seq<char>, Seq<MType>)>)>,
    aliases: Map<Seq<char>, MType>,
    ctors: Map<Seq<char>, (Seq<char>, nat, nat)>,
) -> Result<(Map<Seq<char>, (Seq<Seq<char>>, Seq<(Seq<char>, Seq<MType>)>)>, Map<Seq<char>, MType>, Map<Seq<char>, (Seq<char>, nat, nat)>), Seq<char>> {
    if enums.contains_key(name) || aliases.contains_key(name) {
        Err(redeclared_msg(name))
    } else {
        match dec {
            DecView::Enum(vs) => Ok((enums.insert(name, (tvars, vs)), aliases, ctor_map(ctors, name, vs, vs.len() as int))),
            DecView::Alias(rhs) => Ok((enums, aliases.insert(name, rhs), ctors)),
        }
    }
}

/// Register a type declaration in `module` (see `type_decl_spec`); no MLIR
/// is emitted for it.
pub fn lower_type_decl(header: &TypeHeader, dec: &TypeDec, module: &mut Module) -> (r: Result<(), String>)
    ensures
        match type_decl_spec(header@.0, header@.1, dec@, old(module).spec_enums(), old(module).spec_aliases(), old(module).spec_constructors()) {
            Ok((es, al, cs)) => r is Ok && final(module).spec_enums() == es && final(module).spec_aliases() == al
                && final(module).spec_constructors() == cs && final(module).spec_function_count() == old(module).spec_function_count(),
            Err(m) => r matches Err(e) && e@ == m && *final(module) == *old(module),
        },
{
    if module.enums.contains_key(header.n.as_str()) || module.aliases.contains_key(header.n.as_str()) {
        let mut msg = text("codegen: type `");
        push_str(&mut msg, header.n.as_str());
        push_str(&mut msg, "` is already declared");
        proof {
            reveal_strlit("codegen: type `");
            reveal_strlit("` is already declared");
            assert(module.spec_enums().contains_key(header@.0) <==> module.enums.map().contains_key(header@.0));
        }
        return Err(msg);
    }
    proof {
        assert(!module.spec_enums().contains_key(header@.0));
    }
    match dec {
        TypeDec::Enum(variants) => {
            let ghost vs = dec@->Enum_0;
            let ghost c0 = module.spec_constructors();
            let mut layout_variants: Vec<(String, Vec<Monotype>)> = Vec::new();
            let mut i: usize = 0;
            while i < variants.len()
                invariant
                    i <= variants@.len(),
                    vs == Seq::new(variants@.len(), |j: int| variants@[j]@),
                    layout_variants@.len() == i,
                    forall|j: int| 0 <= j < i ==> (#[trigger] layout_variants@[j]).0@ == vs[j].0 && views(layout_variants@[j].1@) == vs[j].1,
                    module.spec_constructors() == ctor_map(c0, header@.0, vs, i as int),
                    module.spec_enums() == old(module).spec_enums(),
                    module.spec_aliases() == old(module).spec_aliases(),
                    module.spec_function_count() == old(module).spec_function_count(),
                decreases variants@.len() - i,
            {
                let v = &variants[i];
                let mut fields: Vec<Monotype> = Vec::new();
                let mut k: usize = 0;
                while k < v.tparams.len()
                    invariant
                        k <= v.tparams@.len(),
                        fields@.len() == k,
                        forall|j: int| 0 <= j < k ==> (#[trigger] fields@[j])@ == v.tparams@[j].t@,
                    decreases v.tparams@.len() - k,
                {
                    fields.push(v.tparams[k].t.duplicate());
                    k = k + 1;
                }
                proof {
                    assert(views(fields@) =~= vs[i as int].1);
                }
                let ghost before = module.constructors.map();
                module.constructors.insert(v.n.clone(), (header.n.clone(), i, v.tparams.len()));
                proof {
                    assert(module.spec_constructors() =~= ctor_map(c0, header@.0, vs, i + 1));
                }
                layout_variants.push((v.n.clone(), fields));
                i = i + 1;
            }
            let layout = EnumLayout { params: crate::types::copy_names(&header.tvars), variants: layout_variants };
            let ghost before = module.enums.map();
            module.enums.insert(header.n.clone(), layout);
            proof {
                assert(layout_view(layout).1 =~= vs);
                assert(module.spec_enums() =~= old(module).spec_enums().insert(header@.0, (header@.1, vs)));
            }
            Ok(())
        },
        TypeDec::Alias(rhs) => {
            module.aliases.insert(header.n.clone(), rhs.t.duplicate());
            proof {
                assert(module.spec_aliases() =~= old(module).spec_aliases().insert(header@.0, rhs.t@));
            }
            Ok(())
        },
    }
}

/// How case `index` of a match is lowered.
#[derive(Debug, Clone, Copy, PartialEq, Eq, Structural)]
pub enum CaseKind {
    /// A variable pattern that is no constructor: it matches anything.
    CatchAll,
    /// Any other pattern, tested against the scrutinee.
    Pattern,
}

pub open spec fn catch_all_msg(name: Seq<char>) -> Seq<char> {
    "codegen: catch-all pattern `"@ + name + "` must be the last case"@
}

/// The kind of case `index` among `cases`, given the declared constructors:
/// past the last case the match is not exhaustive; a variable pattern that
/// names no constructor is a catch-all and must be the last case.
pub open spec fn case_kind_spec(cases: Seq<MatchCase>, ctors: Map<Seq<char>, (Seq<char>, nat, nat)>, index: int) -> Result<CaseKind, Seq<char>> {
    if index >= cases.len() {
        Err("codegen: non-exhaustive match"@)
    } else {
        match *cases[index].val.e {
            ENode::Variable(n) => if ctors.contains_key(n@) {
                Ok(CaseKind::Pattern)
            } else if index + 1 != cases.len() {
                Err(catch_all_msg(n@))
            } else {
                Ok(CaseKind::CatchAll)
            },
            _ => Ok(CaseKind::Pattern),
        }
    }
}

pub open spec fn kind_result(r: Result<CaseKind, String>) -> Result<CaseKind, Seq<char>> {
    match r {
        Ok(k) => Ok(k),
        Err(m) => Err(m@),
    }
}

/// Classify case `index` of a match (see `case_kind_spec`).
pub fn match_case_kind(cases: &Vec<MatchCase>, index: usize, module: &Module) -> (r: Result<CaseKind, String>)
    requires
        index <= cases@.len(),
    ensures
        kind_result(r) == case_kind_spec(cases@, module.spec_constructors(), index as int),
{
    if index == cases.len() {
        let m = text("codegen: non-exhaustive match");
        proof {
            reveal_strlit("codegen: non-exhaustive match");
        }
        return Err(m);
    }
    match &*cases[index].val.e {
        ENode::Variable(name) => {
            if module.constructors.contains_key(name.as_str()) {
                Ok(CaseKind::Pattern)
            } else if index + 1 != cases.len() {
                let mut msg = text("codegen: catch-all pattern `");
                push_str(&mut msg, name.as_str());
                push_str(&mut msg, "` must be the last case");
                proof {
                    reveal_strlit("codegen: catch-all pattern `");
                    reveal_strlit("` must be the last case");
                }
                Err(msg)
            } else {
                Ok(CaseKind::CatchAll)
            }
        },
        _ => Ok(CaseKind::Pattern),
    }
}

/// What a binding of the environment around an abstraction holds: a
/// lowered value, or a lambda kept for specialisation at each use.
#[derive(Debug, Clone, Copy, PartialEq, Eq, Structural)]
pub enum EnvKind {
    Value,
    Abstraction,
}

pub open spec fn capture_msg(name: Seq<char>) -> Seq<char> {
    "codegen: cannot capture lambda binding `"@ + name + "` in a closure yet"@
}

/// The environment bindings as mathematical values.
pub open spec fn env_view(env: Seq<(String, EnvKind)>) -> Seq<(Seq<char>, EnvKind)> {
    Seq::new(env.len(), |i: int| (env[i].0@, env[i].1))
}

/// The captures of an abstraction whose body has the free variables
/// `free`, taken from the bindings `env` in the order given: each value
/// binding whose name is free is captured, and the first lambda binding
/// whose name is free is refused.
pub open spec fn captures_spec(env: Seq<(Seq<char>, EnvKind)>, free: Seq<Seq<char>>) -> Result<Seq<Seq<char>>, Seq<char>>
    decreases env.len(),
{
    if env.len() == 0 {
        Ok(Seq::empty())
    } else {
        match captures_spec(env.drop_last(), free) {
            Err(m) => Err(m),
            Ok(cs) => {
                let (n, k) = env.last();
                if !free.contains(n) {
                    Ok(cs)
                } else if k == EnvKind::Value {
                    Ok(cs.push(n))
                } else {
                    Err(capture_msg(n))
                }
            },
        }
    }
}

pub open spec fn names_result(r: Result<Vec<String>, String>) -> Result<Seq<Seq<char>>, Seq<char>> {
    match r {
        Ok(v) => Ok(names(v@)),
        Err(m) => Err(m@),
    }
}

/// Whether `name` is among `v`.
fn has_name(v: &Vec<String>, name: &String) -> (b: bool)
    ensures
        b == names(v@).contains(name@),
{
    let mut i: usize = 0;
    while i < v.len()
        invariant
            i <= v@.len(),
            forall|j: int| 0 <= j < i ==> v@[j]@ != name@,
        decreases v@.len() - i,
    {
        if v[i] == *name {
            proof {
                assert(names(v@)[i as int] == name@);
            }
            return true;
        }
        i = i + 1;
    }
    proof {
        if names(v@).contains(name@) {
            let j = choose|j: int| 0 <= j < names(v@).len() && names(v@)[j] == name@;
            assert(v@[j]@ == name@);
        }
    }
    false
}

/// The names an abstraction captures from the bindings `env` around it,
/// given the free variables `free` of its body (see `captures_spec`).
pub fn closure_captures(env: &Vec<(String, EnvKind)>, free: &Vec<String>) -> (r: Result<Vec<String>, String>)
    ensures
        names_result(r) == captures_spec(env_view(env@), names(free@)),
{
    let ghost ev = env_view(env@);
    let mut out: Vec<String> = Vec::new();
    let mut i: usize = 0;
    proof {
        assert(ev.take(0) =~= Seq::<(Seq<char>, EnvKind)>::empty());
        assert(names(out@) =~= Seq::<Seq<char>>::empty());
    }
    while i < env.len()
        invariant
            i <= env@.len(),
            ev == env_view(env@),
            captures_spec(ev.take(i as int), names(free@)) == Ok::<Seq<Seq<char>>, Seq<char>>(names(out@)),
        decreases env@.len() - i,
    {
        let ghost pre = ev.take(i as int);
        proof {
            assert(ev.take(i + 1).drop_last() =~= pre);
            assert(ev.take(i + 1).last() == (env@[i as int].0@, env@[i as int].1));
        }
        let (name, kind) = &env[i];
        if has_name(free, name) {
            match kind {
                EnvKind::Value => {
                    let ghost before = out@;
                    out.push(name.clone());
                    proof {
                        assert(names(out@) =~= names(before).push(name@));
                    }
                },
                EnvKind::Abstraction => {
                    let mut msg = text("codegen: cannot capture lambda binding `");
                    push_str(&mut msg, name.as_str());
                    push_str(&mut msg, "` in a closure yet");
                    proof {
                        reveal_strlit("codegen: cannot capture lambda binding `");
                        reveal_strlit("` in a closure yet");
                        lemma_captures_stop(ev, names(free@), i as int + 1);
                    }
                    return Err(msg);
                },
            }
        }
        i = i + 1;
    }
    proof {
        assert(ev.take(env@.len() as int) =~= ev);
    }
    Ok(out)
}

/// Once a prefix of the bindings is refused, the whole is refused with the
/// same message.
proof fn lemma_captures_stop(env: Seq<(Seq<char>, EnvKind)>, free: Seq<Seq<char>>, k: int)
    requires
        0 <= k <= env.len(),
        captures_spec(env.take(k), free) is Err,
    ensures
        captures_spec(env, free) == captures_spec(env.take(k), free),
    decreases env.len() - k,
{
    if k < env.len() {
        assert(env.take(k + 1).drop_last() =~= env.take(k));
        lemma_captures_stop(env, free, k + 1);
    } else {
        assert(env.take(k) =~= env);
    }
}

} // verus!
