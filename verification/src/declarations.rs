//! Elaboration of written types (aliases, inferred holes) and of type
//! declarations.
use vstd::prelude::*;
use crate::types::{
    Monotype, TypeFunc, TypeContext, TypeAlias, CtxView, AliasView, MType, TFun, UnificationError, names,
    views, mono_map, typevar_name, lemma_app_view, lemma_mono_map_insert, sizes, fresh_names, gen_bind,
};
use crate::names::NameMap;
use crate::text::{decimal, text, push_str, push_decimal_usize};
use crate::debug_text::quoted;
use crate::ast::{Type, TypeHeader, TypeDec, Variant};

verus! {

/// The mapping that pairs `ps[i]` with `xs[i]`; a later pair for the same
/// name replaces an earlier one.
pub open spec fn zip_map(ps: Seq<Seq<char>>, xs: Seq<MType>) -> Map<Seq<char>, MType>
    decreases ps.len(),
{
    if ps.len() == 0 || xs.len() == 0 {
        Map::empty()
    } else if ps.len() != xs.len() {
        Map::empty()
    } else {
        zip_map(ps.drop_last(), xs.drop_last()).insert(ps.last(), xs.last())
    }
}

pub open spec fn recursive_alias_msg(name: Seq<char>) -> Seq<char> {
    "Recursive type alias: "@ + name
}

pub open spec fn alias_arity_msg(name: Seq<char>, expected: nat, got: nat) -> Seq<char> {
    "Type alias `"@ + name + "` expects "@ + decimal(expected) + " argument(s), got "@ + decimal(got)
}

/// The aliases not yet being expanded.
pub open spec fn pending(aliases: Map<Seq<char>, AliasView>, visited: Seq<Seq<char>>) -> Set<Seq<char>> {
    aliases.dom().difference(visited.to_set())
}

/// Expansion of a written type: each `_` (inferred) becomes the next fresh
/// type variable, and each applied alias is replaced by its right-hand side
/// with the parameters instantiated by the (expanded) arguments, then expanded
/// in turn. An alias met again while it is being expanded is an error, as is
/// an alias applied to the wrong number of arguments. Arguments are expanded
/// left to right before their type function is examined. The result pairs
/// the counter after the fresh variables with the expanded type.
pub open spec fn expand_spec(t: MType, counter: nat, aliases: Map<Seq<char>, AliasView>, visited: Seq<Seq<char>>) -> (nat, Result<MType, Seq<char>>)
    decreases pending(aliases, visited).len(), t.size(), 0nat,
{
    match t {
        MType::Var(_) => (counter, Ok(t)),
        MType::App(f, args) => {
            let (c1, r) = expand_args(args, counter, aliases, visited);
            match r {
                Err(e) => (c1, Err(e)),
                Ok(xs) => match f {
                    TFun::Infer => (c1 + 1, Ok(MType::Var(typevar_name(c1)))),
                    TFun::Enum(name) => if !aliases.contains_key(name) {
                        (c1, Ok(MType::App(f, xs)))
                    } else if visited.contains(name) {
                        (c1, Err(recursive_alias_msg(name)))
                    } else if xs.len() != aliases[name].params.len() {
                        (c1, Err(alias_arity_msg(name, aliases[name].params.len(), xs.len())))
                    } else if !aliases.dom().finite() {
                        (c1, Err(Seq::empty()))
                    } else {
                        proof {
                            lemma_pending_shrinks(aliases, visited, name);
                        }
                        expand_spec(
                            aliases[name].rhs.instantiate(zip_map(aliases[name].params, xs)),
                            c1,
                            aliases,
                            visited.push(name),
                        )
                    },
                    _ => (c1, Ok(MType::App(f, xs))),
                },
            }
        },
    }
}

/// Expansion of a list of types, left to right, stopping at the first error.
pub open spec fn expand_args(ts: Seq<MType>, counter: nat, aliases: Map<Seq<char>, AliasView>, visited: Seq<Seq<char>>) -> (nat, Result<Seq<MType>, Seq<char>>)
    decreases pending(aliases, visited).len(), sizes(ts), 1nat,
{
    if ts.len() == 0 {
        (counter, Ok(Seq::empty()))
    } else {
        proof {
            lemma_size_positive(ts.last());
        }
        let (c1, r) = expand_args(ts.drop_last(), counter, aliases, visited);
        match r {
            Err(e) => (c1, Err(e)),
            Ok(xs) => {
                let (c2, r2) = expand_spec(ts.last(), c1, aliases, visited);
                match r2 {
                    Err(e) => (c2, Err(e)),
                    Ok(x) => (c2, Ok(xs.push(x))),
                }
            },
        }
    }
}

pub proof fn lemma_size_positive(t: MType)
    ensures
        t.size() >= 1,
{
}

pub proof fn lemma_pending_shrinks(aliases: Map<Seq<char>, AliasView>, visited: Seq<Seq<char>>, name: Seq<char>)
    requires
        aliases.dom().finite(),
        aliases.contains_key(name),
        !visited.contains(name),
    ensures
        pending(aliases, visited.push(name)).len() < pending(aliases, visited).len(),
{
    let p = pending(aliases, visited);
    assert(p.contains(name));
    assert(pending(aliases, visited.push(name)) =~= p.remove(name)) by {
        assert forall|k: Seq<char>| visited.push(name).to_set().contains(k) <==> visited.to_set().contains(k) || k == name by {
            if visited.push(name).contains(k) {
                let i = choose|i: int| 0 <= i < visited.push(name).len() && visited.push(name)[i] == k;
                if i < visited.len() {
                    assert(visited[i] == k);
                }
            }
            if visited.contains(k) {
                let i = choose|i: int| 0 <= i < visited.len() && visited[i] == k;
                assert(visited.push(name)[i] == k);
            }
            if k == name {
                assert(visited.push(name)[visited.len() as int] == k);
            }
        }
    }
    vstd::set_lib::lemma_len_subset(p, aliases.dom());
    vstd::set::axiom_set_remove_len(p, name);
}

/// Expansion only moves the fresh-variable counter forward.
pub proof fn lemma_expand_counter(t: MType, counter: nat, aliases: Map<Seq<char>, AliasView>, visited: Seq<Seq<char>>)
    ensures
        expand_spec(t, counter, aliases, visited).0 >= counter,
    decreases pending(aliases, visited).len(), t.size(), 0nat,
{
    match t {
        MType::Var(_) => {},
        MType::App(f, args) => {
            lemma_args_counter(args, counter, aliases, visited);
            let (c1, r) = expand_args(args, counter, aliases, visited);
            if let Ok(xs) = r {
                if let TFun::Enum(name) = f {
                    if aliases.contains_key(name) && !visited.contains(name) && xs.len() == aliases[name].params.len() && aliases.dom().finite() {
                        lemma_pending_shrinks(aliases, visited, name);
                        lemma_expand_counter(aliases[name].rhs.instantiate(zip_map(aliases[name].params, xs)), c1, aliases, visited.push(name));
                    }
                }
            }
        },
    }
}

pub proof fn lemma_args_counter(ts: Seq<MType>, counter: nat, aliases: Map<Seq<char>, AliasView>, visited: Seq<Seq<char>>)
    ensures
        expand_args(ts, counter, aliases, visited).0 >= counter,
    decreases pending(aliases, visited).len(), sizes(ts), 1nat,
{
    if ts.len() > 0 {
        lemma_size_positive(ts.last());
        lemma_args_counter(ts.drop_last(), counter, aliases, visited);
        let (c1, r) = expand_args(ts.drop_last(), counter, aliases, visited);
        if r is Ok {
            lemma_expand_counter(ts.last(), c1, aliases, visited);
        }
    }
}

/// A prefix of the arguments is expanded with no more fresh variables than
/// all of them, and an error in the prefix is the error of the whole.
pub proof fn lemma_args_prefix(ts: Seq<MType>, j: int, counter: nat, aliases: Map<Seq<char>, AliasView>, visited: Seq<Seq<char>>)
    requires
        0 <= j <= ts.len(),
    ensures
        expand_args(ts, counter, aliases, visited).0 >= expand_args(ts.take(j), counter, aliases, visited).0,
        expand_args(ts.take(j), counter, aliases, visited).1 is Err ==> expand_args(ts, counter, aliases, visited) == expand_args(ts.take(j), counter, aliases, visited),
    decreases ts.len() - j,
{
    if j == ts.len() {
        assert(ts.take(j) =~= ts);
    } else {
        let d = ts.drop_last();
        assert(d.take(j) =~= ts.take(j));
        lemma_args_prefix(d, j, counter, aliases, visited);
        let (c1, r) = expand_args(d, counter, aliases, visited);
        if r is Ok {
            lemma_expand_counter(ts.last(), c1, aliases, visited);
        }
    }
}

/// Expanding an application uses at least the fresh variables of its arguments.
pub proof fn lemma_expand_ge_args(t: MType, counter: nat, aliases: Map<Seq<char>, AliasView>, visited: Seq<Seq<char>>)
    requires
        t is App,
    ensures
        expand_spec(t, counter, aliases, visited).0 >= expand_args(t->App_1, counter, aliases, visited).0,
{
    let args = t->App_1;
    let (c1, r) = expand_args(args, counter, aliases, visited);
    if let Ok(xs) = r {
        if let TFun::Enum(name) = t->App_0 {
            if aliases.contains_key(name) && !visited.contains(name) && xs.len() == aliases[name].params.len() && aliases.dom().finite() {
                lemma_expand_counter(aliases[name].rhs.instantiate(zip_map(aliases[name].params, xs)), c1, aliases, visited.push(name));
            }
        }
    }
}

/// Map `params[i]` to `args[i]` for every position (later names win).
fn zip_mapping(params: &Vec<String>, args: &Vec<Monotype>) -> (m: NameMap<Monotype>)
    requires
        params@.len() == args@.len(),
    ensures
        mono_map(m) == zip_map(names(params@), views(args@)),
{
    let mut m: NameMap<Monotype> = NameMap::new();
    let mut i: usize = 0;
    proof {
        assert(names(params@).take(0) =~= Seq::<Seq<char>>::empty());
        assert(mono_map(m) =~= Map::<Seq<char>, MType>::empty());
    }
    while i < params.len()
        invariant
            params@.len() == args@.len(),
            i <= params@.len(),
            mono_map(m) == zip_map(names(params@).take(i as int), views(args@).take(i as int)),
        decreases params@.len() - i,
    {
        let ghost before = m;
        let v = args[i].duplicate();
        let ghost vv = v;
        m.insert(params[i].clone(), v);
        proof {
            lemma_mono_map_insert(before, m, params@[i as int]@, vv);
            let ps = names(params@).take(i + 1);
            let xs = views(args@).take(i + 1);
            assert(ps.drop_last() =~= names(params@).take(i as int));
            assert(xs.drop_last() =~= views(args@).take(i as int));
            assert(ps.last() == params@[i as int]@);
            assert(xs.last() == args@[i as int]@);
        }
        i = i + 1;
    }
    proof {
        assert(names(params@).take(params@.len() as int) =~= names(params@));
        assert(views(args@).take(args@.len() as int) =~= views(args@));
    }
    m
}

/// The result of an elaboration step in mathematical form.
pub open spec fn mono_result(r: Result<Monotype, UnificationError>) -> Result<MType, Seq<char>> {
    match r {
        Ok(t) => Ok(t@),
        Err(e) => Err(e.message@),
    }
}

/// The context after the counter moved to `c`.
pub open spec fn with_counter(ctx: CtxView, c: nat) -> CtxView {
    CtxView { counter: c, ..ctx }
}

/// Expand `typ` (see `expand_spec`), drawing fresh variables from `context`.
pub fn expand(typ: &Monotype, context: &mut TypeContext, visited: &mut Vec<String>) -> (r: Result<Monotype, UnificationError>)
    requires
        expand_spec(typ@, old(context)@.counter, old(context)@.aliases, names(old(visited)@)).0 <= u32::MAX,
    ensures
        (final(context)@.counter, mono_result(r)) == expand_spec(typ@, old(context)@.counter, old(context)@.aliases, names(old(visited)@)),
        final(context)@ == with_counter(old(context)@, final(context)@.counter),
        names(final(visited)@) == names(old(visited)@),
        r matches Err(e) ==> e.pos is None,
    decreases pending(old(context)@.aliases, names(old(visited)@)).len(), typ@.size(), 0nat,
{
    let ghost c0 = context@;
    let ghost vis = names(visited@);
    proof {
        context.lemma_finite();
        lemma_expand_counter(typ@, c0.counter, c0.aliases, vis);
    }
    match typ {
        Monotype::TypeVariable(_) => Ok(typ.duplicate()),
        Monotype::TypeFuncApplication(func, args) => {
            let ghost av = views(args@);
            proof {
                lemma_app_view(&**func, args);
            }
            let mut expanded_args: Vec<Monotype> = Vec::new();
            let mut i: usize = 0;
            proof {
                assert(av.take(0) =~= Seq::<MType>::empty());
                assert(views(expanded_args@) =~= Seq::<MType>::empty());
                lemma_expand_ge_args(typ@, c0.counter, c0.aliases, vis);
            }
            while i < args.len()
                invariant
                    av == views(args@),
                    i <= args@.len(),
                    c0 == old(context)@,
                    vis == names(old(visited)@),
                    typ@ == MType::App((**func)@, av),
                    names(visited@) == vis,
                    context@ == with_counter(c0, context@.counter),
                    c0.aliases.dom().finite(),
                    expand_args(av.take(i as int), c0.counter, c0.aliases, vis) == (context@.counter, Ok::<Seq<MType>, Seq<char>>(views(expanded_args@))),
                    expand_args(av, c0.counter, c0.aliases, vis).0 <= u32::MAX,
                decreases args@.len() - i,
            {
                proof {
                    assert(decreases_to!(*args => args[i as int]));
                    assert(av.take(i + 1).drop_last() =~= av.take(i as int));
                    assert(av.take(i + 1).last() == av[i as int]);
                    lemma_args_prefix(av, i + 1, c0.counter, c0.aliases, vis);
                    crate::unification::lemma_sizes_bound(av, i as int);
                }
                let x = expand(&args[i], context, visited);
                match x {
                    Err(e) => {
                        return Err(e);
                    },
                    Ok(x) => {
                        let ghost before = expanded_args@;
                        expanded_args.push(x);
                        proof {
                            assert(views(expanded_args@) =~= views(before).push(x@));
                        }
                    },
                }
                i = i + 1;
            }
            proof {
                assert(av.take(args@.len() as int) =~= av);
            }
            match &**func {
                TypeFunc::Infer => {
                    let v = context.new_typevar();
                    Ok(Monotype::TypeVariable(v))
                },
                TypeFunc::Enum(name) => {
                    match context.get_alias(name.as_str()) {
                        None => Ok(Monotype::enum_app(name.clone(), expanded_args)),
                        Some(alias) => {
                            let mut k: usize = 0;
                            let mut seen = false;
                            while k < visited.len()
                                invariant
                                    k <= visited@.len(),
                                    seen <==> exists|j: int| 0 <= j < k && visited@[j]@ == name@,
                                decreases visited@.len() - k,
                            {
                                if visited[k] == *name {
                                    seen = true;
                                }
                                k = k + 1;
                            }
                            proof {
                                if seen {
                                    let j = choose|j: int| 0 <= j < k && visited@[j]@ == name@;
                                    assert(names(visited@)[j] == name@);
                                }
                                if names(visited@).contains(name@) {
                                    let j = choose|j: int| 0 <= j < names(visited@).len() && names(visited@)[j] == name@;
                                    assert(visited@[j]@ == name@);
                                }
                            }
                            if seen {
                                let mut msg = text("Recursive type alias: ");
                                push_str(&mut msg, name.as_str());
                                return Err(UnificationError::new(msg));
                            }
                            if expanded_args.len() != alias.params.len() {
                                let mut msg = text("Type alias `");
                                push_str(&mut msg, name.as_str());
                                push_str(&mut msg, "` expects ");
                                push_decimal_usize(&mut msg, alias.params.len());
                                push_str(&mut msg, " argument(s), got ");
                                push_decimal_usize(&mut msg, expanded_args.len());
                                proof {
                                    assert(msg@ =~= alias_arity_msg(name@, names(alias.params@).len(), views(expanded_args@).len()));
                                }
                                return Err(UnificationError::new(msg));
                            }
                            let mut sub = zip_mapping(&alias.params, &expanded_args);
                            let instantiated = alias.rhs.instantiate(&mut sub);
                            visited.push(name.clone());
                            proof {
                                assert(names(visited@) =~= vis.push(name@));
                                lemma_pending_shrinks(c0.aliases, vis, name@);
                            }
                            let result = expand(&instantiated, context, visited);
                            let ghost before_pop = visited@;
                            visited.pop();
                            proof {
                                assert(names(before_pop) == vis.push(name@));
                                assert(visited@ == before_pop.drop_last());
                            }
                            proof {
                                assert forall|k: int| 0 <= k < vis.len() implies names(visited@)[k] == vis[k] by {
                                    assert(names(before_pop)[k] == vis.push(name@)[k]);
                                }
                                assert(names(visited@) =~= vis);
                            }
                            result
                        },
                    }
                },
                _ => {
                    let f = (**func).duplicate();
                    proof {
                        lemma_app_view(&f, &expanded_args);
                    }
                    Ok(Monotype::TypeFuncApplication(Box::new(f), expanded_args))
                },
            }
        },
    }
}

} // verus!

verus! {

/// Expand a written type with no alias being expanded yet.
pub fn type_to_typefn(typ: &Type, context: &mut TypeContext) -> (r: Result<Monotype, UnificationError>)
    requires
        expand_spec(typ.t@, old(context)@.counter, old(context)@.aliases, Seq::empty()).0 <= u32::MAX,
    ensures
        (final(context)@.counter, mono_result(r)) == expand_spec(typ.t@, old(context)@.counter, old(context)@.aliases, Seq::empty()),
        final(context)@ == with_counter(old(context)@, final(context)@.counter),
        r matches Err(e) ==> e.pos is None,
{
    let mut visited: Vec<String> = Vec::new();
    proof {
        assert(names(visited@) =~= Seq::<Seq<char>>::empty());
    }
    expand(&typ.t, context, &mut visited)
}

/// Comma-separated quoted names.
pub open spec fn quoted_items(ns: Seq<Seq<char>>) -> Seq<char>
    decreases ns.len(),
{
    if ns.len() == 0 {
        Seq::empty()
    } else if ns.len() == 1 {
        quoted(ns[0])
    } else {
        quoted_items(ns.drop_last()) + ", "@ + quoted(ns.last())
    }
}

pub open spec fn undeclared_msg(ns: Seq<Seq<char>>) -> Seq<char> {
    "Undeclared type variable(s): "@ + "["@ + quoted_items(ns) + "]"@
}

/// The variables of `t` that are not in `declared`, in order.
pub open spec fn undeclared(t: MType, declared: Seq<Seq<char>>) -> Seq<Seq<char>> {
    t.free_vars().filter(|x: Seq<char>| !declared.contains(x))
}

pub open spec fn check_spec(t: MType, declared: Seq<Seq<char>>) -> Result<(), Seq<char>> {
    if undeclared(t, declared).len() == 0 {
        Ok(())
    } else {
        Err(undeclared_msg(undeclared(t, declared)))
    }
}

pub open spec fn unit_result(r: Result<(), UnificationError>) -> Result<(), Seq<char>> {
    match r {
        Ok(_) => Ok(()),
        Err(e) => Err(e.message@),
    }
}

/// Fail when `typ` has type variables outside `declared`.
pub fn check_undeclared(typ: &Monotype, declared: &Vec<String>) -> (r: Result<(), UnificationError>)
    ensures
        unit_result(r) == check_spec(typ@, names(declared@)),
        r matches Err(e) ==> e.pos is None,
{
    let undeclared_vars = crate::types::diff(typ.free_variables(), crate::types::copy_names(declared));
    proof {
        let p1 = |x: Seq<char>| !names(declared@).contains(x);
        assert(names(undeclared_vars@) == undeclared(typ@, names(declared@)));
    }
    if undeclared_vars.len() == 0 {
        Ok(())
    } else {
        let mut msg = text("Undeclared type variable(s): ");
        push_str(&mut msg, "[");
        let ghost ns = names(undeclared_vars@);
        let ghost start = msg@;
        let mut i: usize = 0;
        while i < undeclared_vars.len()
            invariant
                ns == names(undeclared_vars@),
                i <= undeclared_vars@.len(),
                msg@ == start + quoted_items(ns.take(i as int)),
            decreases undeclared_vars@.len() - i,
        {
            if i > 0 {
                push_str(&mut msg, ", ");
            }
            crate::debug_text::push_quoted(&mut msg, &undeclared_vars[i]);
            proof {
                assert(ns.take(i + 1).drop_last() =~= ns.take(i as int));
                if i == 0 {
                    assert(ns.take(1)[0] == ns[0]);
                }
                assert(msg@ =~= start + quoted_items(ns.take(i + 1)));
            }
            i = i + 1;
        }
        push_str(&mut msg, "]");
        proof {
            assert(ns.take(ns.len() as int) =~= ns);
            assert(msg@ =~= undeclared_msg(ns));
        }
        Err(UnificationError::new(msg))
    }
}

} // verus!

verus! {

/// Mathematical form of a type definition.
pub enum DecView {
    Alias(MType),
    Enum(Seq<(Seq<char>, Seq<MType>)>),
}

/// The written types of a list, as mathematical types.
pub open spec fn type_views(ts: Seq<Type>) -> Seq<MType> {
    Seq::new(ts.len(), |i: int| ts[i].t@)
}

impl View for Variant {
    type V = (Seq<char>, Seq<MType>);

    open spec fn view(&self) -> (Seq<char>, Seq<MType>) {
        (self.n@, type_views(self.tparams@))
    }
}

impl View for TypeDec {
    type V = DecView;

    open spec fn view(&self) -> DecView {
        match self {
            TypeDec::Alias(t) => DecView::Alias(t.t@),
            TypeDec::Enum(vs) => DecView::Enum(Seq::new(vs@.len(), |i: int| vs@[i]@)),
        }
    }
}

pub open spec fn as_vars(ns: Seq<Seq<char>>) -> Seq<MType> {
    Seq::new(ns.len(), |i: int| MType::Var(ns[i]))
}

pub open spec fn enum_is_alias_msg(n: Seq<char>) -> Seq<char> {
    "`"@ + n + "` is already declared as a type alias"@
}

pub open spec fn enum_redeclared_msg(n: Seq<char>) -> Seq<char> {
    "Enum `"@ + n + "` is already declared"@
}

pub open spec fn alias_redeclared_msg(n: Seq<char>) -> Seq<char> {
    "Type alias `"@ + n + "` is already declared"@
}

pub open spec fn alias_is_enum_msg(n: Seq<char>) -> Seq<char> {
    "`"@ + n + "` is already declared as an enum"@
}

/// The constructor type of a variant: its fields, instantiated by `mapping`
/// and expanded from the last one to the first, each wrapped as the
/// argument of a function returning the type built so far.
pub open spec fn fields_spec(fs: Seq<MType>, j: int, ctor: MType, counter: nat, aliases: Map<Seq<char>, AliasView>, mapping: Map<Seq<char>, MType>) -> (nat, Result<MType, Seq<char>>)
    decreases j,
{
    if j <= 0 || j > fs.len() {
        (counter, Ok(ctor))
    } else {
        let (c1, r) = expand_spec(fs[j - 1].instantiate(mapping), counter, aliases, Seq::empty());
        match r {
            Err(e) => (c1, Err(e)),
            Ok(x) => fields_spec(fs, j - 1, MType::App(TFun::Fn, seq![x, ctor]), c1, aliases, mapping),
        }
    }
}

/// Declare the constructors of the variants from position `i` on: each
/// constructor type must use only the declared type variables, and is bound
/// to the variant name, generalised over the context.
pub open spec fn variants_spec(vs: Seq<(Seq<char>, Seq<MType>)>, i: int, ctx: CtxView, enum_typ: MType, mapping: Map<Seq<char>, MType>, fresh: Seq<Seq<char>>) -> (CtxView, Result<(), Seq<char>>)
    decreases vs.len() - i,
{
    if i < 0 || i >= vs.len() {
        (ctx, Ok(()))
    } else {
        let (c1, r) = fields_spec(vs[i].1, vs[i].1.len() as int, enum_typ, ctx.counter, ctx.aliases, mapping);
        let ctx1 = with_counter(ctx, c1);
        match r {
            Err(e) => (ctx1, Err(e)),
            Ok(ctor) => match check_spec(ctor, fresh) {
                Err(e) => (ctx1, Err(e)),
                Ok(_) => variants_spec(
                    vs,
                    i + 1,
                    gen_bind(ctx1, vs[i].0, ctor),
                    enum_typ,
                    mapping,
                    fresh,
                ),
            },
        }
    }
}

/// Processing of a type declaration: the header's type variables get fresh
/// names; an enum is registered with one constructor per variant; an alias
/// is registered with its right-hand side over the fresh names. A name may
/// be declared only once, as an enum or as an alias.
pub open spec fn decl_spec(name: Seq<char>, tvars: Seq<Seq<char>>, dec: DecView, ctx: CtxView) -> (CtxView, Result<(), Seq<char>>) {
    let fresh = fresh_names(ctx.counter, tvars.len());
    let mapping = zip_map(tvars, as_vars(fresh));
    let c1 = with_counter(ctx, ctx.counter + tvars.len());
    match dec {
        DecView::Enum(vs) => if c1.aliases.contains_key(name) {
            (c1, Err(enum_is_alias_msg(name)))
        } else if c1.enums.contains(name) {
            (c1, Err(enum_redeclared_msg(name)))
        } else {
            variants_spec(vs, 0, CtxView { enums: c1.enums.insert(name), ..c1 }, MType::App(TFun::Enum(name), as_vars(fresh)), mapping, fresh)
        },
        DecView::Alias(rhs) => if c1.aliases.contains_key(name) {
            (c1, Err(alias_redeclared_msg(name)))
        } else if c1.enums.contains(name) {
            (c1, Err(alias_is_enum_msg(name)))
        } else {
            let el = rhs.instantiate(mapping);
            match check_spec(el, fresh) {
                Err(e) => (c1, Err(e)),
                Ok(_) => (CtxView { aliases: c1.aliases.insert(name, AliasView { params: fresh, rhs: el }), ..c1 }, Ok(())),
            }
        },
    }
}

pub proof fn lemma_fields_counter(fs: Seq<MType>, j: int, ctor: MType, counter: nat, aliases: Map<Seq<char>, AliasView>, mapping: Map<Seq<char>, MType>)
    ensures
        fields_spec(fs, j, ctor, counter, aliases, mapping).0 >= counter,
    decreases j,
{
    if 0 < j <= fs.len() {
        lemma_expand_counter(fs[j - 1].instantiate(mapping), counter, aliases, Seq::empty());
        let (c1, r) = expand_spec(fs[j - 1].instantiate(mapping), counter, aliases, Seq::empty());
        if let Ok(x) = r {
            lemma_fields_counter(fs, j - 1, MType::App(TFun::Fn, seq![x, ctor]), c1, aliases, mapping);
        }
    }
}

pub proof fn lemma_variants_counter(vs: Seq<(Seq<char>, Seq<MType>)>, i: int, ctx: CtxView, enum_typ: MType, mapping: Map<Seq<char>, MType>, fresh: Seq<Seq<char>>)
    ensures
        variants_spec(vs, i, ctx, enum_typ, mapping, fresh).0.counter >= ctx.counter,
        variants_spec(vs, i, ctx, enum_typ, mapping, fresh).0.aliases == ctx.aliases,
    decreases vs.len() - i,
{
    if 0 <= i < vs.len() {
        lemma_fields_counter(vs[i].1, vs[i].1.len() as int, enum_typ, ctx.counter, ctx.aliases, mapping);
        let (c1, r) = fields_spec(vs[i].1, vs[i].1.len() as int, enum_typ, ctx.counter, ctx.aliases, mapping);
        let ctx1 = with_counter(ctx, c1);
        if let Ok(ctor) = r {
            if check_spec(ctor, fresh) is Ok {
                lemma_variants_counter(vs, i + 1, gen_bind(ctx1, vs[i].0, ctor), enum_typ, mapping, fresh);
            }
        }
    }
}

pub proof fn lemma_decl_counter(name: Seq<char>, tvars: Seq<Seq<char>>, dec: DecView, ctx: CtxView)
    ensures
        decl_spec(name, tvars, dec, ctx).0.counter >= ctx.counter + tvars.len(),
{
    let fresh = fresh_names(ctx.counter, tvars.len());
    let mapping = zip_map(tvars, as_vars(fresh));
    let c1 = with_counter(ctx, ctx.counter + tvars.len());
    if let DecView::Enum(vs) = dec {
        lemma_variants_counter(vs, 0, CtxView { enums: c1.enums.insert(name), ..c1 }, MType::App(TFun::Enum(name), as_vars(fresh)), mapping, fresh);
    }
}

} // verus!

verus! {

impl View for TypeHeader {
    type V = (Seq<char>, Seq<Seq<char>>);

    open spec fn view(&self) -> (Seq<char>, Seq<Seq<char>>) {
        (self.n@, names(self.tvars@))
    }
}

/// Build the constructor type of `variant` (see `fields_spec`).
fn constructor_type(variant: &Variant, enum_typ: &Monotype, mapping: &mut NameMap<Monotype>, context: &mut TypeContext) -> (r: Result<Monotype, UnificationError>)
    requires
        fields_spec(variant@.1, variant@.1.len() as int, enum_typ@, old(context)@.counter, old(context)@.aliases, mono_map(*old(mapping))).0 <= u32::MAX,
    ensures
        (final(context)@.counter, mono_result(r)) == fields_spec(variant@.1, variant@.1.len() as int, enum_typ@, old(context)@.counter, old(context)@.aliases, mono_map(*old(mapping))),
        final(context)@ == with_counter(old(context)@, final(context)@.counter),
        *final(mapping) == *old(mapping),
        r matches Err(e) ==> e.pos is None,
{
    let ghost c0 = context@;
    let ghost fs = variant@.1;
    let ghost m = mono_map(*mapping);
    let mut ctor = enum_typ.duplicate();
    let mut j: usize = variant.tparams.len();
    while j > 0
        invariant
            fs == type_views(variant.tparams@),
            j <= fs.len(),
            c0 == old(context)@,
            m == mono_map(*old(mapping)),
            *mapping == *old(mapping),
            context@ == with_counter(c0, context@.counter),
            fields_spec(fs, fs.len() as int, enum_typ@, c0.counter, c0.aliases, m)
                == fields_spec(fs, j as int, ctor@, context@.counter, c0.aliases, m),
            fields_spec(fs, j as int, ctor@, context@.counter, c0.aliases, m).0 <= u32::MAX,
        decreases j,
    {
        j = j - 1;
        let inst = variant.tparams[j].t.instantiate(mapping);
        let mut visited: Vec<String> = Vec::new();
        proof {
            assert(names(visited@) =~= Seq::<Seq<char>>::empty());
            assert(fs[j as int] == variant.tparams@[j as int].t@);
            let (c1, r) = expand_spec(inst@, context@.counter, c0.aliases, Seq::empty());
            if let Ok(x) = r {
                lemma_fields_counter(fs, j as int, MType::App(TFun::Fn, seq![x, ctor@]), c1, c0.aliases, m);
            }
        }
        let expanded = expand(&inst, context, &mut visited);
        match expanded {
            Err(e) => {
                return Err(e);
            },
            Ok(x) => {
                let mut v: Vec<Monotype> = Vec::new();
                v.push(x);
                v.push(ctor);
                proof {
                    assert(views(v@) =~= seq![x@, ctor@]);
                }
                ctor = Monotype::func(v);
            },
        }
    }
    Ok(ctor)
}

/// Register a type declaration in `context` (see `decl_spec`).
pub fn handle_type_decl(header: &TypeHeader, dec: &TypeDec, context: &mut TypeContext) -> (r: Result<(), UnificationError>)
    requires
        decl_spec(header@.0, header@.1, dec@, old(context)@).0.counter <= u32::MAX,
    ensures
        (final(context)@, unit_result(r)) == decl_spec(header@.0, header@.1, dec@, old(context)@),
        r matches Err(e) ==> e.pos is None,
{
    let ghost c0 = context@;
    let ghost tv = header@.1;
    let ghost fresh = fresh_names(c0.counter, tv.len());
    let ghost mp = zip_map(tv, as_vars(fresh));
    proof {
        lemma_decl_counter(header@.0, tv, dec@, c0);
    }
    let mut mapping: NameMap<Monotype> = NameMap::new();
    let mut fresh_vars: Vec<Monotype> = Vec::new();
    let mut fresh_names_v: Vec<String> = Vec::new();
    let mut i: usize = 0;
    proof {
        assert(mono_map(mapping) =~= zip_map(tv.take(0), as_vars(fresh).take(0)));
        assert(names(fresh_names_v@) =~= fresh.take(0));
        assert(views(fresh_vars@) =~= as_vars(fresh).take(0));
    }
    while i < header.tvars.len()
        invariant
            tv == names(header.tvars@),
            fresh == fresh_names(c0.counter, tv.len()),
            c0 == old(context)@,
            i <= tv.len(),
            c0.counter + tv.len() <= u32::MAX,
            context@ == with_counter(c0, (c0.counter + i) as nat),
            names(fresh_names_v@) == fresh.take(i as int),
            views(fresh_vars@) == as_vars(fresh).take(i as int),
            mono_map(mapping) == zip_map(tv.take(i as int), as_vars(fresh).take(i as int)),
        decreases tv.len() - i,
    {
        let fresh_name = context.new_typevar();
        let ghost fnm = fresh_name@;
        let fresh_var = Monotype::var(fresh_name.clone());
        let ghost before = mapping;
        let dup = fresh_var.duplicate();
        let ghost dv = dup;
        mapping.insert(header.tvars[i].clone(), dup);
        let ghost fv_before = fresh_vars@;
        let ghost fn_before = fresh_names_v@;
        fresh_vars.push(fresh_var);
        fresh_names_v.push(fresh_name);
        proof {
            lemma_mono_map_insert(before, mapping, header.tvars@[i as int]@, dv);
            assert(tv.take(i + 1).drop_last() =~= tv.take(i as int));
            assert(as_vars(fresh).take(i + 1).drop_last() =~= as_vars(fresh).take(i as int));
            assert(fnm == fresh[i as int]);
            assert(names(fresh_names_v@) =~= names(fn_before).push(fnm));
            assert(names(fresh_names_v@) =~= fresh.take(i + 1));
            assert(views(fresh_vars@) =~= as_vars(fresh).take(i + 1));
        }
        i = i + 1;
    }
    proof {
        assert(tv.take(tv.len() as int) =~= tv);
        assert(as_vars(fresh).take(tv.len() as int) =~= as_vars(fresh));
        assert(fresh.take(tv.len() as int) =~= fresh);
    }
    match dec {
        TypeDec::Enum(variants) => {
            if context.get_alias(header.n.as_str()).is_some() {
                let mut msg = text("`");
                push_str(&mut msg, header.n.as_str());
                push_str(&mut msg, "` is already declared as a type alias");
                return Err(UnificationError::new(msg));
            }
            if context.has_enum_name(header.n.as_str()) {
                let mut msg = text("Enum `");
                push_str(&mut msg, header.n.as_str());
                push_str(&mut msg, "` is already declared");
                return Err(UnificationError::new(msg));
            }
            context.add_enum_name(header.n.clone());
            let enum_typ = Monotype::enum_app(header.n.clone(), fresh_vars);
            let ghost vs = dec@->Enum_0;
            let ghost cstart = context@;
            proof {
                assert(vs == Seq::new(variants@.len(), |q: int| variants@[q]@));
                assert(decl_spec(header@.0, header@.1, dec@, old(context)@) == variants_spec(vs, 0, cstart, enum_typ@, mp, fresh));
            }
            let mut k: usize = 0;
            while k < variants.len()
                invariant
                    vs == Seq::new(variants@.len(), |q: int| variants@[q]@),
                    k <= vs.len(),
                    mono_map(mapping) == mp,
                    names(fresh_names_v@) == fresh,
                    decl_spec(header@.0, header@.1, dec@, old(context)@) == variants_spec(vs, k as int, context@, enum_typ@, mp, fresh),
                    variants_spec(vs, k as int, context@, enum_typ@, mp, fresh).0.counter <= u32::MAX,
                decreases vs.len() - k,
            {
                let variant = &variants[k];
                proof {
                    assert(vs[k as int] == variant@);
                    lemma_fields_counter(variant@.1, variant@.1.len() as int, enum_typ@, context@.counter, context@.aliases, mp);
                    let (c1, r) = fields_spec(variant@.1, variant@.1.len() as int, enum_typ@, context@.counter, context@.aliases, mp);
                    let ctx1 = with_counter(context@, c1);
                    if let Ok(ctor) = r {
                        if check_spec(ctor, fresh) is Ok {
                            lemma_variants_counter(vs, k + 1, gen_bind(ctx1, vs[k as int].0, ctor), enum_typ@, mp, fresh);
                        }
                    }
                }
                let ctor = match constructor_type(variant, &enum_typ, &mut mapping, context) {
                    Ok(c) => c,
                    Err(e) => {
                        return Err(e);
                    },
                };
                match check_undeclared(&ctor, &fresh_names_v) {
                    Ok(()) => {},
                    Err(e) => {
                        return Err(e);
                    },
                }
                let g = context.generalise(&ctor);
                context.add(variant.n.clone(), g);
                k = k + 1;
            }
            Ok(())
        },
        TypeDec::Alias(rhs) => {
            if context.get_alias(header.n.as_str()).is_some() {
                let mut msg = text("Type alias `");
                push_str(&mut msg, header.n.as_str());
                push_str(&mut msg, "` is already declared");
                return Err(UnificationError::new(msg));
            }
            if context.has_enum_name(header.n.as_str()) {
                let mut msg = text("`");
                push_str(&mut msg, header.n.as_str());
                push_str(&mut msg, "` is already declared as an enum");
                return Err(UnificationError::new(msg));
            }
            let elaborated = rhs.t.instantiate(&mut mapping);
            match check_undeclared(&elaborated, &fresh_names_v) {
                Ok(()) => {},
                Err(e) => {
                    return Err(e);
                },
            }
            let alias = TypeAlias { params: fresh_names_v, rhs: elaborated };
            context.add_alias(header.n.clone(), alias);
            Ok(())
        },
    }
}

} // verus!
