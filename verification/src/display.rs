//! Rendering of types for human-readable output.
use vstd::prelude::*;
use crate::types::{Monotype, TypeFunc, MType, TFun, names, views, lemma_free_vars_all_step, free_vars_all};
use crate::text::{decimal, push_char, push_str, push_decimal_usize, lemma_decimal_injective, lemma_decimal_len};

verus! {

/// The names of `s` in the order of their first occurrence, each once.
pub open spec fn first_occurrences(s: Seq<Seq<char>>) -> Seq<Seq<char>>
    decreases s.len(),
{
    if s.len() == 0 {
        Seq::empty()
    } else {
        let d = first_occurrences(s.drop_last());
        if d.contains(s.last()) {
            d
        } else {
            d.push(s.last())
        }
    }
}

/// Position of the first occurrence of `v` in `s`, or -1.
pub open spec fn position(s: Seq<Seq<char>>, v: Seq<char>) -> int
    decreases s.len(),
{
    if s.len() == 0 {
        -1
    } else if s[0] == v {
        0
    } else {
        let p = position(s.drop_first(), v);
        if p < 0 {
            -1
        } else {
            p + 1
        }
    }
}

/// The `i`-th letter of the alphabet, cyclically.
pub open spec fn letter(i: nat) -> char {
    ((97 + i % 26) as u8) as char
}

/// The display name of the `i`-th distinct type variable: `'a` to `'z`,
/// then the letters again followed by `i / 26` in decimal.
pub open spec fn var_label(i: nat) -> Seq<char> {
    seq!['\'', letter(i)] + (if i >= 26 { decimal(i / 26) } else { Seq::empty() })
}

/// Distinct type variables get distinct display names: the labels of
/// different positions differ.
pub proof fn lemma_labels_distinct(i: nat, j: nat)
    requires
        i != j,
    ensures
        var_label(i) != var_label(j),
{
    let a = var_label(i);
    let b = var_label(j);
    assert(a[1] == letter(i));
    assert(b[1] == letter(j));
    if i % 26 != j % 26 {
        assert(letter(i) != letter(j));
    } else if i < 26 && j < 26 {
    } else if i < 26 || j < 26 {
        lemma_decimal_len(if i < 26 { j } else { i });
        assert(a.len() != b.len());
    } else {
        assert(i / 26 != j / 26) by (nonlinear_arith)
            requires
                i % 26 == j % 26,
                i != j,
        ;
        lemma_decimal_injective(i / 26, j / 26);
        if a == b {
            assert(a.subrange(2, a.len() as int) =~= decimal(i / 26));
            assert(b.subrange(2, b.len() as int) =~= decimal(j / 26));
        }
    }
}

/// The text of `t`, where the variables listed in `order` are shown by
/// their display names.
pub open spec fn render_spec(t: MType, order: Seq<Seq<char>>) -> Seq<char>
    decreases t,
{
    match t {
        MType::Var(v) => if position(order, v) >= 0 {
            var_label(position(order, v) as nat)
        } else {
            v
        },
        MType::App(f, ts) => match f {
            TFun::Infer => "_"@,
            TFun::Unit => "()"@,
            TFun::Int => "int"@,
            TFun::Float => "float"@,
            TFun::Bool => "bool"@,
            TFun::Str => "str"@,
            TFun::Fn => render_join(ts, order, " -> "@),
            TFun::List => if ts.len() > 0 {
                "["@ + render_spec(ts[0], order) + "]"@
            } else {
                "list"@
            },
            TFun::Enum(n) => if ts.len() == 0 {
                n
            } else {
                n + " "@ + render_join(ts, order, " "@)
            },
        },
    }
}

/// The texts of `ts` separated by `sep`.
pub open spec fn render_join(ts: Seq<MType>, order: Seq<Seq<char>>, sep: Seq<char>) -> Seq<char>
    decreases ts,
{
    if ts.len() == 0 {
        Seq::empty()
    } else if ts.len() == 1 {
        render_spec(ts[0], order)
    } else {
        render_join(ts.drop_last(), order, sep) + sep + render_spec(ts.last(), order)
    }
}

/// The first occurrence of the `i`-th name is where the scan finds it.
proof fn lemma_position(s: Seq<Seq<char>>, v: Seq<char>, i: int)
    requires
        0 <= i <= s.len(),
        forall|j: int| 0 <= j < i ==> s[j] != v,
    ensures
        i < s.len() && s[i] == v ==> position(s, v) == i,
        i == s.len() ==> position(s, v) == -1,
    decreases i,
{
    if i > 0 {
        lemma_position(s.drop_first(), v, i - 1);
    } else if s.len() > 0 {
    }
}

/// Append the display name of the `i`-th distinct variable.
fn push_label(i: usize, out: &mut String)
    ensures
        final(out)@ == old(out)@ + var_label(i as nat),
{
    let b: u8 = 97u8 + ((i % 26) as u8);
    push_char(out, '\'');
    push_char(out, b as char);
    if i >= 26 {
        push_decimal_usize(out, i / 26);
    }
    proof {
        assert(final(out)@ =~= old(out)@ + var_label(i as nat));
    }
}

/// Position of `name` in `order`, if present.
fn find_name(order: &Vec<String>, name: &String) -> (r: usize)
    ensures
        r <= order@.len(),
        r < order@.len() ==> position(names(order@), name@) == r,
        r == order@.len() ==> position(names(order@), name@) == -1,
{
    let mut i: usize = 0;
    while i < order.len()
        invariant
            i <= order@.len(),
            forall|j: int| 0 <= j < i ==> names(order@)[j] != name@,
        decreases order@.len() - i,
    {
        if order[i] == *name {
            proof {
                lemma_position(names(order@), name@, i as int);
            }
            return i;
        }
        i = i + 1;
    }
    proof {
        lemma_position(names(order@), name@, i as int);
    }
    i
}

/// The names of `vs` in the order of their first occurrence, each once.
fn first_names(vs: &Vec<String>) -> (r: Vec<String>)
    ensures
        names(r@) == first_occurrences(names(vs@)),
{
    let mut out: Vec<String> = Vec::new();
    let mut i: usize = 0;
    while i < vs.len()
        invariant
            i <= vs@.len(),
            names(out@) == first_occurrences(names(vs@).take(i as int)),
        decreases vs@.len() - i,
    {
        let k = find_name(&out, &vs[i]);
        let ghost before = out@;
        let ghost ns = names(vs@);
        proof {
            assert(ns.take(i + 1).drop_last() =~= ns.take(i as int));
            assert(ns.take(i + 1).last() == vs@[i as int]@);
            let d = names(before);
            if d.contains(vs@[i as int]@) {
                let q = choose|q: int| 0 <= q < d.len() && d[q] == vs@[i as int]@;
                lemma_position_found(d, vs@[i as int]@, q);
            } else if k < out@.len() {
                assert(d[k as int] == vs@[i as int]@) by {
                    lemma_position_sound(d, vs@[i as int]@);
                }
            }
        }
        if k == out.len() {
            out.push(vs[i].clone());
            proof {
                assert(names(out@) =~= names(before).push(vs@[i as int]@));
            }
        }
        i = i + 1;
    }
    proof {
        assert(names(vs@).take(vs@.len() as int) =~= names(vs@));
    }
    out
}

/// A name that occurs has a position.
proof fn lemma_position_found(s: Seq<Seq<char>>, v: Seq<char>, q: int)
    requires
        0 <= q < s.len(),
        s[q] == v,
    ensures
        position(s, v) >= 0,
    decreases s.len(),
{
    if s[0] != v {
        lemma_position_found(s.drop_first(), v, q - 1);
    }
}

/// A position holds the name.
proof fn lemma_position_sound(s: Seq<Seq<char>>, v: Seq<char>)
    ensures
        position(s, v) >= 0 ==> position(s, v) < s.len() && s[position(s, v)] == v,
    decreases s.len(),
{
    if s.len() > 0 && s[0] != v {
        lemma_position_sound(s.drop_first(), v);
    }
}

/// Append the text of `t` (see `render_spec`).
fn push_rendered(t: &Monotype, order: &Vec<String>, out: &mut String)
    ensures
        final(out)@ == old(out)@ + render_spec(t@, names(order@)),
    decreases t,
{
    match t {
        Monotype::TypeVariable(v) => {
            let k = find_name(order, v);
            if k < order.len() {
                push_label(k, out);
            } else {
                push_str(out, v.as_str());
            }
        },
        Monotype::TypeFuncApplication(f, args) => {
            proof {
                crate::types::lemma_app_view(&**f, args);
            }
            match &**f {
                TypeFunc::Infer => push_str(out, "_"),
                TypeFunc::Unit => push_str(out, "()"),
                TypeFunc::Int => push_str(out, "int"),
                TypeFunc::Float => push_str(out, "float"),
                TypeFunc::Bool => push_str(out, "bool"),
                TypeFunc::Str => push_str(out, "str"),
                TypeFunc::Fn => push_joined(args, order, " -> ", out),
                TypeFunc::List => {
                    if args.len() > 0 {
                        proof {
                            assert(decreases_to!(*args => args[0]));
                        }
                        push_str(out, "[");
                        push_rendered(&args[0], order, out);
                        push_str(out, "]");
                        proof {
                            assert(views(args@)[0] == args@[0]@);
                            assert(final(out)@ =~= old(out)@ + render_spec(t@, names(order@)));
                        }
                    } else {
                        push_str(out, "list");
                    }
                },
                TypeFunc::Enum(name) => {
                    if args.len() == 0 {
                        push_str(out, name.as_str());
                    } else {
                        push_str(out, name.as_str());
                        push_str(out, " ");
                        push_joined(args, order, " ", out);
                        proof {
                            assert(final(out)@ =~= old(out)@ + render_spec(t@, names(order@)));
                        }
                    }
                },
            }
        },
    }
}

/// Append the texts of `ts` separated by `sep` (see `render_join`).
fn push_joined(ts: &Vec<Monotype>, order: &Vec<String>, sep: &str, out: &mut String)
    ensures
        final(out)@ == old(out)@ + render_join(views(ts@), names(order@), sep@),
    decreases ts,
{
    let ghost tv = views(ts@);
    let ghost start = old(out)@;
    let mut i: usize = 0;
    #[verifier::loop_isolation(false)]
    while i < ts.len()
        invariant
            i <= ts@.len(),
            out@ == start + render_join(tv.take(i as int), names(order@), sep@),
        decreases ts@.len() - i,
    {
        proof {
            assert(decreases_to!(*ts => ts[i as int]));
            assert(tv.take(i + 1).drop_last() =~= tv.take(i as int));
            assert(tv.take(i + 1).last() == ts@[i as int]@);
        }
        if i > 0 {
            push_str(out, sep);
        }
        push_rendered(&ts[i], order, out);
        proof {
            if i == 0 {
                assert(tv.take(1)[0] == ts@[0]@);
            }
            assert(out@ =~= start + render_join(tv.take(i + 1), names(order@), sep@));
        }
        i = i + 1;
    }
    proof {
        assert(tv.take(ts@.len() as int) =~= tv);
    }
}

/// Render `t`, showing its type variables as `'a`, `'b`, ... in the order of
/// their first occurrence; the names restart with each call.
pub fn render_type(t: &Monotype) -> (r: String)
    ensures
        r@ == render_spec(t@, first_occurrences(t@.free_vars())),
{
    let fv = t.free_variables();
    let order = first_names(&fv);
    let mut out = String::new();
    push_rendered(t, &order, &mut out);
    proof {
        assert(out@ =~= render_spec(t@, names(order@)));
    }
    out
}

} // verus!
