//! Structural text of types in the form used by diagnostics
//! (`TypeFuncApplication(Int, [])`, `TypeVariable("a")`, ...).
use vstd::prelude::*;
use crate::types::{TypeFunc, Monotype, TFun, MType, views, lemma_app_view};
use crate::text::{push_char, push_str};
use vstd::string::StrSliceExecFns;

verus! {

/// The escape text for one character inside a quoted name.
pub open spec fn escape_char(c: char) -> Seq<char> {
    if c == '"' {
        seq!['\\', '"']
    } else if c == '\\' {
        seq!['\\', '\\']
    } else if c == '\n' {
        seq!['\\', 'n']
    } else if c == '\t' {
        seq!['\\', 't']
    } else if c == '\r' {
        seq!['\\', 'r']
    } else if c == '\0' {
        seq!['\\', '0']
    } else {
        seq![c]
    }
}

pub open spec fn escaped(s: Seq<char>) -> Seq<char>
    decreases s.len(),
{
    if s.len() == 0 {
        Seq::empty()
    } else {
        escaped(s.drop_last()) + escape_char(s.last())
    }
}

/// A name in double quotes, with quotes, backslashes and control characters escaped.
pub open spec fn quoted(s: Seq<char>) -> Seq<char> {
    seq!['"'] + escaped(s) + seq!['"']
}

pub open spec fn tfun_text(f: TFun) -> Seq<char> {
    match f {
        TFun::Infer => "Infer"@,
        TFun::Unit => "Unit"@,
        TFun::Int => "Int"@,
        TFun::Float => "Float"@,
        TFun::Bool => "Bool"@,
        TFun::Str => "Str"@,
        TFun::Fn => "Fn"@,
        TFun::List => "List"@,
        TFun::Enum(n) => "Enum("@ + quoted(n) + ")"@,
    }
}

pub open spec fn mtype_text(t: MType) -> Seq<char>
    decreases t,
{
    match t {
        MType::Var(v) => "TypeVariable("@ + quoted(v) + ")"@,
        MType::App(f, ts) => "TypeFuncApplication("@ + tfun_text(f) + ", "@ + "["@ + items_text(ts) + "]"@ + ")"@,
    }
}

pub open spec fn items_text(ts: Seq<MType>) -> Seq<char>
    decreases ts,
{
    if ts.len() == 0 {
        Seq::empty()
    } else if ts.len() == 1 {
        mtype_text(ts[0])
    } else {
        items_text(ts.drop_last()) + ", "@ + mtype_text(ts.last())
    }
}

/// A bracketed, comma-separated list of types.
pub open spec fn list_text(ts: Seq<MType>) -> Seq<char> {
    "["@ + items_text(ts) + "]"@
}

fn push_escape(out: &mut String, c: char)
    ensures
        final(out)@ == old(out)@ + escape_char(c),
{
    if c == '"' {
        push_char(out, '\\');
        push_char(out, '"');
    } else if c == '\\' {
        push_char(out, '\\');
        push_char(out, '\\');
    } else if c == '\n' {
        push_char(out, '\\');
        push_char(out, 'n');
    } else if c == '\t' {
        push_char(out, '\\');
        push_char(out, 't');
    } else if c == '\r' {
        push_char(out, '\\');
        push_char(out, 'r');
    } else if c == '\0' {
        push_char(out, '\\');
        push_char(out, '0');
    } else {
        push_char(out, c);
    }
    proof {
        assert(final(out)@ =~= old(out)@ + escape_char(c));
    }
}

/// Append the quoted form of `s`.
pub fn push_quoted(out: &mut String, s: &String)
    ensures
        final(out)@ == old(out)@ + quoted(s@),
{
    push_char(out, '"');
    let n = s.as_str().unicode_len();
    let mut i: usize = 0;
    let ghost start = out@;
    while i < n
        invariant
            n == s@.len(),
            i <= n,
            out@ == start + escaped(s@.take(i as int)),
        decreases n - i,
    {
        let c = s.as_str().get_char(i);
        push_escape(out, c);
        proof {
            assert(s@.take(i + 1).drop_last() =~= s@.take(i as int));
            assert(out@ =~= start + escaped(s@.take(i + 1)));
        }
        i = i + 1;
    }
    push_char(out, '"');
    proof {
        assert(s@.take(n as int) =~= s@);
        assert(out@ =~= old(out)@ + quoted(s@));
    }
}

impl TypeFunc {
    /// Append the structural text of this type function.
    pub fn push_text(&self, out: &mut String)
        ensures
            final(out)@ == old(out)@ + tfun_text(self@),
    {
        match self {
            TypeFunc::Infer => push_str(out, "Infer"),
            TypeFunc::Unit => push_str(out, "Unit"),
            TypeFunc::Int => push_str(out, "Int"),
            TypeFunc::Float => push_str(out, "Float"),
            TypeFunc::Bool => push_str(out, "Bool"),
            TypeFunc::Str => push_str(out, "Str"),
            TypeFunc::Fn => push_str(out, "Fn"),
            TypeFunc::List => push_str(out, "List"),
            TypeFunc::Enum(n) => {
                push_str(out, "Enum(");
                push_quoted(out, n);
                push_str(out, ")");
                proof {
                    assert(final(out)@ =~= old(out)@ + tfun_text(self@));
                }
            },
        }
    }
}

impl Monotype {
    /// Append the structural text of this type.
    pub fn push_text(&self, out: &mut String)
        ensures
            final(out)@ == old(out)@ + mtype_text(self@),
        decreases self,
    {
        match self {
            Monotype::TypeVariable(v) => {
                push_str(out, "TypeVariable(");
                push_quoted(out, v);
                push_str(out, ")");
                proof {
                    assert(final(out)@ =~= old(out)@ + mtype_text(self@));
                }
            },
            Monotype::TypeFuncApplication(f, ts) => {
                push_str(out, "TypeFuncApplication(");
                (**f).push_text(out);
                push_str(out, ", ");
                proof {
                    lemma_app_view(&**f, ts);
                    assert(self@ == MType::App((**f)@, views(ts@)));
                }
                push_list_text(ts, out);
                push_str(out, ")");
                proof {
                    assert(final(out)@ =~= old(out)@ + mtype_text(self@));
                }
            },
        }
    }
}

/// Append the bracketed list text of `ts`.
pub fn push_list_text(ts: &Vec<Monotype>, out: &mut String)
    ensures
        final(out)@ == old(out)@ + list_text(views(ts@)),
    decreases ts,
{
    let ghost tv = views(ts@);
    push_str(out, "[");
    let ghost start = out@;
    let mut i: usize = 0;
    while i < ts.len()
        invariant
            i <= ts@.len(),
            tv == views(ts@),
            out@ == start + items_text(tv.take(i as int)),
        decreases ts@.len() - i,
    {
        proof {
            assert(decreases_to!(*ts => ts[i as int]));
        }
        if i > 0 {
            push_str(out, ", ");
        }
        ts[i].push_text(out);
        proof {
            assert(tv.take(i + 1).drop_last() =~= tv.take(i as int));
            if i == 0 {
                assert(tv.take(1)[0] == tv[0]);
                assert(out@ =~= start + items_text(tv.take(i + 1)));
            } else {
                assert(tv.take(i + 1).last() == tv[i as int]);
                assert(out@ =~= start + items_text(tv.take(i + 1)));
            }
        }
        i = i + 1;
    }
    push_str(out, "]");
    proof {
        assert(tv.take(ts@.len() as int) =~= tv);
        assert(out@ =~= old(out)@ + list_text(tv));
    }
}

} // verus!
