//! The decisions of the interactive loop: what a line of input asks for,
//! what the last checked statement yields, and how a function result is
//! reported. Reading, parsing, compiling and printing happen around them.
use vstd::prelude::*;
use vstd::string::StringSliceAdditionalSpecFns;
use crate::ast::{Stmt, SNode, ENode, Program};
use crate::types::{TypeContext, UnificationError};
use crate::declarations::unit_result;
use crate::statements::{program_spec, prog_ctx, stmt_typed, decide_statements};
use crate::ast::stmt_same_shape;
use crate::types::{Monotype, TypeFunc, MType, TFun};
use crate::display::{render_type, render_spec, first_occurrences};
use crate::text::{text, push_str};

verus! {

/// Whether `c` has the Unicode `White_Space` property: tab through
/// carriage return, space, U+0085, U+00A0, U+1680, U+2000 to U+200A,
/// U+2028, U+2029, U+202F, U+205F and U+3000.
pub open spec fn is_white(c: char) -> bool {
    let n = c as u32;
    ||| 0x09 <= n && n <= 0x0D
    ||| n == 0x20
    ||| n == 0x85
    ||| n == 0xA0
    ||| n == 0x1680
    ||| 0x2000 <= n && n <= 0x200A
    ||| n == 0x2028
    ||| n == 0x2029
    ||| n == 0x202F
    ||| n == 0x205F
    ||| n == 0x3000
}

/// Number of white characters at the start of `s`.
pub open spec fn lead(s: Seq<char>) -> nat
    decreases s.len(),
{
    if s.len() > 0 && is_white(s[0]) {
        1 + lead(s.drop_first())
    } else {
        0
    }
}

/// Number of white characters at the end of `s`.
pub open spec fn trail(s: Seq<char>) -> nat
    decreases s.len(),
{
    if s.len() > 0 && is_white(s.last()) {
        1 + trail(s.drop_last())
    } else {
        0
    }
}

/// `s` without its leading and trailing white space, as `str::trim` gives.
pub open spec fn trimmed(s: Seq<char>) -> Seq<char> {
    if lead(s) == s.len() {
        Seq::empty()
    } else {
        s.subrange(lead(s) as int, s.len() - trail(s))
    }
}

/// What a line of input asks for.
pub enum ReplInput {
    /// Nothing but white space: prompt again.
    Skip,
    /// `exit`: leave the loop.
    Exit,
    /// Source text to parse and check.
    Source(String),
}

/// The meaning of a line: blank lines are skipped, `exit` (white space
/// around it aside) ends the loop, anything else is source text, trimmed.
pub open spec fn input_spec(line: Seq<char>) -> Option<Option<Seq<char>>> {
    if trimmed(line).len() == 0 {
        None
    } else if trimmed(line) == "exit"@ {
        Some(None)
    } else {
        Some(Some(trimmed(line)))
    }
}

pub open spec fn input_view(r: ReplInput) -> Option<Option<Seq<char>>> {
    match r {
        ReplInput::Skip => None,
        ReplInput::Exit => Some(None),
        ReplInput::Source(s) => Some(Some(s@)),
    }
}

fn is_white_exec(c: char) -> (b: bool)
    ensures
        b == is_white(c),
{
    let n = c as u32;
    (0x09 <= n && n <= 0x0D) || n == 0x20 || n == 0x85 || n == 0xA0 || n == 0x1680
        || (0x2000 <= n && n <= 0x200A) || n == 0x2028 || n == 0x2029 || n == 0x202F
        || n == 0x205F || n == 0x3000
}

proof fn lemma_lead(s: Seq<char>, i: int)
    requires
        0 <= i <= s.len(),
        forall|j: int| 0 <= j < i ==> is_white(s[j]),
    ensures
        i == s.len() || !is_white(s[i]) ==> lead(s) == i,
        lead(s) <= s.len(),
    decreases i,
{
    if i > 0 {
        lemma_lead(s.drop_first(), i - 1);
    } else if s.len() > 0 && is_white(s[0]) {
        lemma_lead_bound(s);
    }
}

proof fn lemma_lead_bound(s: Seq<char>)
    ensures
        lead(s) <= s.len(),
        lead(s) < s.len() ==> !is_white(s[lead(s) as int]),
        forall|j: int| 0 <= j < lead(s) ==> is_white(s[j]),
    decreases s.len(),
{
    if s.len() > 0 && is_white(s[0]) {
        lemma_lead_bound(s.drop_first());
        assert forall|j: int| 0 <= j < lead(s) implies is_white(s[j]) by {
            if j > 0 {
                assert(s[j] == s.drop_first()[j - 1]);
            }
        }
    }
}

proof fn lemma_trail(s: Seq<char>, k: int)
    requires
        0 <= k <= s.len(),
        forall|j: int| s.len() - k <= j < s.len() ==> is_white(s[j]),
    ensures
        k == s.len() || !is_white(s[s.len() - k - 1]) ==> trail(s) == k,
    decreases k,
{
    if k > 0 {
        assert forall|j: int| s.drop_last().len() - (k - 1) <= j < s.drop_last().len() implies is_white(s.drop_last()[j]) by {
            assert(s.drop_last()[j] == s[j]);
        }
        lemma_trail(s.drop_last(), k - 1);
    }
}

/// Classify a line of input (see `input_spec`).
pub fn read_input(line: &str) -> (r: ReplInput)
    ensures
        input_view(r) == input_spec(line@),
{
    let n = line.unicode_len();
    let mut i: usize = 0;
    while i < n && is_white_exec(line.get_char(i))
        invariant
            n == line@.len(),
            i <= n,
            forall|j: int| 0 <= j < i ==> is_white(line@[j]),
        decreases n - i,
    {
        i = i + 1;
    }
    proof {
        lemma_lead(line@, i as int);
    }
    if i == n {
        return ReplInput::Skip;
    }
    let mut k: usize = 0;
    while k < n - i && is_white_exec(line.get_char(n - 1 - k))
        invariant
            n == line@.len(),
            i < n,
            k <= n - i,
            forall|j: int| n - k <= j < n ==> is_white(line@[j]),
        decreases n - i - k,
    {
        k = k + 1;
    }
    proof {
        if k == n - i {
            assert(!is_white(line@[i as int]));
        }
        lemma_trail(line@, k as int);
    }
    let t = line.substring_char(i, n - k);
    let s = text(t);
    let exit = text("exit");
    proof {
        reveal_strlit("exit");
    }
    if s == exit {
        ReplInput::Exit
    } else {
        ReplInput::Source(s)
    }
}

/// What the last statement of a checked program yields.
#[derive(Debug, Clone, Copy, PartialEq, Eq, Structural)]
pub enum LastKind {
    /// An expression: its value is shown.
    Expr,
    /// A declaration of a function: only its type is shown.
    DeclFn,
    /// A declaration of another value: the bound name is read back.
    DeclScalar,
    /// Anything else.
    Other,
}

/// The last statement's type, kind, and, for a declaration of a named
/// non-function value, the name to read back with its type.
pub open spec fn last_spec(ss: Seq<Stmt>) -> (Option<MType>, LastKind, Option<(Seq<char>, MType)>) {
    if ss.len() == 0 {
        (None, LastKind::Other, None)
    } else {
        match *ss.last().s {
            SNode::Expr(e) => (Some(e.typ@), LastKind::Expr, None),
            SNode::Decl(e1, _, e2) => if e2.typ@ matches MType::App(TFun::Fn, _) {
                (Some(e2.typ@), LastKind::DeclFn, None)
            } else {
                let name = match *e1.e {
                    ENode::Variable(n) => n@,
                    _ => Seq::empty(),
                };
                (Some(e2.typ@), LastKind::DeclScalar, if name.len() == 0 { None } else { Some((name, e2.typ@)) })
            },
            SNode::TypeDecl(_, _) => (None, LastKind::Other, None),
        }
    }
}

pub open spec fn opt_view(t: Option<Monotype>) -> Option<MType> {
    match t {
        Some(m) => Some(m@),
        None => None,
    }
}

pub open spec fn target_view(t: Option<(String, Monotype)>) -> Option<(Seq<char>, MType)> {
    match t {
        Some((n, m)) => Some((n@, m@)),
        None => None,
    }
}

/// Summarise the last statement (see `last_spec`).
pub fn last_statement(stmts: &Vec<Stmt>) -> (r: (Option<Monotype>, LastKind, Option<(String, Monotype)>))
    ensures
        (opt_view(r.0), r.1, target_view(r.2)) == last_spec(stmts@),
{
    let n = stmts.len();
    if n == 0 {
        return (None, LastKind::Other, None);
    }
    let stmt = &stmts[n - 1];
    match &*stmt.s {
        SNode::Expr(e) => (Some(e.typ.duplicate()), LastKind::Expr, None),
        SNode::Decl(e1, _, e2) => {
            let is_fn = match &e2.typ {
                Monotype::TypeFuncApplication(f, _) => match &**f {
                    TypeFunc::Fn => true,
                    _ => false,
                },
                _ => false,
            };
            if is_fn {
                (Some(e2.typ.duplicate()), LastKind::DeclFn, None)
            } else {
                let name = match &*e1.e {
                    ENode::Variable(v) => v.clone(),
                    _ => String::new(),
                };
                let target = if name.as_str().unicode_len() == 0 {
                    None
                } else {
                    Some((name, e2.typ.duplicate()))
                };
                (Some(e2.typ.duplicate()), LastKind::DeclScalar, target)
            }
        },
        SNode::TypeDecl(_, _) => (None, LastKind::Other, None),
    }
}

/// The line reporting a declared function: its rendered type when known.
pub open spec fn fn_report_spec(t: Option<MType>) -> Seq<char> {
    match t {
        Some(m) => "  : "@ + render_spec(m, first_occurrences(m.free_vars())) + " : <fn>"@,
        None => "  : <fn>"@,
    }
}

/// Report a declared function (see `fn_report_spec`).
pub fn fn_report(t: &Option<Monotype>) -> (r: String)
    ensures
        r@ == fn_report_spec(opt_view(*t)),
{
    match t {
        Some(m) => {
            let mut out = text("  : ");
            let shown = render_type(m);
            push_str(&mut out, shown.as_str());
            push_str(&mut out, " : <fn>");
            proof {
                reveal_strlit("  : ");
                reveal_strlit(" : <fn>");
            }
            out
        },
        None => text("  : <fn>"),
    }
}

/// One step of the interactive loop: the statements `added` are appended
/// to those accumulated so far and the whole program is checked from an
/// empty context (see `Program::typecheck`). On success the accumulated
/// statements are the checked ones; on failure they are left exactly as
/// they were, and the statements added are dropped.
pub fn extend_and_check(accumulated: &mut Vec<Stmt>, added: Vec<Stmt>) -> (r: Result<(), UnificationError>)
    requires
        program_spec(TypeContext::empty_view(), old(accumulated)@ + added@, 0).2 <= u32::MAX,
        old(accumulated)@.len() + added@.len() <= usize::MAX,
    ensures
        unit_result(r) == program_spec(TypeContext::empty_view(), old(accumulated)@ + added@, 0).1,
        r matches Err(e) ==> e.pos is Some,
        r is Err ==> *final(accumulated) == *old(accumulated),
        r is Ok ==> final(accumulated)@.len() == old(accumulated)@.len() + added@.len(),
        r is Ok ==> forall|j: int| 0 <= j < final(accumulated)@.len() ==> stmt_same_shape(
            Stmt { ctx: (old(accumulated)@ + added@)[j].ctx, ..#[trigger] final(accumulated)@[j] },
            (old(accumulated)@ + added@)[j],
        ),
        r is Ok ==> forall|j: int| 0 <= j < final(accumulated)@.len() ==> stmt_typed(
            prog_ctx(TypeContext::empty_view(), old(accumulated)@ + added@, j),
            (old(accumulated)@ + added@)[j],
            #[trigger] final(accumulated)@[j],
        ),
{
    let mut trial = TypeContext::new();
    if let Err(e) = decide_statements(&mut trial, accumulated, &added) {
        return Err(e);
    }
    let ghost all = old(accumulated)@ + added@;
    let mut stmts: Vec<Stmt> = Vec::new();
    std::mem::swap(&mut stmts, accumulated);
    let mut more = added;
    stmts.append(&mut more);
    assert(stmts@ == all);
    let mut prog = Program { stmts, ctx: TypeContext::new(), source_name: String::new() };
    let r = Program::typecheck(&mut prog);
    *accumulated = prog.stmts;
    r
}

/// What the interactive loop hands to `repl_step`: a line that was read,
/// the end of the input, or the outcome of parsing source text.
pub enum ReplEvent {
    Line(String),
    EndOfInput,
    Parsed(Result<Vec<Stmt>, String>),
}

/// What the interactive loop does next.
pub enum ReplAction {
    /// Prompt for the next line.
    Prompt,
    /// Leave the loop.
    Stop,
    /// Parse this source text and hand back the outcome.
    Parse(String),
    /// Report a parse error, then prompt again.
    ReportParseError(String),
    /// Report a type error, then prompt again.
    ReportTypeError(UnificationError),
    /// Lower and run the accumulated program, then report its value.
    Run,
}

/// The decisions of the interactive loop on one event, with the statements
/// accepted so far as its state. Only a parse whose statements check
/// together with the accepted ones changes the state (see
/// `extend_and_check`); on every other event, a failing one among them,
/// the accepted statements stay exactly as they were.
pub fn repl_step(accumulated: &mut Vec<Stmt>, event: ReplEvent) -> (a: ReplAction)
    requires
        event matches ReplEvent::Parsed(Ok(ss)) ==> {
            &&& program_spec(TypeContext::empty_view(), old(accumulated)@ + ss@, 0).2 <= u32::MAX
            &&& old(accumulated)@.len() + ss@.len() <= usize::MAX
        },
    ensures
        !(a is Run) ==> *final(accumulated) == *old(accumulated),
        event is EndOfInput ==> a is Stop,
        event matches ReplEvent::Line(l) ==> match input_spec(l@) {
            None => a is Prompt,
            Some(None) => a is Stop,
            Some(Some(t)) => a matches ReplAction::Parse(s) && s@ == t,
        },
        event matches ReplEvent::Parsed(Err(m)) ==> a matches ReplAction::ReportParseError(n) && n@ == m@,
        event matches ReplEvent::Parsed(Ok(ss)) ==> {
            let outcome = program_spec(TypeContext::empty_view(), old(accumulated)@ + ss@, 0).1;
            &&& (outcome is Ok <==> a is Run)
            &&& (a matches ReplAction::ReportTypeError(e) ==> outcome == Err::<(), Seq<char>>(e.message@) && e.pos is Some)
            &&& (a is Run ==> final(accumulated)@.len() == old(accumulated)@.len() + ss@.len())
        },
{
    match event {
        ReplEvent::EndOfInput => ReplAction::Stop,
        ReplEvent::Line(l) => match read_input(l.as_str()) {
            ReplInput::Skip => ReplAction::Prompt,
            ReplInput::Exit => ReplAction::Stop,
            ReplInput::Source(s) => ReplAction::Parse(s),
        },
        ReplEvent::Parsed(Err(m)) => ReplAction::ReportParseError(m),
        ReplEvent::Parsed(Ok(ss)) => match extend_and_check(accumulated, ss) {
            Ok(()) => ReplAction::Run,
            Err(e) => ReplAction::ReportTypeError(e),
        },
    }
}

} // verus!
