//! Source positions and the abstract syntax tree.
use vstd::prelude::*;
use vstd::string::StringSliceAdditionalSpecFns;
use crate::types::{Monotype, TypeContext, MType, TFun};

verus! {

#[derive(Debug, Clone, PartialEq)]
pub struct Pos {
    /// 1-based source span. Filled from the byte offsets that the parser
    /// records; all-zero for synthetic/nil positions.
    pub start_line: u32,
    pub start_col: u32,
    pub end_line: u32,
    pub end_col: u32,
    /// Raw byte offsets into the parsed buffer.
    pub start: u32,
    pub end: u32,
}

impl Pos {
    /// The all-zero position.
    pub open spec fn nil_spec() -> Pos {
        Pos { start_line: 0, start_col: 0, end_line: 0, end_col: 0, start: 0, end: 0 }
    }

    pub fn nil() -> (p: Pos)
        ensures
            p == Pos::nil_spec(),
    {
        Pos { start_line: 0, start_col: 0, end_line: 0, end_col: 0, start: 0, end: 0 }
    }

    /// A raw byte-offset span; the line/column fields are zero until filled.
    pub fn bytes(start: u32, end: u32) -> (p: Pos)
        ensures
            p == (Pos { start_line: 0, start_col: 0, end_line: 0, end_col: 0, start, end }),
    {
        Pos { start_line: 0, start_col: 0, end_line: 0, end_col: 0, start, end }
    }

    pub fn is_nil(&self) -> (b: bool)
        ensures
            b <==> self.start == 0 && self.end == 0,
    {
        self.start == 0 && self.end == 0
    }

    /// A copy of this position.
    pub fn duplicate(&self) -> (p: Pos)
        ensures
            p == *self,
    {
        Pos {
            start_line: self.start_line,
            start_col: self.start_col,
            end_line: self.end_line,
            end_col: self.end_col,
            start: self.start,
            end: self.end,
        }
    }

    /// Convert the raw byte offsets into a 1-based (line, column) span using
    /// the buffer's line index.
    pub fn fill(&mut self, index: &LineIndex)
        requires
            old(self).start < u32::MAX,
            old(self).end < u32::MAX,
        ensures
            (final(self).start_line, final(self).start_col) == index.spec_line_col(old(self).start),
            (final(self).end_line, final(self).end_col) == index.spec_line_col(old(self).end),
            final(self).start == old(self).start,
            final(self).end == old(self).end,
    {
        let (sl, sc) = index.line_col(self.start);
        let (el, ec) = index.line_col(self.end);
        self.start_line = sl;
        self.start_col = sc;
        self.end_line = el;
        self.end_col = ec;
    }

    /// The span covering both `self` and `other` (least start, greatest
    /// end), with the line/column data of whichever supplies each end: the
    /// start's from `other` when it starts strictly earlier, else from
    /// `self`; the end's from `other` when it ends strictly later, else from
    /// `self`.
    pub fn merge(&mut self, other: &Pos)
        ensures
            final(self).start == if other.start < old(self).start { other.start } else { old(self).start },
            final(self).end == if other.end > old(self).end { other.end } else { old(self).end },
            (final(self).start_line, final(self).start_col) == if other.start < old(self).start {
                (other.start_line, other.start_col)
            } else {
                (old(self).start_line, old(self).start_col)
            },
            (final(self).end_line, final(self).end_col) == if other.end > old(self).end {
                (other.end_line, other.end_col)
            } else {
                (old(self).end_line, old(self).end_col)
            },
    {
        if other.start < self.start {
            self.start = other.start;
            self.start_line = other.start_line;
            self.start_col = other.start_col;
        }
        if other.end > self.end {
            self.end = other.end;
            self.end_line = other.end_line;
            self.end_col = other.end_col;
        }
    }
}

/// Offsets at which lines begin in `bytes`: 0, then one past each newline.
pub open spec fn line_start_offsets(bytes: Seq<u8>) -> Seq<nat>
    decreases bytes.len(),
{
    if bytes.len() == 0 {
        seq![0nat]
    } else if bytes.last() == 10u8 {
        line_start_offsets(bytes.drop_last()).push(bytes.len())
    } else {
        line_start_offsets(bytes.drop_last())
    }
}

/// A line index over a parsed buffer, used to convert byte offsets to
/// 1-based (line, column) positions.
#[derive(Debug)]
pub struct LineIndex {
    line_starts: Vec<u32>,
}

impl LineIndex {
    /// The offsets at which lines begin.
    pub closed spec fn starts(&self) -> Seq<nat> {
        Seq::new(self.line_starts@.len(), |i: int| self.line_starts@[i] as nat)
    }

    #[verifier::type_invariant]
    closed spec fn inv(&self) -> bool {
        &&& self.line_starts@.len() > 0
        &&& self.line_starts@[0] == 0
        &&& forall|i: int, j: int| 0 <= i < j < self.line_starts@.len() ==> self.line_starts@[i] < self.line_starts@[j]
    }

    /// The line (0-based) holding `offset`: the last line start at or before it.
    pub open spec fn line_of(&self, offset: u32) -> int {
        choose|l: int| #[trigger] self.holds_line(l, offset)
    }

    /// Line `l` is the one holding `offset`.
    pub open spec fn holds_line(&self, l: int, offset: u32) -> bool {
        0 <= l < self.starts().len() && self.starts()[l] <= offset
            && (l + 1 == self.starts().len() || offset < self.starts()[l + 1])
    }

    /// 1-based line and column of `offset`.
    pub open spec fn spec_line_col(&self, offset: u32) -> (u32, u32) {
        let l = self.line_of(offset);
        ((l + 1) as u32, (offset - self.starts()[l] + 1) as u32)
    }

    pub fn new(buf: &str) -> (ix: LineIndex)
        requires
            buf.spec_bytes().len() < u32::MAX,
        ensures
            ix.starts() == line_start_offsets(buf.spec_bytes()),
            ix.starts().len() > 0,
            ix.starts()[0] == 0,
            forall|i: int, j: int| 0 <= i < j < ix.starts().len() ==> ix.starts()[i] < ix.starts()[j],
    {
        let bytes = buf.as_bytes();
        let mut line_starts: Vec<u32> = Vec::new();
        line_starts.push(0);
        let mut i: usize = 0;
        while i < bytes.len()
            invariant
                bytes@ == buf.spec_bytes(),
                bytes@.len() < u32::MAX,
                i <= bytes@.len(),
                line_starts@.len() > 0,
                line_starts@[0] == 0,
                forall|a: int, b: int| 0 <= a < b < line_starts@.len() ==> line_starts@[a] < line_starts@[b],
                forall|a: int| 0 <= a < line_starts@.len() ==> line_starts@[a] <= i,
                Seq::new(line_starts@.len(), |k: int| line_starts@[k] as nat) == line_start_offsets(bytes@.take(i as int)),
            decreases bytes@.len() - i,
        {
            let ghost before = line_starts@;
            if bytes[i] == 10u8 {
                line_starts.push(i as u32 + 1);
            }
            proof {
                assert(bytes@.take(i + 1).drop_last() =~= bytes@.take(i as int));
                assert(Seq::new(line_starts@.len(), |k: int| line_starts@[k] as nat) =~= line_start_offsets(bytes@.take(i + 1)));
            }
            i = i + 1;
        }
        proof {
            assert(bytes@.take(bytes@.len() as int) =~= bytes@);
        }
        LineIndex { line_starts }
    }

    /// 1-based (line, column) for a byte offset.
    pub fn line_col(&self, offset: u32) -> (r: (u32, u32))
        requires
            offset < u32::MAX,
        ensures
            r == self.spec_line_col(offset),
            self.starts().len() > 0,
            self.starts()[0] == 0,
            forall|i: int, j: int| 0 <= i < j < self.starts().len() ==> self.starts()[i] < self.starts()[j],
            r.0 >= 1,
            r.1 >= 1,
            self.holds_line(r.0 - 1, offset),
            forall|l: int| #[trigger] self.holds_line(l, offset) ==> l == r.0 - 1,
    {
        proof {
            use_type_invariant(self);
        }
        let n = self.line_starts.len();
        // the last line start that is at most `offset`
        let mut line: usize = 0;
        let mut i: usize = 1;
        while i < n && self.line_starts[i] <= offset
            invariant
                n == self.line_starts@.len(),
                1 <= i <= n,
                line == i - 1,
                self.line_starts@[line as int] <= offset,
                line <= self.line_starts@[line as int],
                self.inv(),
            decreases n - i,
        {
            line = i;
            i = i + 1;
        }
        proof {
            let l = line as int;
            assert(self.holds_line(l, offset));
            let c = self.line_of(offset);
            if c < l {
                assert(self.line_starts@[c + 1] <= self.line_starts@[l]);
            } else if c > l {
                assert(self.line_starts@[l + 1] <= self.line_starts@[c]);
            }
            assert forall|a: int| #[trigger] self.holds_line(a, offset) implies a == l by {
                if a < l {
                    assert(self.line_starts@[a + 1] <= self.line_starts@[l]);
                } else if a > l {
                    assert(self.line_starts@[l + 1] <= self.line_starts@[a]);
                }
            }
        }
        ((line + 1) as u32, offset - self.line_starts[line] + 1)
    }
}

} // verus!

verus! {

/// A literal. A float literal holds the IEEE-754 bit pattern of its `f32`
/// value, which is all the checker needs to know of it.
#[derive(Debug, Clone, PartialEq)]
pub enum Lit {
    Int(i32),
    Float(u32),
    Bool(bool),
    Str(String),
    Char(char),
    Unit,
}

/// A type written in the source.
#[derive(Debug, PartialEq)]
pub struct Type {
    pub t: Monotype,
}

#[derive(Debug, PartialEq)]
pub struct Binding(pub String, pub Box<Type>);

#[derive(Debug, PartialEq)]
pub enum TypeDec {
    Alias(Box<Type>),
    Enum(Vec<Variant>),
}

#[derive(Debug, PartialEq)]
pub struct Variant {
    pub n: String,
    pub tparams: Vec<Type>,
}

#[derive(Debug, PartialEq)]
pub struct TypeHeader {
    pub n: String,
    pub tvars: Vec<String>,
}

#[derive(Debug)]
pub enum SNode {
    /// `let x [: Type] = e;`
    Decl(Box<Expr>, Box<Type>, Box<Expr>),
    /// `e;`
    Expr(Box<Expr>),
    /// `type`/`enum` declaration: name, type variables, definition.
    TypeDecl(TypeHeader, Box<TypeDec>),
}

#[derive(Debug)]
pub struct Stmt {
    pub s: Box<SNode>,
    pub ctx: TypeContext,
    pub pos: Pos,
}

#[derive(Debug)]
pub enum ENode {
    Variable(String),
    Literal(Box<Lit>),
    Abstraction(Box<Binding>, Box<Expr>),
    Application(Box<Expr>, Box<Expr>),
    Let(String, Box<Expr>, Box<Expr>),
    IfElse(Box<Expr>, Box<Expr>, Box<Expr>),
    Block(Vec<Stmt>, Box<Expr>),
    Comparison(CompOp, Box<Expr>, Box<Expr>),
    Arithmetic(ArithOp, Box<Expr>, Box<Expr>),
    Logical(LogicalOp, Box<Expr>, Box<Expr>),
    Unary(UnaryOp, Box<Expr>),
    List(Vec<Expr>),
    Cons(Box<Expr>, Box<Expr>),
    Match(Box<Expr>, Vec<MatchCase>),
}

#[derive(Debug)]
pub struct Expr {
    pub e: Box<ENode>,
    pub ctx: TypeContext,
    pub pos: Pos,
    /// The inferred type of this expression: recorded by `annotate_w` when a
    /// statement checks, and resolved by `resolve_stmt_types` once the
    /// statement's substitution is known.
    pub typ: Monotype,
}

#[derive(Debug)]
pub struct MatchCase {
    pub val: Box<Expr>,
    pub exp: Box<Expr>,
}

#[derive(Debug, Clone, PartialEq, Eq, Structural)]
pub enum CompOp {
    Eq,
    NotEq,
    Less,
    Greater,
    LessEq,
    GreatEq,
}

#[derive(Debug, Clone, PartialEq, Eq, Structural)]
pub enum ArithOp {
    Plus,
    Minus,
    Div,
    Times,
    Mod,
}

#[derive(Debug, Clone, PartialEq, Eq, Structural)]
pub enum LogicalOp {
    And,
    Or,
    Xor,
}

#[derive(Debug, Clone, PartialEq, Eq, Structural)]
pub enum UnaryOp {
    Negate,
    Not,
}

#[derive(Debug)]
pub struct Program {
    pub stmts: Vec<Stmt>,
    pub ctx: TypeContext,
    /// The name of the source this program was parsed from.
    pub source_name: String,
}

/// `a` and `b` are the same tree, but for the inferred types recorded in
/// the expressions.
#[verifier::opaque]
pub open spec fn same_shape(a: Expr, b: Expr) -> bool
    decreases a,
{
    &&& a.ctx == b.ctx
    &&& a.pos == b.pos
    &&& match (*a.e, *b.e) {
        (ENode::Variable(x), ENode::Variable(y)) => x == y,
        (ENode::Literal(x), ENode::Literal(y)) => x == y,
        (ENode::Abstraction(x, m), ENode::Abstraction(y, n)) => x == y && same_shape(*m, *n),
        (ENode::Application(x1, x2), ENode::Application(y1, y2)) => same_shape(*x1, *y1) && same_shape(*x2, *y2),
        (ENode::Let(x, x1, x2), ENode::Let(y, y1, y2)) => x == y && same_shape(*x1, *y1) && same_shape(*x2, *y2),
        (ENode::IfElse(x1, x2, x3), ENode::IfElse(y1, y2, y3)) => same_shape(*x1, *y1) && same_shape(*x2, *y2) && same_shape(*x3, *y3),
        (ENode::Block(xs, x), ENode::Block(ys, y)) => {
            &&& xs@.len() == ys@.len()
            &&& forall|i: int| 0 <= i < xs@.len() ==> stmt_same_shape(#[trigger] xs@[i], ys@[i])
            &&& same_shape(*x, *y)
        },
        (ENode::Comparison(o, x1, x2), ENode::Comparison(p, y1, y2)) => o == p && same_shape(*x1, *y1) && same_shape(*x2, *y2),
        (ENode::Arithmetic(o, x1, x2), ENode::Arithmetic(p, y1, y2)) => o == p && same_shape(*x1, *y1) && same_shape(*x2, *y2),
        (ENode::Logical(o, x1, x2), ENode::Logical(p, y1, y2)) => o == p && same_shape(*x1, *y1) && same_shape(*x2, *y2),
        (ENode::Unary(o, x), ENode::Unary(p, y)) => o == p && same_shape(*x, *y),
        (ENode::List(xs), ENode::List(ys)) => {
            &&& xs@.len() == ys@.len()
            &&& forall|i: int| 0 <= i < xs@.len() ==> same_shape(#[trigger] xs@[i], ys@[i])
        },
        (ENode::Cons(x1, x2), ENode::Cons(y1, y2)) => same_shape(*x1, *y1) && same_shape(*x2, *y2),
        (ENode::Match(x, xs), ENode::Match(y, ys)) => {
            &&& same_shape(*x, *y)
            &&& xs@.len() == ys@.len()
            &&& forall|i: int| 0 <= i < xs@.len() ==> same_shape(*(#[trigger] xs@[i]).val, *ys@[i].val)
            &&& forall|i: int| 0 <= i < xs@.len() ==> same_shape(*(#[trigger] xs@[i]).exp, *ys@[i].exp)
        },
        _ => false,
    }
}

/// `a` and `b` are the same statement, but for the inferred types recorded
/// in its expressions.
pub open spec fn stmt_same_shape(a: Stmt, b: Stmt) -> bool
    decreases a,
{
    &&& a.ctx == b.ctx
    &&& a.pos == b.pos
    &&& match (*a.s, *b.s) {
        (SNode::Decl(x1, t, x2), SNode::Decl(y1, u, y2)) => same_shape(*x1, *y1) && t == u && same_shape(*x2, *y2),
        (SNode::Expr(x), SNode::Expr(y)) => same_shape(*x, *y),
        (SNode::TypeDecl(h, d), SNode::TypeDecl(k, f)) => h == k && d == f,
        _ => false,
    }
}

/// Every tree has its own shape.
pub proof fn lemma_same_shape_refl(e: Expr)
    ensures
        same_shape(e, e),
    decreases e,
{
    reveal(same_shape);
    match *e.e {
        ENode::Abstraction(_, m) => lemma_same_shape_refl(*m),
        ENode::Application(x1, x2) => {
            lemma_same_shape_refl(*x1);
            lemma_same_shape_refl(*x2);
        },
        ENode::Let(_, x1, x2) => {
            lemma_same_shape_refl(*x1);
            lemma_same_shape_refl(*x2);
        },
        ENode::IfElse(x1, x2, x3) => {
            lemma_same_shape_refl(*x1);
            lemma_same_shape_refl(*x2);
            lemma_same_shape_refl(*x3);
        },
        ENode::Block(xs, x) => {
            assert forall|i: int| 0 <= i < xs@.len() implies stmt_same_shape(#[trigger] xs@[i], xs@[i]) by {
                lemma_stmt_same_shape_refl(xs@[i]);
            }
            lemma_same_shape_refl(*x);
        },
        ENode::Comparison(_, x1, x2) => {
            lemma_same_shape_refl(*x1);
            lemma_same_shape_refl(*x2);
        },
        ENode::Arithmetic(_, x1, x2) => {
            lemma_same_shape_refl(*x1);
            lemma_same_shape_refl(*x2);
        },
        ENode::Logical(_, x1, x2) => {
            lemma_same_shape_refl(*x1);
            lemma_same_shape_refl(*x2);
        },
        ENode::Unary(_, x) => lemma_same_shape_refl(*x),
        ENode::List(xs) => {
            assert forall|i: int| 0 <= i < xs@.len() implies same_shape(#[trigger] xs@[i], xs@[i]) by {
                lemma_same_shape_refl(xs@[i]);
            }
        },
        ENode::Cons(x1, x2) => {
            lemma_same_shape_refl(*x1);
            lemma_same_shape_refl(*x2);
        },
        ENode::Match(x, xs) => {
            lemma_same_shape_refl(*x);
            assert forall|i: int| 0 <= i < xs@.len() implies same_shape(*(#[trigger] xs@[i]).val, *xs@[i].val) by {
                lemma_same_shape_refl(*xs@[i].val);
            }
            assert forall|i: int| 0 <= i < xs@.len() implies same_shape(*(#[trigger] xs@[i]).exp, *xs@[i].exp) by {
                lemma_same_shape_refl(*xs@[i].exp);
            }
        },
        _ => {},
    }
}

/// Every statement has its own shape.
pub proof fn lemma_stmt_same_shape_refl(s: Stmt)
    ensures
        stmt_same_shape(s, s),
    decreases s,
{
    reveal(same_shape);
    match *s.s {
        SNode::Decl(x1, _, x2) => {
            lemma_same_shape_refl(*x1);
            lemma_same_shape_refl(*x2);
        },
        SNode::Expr(x) => lemma_same_shape_refl(*x),
        _ => {},
    }
}

/// Having the same shape is transitive.
pub proof fn lemma_same_shape_trans(a: Expr, b: Expr, c: Expr)
    requires
        same_shape(a, b),
        same_shape(b, c),
    ensures
        same_shape(a, c),
    decreases a,
{
    reveal(same_shape);
    match (*a.e, *b.e, *c.e) {
        (ENode::Abstraction(_, x), ENode::Abstraction(_, y), ENode::Abstraction(_, z)) => lemma_same_shape_trans(*x, *y, *z),
        (ENode::Application(x1, x2), ENode::Application(y1, y2), ENode::Application(z1, z2)) => {
            lemma_same_shape_trans(*x1, *y1, *z1);
            lemma_same_shape_trans(*x2, *y2, *z2);
        },
        (ENode::Let(_, x1, x2), ENode::Let(_, y1, y2), ENode::Let(_, z1, z2)) => {
            lemma_same_shape_trans(*x1, *y1, *z1);
            lemma_same_shape_trans(*x2, *y2, *z2);
        },
        (ENode::IfElse(x1, x2, x3), ENode::IfElse(y1, y2, y3), ENode::IfElse(z1, z2, z3)) => {
            lemma_same_shape_trans(*x1, *y1, *z1);
            lemma_same_shape_trans(*x2, *y2, *z2);
            lemma_same_shape_trans(*x3, *y3, *z3);
        },
        (ENode::Block(xs, x), ENode::Block(ys, y), ENode::Block(zs, z)) => {
            assert forall|i: int| 0 <= i < xs@.len() implies stmt_same_shape(#[trigger] xs@[i], zs@[i]) by {
                lemma_stmt_same_shape_trans(xs@[i], ys@[i], zs@[i]);
            }
            lemma_same_shape_trans(*x, *y, *z);
        },
        (ENode::Comparison(_, x1, x2), ENode::Comparison(_, y1, y2), ENode::Comparison(_, z1, z2)) => {
            lemma_same_shape_trans(*x1, *y1, *z1);
            lemma_same_shape_trans(*x2, *y2, *z2);
        },
        (ENode::Arithmetic(_, x1, x2), ENode::Arithmetic(_, y1, y2), ENode::Arithmetic(_, z1, z2)) => {
            lemma_same_shape_trans(*x1, *y1, *z1);
            lemma_same_shape_trans(*x2, *y2, *z2);
        },
        (ENode::Logical(_, x1, x2), ENode::Logical(_, y1, y2), ENode::Logical(_, z1, z2)) => {
            lemma_same_shape_trans(*x1, *y1, *z1);
            lemma_same_shape_trans(*x2, *y2, *z2);
        },
        (ENode::Unary(_, x), ENode::Unary(_, y), ENode::Unary(_, z)) => lemma_same_shape_trans(*x, *y, *z),
        (ENode::List(xs), ENode::List(ys), ENode::List(zs)) => {
            assert forall|i: int| 0 <= i < xs@.len() implies same_shape(#[trigger] xs@[i], zs@[i]) by {
                lemma_same_shape_trans(xs@[i], ys@[i], zs@[i]);
            }
        },
        (ENode::Cons(x1, x2), ENode::Cons(y1, y2), ENode::Cons(z1, z2)) => {
            lemma_same_shape_trans(*x1, *y1, *z1);
            lemma_same_shape_trans(*x2, *y2, *z2);
        },
        (ENode::Match(x, xs), ENode::Match(y, ys), ENode::Match(z, zs)) => {
            lemma_same_shape_trans(*x, *y, *z);
            assert forall|i: int| 0 <= i < xs@.len() implies same_shape(*(#[trigger] xs@[i]).val, *zs@[i].val) by {
                lemma_same_shape_trans(*xs@[i].val, *ys@[i].val, *zs@[i].val);
            }
            assert forall|i: int| 0 <= i < xs@.len() implies same_shape(*(#[trigger] xs@[i]).exp, *zs@[i].exp) by {
                lemma_same_shape_trans(*xs@[i].exp, *ys@[i].exp, *zs@[i].exp);
            }
        },
        _ => {},
    }
}

/// Statements having the same shape is transitive.
pub proof fn lemma_stmt_same_shape_trans(a: Stmt, b: Stmt, c: Stmt)
    requires
        stmt_same_shape(a, b),
        stmt_same_shape(b, c),
    ensures
        stmt_same_shape(a, c),
    decreases a,
{
    reveal(same_shape);
    match (*a.s, *b.s, *c.s) {
        (SNode::Decl(x1, _, x2), SNode::Decl(y1, _, y2), SNode::Decl(z1, _, z2)) => {
            lemma_same_shape_trans(*x1, *y1, *z1);
            lemma_same_shape_trans(*x2, *y2, *z2);
        },
        (SNode::Expr(x), SNode::Expr(y), SNode::Expr(z)) => lemma_same_shape_trans(*x, *y, *z),
        _ => {},
    }
}

impl Stmt {
    pub fn from(node: SNode) -> (s: Stmt)
        ensures
            *s.s == node,
            s.pos == Pos::nil_spec(),
            s.ctx@ == TypeContext::empty_view(),
    {
        Self::at(Pos::nil(), node)
    }

    pub fn at(pos: Pos, node: SNode) -> (s: Stmt)
        ensures
            *s.s == node,
            s.pos == pos,
            s.ctx@ == TypeContext::empty_view(),
    {
        Stmt { s: Box::new(node), ctx: TypeContext::new(), pos }
    }
}

impl Expr {
    pub fn from(node: ENode) -> (x: Expr)
        ensures
            *x.e == node,
            x.pos == Pos::nil_spec(),
            x.ctx@ == TypeContext::empty_view(),
            x.typ@ == MType::App(TFun::Infer, Seq::empty()),
    {
        Self::at(Pos::nil(), node)
    }

    pub fn at(pos: Pos, node: ENode) -> (x: Expr)
        ensures
            *x.e == node,
            x.pos == pos,
            x.ctx@ == TypeContext::empty_view(),
            x.typ@ == MType::App(TFun::Infer, Seq::empty()),
    {
        Expr { e: Box::new(node), ctx: TypeContext::new(), pos, typ: Monotype::infer() }
    }
}

} // verus!
