use merlin_lang::ast::{
    ArithOp, Binding, CompOp, ENode, Expr, Lit, LogicalOp, MatchCase, SNode, Stmt, Type, TypeDec, TypeHeader,
    UnaryOp, Variant,
};
use merlin_lang::checking::algo_m;
use merlin_lang::declarations::{handle_type_decl, type_to_typefn};
use merlin_lang::inference::algo_w;
use merlin_lang::types::{Monotype, TypeContext};

fn expr(node: ENode) -> Expr {
    Expr::from(node)
}

fn v(name: &str) -> Expr {
    expr(ENode::Variable(name.to_string()))
}

fn lit(l: Lit) -> Expr {
    expr(ENode::Literal(Box::new(l)))
}

fn lam(x: &str, body: Expr) -> Expr {
    expr(ENode::Abstraction(
        Box::new(Binding(x.to_string(), Box::new(Type { t: Monotype::infer() }))),
        Box::new(body),
    ))
}

fn infer_error(mut e: Expr) -> String {
    let mut ctx = TypeContext::new();
    algo_w(&mut ctx, &mut e).unwrap_err().message
}

fn check_error(e: Expr, t: Monotype) -> String {
    let mut ctx = TypeContext::new();
    algo_m(&mut ctx, &e, &t).unwrap_err().message
}

#[test]
fn undefined_variable_is_named() {
    assert_eq!(infer_error(v("nope")), "Undefined variable nope!");
    assert_eq!(check_error(v("nope"), Monotype::integer()), "Undefined variable nope!");
}

#[test]
fn char_literals_are_refused() {
    assert_eq!(infer_error(lit(Lit::Char('c'))), "Char literals have no type");
}

#[test]
fn match_is_refused_by_both_algorithms() {
    let m = || {
        expr(ENode::Match(
            Box::new(lit(Lit::Int(1))),
            vec![MatchCase { val: Box::new(lit(Lit::Int(1))), exp: Box::new(lit(Lit::Int(2))) }],
        ))
    };
    assert_eq!(infer_error(m()), "Match expressions cannot be inferred");
    assert_eq!(check_error(m(), Monotype::integer()), "Match expressions cannot be checked");
}

#[test]
fn blocks_refuse_type_declarations_and_bad_targets() {
    let typedecl = Stmt::from(SNode::TypeDecl(
        TypeHeader { n: "T".to_string(), tvars: vec![] },
        Box::new(TypeDec::Enum(vec![Variant { n: "K".to_string(), tparams: vec![] }])),
    ));
    let block = expr(ENode::Block(vec![typedecl], Box::new(lit(Lit::Unit))));
    assert_eq!(infer_error(block), "Type declarations are not allowed inside block expressions");
    let bad = Stmt::from(SNode::Decl(
        Box::new(lit(Lit::Int(1))),
        Box::new(Type { t: Monotype::infer() }),
        Box::new(lit(Lit::Int(2))),
    ));
    let block = expr(ENode::Block(vec![bad], Box::new(lit(Lit::Unit))));
    assert_eq!(infer_error(block), "Expected a variable name in declaration");
}

#[test]
fn arithmetic_operand_errors() {
    let plus = expr(ENode::Arithmetic(ArithOp::Plus, Box::new(lit(Lit::Bool(true))), Box::new(lit(Lit::Bool(false)))));
    assert_eq!(
        infer_error(plus),
        "'+' requires int, float, or string operands, got TypeFuncApplication(Bool, [])",
    );
    let minus = expr(ENode::Arithmetic(
        ArithOp::Minus,
        Box::new(lit(Lit::Str("a".to_string()))),
        Box::new(lit(Lit::Str("b".to_string()))),
    ));
    assert_eq!(infer_error(minus), "Minus requires int or float operands, got TypeFuncApplication(Str, [])");
}

#[test]
fn comparison_operand_errors() {
    let fns = expr(ENode::Comparison(CompOp::Eq, Box::new(lam("x", v("x"))), Box::new(lam("y", v("y")))));
    assert_eq!(infer_error(fns), "Cannot compare function types");
    let lists = expr(ENode::Comparison(CompOp::NotEq, Box::new(expr(ENode::List(vec![]))), Box::new(expr(ENode::List(vec![])))));
    assert_eq!(infer_error(lists), "'!=' requires int, float, string, or bool operands");
    let bools = expr(ENode::Comparison(CompOp::Less, Box::new(lit(Lit::Bool(true))), Box::new(lit(Lit::Bool(false)))));
    assert_eq!(infer_error(bools), "Comparison requires int or float operands");
}

#[test]
fn logical_and_unary_operand_errors() {
    let and = expr(ENode::Logical(LogicalOp::And, Box::new(lit(Lit::Int(1))), Box::new(lit(Lit::Int(2)))));
    assert_eq!(infer_error(and), "Logical operations require bool operands, got TypeFuncApplication(Int, [])");
    let neg = expr(ENode::Unary(UnaryOp::Negate, Box::new(lit(Lit::Bool(true)))));
    assert_eq!(infer_error(neg), "Unary negation requires int or float operand, got TypeFuncApplication(Bool, [])");
}

#[test]
fn checked_results_must_be_bool() {
    let cmp = expr(ENode::Comparison(CompOp::Less, Box::new(lit(Lit::Int(1))), Box::new(lit(Lit::Int(2)))));
    assert_eq!(check_error(cmp, Monotype::integer()), "Comparison requires bool result, got TypeFuncApplication(Int, [])");
    let or = expr(ENode::Logical(LogicalOp::Or, Box::new(lit(Lit::Bool(true))), Box::new(lit(Lit::Bool(false)))));
    assert_eq!(check_error(or, Monotype::string()), "Logical operations require bool result, got TypeFuncApplication(Str, [])");
    let not = expr(ENode::Unary(UnaryOp::Not, Box::new(lit(Lit::Bool(true)))));
    assert_eq!(check_error(not, Monotype::unit()), "Unary not requires bool result, got TypeFuncApplication(Unit, [])");
}

#[test]
fn declaration_conflicts() {
    let mut ctx = TypeContext::new();
    let e = TypeHeader { n: "E".to_string(), tvars: vec![] };
    let as_enum = TypeDec::Enum(vec![Variant { n: "K".to_string(), tparams: vec![] }]);
    let as_alias = TypeDec::Alias(Box::new(Type { t: Monotype::integer() }));
    assert!(handle_type_decl(&e, &as_enum, &mut ctx).is_ok());
    assert_eq!(handle_type_decl(&e, &as_alias, &mut ctx).unwrap_err().message, "`E` is already declared as an enum");
    let a = TypeHeader { n: "A".to_string(), tvars: vec![] };
    assert!(handle_type_decl(&a, &as_alias, &mut ctx).is_ok());
    assert_eq!(handle_type_decl(&a, &as_alias, &mut ctx).unwrap_err().message, "Type alias `A` is already declared");
}

#[test]
fn self_referring_alias_is_refused_on_use() {
    let mut ctx = TypeContext::new();
    let r = TypeHeader { n: "R".to_string(), tvars: vec![] };
    let dec = TypeDec::Alias(Box::new(Type { t: Monotype::enum_type("R".to_string()) }));
    assert!(handle_type_decl(&r, &dec, &mut ctx).is_ok());
    let err = type_to_typefn(&Type { t: Monotype::enum_type("R".to_string()) }, &mut ctx).unwrap_err();
    assert_eq!(err.message, "Recursive type alias: R");
}
