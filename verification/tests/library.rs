use merlin_lang::ast::{
    ArithOp, Binding, CompOp, ENode, LogicalOp, Expr, LineIndex, Lit, MatchCase, Pos, Program, SNode, Stmt, Type, TypeDec, TypeHeader, UnaryOp,
    Variant,
};
use merlin_lang::codegen::{
    closure_captures, execute, lower, lower_expr, lower_type, lower_type_decl, match_case_kind, CaseKind, EnvKind, Module,
};
use merlin_lang::lowering::{
    concrete_parts, default_free_vars, field_index, function_parts, list_elem, primitive_kind, result_slot, Prim, ResultSlot,
};
use merlin_lang::declarations::{check_undeclared, expand, handle_type_decl, type_to_typefn};
use merlin_lang::display::render_type;
use merlin_lang::checking::algo_m;
use merlin_lang::inference::{algo_w, annotate_w};
use merlin_lang::literals::{decode_char_literal, decode_escape, decode_string_literal};
use merlin_lang::names::NameMap;
use merlin_lang::repl::{
    extend_and_check, fn_report, last_statement, read_input, repl_step, LastKind, ReplAction, ReplEvent, ReplInput,
};
use merlin_lang::passes::{apply_substitution, fill_program_positions, fill_stmt_positions, resolve_stmt_types};
use merlin_lang::types::{Monotype, Polytype, Substitution, TypeContext, TypeFunc};
use merlin_lang::unification::unify;

fn var(name: &str) -> Monotype {
    Monotype::var(name.to_string())
}

fn int_t() -> Monotype {
    Monotype::integer()
}

fn bool_t() -> Monotype {
    Monotype::bool()
}

fn fn_t(a: Monotype, b: Monotype) -> Monotype {
    Monotype::func(vec![a, b])
}

fn enum_t(name: &str, args: Vec<Monotype>) -> Monotype {
    Monotype::enum_app(name.to_string(), args)
}

fn sub(pairs: Vec<(&str, Monotype)>) -> Substitution {
    Substitution::make(NameMap::from_pairs(pairs.into_iter().map(|(k, v)| (k.to_string(), v)).collect()))
}

fn expr(node: ENode) -> Expr {
    Expr::from(node)
}

fn v(name: &str) -> Expr {
    expr(ENode::Variable(name.to_string()))
}

fn int_lit(n: i32) -> Expr {
    expr(ENode::Literal(Box::new(Lit::Int(n))))
}

fn bool_lit(b: bool) -> Expr {
    expr(ENode::Literal(Box::new(Lit::Bool(b))))
}

fn lam(x: &str, body: Expr) -> Expr {
    expr(ENode::Abstraction(
        Box::new(Binding(x.to_string(), Box::new(Type { t: Monotype::infer() }))),
        Box::new(body),
    ))
}

fn decl(name: &str, typ: Monotype, value: Expr) -> Stmt {
    Stmt::from(SNode::Decl(Box::new(v(name)), Box::new(Type { t: typ }), Box::new(value)))
}

fn expr_stmt(e: Expr) -> Stmt {
    Stmt::from(SNode::Expr(Box::new(e)))
}

fn chars(s: &str) -> Vec<char> {
    s.chars().collect()
}

// ===== unification makes its two types equal =====

#[test]
fn unifier_equalises_function_types() {
    let a = fn_t(var("a"), int_t());
    let b = fn_t(bool_t(), var("b"));
    let s = unify(&a, &b).unwrap();
    assert_eq!(a.apply(&s), b.apply(&s));
    assert_eq!(a.apply(&s), fn_t(bool_t(), int_t()));
}

#[test]
fn unifier_equalises_chained_variables() {
    let a = fn_t(var("a"), fn_t(var("a"), var("c")));
    let b = fn_t(var("b"), fn_t(int_t(), var("b")));
    let s = unify(&a, &b).unwrap();
    assert_eq!(a.apply(&s), b.apply(&s));
    assert_eq!(a.apply(&s), fn_t(int_t(), fn_t(int_t(), int_t())));
}

#[test]
fn unify_mismatch_message() {
    let err = unify(&int_t(), &bool_t()).unwrap_err();
    assert!(err.message.starts_with("Type function application mismatch: "));
    assert_eq!(err.pos, None);
}

#[test]
fn unify_arity_message() {
    let err = unify(&enum_t("Pair", vec![int_t()]), &enum_t("Pair", vec![int_t(), int_t()])).unwrap_err();
    assert!(err.message.starts_with("Type functions have different number of args: "));
}

#[test]
fn unify_occurs_check_message() {
    let err = unify(&var("a"), &fn_t(var("a"), int_t())).unwrap_err();
    assert_eq!(err.message, "Infinite recursive type");
}

// ===== substitutions =====

#[test]
fn empty_substitution_is_identity() {
    let t = fn_t(var("a"), enum_t("Option", vec![var("b")]));
    assert_eq!(t.apply(&Substitution::new()), t);
}

#[test]
fn apply_resolves_chains() {
    let s = sub(vec![("a", var("b")), ("b", int_t())]);
    assert_eq!(fn_t(var("a"), var("c")).apply(&s), fn_t(int_t(), var("c")));
}

#[test]
fn combine_then_apply_is_apply_in_turn() {
    let s1 = sub(vec![("a", var("b"))]);
    let s2 = sub(vec![("b", int_t())]);
    let t = fn_t(var("a"), var("b"));
    let in_turn = t.apply(&s1).apply(&s2);
    let combined = s1.combine(s2);
    assert_eq!(t.apply(&combined), in_turn);
    assert_eq!(in_turn, fn_t(int_t(), int_t()));
}

#[test]
fn combine_applies_first_to_second_bindings() {
    let s1 = sub(vec![("a", int_t())]);
    let s2 = sub(vec![("b", fn_t(var("a"), var("a")))]);
    let combined = s1.combine(s2);
    assert_eq!(fn_t(var("a"), var("b")).apply(&combined), fn_t(int_t(), fn_t(int_t(), int_t())));
}

// ===== fresh names, instantiation and generalisation =====

#[test]
fn fresh_names_never_repeat() {
    let mut ctx = TypeContext::new();
    let mut seen: Vec<String> = Vec::new();
    for _ in 0..30 {
        let n = ctx.new_typevar();
        assert!(!seen.contains(&n));
        seen.push(n);
    }
    assert_eq!(seen[0], "t0");
    assert_eq!(seen[12], "t12");
}

#[test]
fn instantiate_uses_fresh_names_from_context() {
    let mut ctx = TypeContext::new();
    ctx.new_typevar();
    let p = Polytype::TypeQuantifier("x".to_string(), Box::new(Polytype::Mono(Box::new(fn_t(var("x"), var("y"))))));
    let t = p.instantiate(&mut ctx, None);
    assert_eq!(t, fn_t(var("t1"), var("y")));
    assert_eq!(ctx.new_typevar(), "t2");
}

#[test]
fn generalise_keeps_context_variables_free() {
    let mut ctx = TypeContext::new();
    ctx.add("k".to_string(), Polytype::Mono(Box::new(var("a"))));
    let g = ctx.generalise(&fn_t(var("a"), var("b")));
    assert_eq!(g.free_variables(), vec!["a".to_string()]);
    assert_eq!(
        g,
        Polytype::TypeQuantifier("b".to_string(), Box::new(Polytype::Mono(Box::new(fn_t(var("a"), var("b")))))),
    );
}

// ===== display =====

#[test]
fn labels_continue_past_z() {
    let mut args: Vec<Monotype> = Vec::new();
    for i in 0..28 {
        args.push(var(&format!("v{}", i)));
    }
    let t = Monotype::func(args);
    let shown = render_type(&t);
    assert!(shown.starts_with("'a -> 'b -> 'c"));
    assert!(shown.ends_with("'z -> 'a1 -> 'b1"));
}

#[test]
fn render_concrete_types() {
    assert_eq!(render_type(&Monotype::list(vec![int_t()])), "[int]");
    assert_eq!(render_type(&enum_t("Option", vec![var("q")])), "Option 'a");
    assert_eq!(render_type(&Monotype::unit()), "()");
    assert_eq!(render_type(&fn_t(Monotype::string(), Monotype::float())), "str -> float");
}

// ===== literals =====

#[test]
fn string_literal_escapes() {
    assert_eq!(decode_string_literal("\"a\\nb\\tc\""), "a\nb\tc");
    assert_eq!(decode_string_literal("\"\\x41\\x62\""), "Ab");
    assert_eq!(decode_string_literal("\"\\u{1F600}!\""), "\u{1F600}!");
    assert_eq!(decode_string_literal("\"\\q\\\\\\\"\""), "q\\\"");
    assert_eq!(decode_string_literal("\"\""), "");
}

#[test]
fn string_literal_bad_codes_become_nul() {
    assert_eq!(decode_string_literal("\"\\u{D800}x\""), "\0x");
    assert_eq!(decode_string_literal("\"\\xZZy\""), "\0y");
    assert_eq!(decode_string_literal("\"\\u{110000}\""), "\0");
    assert_eq!(decode_string_literal("\"\\u{+41}\""), "A");
    assert_eq!(decode_string_literal("\"a\\\""), "a\0");
}

#[test]
fn char_literals() {
    assert_eq!(decode_char_literal("'a'"), 'a');
    assert_eq!(decode_char_literal("'\\n'"), '\n');
    assert_eq!(decode_char_literal("'\\x7e'"), '~');
    assert_eq!(decode_char_literal("'\\u{e9}'"), '\u{e9}');
    assert_eq!(decode_char_literal("''"), '\0');
    assert_eq!(decode_char_literal("'\\'"), '\0');
}

#[test]
fn escape_positions() {
    let s = chars("x41rest");
    assert_eq!(decode_escape(&s, 0), ('A', 3));
    let u = chars("u{48}i");
    assert_eq!(decode_escape(&u, 0), ('H', 5));
    let unterminated = chars("u{48");
    assert_eq!(decode_escape(&unterminated, 0), ('H', 4));
    let at_end = chars("");
    assert_eq!(decode_escape(&at_end, 0), ('\0', 0));
}

// ===== statements and programs =====

#[test]
fn decl_statement_binds_generalised_type() {
    let ctx = TypeContext::new();
    let mut stmt = decl("id", Monotype::infer(), lam("x", v("x")));
    let (s, t) = stmt.typecheck(&ctx).unwrap();
    let resolved = t.apply(&s);
    assert_eq!(resolved, fn_t(var("t1"), var("t1")));
    let inner = Polytype::TypeQuantifier("t1".to_string(), Box::new(Polytype::Mono(Box::new(fn_t(var("t1"), var("t1"))))));
    assert_eq!(
        stmt.ctx.get(&"id".to_string()),
        Some(Polytype::TypeQuantifier("t1".to_string(), Box::new(inner))),
    );
}

#[test]
fn decl_with_written_type_mismatch_fails_at_statement() {
    let ctx = TypeContext::new();
    let mut stmt = Stmt::at(Pos::bytes(3, 9), SNode::Decl(
        Box::new(v("x")),
        Box::new(Type { t: bool_t() }),
        Box::new(int_lit(1)),
    ));
    let err = stmt.typecheck(&ctx).unwrap_err();
    assert_eq!(err.pos, Some(Pos::bytes(3, 9)));
    assert!(err.message.starts_with("Type function application mismatch"));
}

#[test]
fn decl_of_builtin_is_refused() {
    let ctx = TypeContext::new();
    let mut stmt = decl("println", Monotype::infer(), int_lit(1));
    let err = stmt.typecheck(&ctx).unwrap_err();
    assert_eq!(err.message, "Redefinition of builtin function 'println' not allowed");
}

#[test]
fn decl_of_non_variable_is_refused() {
    let ctx = TypeContext::new();
    let mut stmt = Stmt::from(SNode::Decl(Box::new(int_lit(3)), Box::new(Type { t: Monotype::infer() }), Box::new(int_lit(1))));
    let err = stmt.typecheck(&ctx).unwrap_err();
    assert_eq!(err.message, "Expected a variable name in declaration, got Literal");
}

#[test]
fn expression_statement_records_resolved_type() {
    let ctx = TypeContext::new();
    let app = expr(ENode::Application(Box::new(lam("x", v("x"))), Box::new(int_lit(4))));
    let mut stmt = expr_stmt(app);
    let (s, t) = stmt.typecheck(&ctx).unwrap();
    assert_eq!(t.apply(&s), int_t());
    match &*stmt.s {
        SNode::Expr(x) => assert_eq!(x.typ, int_t()),
        _ => panic!("statement changed kind"),
    }
}

#[test]
fn program_threads_context_between_statements() {
    let mut prog = Program {
        stmts: vec![
            decl("five", Monotype::infer(), int_lit(5)),
            expr_stmt(expr(ENode::IfElse(Box::new(bool_lit(true)), Box::new(v("five")), Box::new(int_lit(0))))),
        ],
        ctx: TypeContext::new(),
        source_name: "test".to_string(),
    };
    assert!(Program::typecheck(&mut prog).is_ok());
    assert_eq!(prog.ctx.get(&"five".to_string()), Some(Polytype::Mono(Box::new(int_t()))));
}

#[test]
fn program_stops_at_first_error() {
    let mut prog = Program {
        stmts: vec![
            Stmt::at(Pos::bytes(0, 4), SNode::Expr(Box::new(v("missing")))),
            decl("later", Monotype::infer(), int_lit(5)),
        ],
        ctx: TypeContext::new(),
        source_name: "test".to_string(),
    };
    let err = Program::typecheck(&mut prog).unwrap_err();
    assert_eq!(err.pos, Some(Pos::bytes(0, 4)));
    assert_eq!(prog.ctx.get(&"later".to_string()), None);
}

// ===== type declarations =====

#[test]
fn enum_declaration_binds_constructors() {
    let mut ctx = TypeContext::new();
    let header = TypeHeader { n: "Option".to_string(), tvars: vec!["a".to_string()] };
    let dec = TypeDec::Enum(vec![
        Variant { n: "Some".to_string(), tparams: vec![Type { t: var("a") }] },
        Variant { n: "None".to_string(), tparams: vec![] },
    ]);
    assert!(handle_type_decl(&header, &dec, &mut ctx).is_ok());
    assert!(ctx.has_enum_name("Option"));
    let opt = enum_t("Option", vec![var("t0")]);
    let inner = Polytype::TypeQuantifier("t0".to_string(), Box::new(Polytype::Mono(Box::new(fn_t(var("t0"), opt.clone())))));
    assert_eq!(
        ctx.get(&"Some".to_string()),
        Some(Polytype::TypeQuantifier("t0".to_string(), Box::new(inner))),
    );
    assert_eq!(
        ctx.get(&"None".to_string()),
        Some(Polytype::TypeQuantifier("t0".to_string(), Box::new(Polytype::Mono(Box::new(opt))))),
    );
}

#[test]
fn enum_declared_twice_is_refused() {
    let mut ctx = TypeContext::new();
    let header = TypeHeader { n: "Color".to_string(), tvars: vec![] };
    let dec = TypeDec::Enum(vec![Variant { n: "Red".to_string(), tparams: vec![] }]);
    assert!(handle_type_decl(&header, &dec, &mut ctx).is_ok());
    let err = handle_type_decl(&header, &dec, &mut ctx).unwrap_err();
    assert_eq!(err.message, "Enum `Color` is already declared");
}

#[test]
fn alias_declaration_and_expansion() {
    let mut ctx = TypeContext::new();
    let header = TypeHeader { n: "Pair".to_string(), tvars: vec!["a".to_string()] };
    let dec = TypeDec::Alias(Box::new(Type { t: fn_t(var("a"), var("a")) }));
    assert!(handle_type_decl(&header, &dec, &mut ctx).is_ok());
    let written = Type { t: enum_t("Pair", vec![int_t()]) };
    assert_eq!(type_to_typefn(&written, &mut ctx).unwrap(), fn_t(int_t(), int_t()));
    let wrong = Type { t: enum_t("Pair", vec![]) };
    let err = type_to_typefn(&wrong, &mut ctx).unwrap_err();
    assert_eq!(err.message, "Type alias `Pair` expects 1 argument(s), got 0");
    let as_enum = TypeDec::Enum(vec![Variant { n: "P".to_string(), tparams: vec![] }]);
    let err = handle_type_decl(&header, &as_enum, &mut ctx).unwrap_err();
    assert_eq!(err.message, "`Pair` is already declared as a type alias");
}

#[test]
fn alias_with_undeclared_variable_is_refused() {
    let mut ctx = TypeContext::new();
    let header = TypeHeader { n: "Bad".to_string(), tvars: vec![] };
    let dec = TypeDec::Alias(Box::new(Type { t: fn_t(var("z"), int_t()) }));
    let err = handle_type_decl(&header, &dec, &mut ctx).unwrap_err();
    assert_eq!(err.message, "Undeclared type variable(s): [\"z\"]");
}

#[test]
fn inferred_type_holes_get_fresh_variables() {
    let mut ctx = TypeContext::new();
    let mut visited: Vec<String> = Vec::new();
    let t = expand(&fn_t(Monotype::infer(), Monotype::infer()), &mut ctx, &mut visited).unwrap();
    assert_eq!(t, fn_t(var("t0"), var("t1")));
    assert!(visited.is_empty());
}

#[test]
fn check_undeclared_lists_variables() {
    assert!(check_undeclared(&fn_t(var("a"), var("b")), &vec!["a".to_string(), "b".to_string()]).is_ok());
    let err = check_undeclared(&fn_t(var("a"), var("b")), &vec![]).unwrap_err();
    assert_eq!(err.message, "Undeclared type variable(s): [\"a\", \"b\"]");
}

// ===== passes over the tree =====

#[test]
fn substitution_resolves_recorded_types() {
    let mut ctx = TypeContext::new();
    let mut e = lam("x", v("x"));
    let (_, t) = annotate_w(&mut ctx, &mut e).unwrap();
    assert_eq!(t, fn_t(var("t0"), var("t0")));
    let s = sub(vec![("t0", bool_t())]);
    apply_substitution(&mut e, &s);
    assert_eq!(e.typ, fn_t(bool_t(), bool_t()));
    let mut stmt = expr_stmt(e);
    resolve_stmt_types(&mut stmt, &sub(vec![]));
    match &*stmt.s {
        SNode::Expr(x) => assert_eq!(x.typ, fn_t(bool_t(), bool_t())),
        _ => panic!("statement changed kind"),
    }
}

#[test]
fn positions_get_lines_and_columns() {
    let index = LineIndex::new("let a = 1;\nlet b = a;\n");
    assert_eq!(index.line_col(0), (1, 1));
    assert_eq!(index.line_col(10), (1, 11));
    assert_eq!(index.line_col(11), (2, 1));
    assert_eq!(index.line_col(15), (2, 5));
    let value = Expr::at(Pos::bytes(19, 20), ENode::Variable("a".to_string()));
    let mut stmt = Stmt::at(Pos::bytes(11, 21), SNode::Expr(Box::new(value)));
    fill_stmt_positions(&mut stmt, &index);
    assert_eq!((stmt.pos.start_line, stmt.pos.start_col, stmt.pos.end_line, stmt.pos.end_col), (2, 1, 2, 11));
    match &*stmt.s {
        SNode::Expr(x) => assert_eq!((x.pos.start_line, x.pos.start_col), (2, 9)),
        _ => panic!("statement changed kind"),
    }
}

#[test]
fn nil_positions_stay_nil() {
    let index = LineIndex::new("abc");
    let mut stmt = expr_stmt(int_lit(1));
    fill_stmt_positions(&mut stmt, &index);
    assert_eq!(stmt.pos, Pos::nil());
    assert!(stmt.pos.is_nil());
}

#[test]
fn merge_covers_both_spans() {
    let mut p = Pos::bytes(5, 9);
    p.merge(&Pos::bytes(2, 7));
    assert_eq!((p.start, p.end), (2, 9));
    let mut q = Pos::bytes(1, 3);
    q.merge(&Pos::bytes(4, 12));
    assert_eq!((q.start, q.end), (1, 12));
}

// ===== lowering skeleton =====

#[test]
fn lowering_emits_no_functions() {
    let prog = Program {
        stmts: vec![expr_stmt(int_lit(1))],
        ctx: TypeContext::new(),
        source_name: "t".to_string(),
    };
    let m = lower(&prog).unwrap();
    assert_eq!(m.function_count(), 0);
    assert_eq!(m.dump(), "");
    assert_eq!(Module::new().function_count(), 0);
}

#[test]
fn unavailable_lowering_reports_errors() {
    assert_eq!(lower_expr(&int_lit(1)).unwrap_err(), "codegen: expression lowering not implemented");
    assert_eq!(lower_type(&int_t()).unwrap_err(), "codegen: type lowering not implemented");
    assert_eq!(execute(&Module::new()).unwrap_err(), "codegen: jit execution not implemented");
}

// ===== name maps =====

#[test]
fn name_map_insert_replaces_and_remove_forgets() {
    let mut m: NameMap<u32> = NameMap::new();
    m.insert("a".to_string(), 1);
    m.insert("b".to_string(), 2);
    m.insert("a".to_string(), 3);
    assert_eq!(m.len(), 2);
    assert_eq!(m.get("a"), Some(&3));
    m.remove("a");
    assert_eq!(m.get("a"), None);
    assert!(m.contains_key("b"));
    assert!(!m.is_empty());
}

#[test]
fn type_func_names_compare() {
    assert!(TypeFunc::Int.same(&TypeFunc::Int));
    assert!(!TypeFunc::Enum("A".to_string()).same(&TypeFunc::Enum("B".to_string())));
}

// ===== interactive loop decisions =====


fn input_text(r: ReplInput) -> Option<Option<String>> {
    match r {
        ReplInput::Skip => None,
        ReplInput::Exit => Some(None),
        ReplInput::Source(s) => Some(Some(s)),
    }
}

#[test]
fn input_lines_are_classified() {
    assert_eq!(input_text(read_input("   \t\n")), None);
    assert_eq!(input_text(read_input("")), None);
    assert_eq!(input_text(read_input("  exit\n")), Some(None));
    assert_eq!(input_text(read_input("exit now")), Some(Some("exit now".to_string())));
    assert_eq!(input_text(read_input("\u{3000}let x = 1;  \r\n")), Some(Some("let x = 1;".to_string())));
}

#[test]
fn last_statement_kinds() {
    let ctx = TypeContext::new();
    let mut scalar = decl("n", Monotype::infer(), int_lit(3));
    scalar.typecheck(&ctx).unwrap();
    let mut function = decl("f", Monotype::infer(), lam("x", v("x")));
    function.typecheck(&ctx).unwrap();
    let mut plain = expr_stmt(bool_lit(false));
    plain.typecheck(&ctx).unwrap();

    let (t, k, target) = last_statement(&vec![function, scalar]);
    assert_eq!(t, Some(int_t()));
    assert_eq!(k, LastKind::DeclScalar);
    assert_eq!(target, Some(("n".to_string(), int_t())));

    let mut function2 = decl("g", Monotype::infer(), lam("y", v("y")));
    function2.typecheck(&ctx).unwrap();
    let (t, k, target) = last_statement(&vec![plain, function2]);
    assert_eq!(k, LastKind::DeclFn);
    assert_eq!(target, None);
    assert_eq!(fn_report(&t), "  : 'a -> 'a : <fn>");

    let (t, k, _) = last_statement(&vec![]);
    assert_eq!((t, k), (None, LastKind::Other));
    assert_eq!(fn_report(&None), "  : <fn>");
}

#[test]
fn last_statement_expression_value() {
    let ctx = TypeContext::new();
    let mut plain = expr_stmt(bool_lit(false));
    plain.typecheck(&ctx).unwrap();
    let (t, k, target) = last_statement(&vec![plain]);
    assert_eq!((t, k, target), (Some(bool_t()), LastKind::Expr, None));
}

#[test]
fn error_text_is_its_message() {
    let err = unify(&int_t(), &var("a").apply(&sub(vec![("a", fn_t(int_t(), int_t()))]))).unwrap_err();
    assert_eq!(err.to_text(), err.message);
    assert!(err.to_text().starts_with("Type function application mismatch: Int != Fn"));
}

#[test]
fn unifying_a_type_with_itself_binds_nothing() {
    let t = fn_t(var("a"), enum_t("Option", vec![fn_t(var("b"), var("a"))]));
    let s = unify(&t, &t).unwrap();
    assert_eq!(s.size(), 0);
}

#[test]
fn inference_records_types_in_subexpressions() {
    let mut ctx = TypeContext::new();
    let mut e = expr(ENode::Application(Box::new(lam("x", v("x"))), Box::new(int_lit(5))));
    let (_, t) = annotate_w(&mut ctx, &mut e).unwrap();
    assert_eq!(t, int_t());
    assert_eq!(e.typ, int_t());
    match &*e.e {
        ENode::Application(f, x) => {
            assert_eq!(f.typ, fn_t(var("t0"), var("t0")));
            match &*f.e {
                ENode::Abstraction(_, body) => assert_eq!(body.typ, var("t0")),
                _ => panic!("tree changed shape"),
            }
            assert_eq!(x.typ, int_t());
        },
        _ => panic!("tree changed shape"),
    }
}

#[test]
fn statement_check_resolves_recorded_types() {
    let ctx = TypeContext::new();
    let app = expr(ENode::Application(Box::new(lam("x", v("x"))), Box::new(int_lit(5))));
    let mut stmt = expr_stmt(app);
    stmt.typecheck(&ctx).unwrap();
    match &*stmt.s {
        SNode::Expr(e) => match &*e.e {
            ENode::Application(f, x) => {
                assert_eq!(f.typ, fn_t(int_t(), int_t()));
                assert_eq!(x.typ, int_t());
            },
            _ => panic!("tree changed shape"),
        },
        _ => panic!("statement changed kind"),
    }
}

#[test]
fn list_and_block_elements_record_types() {
    let mut ctx = TypeContext::new();
    let mut e = expr(ENode::List(vec![int_lit(1), v("y")]));
    ctx.add("y".to_string(), Polytype::Mono(Box::new(int_t())));
    annotate_w(&mut ctx, &mut e).unwrap();
    assert_eq!(e.typ, Monotype::list(vec![int_t()]));
    match &*e.e {
        ENode::List(es) => {
            assert_eq!(es[0].typ, int_t());
            assert_eq!(es[1].typ, int_t());
        },
        _ => panic!("tree changed shape"),
    }
    let mut ctx = TypeContext::new();
    let block = expr(ENode::Block(vec![decl("z", Monotype::infer(), bool_lit(true))], Box::new(v("z"))));
    let mut b = block;
    annotate_w(&mut ctx, &mut b).unwrap();
    assert_eq!(b.typ, bool_t());
    match &*b.e {
        ENode::Block(ss, tail) => {
            assert_eq!(tail.typ, bool_t());
            match &*ss[0].s {
                SNode::Decl(_, _, value) => assert_eq!(value.typ, bool_t()),
                _ => panic!("statement changed kind"),
            }
        },
        _ => panic!("tree changed shape"),
    }
}

// ===== lowering decisions =====

#[test]
fn free_variables_default_to_int() {
    let t = fn_t(var("a"), Monotype::list(vec![var("b")]));
    assert_eq!(default_free_vars(&t), fn_t(int_t(), Monotype::list(vec![int_t()])));
    assert_eq!(default_free_vars(&bool_t()), bool_t());
}

#[test]
fn function_and_list_parts() {
    let f = fn_t(var("a"), bool_t());
    assert_eq!(function_parts(&f), Some((var("a"), bool_t())));
    assert_eq!(concrete_parts(&f), Some((int_t(), bool_t())));
    assert_eq!(function_parts(&int_t()), None);
    assert_eq!(function_parts(&Monotype::func(vec![int_t()])), None);
    assert_eq!(list_elem(&Monotype::list(vec![bool_t()])), Some(bool_t()));
    assert_eq!(list_elem(&Monotype::list(vec![])), None);
    assert_eq!(list_elem(&int_t()), None);
}

#[test]
fn operand_kinds() {
    assert_eq!(primitive_kind(&var("q")), Ok(Prim::Int));
    assert_eq!(primitive_kind(&Monotype::float()), Ok(Prim::Float));
    assert_eq!(primitive_kind(&bool_t()), Ok(Prim::Bool));
    assert_eq!(primitive_kind(&Monotype::string()), Ok(Prim::Str));
    assert_eq!(
        primitive_kind(&Monotype::unit()),
        Err("codegen: unsupported operand type for binary/unary operation: TypeFuncApplication(Unit, [])".to_string()),
    );
}

#[test]
fn fields_are_found_by_label() {
    let fields = vec![("x".to_string(), int_t()), ("y".to_string(), bool_t()), ("x".to_string(), bool_t())];
    assert_eq!(field_index(&fields, "x"), Ok(0));
    assert_eq!(field_index(&fields, "y"), Ok(1));
    assert_eq!(field_index(&fields, "z"), Err("codegen: record has no field `z`".to_string()));
}

#[test]
fn type_declarations_are_registered_once() {
    let mut m = Module::new();
    let header = TypeHeader { n: "Shape".to_string(), tvars: vec!["a".to_string()] };
    let dec = TypeDec::Enum(vec![
        Variant { n: "Dot".to_string(), tparams: vec![] },
        Variant { n: "Box".to_string(), tparams: vec![Type { t: var("a") }, Type { t: int_t() }] },
    ]);
    assert_eq!(lower_type_decl(&header, &dec, &mut m), Ok(()));
    let again = TypeDec::Alias(Box::new(Type { t: int_t() }));
    assert_eq!(lower_type_decl(&header, &again, &mut m), Err("codegen: type `Shape` is already declared".to_string()));
    let alias = TypeHeader { n: "Num".to_string(), tvars: vec![] };
    assert_eq!(lower_type_decl(&alias, &again, &mut m), Ok(()));
    assert_eq!(m.function_count(), 0);
}

#[test]
fn result_slots_follow_the_entry_type() {
    assert_eq!(result_slot(&None), Ok(ResultSlot::Unit));
    assert_eq!(result_slot(&Some(var("r"))), Ok(ResultSlot::Int));
    assert_eq!(result_slot(&Some(Monotype::float())), Ok(ResultSlot::Float));
    assert_eq!(result_slot(&Some(bool_t())), Ok(ResultSlot::Bool));
    assert_eq!(result_slot(&Some(Monotype::string())), Ok(ResultSlot::Str));
    assert_eq!(result_slot(&Some(Monotype::unit())), Ok(ResultSlot::Unit));
    assert_eq!(
        result_slot(&Some(Monotype::list(vec![var("e")]))),
        Err("codegen: cannot JIT-execute type TypeFuncApplication(List, [TypeVariable(\"e\")])".to_string()),
    );
}

#[test]
fn checking_against_an_inferred_type_can_meet_its_own_fresh_names() {
    let mut e = lam("x", lam("y", v("x")));
    let mut ctx_w = TypeContext::new();
    let (s, t) = algo_w(&mut ctx_w, &mut e).unwrap();
    let resolved = t.apply(&s);
    assert_eq!(resolved, fn_t(var("t0"), fn_t(var("t1"), var("t0"))));
    let mut ctx_m = TypeContext::new();
    let err = algo_m(&mut ctx_m, &e, &resolved).unwrap_err();
    assert_eq!(err.message, "Infinite recursive type");
}

// ===== equality of trees =====

#[test]
fn trees_compare_without_positions() {
    let a = Expr::at(Pos::bytes(1, 5), ENode::Application(Box::new(v("f")), Box::new(int_lit(1))));
    let b = Expr::at(Pos::bytes(7, 9), ENode::Application(Box::new(v("f")), Box::new(int_lit(1))));
    assert!(a == b);
    let c = expr(ENode::Application(Box::new(v("f")), Box::new(int_lit(2))));
    assert!(a != c);
    let mut d = expr(ENode::Application(Box::new(v("f")), Box::new(int_lit(1))));
    d.typ = int_t();
    assert!(a != d);
    let blk1 = expr(ENode::Block(vec![expr_stmt(int_lit(1))], Box::new(v("x"))));
    let blk2 = expr(ENode::Block(vec![Stmt::at(Pos::bytes(3, 4), SNode::Expr(Box::new(int_lit(1))))], Box::new(v("x"))));
    let blk3 = expr(ENode::Block(vec![], Box::new(v("x"))));
    assert!(blk1 == blk2);
    assert!(blk1 != blk3);
}

#[test]
fn statements_compare_with_their_contexts() {
    let s1 = decl("a", Monotype::infer(), int_lit(1));
    let s2 = decl("a", Monotype::infer(), int_lit(1));
    assert!(s1 == s2);
    let mut s3 = decl("a", Monotype::infer(), int_lit(1));
    s3.ctx.add("z".to_string(), Polytype::Mono(Box::new(int_t())));
    assert!(s1 != s3);
    let t1 = Stmt::from(SNode::TypeDecl(
        TypeHeader { n: "E".to_string(), tvars: vec![] },
        Box::new(TypeDec::Enum(vec![Variant { n: "A".to_string(), tparams: vec![] }])),
    ));
    let t2 = Stmt::from(SNode::TypeDecl(
        TypeHeader { n: "E".to_string(), tvars: vec![] },
        Box::new(TypeDec::Enum(vec![Variant { n: "B".to_string(), tparams: vec![] }])),
    ));
    assert!(t1 != t2);
    assert!(s1 != t1);
}

#[test]
fn program_positions_use_the_source_lines() {
    let mut prog = Program {
        stmts: vec![
            Stmt::at(Pos::bytes(0, 2), SNode::Expr(Box::new(Expr::at(Pos::bytes(0, 1), ENode::Variable("a".to_string()))))),
            Stmt::at(Pos::bytes(4, 6), SNode::Expr(Box::new(Expr::at(Pos::bytes(4, 5), ENode::Variable("b".to_string()))))),
        ],
        ctx: TypeContext::new(),
        source_name: "two.mln".to_string(),
    };
    fill_program_positions(&mut prog, "a;

b;
");
    assert_eq!((prog.stmts[0].pos.start_line, prog.stmts[0].pos.start_col), (1, 1));
    assert_eq!((prog.stmts[1].pos.start_line, prog.stmts[1].pos.start_col, prog.stmts[1].pos.end_col), (3, 1, 3));
    assert_eq!(prog.source_name, "two.mln");
}

#[test]
fn merge_keeps_line_data_of_the_ends_it_takes() {
    let index = LineIndex::new("ab\ncd\nef");
    let mut p = Pos::bytes(3, 4);
    p.fill(&index);
    let mut q = Pos::bytes(0, 7);
    q.fill(&index);
    p.merge(&q);
    assert_eq!((p.start, p.end), (0, 7));
    assert_eq!((p.start_line, p.start_col, p.end_line, p.end_col), (1, 1, 3, 2));
    let mut r = Pos::bytes(3, 8);
    r.fill(&index);
    let mut inner = Pos::bytes(4, 5);
    inner.fill(&index);
    r.merge(&inner);
    assert_eq!((r.start_line, r.start_col, r.end_line, r.end_col), (2, 1, 3, 3));
}

#[test]
fn operators_leave_unknown_operands_open_for_float() {
    let neg = |e: Expr| expr(ENode::Unary(UnaryOp::Negate, Box::new(e)));
    let add = |a: Expr, b: Expr| expr(ENode::Arithmetic(ArithOp::Plus, Box::new(a), Box::new(b)));
    let lt = |a: Expr, b: Expr| expr(ENode::Comparison(CompOp::Less, Box::new(a), Box::new(b)));
    let float = |x: u32| expr(ENode::Literal(Box::new(Lit::Float(x))));
    let app = |f: Expr, x: Expr| expr(ENode::Application(Box::new(f), Box::new(x)));
    let mut ctx = TypeContext::new();
    let (s, t) = algo_w(&mut ctx, &mut app(lam("x", neg(v("x"))), float(15))).unwrap();
    assert_eq!(t.apply(&s), Monotype::float());
    let mut e = expr(ENode::Let(
        "add".to_string(),
        Box::new(lam("x", lam("y", add(v("x"), v("y"))))),
        Box::new(app(app(v("add"), float(15)), float(25))),
    ));
    let mut ctx = TypeContext::new();
    let (s, t) = algo_w(&mut ctx, &mut e).unwrap();
    assert_eq!(t.apply(&s), Monotype::float());
    let mut ctx = TypeContext::new();
    let mut cmp = app(app(lam("x", lam("y", lt(v("x"), v("y")))), float(15)), float(25));
    let (s, t) = algo_w(&mut ctx, &mut cmp).unwrap();
    assert_eq!(t.apply(&s), Monotype::bool());
    let mut ctx = TypeContext::new();
    assert!(algo_m(&mut ctx, &lam("x", neg(v("x"))), &fn_t(Monotype::float(), Monotype::float())).is_ok());
    let mut ctx = TypeContext::new();
    assert!(algo_m(&mut ctx, &lam("x", neg(v("x"))), &fn_t(Monotype::string(), Monotype::string())).is_err());
}

#[test]
fn applying_twice_is_applying_once() {
    let s = sub(vec![("c", var("b")), ("b", int_t())]);
    let once = fn_t(var("c"), var("d")).apply(&s);
    assert_eq!(once, fn_t(int_t(), var("d")));
    assert_eq!(once.apply(&s), once);
}

#[test]
fn generalisation_never_captures_a_context_variable() {
    let mut ctx = TypeContext::new();
    ctx.add("x".to_string(), Polytype::Mono(Box::new(var("t0"))));
    let g = ctx.generalise(&fn_t(var("a"), var("t0")));
    assert_eq!(g, Polytype::TypeQuantifier("a".to_string(), Box::new(Polytype::Mono(Box::new(fn_t(var("a"), var("t0")))))));
    assert_eq!(g.free_variables(), vec!["t0".to_string()]);
    let mut fresh = TypeContext::new();
    for _ in 0..5 {
        fresh.new_typevar();
    }
    assert_eq!(g.instantiate(&mut fresh, None), fn_t(var("t5"), var("t0")));
}

#[test]
fn instantiating_a_generalisation_renames_its_variables() {
    let mut ctx = TypeContext::new();
    ctx.add("k".to_string(), Polytype::Mono(Box::new(var("c"))));
    let g = ctx.generalise(&fn_t(var("a"), fn_t(var("b"), var("c"))));
    let mut fresh = TypeContext::new();
    let t = g.instantiate(&mut fresh, None);
    assert_eq!(t, fn_t(var("t1"), fn_t(var("t0"), var("c"))));
}

#[test]
fn catch_all_cases_must_come_last() {
    let case = |p: Expr| MatchCase { val: Box::new(p), exp: Box::new(int_lit(0)) };
    let mut m = Module::new();
    let header = TypeHeader { n: "O".to_string(), tvars: vec![] };
    let dec = TypeDec::Enum(vec![Variant { n: "None".to_string(), tparams: vec![] }]);
    lower_type_decl(&header, &dec, &mut m).unwrap();
    let cases = vec![case(v("None")), case(int_lit(3)), case(v("other"))];
    assert_eq!(match_case_kind(&cases, 0, &m), Ok(CaseKind::Pattern));
    assert_eq!(match_case_kind(&cases, 1, &m), Ok(CaseKind::Pattern));
    assert_eq!(match_case_kind(&cases, 2, &m), Ok(CaseKind::CatchAll));
    assert_eq!(match_case_kind(&cases, 3, &m), Err("codegen: non-exhaustive match".to_string()));
    let early = vec![case(v("x")), case(int_lit(1))];
    assert_eq!(match_case_kind(&early, 0, &m), Err("codegen: catch-all pattern `x` must be the last case".to_string()));
}

#[test]
fn closures_capture_free_values_and_refuse_free_lambdas() {
    let env = vec![
        ("a".to_string(), EnvKind::Value),
        ("f".to_string(), EnvKind::Abstraction),
        ("b".to_string(), EnvKind::Value),
        ("c".to_string(), EnvKind::Value),
    ];
    let free = vec!["c".to_string(), "a".to_string(), "z".to_string()];
    assert_eq!(closure_captures(&env, &free), Ok(vec!["a".to_string(), "c".to_string()]));
    let free = vec!["b".to_string(), "f".to_string()];
    assert_eq!(
        closure_captures(&env, &free),
        Err("codegen: cannot capture lambda binding `f` in a closure yet".to_string()),
    );
    assert_eq!(closure_captures(&env, &vec![]), Ok(vec![]));
}

#[test]
fn unification_finds_the_most_general_unifier() {
    let a = fn_t(var("a"), var("b"));
    let b = fn_t(int_t(), var("c"));
    let s = unify(&a, &b).unwrap();
    let other = sub(vec![("a", int_t()), ("b", Monotype::bool()), ("c", Monotype::bool())]);
    assert_eq!(a.apply(&other), b.apply(&other));
    for t in [a.clone(), b.clone(), var("a"), var("b"), var("c"), fn_t(var("c"), var("d"))] {
        assert_eq!(t.apply(&s).apply(&other), t.apply(&other));
    }
}

#[test]
fn unification_fails_exactly_without_a_unifier_in_either_order() {
    let pairs = vec![
        (int_t(), fn_t(var("a"), var("b"))),
        (var("a"), fn_t(var("a"), int_t())),
        (fn_t(int_t(), var("x")), fn_t(Monotype::bool(), var("y"))),
        (var("a"), fn_t(var("b"), int_t())),
        (fn_t(var("a"), var("a")), fn_t(int_t(), var("b"))),
    ];
    let expect_ok = [false, false, false, true, true];
    for (k, (x, y)) in pairs.iter().enumerate() {
        assert_eq!(unify(x, y).is_ok(), expect_ok[k]);
        assert_eq!(unify(y, x).is_ok(), expect_ok[k]);
    }
}

#[test]
fn a_failed_step_drops_the_statements_it_added() {
    let mut acc: Vec<Stmt> = Vec::new();
    assert!(extend_and_check(&mut acc, vec![decl("x", Monotype::infer(), int_lit(1))]).is_ok());
    assert_eq!(acc.len(), 1);
    let bad = expr_stmt(expr(ENode::Logical(LogicalOp::And, Box::new(v("x")), Box::new(bool_lit(true)))));
    let e = extend_and_check(&mut acc, vec![expr_stmt(v("x")), bad]).unwrap_err();
    assert!(e.pos.is_some());
    assert_eq!(acc.len(), 1);
    assert!(extend_and_check(&mut acc, vec![expr_stmt(v("x"))]).is_ok());
    assert_eq!(acc.len(), 2);
}

#[test]
fn a_failed_check_leaves_the_statement_as_it_was() {
    let ctx = TypeContext::new();
    let bad_app = expr(ENode::Application(
        Box::new(lam("x", v("x"))),
        Box::new(expr(ENode::Application(Box::new(int_lit(1)), Box::new(int_lit(2))))),
    ));
    let mut stmt = expr_stmt(bad_app);
    let before = format!("{:?}", stmt);
    assert!(stmt.typecheck(&ctx).is_err());
    assert_eq!(format!("{:?}", stmt), before);
    let mut e = expr(ENode::Application(Box::new(lam("x", v("x"))), Box::new(bool_lit(true))));
    let before = format!("{:?}", e);
    let mut ctx = TypeContext::new();
    assert!(algo_w(&mut ctx, &e).is_ok());
    assert_eq!(format!("{:?}", e), before);
    let mut ctx = TypeContext::new();
    assert!(annotate_w(&mut ctx, &mut e).is_ok());
    assert_eq!(e.typ, bool_t());
}

#[test]
fn repl_steps_keep_the_accepted_statements_on_failure() {
    let mut acc: Vec<Stmt> = Vec::new();
    assert!(matches!(repl_step(&mut acc, ReplEvent::Line("   ".to_string())), ReplAction::Prompt));
    assert!(matches!(repl_step(&mut acc, ReplEvent::Line(" exit ".to_string())), ReplAction::Stop));
    assert!(matches!(repl_step(&mut acc, ReplEvent::EndOfInput), ReplAction::Stop));
    match repl_step(&mut acc, ReplEvent::Line(" let x = 1 ".to_string())) {
        ReplAction::Parse(src) => assert_eq!(src, "let x = 1"),
        _ => panic!("expected source text"),
    }
    assert!(matches!(repl_step(&mut acc, ReplEvent::Parsed(Err("bad".to_string()))), ReplAction::ReportParseError(m) if m == "bad"));
    let ok = repl_step(&mut acc, ReplEvent::Parsed(Ok(vec![decl("x", Monotype::infer(), int_lit(1))])));
    assert!(matches!(ok, ReplAction::Run));
    let before = format!("{:?}", acc);
    let bad = expr_stmt(expr(ENode::Logical(LogicalOp::And, Box::new(v("x")), Box::new(bool_lit(true)))));
    match repl_step(&mut acc, ReplEvent::Parsed(Ok(vec![expr_stmt(v("x")), bad]))) {
        ReplAction::ReportTypeError(e) => assert!(e.pos.is_some()),
        _ => panic!("expected a type error"),
    }
    assert_eq!(format!("{:?}", acc), before);
    assert!(matches!(repl_step(&mut acc, ReplEvent::Parsed(Ok(vec![expr_stmt(v("x"))]))), ReplAction::Run));
    assert_eq!(acc.len(), 2);
}
