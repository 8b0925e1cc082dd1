use langcheck::{
    collect_ok_or_err, create_program, flatten_action, get_type_from_exp, resolve_scope, substitute_generics,
    transform_exp, transform_type, CompData, CompError, CompExpression, CompScope, CompType,
    CompVariable, CustomType, Expression, FunctionAst, FunctionLiteral, Program, RawData, Span,
    Symbol, TempScope, TypeEntry,
};

fn at(start: usize, end: usize) -> Span {
    Span { start, end }
}

fn sp() -> Span {
    at(0, 0)
}

fn int_lit(v: i64) -> Expression {
    Expression::Terminal(Symbol::Data(RawData::Int(v)), sp())
}

fn string(s: &str) -> Expression {
    Expression::Terminal(Symbol::Data(RawData::Str(s.to_string())), sp())
}

fn boolean(b: bool) -> Expression {
    Expression::Terminal(Symbol::Data(RawData::Bool(b)), sp())
}

fn ident(n: &str) -> Expression {
    Expression::Terminal(Symbol::Identifier(n.to_string()), sp())
}

fn lone(n: &str) -> CustomType {
    CustomType::Lone(n.to_string())
}

fn let_(name: &str, ty: Option<CustomType>, e: Expression) -> Expression {
    Expression::InitAssign(false, false, name.to_string(), ty, Box::new(e), at(1, 2))
}

fn const_(name: &str, e: Expression) -> Expression {
    Expression::InitAssign(false, true, name.to_string(), None, Box::new(e), at(1, 2))
}

fn assign(name: &str, e: Expression) -> Expression {
    Expression::Assign(Box::new(ident(name)), Box::new(e), at(3, 4))
}

fn block(es: Vec<Expression>) -> Expression {
    Expression::Block(es, sp())
}

fn add(l: Expression, r: Expression) -> Expression {
    Expression::Addition(Box::new(l), Box::new(r), sp())
}

fn call(name: &str, args: Vec<Expression>) -> Expression {
    Expression::FuncCall(name.to_string(), args, at(5, 6))
}

fn func(args: Vec<(&str, CustomType)>, ret: CustomType, body: Option<Expression>) -> Expression {
    Expression::Terminal(
        Symbol::Data(RawData::Func(FunctionLiteral {
            generics: Vec::new(),
            args: args.into_iter().map(|(n, t)| (n.to_string(), t)).collect(),
            return_type: ret,
            body: body.map(Box::new),
        })),
        sp(),
    )
}

fn entry(name: &str, typing: CompType) -> TypeEntry {
    TypeEntry { name: name.to_string(), typing }
}

fn env() -> CompScope {
    CompScope {
        variables: vec![CompVariable {
            name: "print".to_string(),
            typing: CompType::Callible(
                vec![CompType::Union(vec![
                    CompType::Str,
                    CompType::Int,
                    CompType::Bool,
                    CompType::Null,
                ])],
                Box::new(CompType::Null),
            ),
            constant: true,
            external: true,
        }],
        types: vec![
            entry("int", CompType::Int),
            entry("string", CompType::Str),
            entry("null", CompType::Null),
            entry("bool", CompType::Bool),
        ],
        parent: None,
    }
}

fn errors_of(e: &Expression) -> Vec<CompError> {
    match create_program(e, &env()) {
        Ok(_) => panic!("expected diagnostics"),
        Err(errs) => errs,
    }
}

fn program_of(e: &Expression) -> Program {
    match create_program(e, &env()) {
        Ok(p) => p,
        Err(errs) => panic!("unexpected diagnostics {:?}", errs),
    }
}

fn scope_with_env() -> TempScope {
    TempScope {
        variables: Vec::new(),
        preset_variables: Vec::new(),
        types: Vec::new(),
        parent: Some(Box::new(env())),
        outermost: false,
    }
}

fn value(d: CompData) -> CompExpression {
    CompExpression::Value(d)
}

#[test]
fn flatten_nested_repeat_matches_plain_union() {
    let nested = CompType::Union(vec![
        CompType::Int,
        CompType::Union(vec![CompType::Str, CompType::Int]),
    ]);
    let plain = CompType::Union(vec![CompType::Int, CompType::Str]);
    assert_eq!(nested.flatten(), plain.flatten());
    assert_eq!(nested.flatten(), CompType::Union(vec![CompType::Int, CompType::Str]));
}

#[test]
fn flatten_is_idempotent_on_example() {
    let t = CompType::Union(vec![
        CompType::Bool,
        CompType::Union(vec![CompType::Union(vec![CompType::Null]), CompType::Bool]),
        CompType::Null,
    ]);
    let once = t.flatten();
    assert_eq!(once, CompType::Union(vec![CompType::Bool, CompType::Null]));
    assert_eq!(once.flatten(), once);
}

#[test]
fn flatten_keeps_single_member_union() {
    let t = CompType::Union(vec![CompType::Int, CompType::Int]);
    assert_eq!(t.flatten(), CompType::Union(vec![CompType::Int]));
    assert_eq!(CompType::Str.flatten(), CompType::Str);
}

#[test]
fn super_of_reflexive_on_primitives() {
    for t in [CompType::Int, CompType::Float, CompType::Str, CompType::Bool, CompType::Null] {
        assert!(t.super_of(&t.duplicate()));
    }
}

#[test]
fn super_of_union_direction() {
    let u = CompType::Union(vec![CompType::Int, CompType::Str]);
    assert!(u.super_of(&CompType::Int));
    assert!(!CompType::Int.super_of(&u));
    assert!(!CompType::Int.super_of(&CompType::Str));
    assert!(u.super_of(&CompType::Union(vec![CompType::Str])));
    assert!(!u.super_of(&CompType::Bool));
}

#[test]
fn super_of_callable_is_structural() {
    let f = CompType::Callible(vec![CompType::Int], Box::new(CompType::Str));
    let g = CompType::Callible(vec![CompType::Int], Box::new(CompType::Str));
    let h = CompType::Callible(vec![CompType::Str], Box::new(CompType::Str));
    assert!(f.super_of(&g));
    assert!(!f.super_of(&h));
}

#[test]
fn redeclare_in_same_block() {
    let prog = block(vec![let_("x", None, int_lit(1)), let_("x", None, int_lit(2))]);
    let errs = errors_of(&prog);
    assert_eq!(errs, vec![CompError::RedeclareInSameScope("x".to_string(), at(1, 2))]);
}

#[test]
fn assign_to_constant() {
    let prog = block(vec![const_("x", int_lit(1)), assign("x", int_lit(2))]);
    let errs = errors_of(&prog);
    assert_eq!(errs, vec![CompError::ConstReassign("x".to_string(), at(3, 4))]);
}

#[test]
fn assign_at_outermost_scope() {
    let prog = block(vec![assign("x", int_lit(2))]);
    let errs = errors_of(&prog);
    assert_eq!(errs, vec![CompError::GlobalReassign("x".to_string(), at(3, 4))]);
}

#[test]
fn assign_inside_function_body() {
    let body = block(vec![let_("y", None, int_lit(1)), assign("y", int_lit(2)), ident("y")]);
    let prog = block(vec![let_("f", None, func(vec![], lone("int"), Some(body)))]);
    program_of(&prog);
    let bad = block(vec![assign("z", int_lit(2))]);
    let prog = block(vec![let_("g", None, func(vec![], lone("int"), Some(bad)))]);
    let errs = errors_of(&prog);
    assert_eq!(errs, vec![CompError::CannotFindVariable("z".to_string(), at(3, 4))]);
}

#[test]
fn assign_to_parameter() {
    let body = block(vec![assign("a", int_lit(2))]);
    let prog = block(vec![let_("f", None, func(vec![("a", lone("int"))], lone("null"), Some(body)))]);
    let errs = errors_of(&prog);
    assert_eq!(errs, vec![CompError::ConstReassign("a".to_string(), at(3, 4))]);
}

#[test]
fn invalid_left_hand() {
    let prog = block(vec![Expression::Assign(Box::new(int_lit(1)), Box::new(int_lit(2)), at(7, 8))]);
    let errs = errors_of(&prog);
    assert_eq!(errs, vec![CompError::InvalidLeftHandForAssignment(at(7, 8))]);
}

#[test]
fn if_with_non_boolean_condition() {
    let prog = block(vec![Expression::IfElse(
        Box::new(int_lit(5)),
        Box::new(block(vec![int_lit(1)])),
        Box::new(block(vec![int_lit(2)])),
        sp(),
    )]);
    let errs = errors_of(&prog);
    assert_eq!(errs, vec![CompError::BoolInIf(CompType::Int, sp())]);
}

#[test]
fn if_else_type_is_union_of_branches() {
    let prog = block(vec![Expression::IfElse(
        Box::new(boolean(true)),
        Box::new(block(vec![int_lit(1)])),
        Box::new(block(vec![string("a")])),
        sp(),
    )]);
    let p = program_of(&prog);
    assert_eq!(
        get_type_from_exp(&p.body),
        Ok(CompType::Union(vec![CompType::Int, CompType::Str]))
    );
}

#[test]
fn while_with_non_boolean_condition() {
    let prog = block(vec![Expression::Loop(Box::new(string("s")), Box::new(block(vec![])), sp())]);
    let errs = errors_of(&prog);
    assert_eq!(errs, vec![CompError::BoolInWhile(CompType::Str, sp())]);
}

fn adder() -> Expression {
    func(
        vec![("a", lone("int")), ("b", lone("int"))],
        lone("int"),
        Some(add(ident("a"), ident("b"))),
    )
}

#[test]
fn call_with_too_few_arguments() {
    let prog = block(vec![let_("f", None, adder()), call("f", vec![int_lit(1)])]);
    let errs = errors_of(&prog);
    assert_eq!(errs, vec![CompError::WrongArgumentCount(2, 1, at(5, 6))]);
}

#[test]
fn call_with_wrong_argument_type() {
    let prog = block(vec![let_("f", None, adder()), call("f", vec![int_lit(1), string("x")])]);
    let errs = errors_of(&prog);
    assert_eq!(
        errs,
        vec![CompError::InvalidArgument(1, CompType::Int, CompType::Str, at(5, 6))]
    );
}

#[test]
fn call_reports_every_mismatched_position() {
    let prog = block(vec![let_("f", None, adder()), call("f", vec![string("x"), boolean(true)])]);
    let errs = errors_of(&prog);
    assert_eq!(
        errs,
        vec![
            CompError::InvalidArgument(0, CompType::Int, CompType::Str, at(5, 6)),
            CompError::InvalidArgument(1, CompType::Int, CompType::Bool, at(5, 6)),
        ]
    );
}

#[test]
fn call_with_right_arguments_derives_return_type() {
    let prog = block(vec![let_("f", None, adder()), call("f", vec![int_lit(1), int_lit(2)])]);
    let p = program_of(&prog);
    assert_eq!(get_type_from_exp(&p.body), Ok(CompType::Int));
}

#[test]
fn call_of_non_function() {
    let prog = block(vec![let_("n", None, int_lit(3)), call("n", vec![])]);
    let errs = errors_of(&prog);
    assert_eq!(errs, vec![CompError::NonfunctionCall("n".to_string(), CompType::Int, at(5, 6))]);
}

#[test]
fn call_of_builtin() {
    let prog = block(vec![call("print", vec![string("hi")])]);
    let p = program_of(&prog);
    assert_eq!(get_type_from_exp(&p.body), Ok(CompType::Null));
}

#[test]
fn two_undeclared_variables_two_errors() {
    let prog = block(vec![ident("undeclaredVar1"), ident("undeclaredVar2")]);
    let errs = errors_of(&prog);
    assert_eq!(
        errs,
        vec![
            CompError::CannotFindVariable("undeclaredVar1".to_string(), sp()),
            CompError::CannotFindVariable("undeclaredVar2".to_string(), sp()),
        ]
    );
}

#[test]
fn index_string_by_int() {
    let e = CompExpression::Index(
        Box::new(value(CompData::Str("abc".to_string()))),
        Box::new(value(CompData::Int(0))),
    );
    assert_eq!(get_type_from_exp(&e), Ok(CompType::Int));
}

#[test]
fn index_string_by_string() {
    let e = CompExpression::Index(
        Box::new(value(CompData::Str("abc".to_string()))),
        Box::new(value(CompData::Str("x".to_string()))),
    );
    assert_eq!(get_type_from_exp(&e), Err(CompError::InvalidIndexType(CompType::Str, sp())));
}

#[test]
fn index_int() {
    let e = CompExpression::Index(Box::new(value(CompData::Int(5))), Box::new(value(CompData::Int(0))));
    assert_eq!(get_type_from_exp(&e), Err(CompError::CannotIndexType(CompType::Int, sp())));
}

#[test]
fn index_through_lowering() {
    let prog = block(vec![Expression::Index(Box::new(string("abc")), Box::new(string("x")), sp())]);
    let errs = errors_of(&prog);
    assert_eq!(errs, vec![CompError::InvalidIndexType(CompType::Str, sp())]);
}

#[test]
fn function_captures_scope_at_declaration() {
    let prog = block(vec![
        let_("f", None, func(vec![], lone("int"), Some(ident("y")))),
        let_("y", Some(lone("int")), int_lit(1)),
    ]);
    let errs = errors_of(&prog);
    assert_eq!(errs, vec![CompError::CannotFindVariable("y".to_string(), sp())]);
    let prog = block(vec![
        let_("y", Some(lone("int")), int_lit(1)),
        let_("f", None, func(vec![], lone("int"), Some(ident("y")))),
    ]);
    program_of(&prog);
}

#[test]
fn operands_of_wrong_types() {
    let prog = block(vec![add(boolean(true), boolean(false))]);
    let errs = errors_of(&prog);
    assert_eq!(
        errs,
        vec![CompError::InvalidOperands(langcheck::Op::Add, CompType::Bool, CompType::Bool, sp())]
    );
}

#[test]
fn addition_with_string_widens_to_string() {
    let p = program_of(&block(vec![add(string("a"), int_lit(1))]));
    assert_eq!(get_type_from_exp(&p.body), Ok(CompType::Str));
    let p = program_of(&block(vec![add(int_lit(2), int_lit(1))]));
    assert_eq!(get_type_from_exp(&p.body), Ok(CompType::Int));
}

#[test]
fn empty_block_has_null_type() {
    let p = program_of(&block(vec![]));
    assert_eq!(get_type_from_exp(&p.body), Ok(CompType::Null));
}

#[test]
fn declared_type_rejects_other_value() {
    let prog = block(vec![let_("x", Some(lone("int")), string("s"))]);
    let errs = errors_of(&prog);
    assert_eq!(
        errs,
        vec![CompError::InvalidAssignment(CompType::Int, CompType::Str, at(1, 2))]
    );
}

#[test]
fn inferred_type_from_initialiser() {
    let prog = block(vec![let_("x", None, string("s")), Expression::Typeof("x".to_string(), sp()), ident("x")]);
    let p = program_of(&prog);
    assert_eq!(get_type_from_exp(&p.body), Ok(CompType::Str));
    assert_eq!(p.scope.variables.len(), 1);
    assert_eq!(p.scope.variables[0].typing, CompType::Str);
}

#[test]
fn type_declaration_twice() {
    let decl = |s: usize| {
        Expression::TypeDeclaration("num".to_string(), CustomType::Union(vec![lone("int")]), at(s, s))
    };
    let errs = errors_of(&block(vec![decl(1), decl(9)]));
    assert_eq!(errs, vec![CompError::TypeAlreadyDefined("num".to_string(), at(9, 9))]);
}

#[test]
fn declared_type_is_usable() {
    let prog = block(vec![
        Expression::TypeDeclaration(
            "num".to_string(),
            CustomType::Union(vec![lone("int"), lone("null")]),
            sp(),
        ),
        let_("x", Some(lone("num")), int_lit(1)),
        assign_nested(),
    ]);
    let errs = errors_of(&prog);
    assert_eq!(errs, vec![CompError::GlobalReassign("x".to_string(), at(3, 4))]);
}

fn assign_nested() -> Expression {
    assign("x", Expression::Terminal(Symbol::Data(RawData::Null), sp()))
}

#[test]
fn transform_type_resolves_and_flattens() {
    let scope = scope_with_env();
    let t = CustomType::Union(vec![lone("int"), lone("string"), lone("int")]);
    assert_eq!(transform_type(&t, &scope), Ok(CompType::Union(vec![CompType::Int, CompType::Str])));
    let f = CustomType::Callible(vec![lone("int")], Box::new(lone("bool")));
    assert_eq!(
        transform_type(&f, &scope),
        Ok(CompType::Callible(vec![CompType::Int], Box::new(CompType::Bool)))
    );
}

#[test]
fn transform_type_empty_union() {
    let scope = scope_with_env();
    assert_eq!(
        transform_type(&CustomType::Union(vec![]), &scope),
        Err(vec![CompError::EmptyType(sp())])
    );
}

#[test]
fn transform_type_reports_every_unknown_name() {
    let scope = scope_with_env();
    let t = CustomType::Union(vec![lone("a"), lone("int"), lone("b")]);
    assert_eq!(
        transform_type(&t, &scope),
        Err(vec![
            CompError::CannotFindType("a".to_string(), sp()),
            CompError::CannotFindType("b".to_string(), sp()),
        ])
    );
    let f = CustomType::Callible(vec![lone("p")], Box::new(lone("q")));
    assert_eq!(
        transform_type(&f, &scope),
        Err(vec![
            CompError::CannotFindType("p".to_string(), sp()),
            CompError::CannotFindType("q".to_string(), sp()),
        ])
    );
}

#[test]
fn resolve_registers_declarations_in_order() {
    let mut scope = scope_with_env();
    let prog = block(vec![let_("a", None, int_lit(1)), const_("b", int_lit(2))]);
    assert_eq!(resolve_scope(&prog, &mut scope), Ok(()));
    assert_eq!(scope.variables.len(), 2);
    assert_eq!(scope.variables[0].name, "a");
    assert!(scope.variables[1].constant);
    assert!(!scope.variables[1].initialised);
}

#[test]
fn transform_exp_marks_initialised() {
    let mut scope = scope_with_env();
    let e = let_("a", None, int_lit(1));
    assert_eq!(resolve_scope(&e, &mut scope), Ok(()));
    let r = transform_exp(&e, &mut scope);
    assert!(r.is_ok());
    assert!(scope.variables[0].initialised);
    assert_eq!(scope.variables[0].typing, Some(CompType::Int));
}

#[test]
fn flatten_action_cases() {
    assert!(flatten_action(CompExpression::List(vec![])).is_none());
    let empty_prog = CompExpression::Prog(Box::new(Program {
        scope: CompScope { variables: vec![], types: vec![], parent: None },
        body: value(CompData::Int(1)),
    }));
    match flatten_action(empty_prog) {
        Some(CompExpression::Value(CompData::Int(1))) => {}
        other => panic!("unexpected {:?}", other),
    }
    let cond = CompExpression::IfElse {
        cond: Box::new(value(CompData::Bool(true))),
        then: Box::new(value(CompData::Int(1))),
        otherwise: Box::new(CompExpression::List(vec![])),
    };
    match flatten_action(cond) {
        Some(CompExpression::IfOnly { .. }) => {}
        other => panic!("unexpected {:?}", other),
    }
}

#[test]
fn substitute_generics_keeps_function() {
    let f = FunctionAst {
        generics: vec!["T".to_string()],
        arguments: vec![CompVariable {
            name: "a".to_string(),
            typing: CompType::Int,
            constant: true,
            external: false,
        }],
        return_type: CompType::Int,
        body: None,
    };
    let g = substitute_generics(&f);
    assert_eq!(g.generics, vec!["T".to_string()]);
    assert_eq!(g.arguments.len(), 1);
    assert_eq!(g.arguments[0].typing, CompType::Int);
    assert_eq!(g.return_type, CompType::Int);
}

#[test]
fn collect_ok_or_err_gathers() {
    let none: Vec<Result<i32, Vec<CompError>>> = Vec::new();
    assert!(collect_ok_or_err(none).is_none());
    let oks: Vec<Result<i32, Vec<CompError>>> = vec![Ok(1), Ok(2)];
    assert_eq!(collect_ok_or_err(oks), Some(Ok(vec![1, 2])));
    let mixed: Vec<Result<i32, Vec<CompError>>> = vec![
        Ok(1),
        Err(vec![CompError::EmptyType(at(1, 1))]),
        Ok(2),
        Err(vec![CompError::EmptyType(at(2, 2)), CompError::EmptyType(at(3, 3))]),
    ];
    assert_eq!(
        collect_ok_or_err(mixed),
        Some(Err(vec![
            CompError::EmptyType(at(1, 1)),
            CompError::EmptyType(at(2, 2)),
            CompError::EmptyType(at(3, 3)),
        ]))
    );
}

#[test]
fn string_plus_union_typed_variable_is_string() {
    let int_or_string = CustomType::Union(vec![lone("int"), lone("string")]);
    let prog = block(vec![let_("x", Some(int_or_string), int_lit(1)), add(string("a"), ident("x"))]);
    let p = program_of(&prog);
    assert_eq!(get_type_from_exp(&p.body), Ok(CompType::Str));
    let prog = block(vec![let_("n", None, int_lit(1)), add(ident("n"), Expression::Terminal(Symbol::Data(RawData::Null), sp()))]);
    let p = program_of(&prog);
    assert_eq!(get_type_from_exp(&p.body), Ok(CompType::Str));
}

#[test]
fn int_plus_union_typed_variable_is_rejected() {
    let int_or_bool = CustomType::Union(vec![lone("int"), lone("bool")]);
    let prog = block(vec![let_("x", Some(int_or_bool), int_lit(1)), add(int_lit(2), ident("x"))]);
    let errs = errors_of(&prog);
    assert_eq!(
        errs,
        vec![CompError::InvalidOperands(
            langcheck::Op::Add,
            CompType::Int,
            CompType::Union(vec![CompType::Int, CompType::Bool]),
            sp()
        )]
    );
}

#[test]
fn if_condition_error_points_at_the_if() {
    let prog = block(vec![Expression::IfElse(
        Box::new(int_lit(5)),
        Box::new(block(vec![int_lit(1)])),
        Box::new(block(vec![int_lit(2)])),
        at(10, 42),
    )]);
    let errs = errors_of(&prog);
    assert_eq!(errs, vec![CompError::BoolInIf(CompType::Int, at(10, 42))]);
}

#[test]
fn while_condition_error_points_at_the_loop() {
    let prog = block(vec![Expression::Loop(Box::new(int_lit(1)), Box::new(block(vec![])), at(3, 9))]);
    let errs = errors_of(&prog);
    assert_eq!(errs, vec![CompError::BoolInWhile(CompType::Int, at(3, 9))]);
}

#[test]
fn index_error_points_at_the_index() {
    let prog = block(vec![Expression::Index(Box::new(int_lit(5)), Box::new(int_lit(0)), at(4, 8))]);
    let errs = errors_of(&prog);
    assert_eq!(errs, vec![CompError::CannotIndexType(CompType::Int, at(4, 8))]);
}

#[test]
fn empty_union_denotes_no_primitive() {
    let empty = CompType::Union(vec![]);
    assert!(!empty.is_bool());
    assert!(!empty.is_int());
    assert!(!empty.is_str());
    assert!(empty.primitive().is_none());
    assert!(CompType::Union(vec![CompType::Union(vec![])]).primitive().is_none());
    assert_eq!(CompType::Union(vec![CompType::Bool]).primitive(), Some(CompType::Bool));
    assert!(CompType::Union(vec![CompType::Int]).is_int());
}

#[test]
fn error_at_replaces_span() {
    let e = CompError::BoolInIf(CompType::Int, sp());
    assert_eq!(e.at(at(1, 5)), CompError::BoolInIf(CompType::Int, at(1, 5)));
}
