use ruschm::ast::{
    DefinitionBody, Expression, ExpressionBody, ImportSet, ImportSetBody, ParameterFormals,
    SchemeProcedure, Statement,
};
use ruschm::error::{ErrorType, SchemeError};
use ruschm::located::{convert_located, Located};
use ruschm::parser::{token_stream_to_parser, Parser};
use ruschm::token::{Token, TokenData};

fn l(body: ExpressionBody) -> Expression {
    Located::from_data(body)
}

fn name(text: &str) -> TokenData {
    TokenData::Identifier(text.to_string())
}

fn identifier(text: &str) -> Expression {
    l(ExpressionBody::Identifier(text.to_string()))
}

fn syntax(message: &str, location: Option<[u32; 2]>) -> SchemeError {
    SchemeError {
        category: ErrorType::Syntax,
        message: message.to_string(),
        location,
    }
}

fn parse_one(tokens: Vec<TokenData>) -> Result<Option<Statement>, SchemeError> {
    token_stream_to_parser(convert_located(tokens)).parse()
}

fn fails(tokens: Vec<TokenData>, message: &str) {
    assert_eq!(parse_one(tokens), Err(syntax(message, None)), "{}", message);
}

fn placed(tokens: Vec<TokenData>) -> Vec<Token> {
    tokens
        .into_iter()
        .enumerate()
        .map(|(i, data)| Located {
            data,
            location: Some([1, i as u32]),
        })
        .collect()
}

#[test]
fn literal_tokens_are_expressions() {
    assert_eq!(
        parse_one(vec![TokenData::Boolean(true)]),
        Ok(Some(Statement::Expression(l(ExpressionBody::Boolean(true)))))
    );
    assert_eq!(
        parse_one(vec![TokenData::Character('a')]),
        Ok(Some(Statement::Expression(l(ExpressionBody::Character('a')))))
    );
    assert_eq!(
        parse_one(vec![TokenData::Period]),
        Ok(Some(Statement::Expression(l(ExpressionBody::Period))))
    );
}

#[test]
fn a_closing_parenthesis_alone_is_unmatched() {
    fails(vec![TokenData::RightParen], "Unmatched Parentheses!");
    let mut parser = token_stream_to_parser(placed(vec![TokenData::Integer(1), TokenData::RightParen]));
    assert!(parser.parse().is_ok());
    assert_eq!(
        parser.parse(),
        Err(syntax("Unmatched Parentheses!", Some([1, 1])))
    );
}

#[test]
fn an_empty_call_is_refused_where_it_closes() {
    fails(vec![TokenData::LeftParen, TokenData::RightParen], "empty procedure call");
    let mut parser =
        token_stream_to_parser(placed(vec![TokenData::LeftParen, TokenData::RightParen]));
    assert_eq!(
        parser.parse(),
        Err(syntax("empty procedure call", Some([1, 1])))
    );
}

#[test]
fn the_operator_may_be_a_call() {
    assert_eq!(
        parse_one(vec![
            TokenData::LeftParen,
            TokenData::LeftParen,
            name("f"),
            TokenData::RightParen,
            TokenData::Integer(1),
            TokenData::RightParen,
        ]),
        Ok(Some(Statement::Expression(l(ExpressionBody::ProcedureCall(
            Box::new(l(ExpressionBody::ProcedureCall(
                Box::new(identifier("f")),
                vec![]
            ))),
            vec![l(ExpressionBody::Integer(1))]
        )))))
    );
    fails(vec![TokenData::LeftParen], "operator should be an expression");
    fails(
        vec![
            TokenData::LeftParen,
            TokenData::LeftParen,
            name("define"),
            name("x"),
            TokenData::Integer(1),
            TokenData::RightParen,
            TokenData::RightParen,
        ],
        "operator should be an expression",
    );
    fails(
        vec![
            TokenData::LeftParen,
            name("f"),
            TokenData::LeftParen,
            name("define"),
            name("x"),
            TokenData::Integer(1),
            TokenData::RightParen,
            TokenData::RightParen,
        ],
        "Unmatched Parentheses!",
    );
}

#[test]
fn nodes_carry_the_position_of_their_first_token() {
    let tokens = placed(vec![
        TokenData::LeftParen,
        name("f"),
        TokenData::Quote,
        TokenData::VecConsIntro,
        TokenData::Integer(1),
        TokenData::RightParen,
        TokenData::RightParen,
    ]);
    let mut parser = token_stream_to_parser(tokens);
    let at = |data, column: u32| Located {
        data,
        location: Some([1, column]),
    };
    assert_eq!(
        parser.parse_root(),
        Ok(Some((
            Statement::Expression(at(
                ExpressionBody::ProcedureCall(
                    Box::new(at(ExpressionBody::Identifier("f".to_string()), 1)),
                    vec![at(
                        ExpressionBody::Quote(Box::new(at(
                            ExpressionBody::Vector(vec![at(ExpressionBody::Integer(1), 4)]),
                            3
                        ))),
                        2
                    )]
                ),
                0
            )),
            Some([1, 6])
        )))
    );
    assert_eq!(parser.parse_root(), Ok(None));
}

#[test]
fn quotations() {
    assert_eq!(
        parse_one(vec![
            TokenData::LeftParen,
            name("quote"),
            TokenData::LeftParen,
            name("define"),
            TokenData::Period,
            TokenData::Quote,
            name("x"),
            TokenData::RightParen,
            TokenData::RightParen,
        ]),
        Ok(Some(Statement::Expression(l(ExpressionBody::Quote(Box::new(
            l(ExpressionBody::List(vec![
                identifier("define"),
                l(ExpressionBody::Period),
                l(ExpressionBody::Quote(Box::new(identifier("x")))),
            ]))
        ))))))
    );
    fails(vec![TokenData::Quote], "expect a literal");
    fails(vec![TokenData::LeftParen, name("quote")], "expect a literal");
    fails(
        vec![TokenData::LeftParen, name("quote"), name("x")],
        "unclosed quotation!",
    );
    fails(
        vec![TokenData::LeftParen, name("quote"), name("x"), name("y")],
        "expect ) after the quoted datum",
    );
    fails(vec![TokenData::Quote, TokenData::RightParen], "Unmatched Parentheses!");
    fails(
        vec![TokenData::Quote, TokenData::LeftParen, name("x")],
        "unexpect end of input",
    );
    fails(vec![TokenData::VecConsIntro, name("x")], "unexpect end of input");
}

#[test]
fn lambda_forms() {
    assert_eq!(
        parse_one(vec![
            TokenData::LeftParen,
            name("lambda"),
            name("all"),
            name("all"),
            TokenData::RightParen,
        ]),
        Ok(Some(Statement::Expression(l(ExpressionBody::Procedure(
            SchemeProcedure(
                ParameterFormals(vec![], Some("all".to_string())),
                vec![],
                vec![identifier("all")]
            )
        )))))
    );
    let lambda = |rest: Vec<TokenData>| {
        let mut tokens = vec![TokenData::LeftParen, name("lambda")];
        tokens.extend(rest);
        tokens
    };
    fails(lambda(vec![]), "expect formal identifiers");
    fails(lambda(vec![TokenData::Integer(1)]), "expect formal identifiers");
    fails(lambda(vec![TokenData::LeftParen]), "unexpect end of input");
    fails(
        lambda(vec![TokenData::LeftParen, TokenData::Integer(1)]),
        "expect an identifier",
    );
    fails(
        lambda(vec![TokenData::LeftParen, TokenData::Period, name("x"), TokenData::RightParen]),
        "must provide at least normal parameter before variadic parameter",
    );
    fails(
        lambda(vec![TokenData::LeftParen, name("x"), TokenData::Period]),
        "expect an identifier while encountered end of input",
    );
    fails(
        lambda(vec![
            TokenData::LeftParen,
            name("x"),
            TokenData::Period,
            name("y"),
            name("z"),
            TokenData::RightParen,
        ]),
        "expect ) after the variadic parameter",
    );
    fails(
        lambda(vec![TokenData::LeftParen, TokenData::RightParen, TokenData::RightParen]),
        "no expression in procedure body",
    );
    fails(
        lambda(vec![TokenData::LeftParen, TokenData::RightParen, name("x")]),
        "unexpect end of input",
    );
    fails(
        lambda(vec![
            TokenData::LeftParen,
            TokenData::RightParen,
            name("x"),
            TokenData::LeftParen,
            name("define"),
            name("y"),
            TokenData::Integer(1),
            TokenData::RightParen,
            TokenData::RightParen,
        ]),
        "unexpect definition af expression",
    );
    fails(
        lambda(vec![
            TokenData::LeftParen,
            TokenData::RightParen,
            TokenData::LeftParen,
            name("import"),
            name("lib"),
            TokenData::RightParen,
            name("x"),
            TokenData::RightParen,
        ]),
        "procedure body can only contains definition or expression",
    );
}

#[test]
fn definitions_and_assignments() {
    assert_eq!(
        parse_one(vec![
            TokenData::LeftParen,
            name("set!"),
            name("x"),
            TokenData::Integer(2),
            TokenData::RightParen,
        ]),
        Ok(Some(Statement::Expression(l(ExpressionBody::Assignment(
            "x".to_string(),
            Box::new(l(ExpressionBody::Integer(2)))
        )))))
    );
    assert_eq!(
        parse_one(vec![
            TokenData::LeftParen,
            name("set!"),
            TokenData::LeftParen,
            name("f"),
            TokenData::Period,
            name("rest"),
            TokenData::RightParen,
            name("rest"),
            TokenData::RightParen,
        ]),
        Ok(Some(Statement::Expression(l(ExpressionBody::Assignment(
            "f".to_string(),
            Box::new(l(ExpressionBody::Procedure(SchemeProcedure(
                ParameterFormals(vec![], Some("rest".to_string())),
                vec![],
                vec![identifier("rest")]
            ))))
        )))))
    );
    assert_eq!(
        parse_one(vec![
            TokenData::LeftParen,
            name("define"),
            TokenData::LeftParen,
            name("f"),
            name("a"),
            TokenData::Period,
            name("rest"),
            TokenData::RightParen,
            TokenData::LeftParen,
            name("define"),
            name("b"),
            name("a"),
            TokenData::RightParen,
            name("b"),
            TokenData::RightParen,
        ]),
        Ok(Some(Statement::Definition(Located::from_data(DefinitionBody(
            "f".to_string(),
            l(ExpressionBody::Procedure(SchemeProcedure(
                ParameterFormals(vec!["a".to_string()], Some("rest".to_string())),
                vec![Located::from_data(DefinitionBody(
                    "b".to_string(),
                    identifier("a")
                ))],
                vec![identifier("b")]
            )))
        )))))
    );
    let complaint = "define: expect identifier and expression";
    fails(vec![TokenData::LeftParen, name("define")], complaint);
    fails(vec![TokenData::LeftParen, name("define"), TokenData::Integer(1)], complaint);
    fails(vec![TokenData::LeftParen, name("define"), name("x")], complaint);
    fails(
        vec![TokenData::LeftParen, name("define"), name("x"), TokenData::Integer(1)],
        complaint,
    );
    fails(
        vec![
            TokenData::LeftParen,
            name("define"),
            name("x"),
            TokenData::Integer(1),
            TokenData::Integer(2),
        ],
        complaint,
    );
    fails(
        vec![
            TokenData::LeftParen,
            name("define"),
            TokenData::LeftParen,
            TokenData::Integer(1),
        ],
        complaint,
    );
    fails(
        vec![
            TokenData::LeftParen,
            name("define"),
            TokenData::LeftParen,
            name("f"),
            TokenData::Period,
            name("x"),
            name("y"),
        ],
        "expect ) after the variadic parameter",
    );
    fails(
        vec![TokenData::LeftParen, name("set!"), TokenData::Integer(1)],
        "set!: expect identifier and expression",
    );
    fails(
        vec![
            TokenData::LeftParen,
            name("set!"),
            name("x"),
            TokenData::LeftParen,
            name("define"),
            name("y"),
            TokenData::Integer(1),
            TokenData::RightParen,
            TokenData::RightParen,
        ],
        "set!: expect identifier and expression",
    );
}

#[test]
fn conditionals() {
    assert_eq!(
        parse_one(vec![
            TokenData::LeftParen,
            name("if"),
            name("p"),
            TokenData::Integer(1),
            TokenData::RightParen,
        ]),
        Ok(Some(Statement::Expression(l(ExpressionBody::Conditional(
            Box::new((identifier("p"), l(ExpressionBody::Integer(1)), None))
        )))))
    );
    let conditional = |rest: Vec<TokenData>| {
        let mut tokens = vec![TokenData::LeftParen, name("if")];
        tokens.extend(rest);
        tokens
    };
    fails(conditional(vec![]), "conditional syntax error");
    fails(conditional(vec![name("p")]), "conditional syntax error");
    fails(conditional(vec![name("p"), name("a")]), "conditional syntax error");
    fails(
        conditional(vec![
            TokenData::LeftParen,
            name("define"),
            name("x"),
            TokenData::Integer(1),
            TokenData::RightParen,
            name("a"),
            TokenData::RightParen,
        ]),
        "conditional syntax error",
    );
    fails(
        conditional(vec![
            name("p"),
            name("a"),
            TokenData::LeftParen,
            name("define"),
            name("x"),
            TokenData::Integer(1),
            TokenData::RightParen,
            TokenData::RightParen,
        ]),
        "expect condition alternatives",
    );
    fails(
        conditional(vec![name("p"), name("a"), name("b")]),
        "expect ) after condition alternatives",
    );
    fails(
        conditional(vec![name("p"), name("a"), name("b"), name("c"), TokenData::RightParen]),
        "expect ) after condition alternatives",
    );
}

#[test]
fn import_sets() {
    let direct = |library: &str| Box::new(ImportSet::from_data(ImportSetBody::Direct(library.to_string())));
    assert_eq!(
        parse_one(vec![
            TokenData::LeftParen,
            name("import"),
            name("a"),
            TokenData::LeftParen,
            name("prefix"),
            TokenData::LeftParen,
            name("except"),
            name("b"),
            name("x"),
            TokenData::RightParen,
            name("b-"),
            TokenData::RightParen,
            TokenData::RightParen,
        ]),
        Ok(Some(Statement::ImportDeclaration(convert_located(vec![
            ImportSetBody::Direct("a".to_string()),
            ImportSetBody::Prefix(
                Box::new(ImportSet::from_data(ImportSetBody::Except(
                    direct("b"),
                    vec!["x".to_string()]
                ))),
                "b-".to_string()
            ),
        ]))))
    );
    assert_eq!(
        parse_one(vec![
            TokenData::LeftParen,
            name("import"),
            TokenData::RightParen,
        ]),
        Ok(Some(Statement::ImportDeclaration(vec![])))
    );
    let import = |rest: Vec<TokenData>| {
        let mut tokens = vec![TokenData::LeftParen, name("import")];
        tokens.extend(rest);
        tokens
    };
    fails(import(vec![]), "unexpect end of input");
    fails(import(vec![TokenData::Integer(1)]), "expect an import set");
    fails(
        import(vec![TokenData::LeftParen, TokenData::Integer(1)]),
        "import: expect library name or sub import sets",
    );
    fails(
        import(vec![TokenData::LeftParen, name("all"), name("a")]),
        "import: expect sub import set",
    );
    fails(
        import(vec![TokenData::LeftParen, name("only")]),
        "expect an import set",
    );
    fails(
        import(vec![TokenData::LeftParen, name("only"), name("a"), TokenData::Integer(1)]),
        "expect an identifier",
    );
    fails(
        import(vec![TokenData::LeftParen, name("prefix"), name("a"), TokenData::RightParen]),
        "expect a prefix name after import",
    );
    fails(
        import(vec![TokenData::LeftParen, name("prefix"), name("a"), name("p"), name("q")]),
        "expect ) after the prefix name",
    );
    fails(
        import(vec![
            TokenData::LeftParen,
            name("rename"),
            name("a"),
            TokenData::LeftParen,
            name("x"),
            TokenData::RightParen,
            TokenData::RightParen,
        ]),
        "expect an identifier pair: (ident1, ident2)",
    );
    fails(
        import(vec![
            TokenData::LeftParen,
            name("rename"),
            name("a"),
            name("x"),
            name("y"),
            name("z"),
            name("w"),
        ]),
        "expect an identifier pair: (ident1, ident2)",
    );
}

#[test]
fn an_error_of_the_lexer_is_handed_on() {
    let broken = || SchemeError {
        category: ErrorType::Syntax,
        message: "unrecognized character".to_string(),
        location: Some([3, 7]),
    };
    let mut parser = Parser::from_lexer(vec![
        Ok(Located::from_data(TokenData::Integer(1))),
        Ok(Located::from_data(TokenData::LeftParen)),
        Ok(Located::from_data(name("f"))),
        Err(broken()),
        Ok(Located::from_data(TokenData::RightParen)),
    ]);
    assert_eq!(
        parser.parse(),
        Ok(Some(Statement::Expression(l(ExpressionBody::Integer(1)))))
    );
    assert_eq!(parser.parse(), Err(broken()));
    let mut parser = Parser::from_lexer(vec![Err(broken())]);
    assert_eq!(parser.next(), Some(Err(broken())));
    assert_eq!(parser.next(), None);
}

#[test]
fn the_stream_ends_with_none() {
    let tokens = convert_located(vec![
        TokenData::Integer(1),
        TokenData::LeftParen,
        name("f"),
        TokenData::RightParen,
        name("x"),
    ]);
    let mut parser = token_stream_to_parser(tokens);
    let mut count = 0;
    while let Some(statement) = parser.next() {
        assert!(statement.is_ok());
        count += 1;
    }
    assert_eq!(count, 3);
    assert_eq!(parser.next(), None);
    assert_eq!(parser.parse(), Ok(None));
    assert_eq!(parser.parse_all(), Ok(vec![]));
    assert_eq!(parser.parse_current(), Ok(None));
    assert_eq!(
        parser.parse_current_expression(),
        Err(syntax("expect a expression here", None))
    );
}

#[test]
fn every_failure_on_tokens_is_a_syntax_error() {
    let pieces = [
        TokenData::LeftParen,
        TokenData::RightParen,
        TokenData::Quote,
        TokenData::VecConsIntro,
        TokenData::Period,
        TokenData::Integer(1),
    ];
    let keywords = ["lambda", "define", "set!", "if", "import", "quote", "only", "x"];
    let mut seen = 0;
    for first in 0..pieces.len() {
        for keyword in keywords {
            for second in 0..pieces.len() {
                for third in 0..pieces.len() {
                    let make = |i: usize| match &pieces[i] {
                        TokenData::LeftParen => TokenData::LeftParen,
                        TokenData::RightParen => TokenData::RightParen,
                        TokenData::Quote => TokenData::Quote,
                        TokenData::VecConsIntro => TokenData::VecConsIntro,
                        TokenData::Period => TokenData::Period,
                        _ => TokenData::Integer(1),
                    };
                    let tokens =
                        convert_located(vec![make(first), name(keyword), make(second), make(third)]);
                    let mut parser = token_stream_to_parser(tokens);
                    match parser.parse_all() {
                        Ok(_) => {}
                        Err(error) => {
                            assert_eq!(error.category, ErrorType::Syntax);
                            seen += 1;
                        }
                    }
                }
            }
        }
    }
    assert!(seen > 0);
}

#[test]
fn parse_current_reads_from_the_bound_token() {
    let mut parser = Parser::from_lexer(vec![
        Ok(Located::from_data(name("f"))),
        Ok(Located::from_data(TokenData::RightParen)),
    ]);
    parser.current = Some(Located {
        data: TokenData::LeftParen,
        location: Some([2, 0]),
    });
    assert_eq!(
        parser.parse_current(),
        Ok(Some(Statement::Expression(Located {
            data: ExpressionBody::ProcedureCall(Box::new(identifier("f")), vec![]),
            location: Some([2, 0]),
        })))
    );
    parser.current = Some(Located::from_data(TokenData::LeftParen));
    assert_eq!(
        parser.parse_current_expression(),
        Err(syntax("operator should be an expression", None))
    );
}
