use ruschm::ast::{
    def_body_to_statement, expr_body_to_statement, simple_procedure, Definition, DefinitionBody,
    Expression, ExpressionBody, ImportSet, ImportSetBody, ParameterFormals, SchemeProcedure,
    Statement,
};
use ruschm::error::{ErrorType, SchemeError};
use ruschm::located::{convert_located, Located};
use ruschm::parser::token_stream_to_parser;
use ruschm::token::TokenData;

type Result<T> = std::result::Result<T, SchemeError>;

fn l(body: ExpressionBody) -> Expression {
    Located::from_data(body)
}

#[test]
fn empty() -> Result<()> {
    let tokens = Vec::new();
    let mut parser = token_stream_to_parser(tokens);
    assert_eq!(parser.parse(), Ok(None));
    Ok(())
}

#[test]
fn integer() -> Result<()> {
    let tokens = convert_located(vec![TokenData::Integer(1)]);
    let mut parser = token_stream_to_parser(tokens);
    let ast = parser.parse()?;
    assert_eq!(ast, expr_body_to_statement(ExpressionBody::Integer(1)));
    Ok(())
}

#[test]
fn real_number() -> Result<()> {
    let tokens = convert_located(vec![TokenData::Real("1.2".to_string())]);
    let mut parser = token_stream_to_parser(tokens);
    let ast = parser.parse()?;
    assert_eq!(
        ast,
        expr_body_to_statement(ExpressionBody::Real("1.2".to_string()))
    );
    Ok(())
}

#[test]
fn rational() -> Result<()> {
    let tokens = convert_located(vec![TokenData::Rational(1, 2)]);
    let mut parser = token_stream_to_parser(tokens);
    let ast = parser.parse()?;
    assert_eq!(ast, expr_body_to_statement(ExpressionBody::Rational(1, 2)));
    Ok(())
}

#[test]
fn identifier() -> Result<()> {
    let tokens = convert_located(vec![TokenData::Identifier("test".to_string())]);
    let mut parser = token_stream_to_parser(tokens);
    let ast = parser.parse()?;
    assert_eq!(
        ast,
        expr_body_to_statement(ExpressionBody::Identifier("test".to_string()))
    );
    Ok(())
}

#[test]
fn vector() -> Result<()> {
    let tokens = convert_located(vec![
        TokenData::VecConsIntro,
        TokenData::Integer(1),
        TokenData::Boolean(false),
        TokenData::RightParen,
    ]);
    let mut parser = token_stream_to_parser(tokens);
    let ast = parser.parse()?;
    assert_eq!(
        ast,
        expr_body_to_statement(ExpressionBody::Vector(vec![
            l(ExpressionBody::Integer(1)),
            l(ExpressionBody::Boolean(false))
        ]))
    );
    Ok(())
}

#[test]
fn string() -> Result<()> {
    let tokens = convert_located(vec![TokenData::String("hello world".to_string())]);
    let mut parser = token_stream_to_parser(tokens);
    let ast = parser.parse()?;
    assert_eq!(
        ast,
        expr_body_to_statement(ExpressionBody::String("hello world".to_string()))
    );
    Ok(())
}

#[test]
fn procedure_call() -> Result<()> {
    let tokens = convert_located(vec![
        TokenData::LeftParen,
        TokenData::Identifier("+".to_string()),
        TokenData::Integer(1),
        TokenData::Integer(2),
        TokenData::Integer(3),
        TokenData::RightParen,
    ]);
    let mut parser = token_stream_to_parser(tokens);
    let ast = parser.parse()?;
    assert_eq!(
        ast,
        expr_body_to_statement(ExpressionBody::ProcedureCall(
            Box::new(l(ExpressionBody::Identifier("+".to_string()))),
            vec![
                l(ExpressionBody::Integer(1)),
                l(ExpressionBody::Integer(2)),
                l(ExpressionBody::Integer(3)),
            ]
        ))
    );
    Ok(())
}

#[test]
fn unmatched_parantheses() {
    let tokens = convert_located(vec![
        TokenData::LeftParen,
        TokenData::Identifier("+".to_string()),
        TokenData::Integer(1),
        TokenData::Integer(2),
        TokenData::Integer(3),
    ]);
    let mut parser = token_stream_to_parser(tokens);
    assert_eq!(
        parser.parse(),
        Err(SchemeError {
            category: ErrorType::Syntax,
            message: "Unmatched Parentheses!".to_string(),
            location: None
        })
    );
}

#[test]
fn definition() -> Result<()> {
    {
        {
            let tokens = convert_located(vec![
                TokenData::LeftParen,
                TokenData::Identifier("define".to_string()),
                TokenData::Identifier("a".to_string()),
                TokenData::Integer(1),
                TokenData::RightParen,
            ]);
            let mut parser = token_stream_to_parser(tokens);
            let ast = parser.parse()?;
            assert_eq!(
                ast,
                def_body_to_statement(DefinitionBody(
                    "a".to_string(),
                    l(ExpressionBody::Integer(1))
                ))
            );
        }
        {
            let tokens = convert_located(vec![
                TokenData::LeftParen,
                TokenData::Identifier("define".to_string()),
                TokenData::LeftParen,
                TokenData::Identifier("add".to_string()),
                TokenData::Identifier("x".to_string()),
                TokenData::Identifier("y".to_string()),
                TokenData::RightParen,
                TokenData::LeftParen,
                TokenData::Identifier("+".to_string()),
                TokenData::Identifier("x".to_string()),
                TokenData::Identifier("y".to_string()),
                TokenData::RightParen,
                TokenData::RightParen,
            ]);
            let mut parser = token_stream_to_parser(tokens);
            let ast = parser.parse()?;
            assert_eq!(
                ast,
                def_body_to_statement(DefinitionBody(
                    "add".to_string(),
                    simple_procedure(
                        ParameterFormals(vec!["x".to_string(), "y".to_string()], None),
                        l(ExpressionBody::ProcedureCall(
                            Box::new(l(ExpressionBody::Identifier("+".to_string()))),
                            vec![
                                l(ExpressionBody::Identifier("x".to_string())),
                                l(ExpressionBody::Identifier("y".to_string())),
                            ]
                        ))
                    )
                ))
            )
        }
        {
            let tokens = convert_located(vec![
                TokenData::LeftParen,
                TokenData::Identifier("define".to_string()),
                TokenData::LeftParen,
                TokenData::Identifier("add".to_string()),
                TokenData::Period,
                TokenData::Identifier("x".to_string()),
                TokenData::RightParen,
                TokenData::Identifier("x".to_string()),
                TokenData::RightParen,
            ]);
            let mut parser = token_stream_to_parser(tokens);
            let ast = parser.parse()?;
            assert_eq!(
                ast,
                def_body_to_statement(DefinitionBody(
                    "add".to_string(),
                    simple_procedure(
                        ParameterFormals(vec![], Some("x".to_string())),
                        l(ExpressionBody::Identifier("x".to_string()))
                    )
                ))
            )
        }
        Ok(())
    }
}

#[test]
fn nested_procedure_call() -> Result<()> {
    let tokens = convert_located(vec![
        TokenData::LeftParen,
        TokenData::Identifier("+".to_string()),
        TokenData::Integer(1),
        TokenData::LeftParen,
        TokenData::Identifier("-".to_string()),
        TokenData::Integer(2),
        TokenData::Integer(3),
        TokenData::RightParen,
        TokenData::RightParen,
    ]);
    let mut parser = token_stream_to_parser(tokens);
    let ast = parser.parse()?;
    assert_eq!(
        ast,
        expr_body_to_statement(ExpressionBody::ProcedureCall(
            Box::new(l(ExpressionBody::Identifier("+".to_string()))),
            vec![
                l(ExpressionBody::Integer(1)),
                l(ExpressionBody::ProcedureCall(
                    Box::new(l(ExpressionBody::Identifier("-".to_string()))),
                    vec![l(ExpressionBody::Integer(2)), l(ExpressionBody::Integer(3))]
                )),
            ]
        ))
    );
    Ok(())
}

#[test]
fn lambda() -> Result<()> {
    {
        let tokens = convert_located(vec![
            TokenData::LeftParen,
            TokenData::Identifier("lambda".to_string()),
            TokenData::LeftParen,
            TokenData::Identifier("x".to_string()),
            TokenData::Identifier("y".to_string()),
            TokenData::RightParen,
            TokenData::LeftParen,
            TokenData::Identifier("+".to_string()),
            TokenData::Identifier("x".to_string()),
            TokenData::Identifier("y".to_string()),
            TokenData::RightParen,
            TokenData::RightParen,
        ]);
        let mut parser = token_stream_to_parser(tokens);
        let ast = parser.parse()?;
        assert_eq!(
            ast,
            Some(Statement::Expression(simple_procedure(
                ParameterFormals(vec!["x".to_string(), "y".to_string()], None),
                l(ExpressionBody::ProcedureCall(
                    Box::new(l(ExpressionBody::Identifier("+".to_string()))),
                    vec![
                        l(ExpressionBody::Identifier("x".to_string())),
                        l(ExpressionBody::Identifier("y".to_string()))
                    ]
                ))
            )))
        );
    }

    {
        let tokens = convert_located(vec![
            TokenData::LeftParen,
            TokenData::Identifier("lambda".to_string()),
            TokenData::LeftParen,
            TokenData::Identifier("x".to_string()),
            TokenData::RightParen,
            TokenData::LeftParen,
            TokenData::Identifier("define".to_string()),
            TokenData::Identifier("y".to_string()),
            TokenData::Integer(1),
            TokenData::RightParen,
            TokenData::LeftParen,
            TokenData::Identifier("+".to_string()),
            TokenData::Identifier("x".to_string()),
            TokenData::Identifier("y".to_string()),
            TokenData::RightParen,
            TokenData::RightParen,
        ]);
        let mut parser = token_stream_to_parser(tokens);
        let ast = parser.parse()?;
        assert_eq!(
            ast,
            Some(Statement::Expression(l(ExpressionBody::Procedure(
                SchemeProcedure(
                    ParameterFormals(vec!["x".to_string()], None),
                    vec![Definition::from_data(DefinitionBody(
                        "y".to_string(),
                        l(ExpressionBody::Integer(1))
                    ))],
                    vec![l(ExpressionBody::ProcedureCall(
                        Box::new(l(ExpressionBody::Identifier("+".to_string()))),
                        vec![
                            l(ExpressionBody::Identifier("x".to_string())),
                            l(ExpressionBody::Identifier("y".to_string()))
                        ]
                    ))]
                )
            ))))
        );
    }

    {
        let tokens = convert_located(vec![
            TokenData::LeftParen,
            TokenData::Identifier("lambda".to_string()),
            TokenData::LeftParen,
            TokenData::Identifier("x".to_string()),
            TokenData::RightParen,
            TokenData::LeftParen,
            TokenData::Identifier("define".to_string()),
            TokenData::Identifier("y".to_string()),
            TokenData::Integer(1),
            TokenData::RightParen,
            TokenData::RightParen,
        ]);
        let mut parser = token_stream_to_parser(tokens);
        let err = parser.parse();
        assert_eq!(
            err,
            Err(SchemeError {
                category: ErrorType::Syntax,
                message: "no expression in procedure body".to_string(),
                location: None
            })
        );
    }

    {
        let tokens = convert_located(vec![
            TokenData::LeftParen,
            TokenData::Identifier("lambda".to_string()),
            TokenData::LeftParen,
            TokenData::Identifier("x".to_string()),
            TokenData::Period,
            TokenData::Identifier("y".to_string()),
            TokenData::RightParen,
            TokenData::LeftParen,
            TokenData::Identifier("+".to_string()),
            TokenData::Identifier("x".to_string()),
            TokenData::Identifier("y".to_string()),
            TokenData::RightParen,
            TokenData::RightParen,
        ]);
        let mut parser = token_stream_to_parser(tokens);
        let ast = parser.parse()?;
        assert_eq!(
            ast,
            Some(Statement::Expression(l(ExpressionBody::Procedure(
                SchemeProcedure(
                    ParameterFormals(vec!["x".to_string()], Some("y".to_string())),
                    vec![],
                    vec![l(ExpressionBody::ProcedureCall(
                        Box::new(l(ExpressionBody::Identifier("+".to_string()))),
                        vec![
                            l(ExpressionBody::Identifier("x".to_string())),
                            l(ExpressionBody::Identifier("y".to_string()))
                        ]
                    ))]
                )
            ))))
        );
    }

    Ok(())
}

#[test]
fn conditional() -> Result<()> {
    let tokens = convert_located(vec![
        TokenData::LeftParen,
        TokenData::Identifier("if".to_string()),
        TokenData::Boolean(true),
        TokenData::Integer(1),
        TokenData::Integer(2),
        TokenData::RightParen,
    ]);
    let mut parser = token_stream_to_parser(tokens);
    assert_eq!(
        parser.parse()?,
        Some(Statement::Expression(l(ExpressionBody::Conditional(
            Box::new((
                l(ExpressionBody::Boolean(true)),
                l(ExpressionBody::Integer(1)),
                Some(l(ExpressionBody::Integer(2)))
            ))
        ))))
    );
    assert_eq!(parser.parse()?, None);
    Ok(())
}

#[test]
fn import_declaration() -> Result<()> {
    {
        let tokens = convert_located(vec![
            TokenData::LeftParen,
            TokenData::Identifier("import".to_string()),
            TokenData::LeftParen,
            TokenData::Identifier("only".to_string()),
            TokenData::Identifier("example-lib".to_string()),
            TokenData::Identifier("a".to_string()),
            TokenData::Identifier("b".to_string()),
            TokenData::RightParen,
            TokenData::LeftParen,
            TokenData::Identifier("rename".to_string()),
            TokenData::Identifier("example-lib".to_string()),
            TokenData::LeftParen,
            TokenData::Identifier("old".to_string()),
            TokenData::Identifier("new".to_string()),
            TokenData::RightParen,
            TokenData::RightParen,
            TokenData::RightParen,
        ]);

        let mut parser = token_stream_to_parser(tokens);
        let ast = parser.parse()?;
        assert_eq!(
            ast,
            Some(Statement::ImportDeclaration(convert_located(vec![
                ImportSetBody::Only(
                    Box::new(ImportSet::from_data(ImportSetBody::Direct(
                        "example-lib".to_string()
                    ))),
                    vec!["a".to_string(), "b".to_string()]
                ),
                ImportSetBody::Rename(
                    Box::new(ImportSet::from_data(ImportSetBody::Direct(
                        "example-lib".to_string()
                    ))),
                    vec![("old".to_string(), "new".to_string())]
                )
            ])))
        );
    }
    Ok(())
}

#[test]
fn literals() -> Result<()> {
    {
        let tokens = convert_located(vec![
            TokenData::Quote,
            TokenData::Integer(1),
            TokenData::Quote,
            TokenData::Identifier("a".to_string()),
            TokenData::Quote,
            TokenData::LeftParen,
            TokenData::Integer(1),
            TokenData::RightParen,
            TokenData::VecConsIntro,
            TokenData::Integer(1),
            TokenData::RightParen,
            TokenData::Quote,
            TokenData::VecConsIntro,
            TokenData::Integer(1),
            TokenData::RightParen,
        ]);
        let mut parser = token_stream_to_parser(tokens);
        let asts = parser.parse_all()?;
        assert_eq!(
            asts,
            vec![
                Statement::Expression(l(ExpressionBody::Quote(Box::new(l(
                    ExpressionBody::Integer(1)
                ))))),
                Statement::Expression(l(ExpressionBody::Quote(Box::new(l(
                    ExpressionBody::Identifier("a".to_string())
                ))))),
                Statement::Expression(l(ExpressionBody::Quote(Box::new(l(ExpressionBody::List(
                    vec![l(ExpressionBody::Integer(1))]
                )))))),
                Statement::Expression(l(ExpressionBody::Vector(vec![l(ExpressionBody::Integer(
                    1
                ))]))),
                Statement::Expression(l(ExpressionBody::Quote(Box::new(l(
                    ExpressionBody::Vector(vec![l(ExpressionBody::Integer(1))])
                ))))),
            ]
        );
    }
    Ok(())
}
