use ruschm::ast::{
    DefinitionBody, Expression, ExpressionBody, ImportSet, ImportSetBody, ParameterFormals,
    SchemeProcedure, Statement,
};
use ruschm::located::Located;
use ruschm::number::{Number, RealNumber};
use ruschm::value::{are_well_formed, BuiltinFunction, BuiltinProcedure, Procedure, Value};
use std::rc::Rc;

#[derive(Clone, Copy, Debug, PartialEq)]
struct Single(f32);

impl RealNumber for Single {
    fn from_integer(value: i32) -> Self {
        Single(value as f32)
    }

    fn from_ratio(numerator: i32, denominator: u32) -> Self {
        Single(numerator as f32 / denominator as f32)
    }

    fn sum(self, other: Self) -> Self {
        Single(self.0 + other.0)
    }

    fn difference(self, other: Self) -> Self {
        Single(self.0 - other.0)
    }

    fn product(self, other: Self) -> Self {
        Single(self.0 * other.0)
    }

    fn quotient(self, other: Self) -> Self {
        Single(self.0 / other.0)
    }

    fn is_zero(self) -> bool {
        self.0 == 0.0
    }

    fn less(self, other: Self) -> bool {
        self.0 < other.0
    }

    fn equals(self, other: Self) -> bool {
        self.0 == other.0
    }

    fn square_root(self) -> Self {
        Single(self.0.sqrt())
    }

    fn floor(self) -> Self {
        Single(self.0.floor())
    }

    fn ceiling(self) -> Self {
        Single(self.0.ceil())
    }

    fn to_ratio(self) -> Option<(i32, u32)> {
        None
    }

    fn to_text(self) -> String {
        format!("{:?}", self.0)
    }
}

fn l(body: ExpressionBody) -> Expression {
    Located::from_data(body)
}

fn name(text: &str) -> Expression {
    l(ExpressionBody::Identifier(text.to_string()))
}

#[test]
fn literals_written_out() {
    assert_eq!(ExpressionBody::Identifier("car".to_string()).to_string(), "car");
    assert_eq!(ExpressionBody::Integer(-12).to_string(), "-12");
    assert_eq!(ExpressionBody::Integer(100).to_string(), "100");
    assert_eq!(ExpressionBody::Boolean(true).to_string(), "#t");
    assert_eq!(ExpressionBody::Boolean(false).to_string(), "#f");
    assert_eq!(ExpressionBody::Real("1.50".to_string()).to_string(), "1.50");
    assert_eq!(ExpressionBody::Rational(-1, 2).to_string(), "-1/2");
    assert_eq!(ExpressionBody::Character('a').to_string(), "#\\a");
    assert_eq!(ExpressionBody::String("a b".to_string()).to_string(), "\"a b\"");
    assert_eq!(ExpressionBody::Period.to_string(), ".");
}

#[test]
fn compound_forms_written_out() {
    let numbers = || {
        vec![
            l(ExpressionBody::Integer(1)),
            l(ExpressionBody::Integer(2)),
            l(ExpressionBody::Integer(3)),
        ]
    };
    assert_eq!(ExpressionBody::List(numbers()).to_string(), "(1 2 3)");
    assert_eq!(ExpressionBody::List(vec![]).to_string(), "()");
    assert_eq!(ExpressionBody::Vector(numbers()).to_string(), "#(1 2 3)");
    assert_eq!(
        ExpressionBody::Vector(vec![l(ExpressionBody::Integer(1))]).to_string(),
        "#(1)"
    );
    assert_eq!(
        ExpressionBody::ProcedureCall(Box::new(name("+")), numbers()).to_string(),
        "(+ 1 2 3)"
    );
    assert_eq!(
        ExpressionBody::ProcedureCall(Box::new(name("f")), vec![]).to_string(),
        "(f)"
    );
    assert_eq!(
        ExpressionBody::Assignment("x".to_string(), Box::new(l(ExpressionBody::Integer(1))))
            .to_string(),
        "(set! x 1)"
    );
    assert_eq!(
        ExpressionBody::Quote(Box::new(l(ExpressionBody::List(numbers())))).to_string(),
        "'(1 2 3)"
    );
    assert_eq!(
        ExpressionBody::Conditional(Box::new((
            l(ExpressionBody::Boolean(true)),
            l(ExpressionBody::Integer(1)),
            Some(l(ExpressionBody::Integer(2)))
        )))
        .to_string(),
        "(if #t 1 2)"
    );
    assert_eq!(
        ExpressionBody::Conditional(Box::new((
            name("p"),
            l(ExpressionBody::ProcedureCall(Box::new(name("f")), vec![name("x")])),
            None
        )))
        .to_string(),
        "(if p (f x))"
    );
}

#[test]
fn formals_written_out() {
    assert_eq!(ParameterFormals::new().to_string(), "()");
    assert_eq!(
        ParameterFormals(vec![], Some("rest".to_string())).to_string(),
        "rest"
    );
    assert_eq!(
        ParameterFormals(vec!["x".to_string()], None).to_string(),
        "(x)"
    );
    assert_eq!(
        ParameterFormals(vec!["x".to_string(), "y".to_string()], None).to_string(),
        "(x y)"
    );
    assert_eq!(
        ParameterFormals(vec!["x".to_string(), "y".to_string()], Some("z".to_string()))
            .to_string(),
        "(x y . z)"
    );
}

#[test]
fn procedures_written_out() {
    let procedure = || {
        SchemeProcedure(
            ParameterFormals(vec!["x".to_string()], Some("y".to_string())),
            vec![Located::from_data(DefinitionBody(
                "z".to_string(),
                l(ExpressionBody::Integer(1)),
            ))],
            vec![name("x")],
        )
    };
    assert_eq!(procedure().to_string(), "(lambda (x . y))");
    assert_eq!(
        ExpressionBody::Procedure(procedure()).to_string(),
        "(lambda (x . y))"
    );
    assert_eq!(
        Procedure::UserDefined {
            procedure: Rc::new(procedure()),
            environment: 0
        }
        .to_string(),
        "(lambda (x . y))"
    );
    assert_eq!(
        Procedure::Builtin(BuiltinProcedure::new(BuiltinFunction::FloorQuotient)).to_string(),
        "#<procedure floor-quotient>"
    );
}

#[test]
fn values_displayed() {
    type V = Value<Single>;
    assert_eq!(V::Number(Number::Integer(5)).to_string(), "5");
    assert_eq!(V::Number(Number::Rational(5, 3)).to_string(), "5/3");
    assert_eq!(V::Number(Number::Real(Single(0.1))).to_string(), "0.1");
    assert_eq!(V::Boolean(true).to_string(), "#t");
    assert_eq!(V::Boolean(false).to_string(), "#f");
    assert_eq!(V::Character('x').to_string(), "#\\x");
    assert_eq!(V::String("foo".to_string()).to_string(), "\"foo\"");
    assert_eq!(V::Symbol("foo".to_string()).to_string(), "foo");
    assert_eq!(V::Void.to_string(), "");
    assert_eq!(V::EmptyList.to_string(), "()");
    assert_eq!(V::Vector(vec![]).to_string(), "#()");
    assert_eq!(
        V::Vector(vec![
            V::Number(Number::Integer(5)),
            V::String("foo".to_string()),
            V::Vector(vec![V::Boolean(true), V::Number(Number::Real(Single(1.5)))]),
        ])
        .to_string(),
        "#(5 \"foo\" #(#t 1.5))"
    );
    assert_eq!(
        V::Pair(
            Box::new(V::Number(Number::Integer(1))),
            Box::new(V::Pair(
                Box::new(V::Number(Number::Integer(2))),
                Box::new(V::EmptyList)
            ))
        )
        .to_string(),
        "(1 . (2 . ()))"
    );
    assert_eq!(
        V::Procedure(Procedure::Builtin(BuiltinProcedure::new(BuiltinFunction::Add))).to_string(),
        "#<procedure +>"
    );
}

#[test]
fn values_shown_for_inspection() {
    type V = Value<Single>;
    assert_eq!(V::Number(Number::Integer(5)).to_debug_string(), "Number(Integer(5))");
    assert_eq!(
        V::Number(Number::Rational(-5, 3)).to_debug_string(),
        "Number(Rational(-5/3))"
    );
    assert_eq!(
        V::Number(Number::Real(Single(1.5))).to_debug_string(),
        "Number(Real(1.5))"
    );
    assert_eq!(V::Boolean(true).to_debug_string(), "Boolean(true)");
    assert_eq!(V::Character('a').to_debug_string(), "Character('a')");
    assert_eq!(V::Character('\n').to_debug_string(), "Character('\\n')");
    assert_eq!(V::String("foo".to_string()).to_debug_string(), "String(\"foo\")");
    assert_eq!(
        V::String("a\"b".to_string()).to_debug_string(),
        "String(\"a\\\"b\")"
    );
    assert_eq!(V::Symbol("foo".to_string()).to_debug_string(), "Symbol(\"foo\")");
    assert_eq!(V::Void.to_debug_string(), "Void");
    assert_eq!(V::EmptyList.to_debug_string(), "EmptyList");
    assert_eq!(
        V::Vector(vec![V::Number(Number::Integer(5)), V::Boolean(false)]).to_debug_string(),
        "Vector([Number(Integer(5)), Boolean(false)])"
    );
    assert_eq!(
        V::Pair(Box::new(V::Void), Box::new(V::EmptyList)).to_debug_string(),
        "Pair(Void, EmptyList)"
    );
    assert_eq!(
        V::Procedure(Procedure::Builtin(BuiltinProcedure::new(BuiltinFunction::Sqrt)))
            .to_debug_string(),
        "Procedure(#<procedure sqrt>)"
    );
}

#[test]
fn well_formed_values() {
    type V = Value<Single>;
    assert!(V::Number(Number::Rational(1, 2)).is_well_formed());
    assert!(!V::Number(Number::Rational(1, 0)).is_well_formed());
    assert!(V::Vector(vec![V::Void, V::Number(Number::Integer(1))]).is_well_formed());
    assert!(!V::Vector(vec![V::Void, V::Vector(vec![V::Number(Number::Rational(1, 0))])])
        .is_well_formed());
    assert!(!V::Pair(
        Box::new(V::Void),
        Box::new(V::Number(Number::Rational(1, 0)))
    )
    .is_well_formed());
    assert!(are_well_formed(&vec![V::Void, V::Boolean(true)]));
    assert!(!are_well_formed(&vec![V::Void, V::Number(Number::Rational(1, 0))]));
    assert!(are_well_formed::<Single>(&vec![]));
}

#[test]
fn a_copy_of_syntax_equals_it() {
    let procedure = || {
        SchemeProcedure(
            ParameterFormals(vec!["x".to_string()], Some("y".to_string())),
            vec![Located::from_data(DefinitionBody(
                "z".to_string(),
                l(ExpressionBody::Integer(1)),
            ))],
            vec![l(ExpressionBody::Conditional(Box::new((
                name("x"),
                l(ExpressionBody::Quote(Box::new(l(ExpressionBody::List(vec![
                    l(ExpressionBody::Real("1.5".to_string())),
                    l(ExpressionBody::Period),
                    l(ExpressionBody::Vector(vec![l(ExpressionBody::Character('c'))])),
                ]))))),
                Some(l(ExpressionBody::Assignment(
                    "x".to_string(),
                    Box::new(l(ExpressionBody::ProcedureCall(
                        Box::new(name("f")),
                        vec![
                            l(ExpressionBody::String("s".to_string())),
                            l(ExpressionBody::Rational(1, 2)),
                            l(ExpressionBody::Boolean(false)),
                        ],
                    ))),
                ))),
            ))))],
        )
    };
    assert_eq!(procedure().clone(), procedure());
    let body = ExpressionBody::Procedure(procedure());
    assert_eq!(body.clone(), body);
    assert_eq!(body.clone().to_string(), body.to_string());
    let located = Located {
        data: ExpressionBody::Procedure(procedure()),
        location: Some([3, 4]),
    };
    assert_eq!(located.clone(), located);
    let definition = Statement::Definition(Located::from_data(DefinitionBody(
        "f".to_string(),
        l(ExpressionBody::Procedure(procedure())),
    )));
    assert_eq!(definition.clone(), definition);
    let import = Statement::ImportDeclaration(vec![
        ImportSet::from_data(ImportSetBody::Rename(
            Box::new(ImportSet::from_data(ImportSetBody::Prefix(
                Box::new(ImportSet::from_data(ImportSetBody::Only(
                    Box::new(ImportSet::from_data(ImportSetBody::Except(
                        Box::new(ImportSet::from_data(ImportSetBody::Direct("lib".to_string()))),
                        vec!["a".to_string()],
                    ))),
                    vec!["b".to_string(), "c".to_string()],
                ))),
                "p-".to_string(),
            ))),
            vec![("p-b".to_string(), "d".to_string())],
        )),
    ]);
    assert_eq!(import.clone(), import);
    let formals = ParameterFormals(vec!["a".to_string(), "b".to_string()], None);
    assert_eq!(formals.clone(), formals);
    assert_ne!(
        ExpressionBody::Integer(1).clone(),
        ExpressionBody::Integer(2)
    );
}

#[test]
fn a_value_without_a_place_equals_the_same_value_anywhere() {
    let here = Located {
        data: ExpressionBody::Integer(1),
        location: Some([1, 2]),
    };
    let there = Located {
        data: ExpressionBody::Integer(1),
        location: Some([1, 3]),
    };
    let somewhere = Located::from_data(ExpressionBody::Integer(1));
    let other = Located {
        data: ExpressionBody::Integer(2),
        location: Some([1, 2]),
    };
    assert_eq!(here, here.clone());
    assert_eq!(here, somewhere);
    assert_eq!(somewhere, there);
    assert_ne!(here, there);
    assert_ne!(here, other);
    assert_ne!(somewhere, other);
    assert_eq!(somewhere.location, None);
    assert_eq!(
        ExpressionBody::Quote(Box::new(l(ExpressionBody::Integer(1)))),
        ExpressionBody::Quote(Box::new(here))
    );
}

#[test]
fn kinds_shown_with_what_they_hold() {
    assert_eq!(ruschm::value::inspected("String", "\"foo\""), "String(\"foo\")");
    assert_eq!(ruschm::value::inspected("Kind", ""), "Kind()");
}

#[test]
fn a_copy_of_a_procedure_shares_its_body() {
    let body = Rc::new(SchemeProcedure(
        ParameterFormals(vec![], Some("all".to_string())),
        vec![],
        vec![name("all")],
    ));
    let procedure: Value<Single> = Value::Procedure(Procedure::UserDefined {
        procedure: body.clone(),
        environment: 3,
    });
    let copy = procedure.clone();
    assert_eq!(copy, procedure);
    assert_eq!(copy.to_string(), "(lambda all)");
    assert_eq!(copy.to_debug_string(), "Procedure((lambda all))");
    assert_eq!(Rc::strong_count(&body), 3);
    match copy {
        Value::Procedure(Procedure::UserDefined {
            procedure,
            environment,
        }) => {
            assert!(Rc::ptr_eq(&procedure, &body));
            assert_eq!(environment, 3);
        }
        other => panic!("{:?}", other),
    }
    let builtin = Procedure::Builtin(BuiltinProcedure::new(BuiltinFunction::Min));
    assert_eq!(builtin.clone(), builtin);
    assert_ne!(
        builtin,
        Procedure::Builtin(BuiltinProcedure::new(BuiltinFunction::Max))
    );
}
