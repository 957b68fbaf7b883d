//! The external representation of syntax: code written out as data.

use crate::ast::{
    expression_body_view, expressions_view, names_view, Expression, ExpressionBody,
    ExpressionBodyView, ExpressionView, ParameterFormals, ParameterFormalsView, SchemeProcedure,
    SchemeProcedureView,
};
use crate::text::{character_text, decimal, decimal_text, join_texts, joined};
use vstd::prelude::*;
use vstd::string::*;

verus! {

/// Formals as written: `()` for none, the bare name where there is only
/// a variadic one, otherwise the names in parentheses, with ` . ` before
/// the variadic one.
pub open spec fn formals_text(formals: ParameterFormalsView) -> Seq<char> {
    if formals.fixed.len() == 0 {
        match formals.variadic {
            None => "()"@,
            Some(variadic) => variadic,
        }
    } else {
        match formals.variadic {
            Some(variadic) => "("@ + joined(formals.fixed, " "@) + " . "@ + variadic + ")"@,
            None => "("@ + joined(formals.fixed, " "@) + ")"@,
        }
    }
}

/// A procedure as written: `(lambda formals)`.
pub open spec fn procedure_text(procedure: SchemeProcedureView) -> Seq<char> {
    "(lambda "@ + formals_text(procedure.formals) + ")"@
}

/// The texts of expressions, in order.
pub open spec fn expression_texts(expressions: Seq<ExpressionView>) -> Seq<Seq<char>>
    decreases expressions,
{
    Seq::new(
        expressions.len(),
        |i: int|
            if 0 <= i < expressions.len() {
                expression_text(expressions[i].data)
            } else {
                Seq::empty()
            },
    )
}

/// An expression as written. A literal stands as it was read; a list is
/// `(a b)`, a vector `#(a b)`, a call `(operator a b)`, an assignment
/// `(set! name value)`, a conditional `(if test consequent alternative)`,
/// a quotation `'datum`, a procedure `(lambda formals)`.
pub open spec fn expression_text(expression: ExpressionBodyView) -> Seq<char>
    decreases expression,
{
    match expression {
        ExpressionBodyView::Identifier(name) => name,
        ExpressionBodyView::Integer(value) => decimal(value as int),
        ExpressionBodyView::Boolean(value) => if value {
            "#t"@
        } else {
            "#f"@
        },
        ExpressionBodyView::Real(text) => text,
        ExpressionBodyView::Rational(numerator, denominator) => decimal(numerator as int) + "/"@
            + decimal(denominator as int),
        ExpressionBodyView::Character(character) => "#\\"@ + seq![character],
        ExpressionBodyView::String(text) => "\""@ + text + "\""@,
        ExpressionBodyView::Period => "."@,
        ExpressionBodyView::List(items) => "("@ + joined(expression_texts(items), " "@) + ")"@,
        ExpressionBodyView::Vector(items) => "#("@ + joined(expression_texts(items), " "@) + ")"@,
        ExpressionBodyView::Assignment(name, value) => "(set! "@ + name + " "@ + expression_text(
            value.data,
        ) + ")"@,
        ExpressionBodyView::Procedure(procedure) => procedure_text(procedure),
        ExpressionBodyView::ProcedureCall(operator, arguments) => "("@ + joined(
            seq![expression_text(operator.data)] + expression_texts(arguments),
            " "@,
        ) + ")"@,
        ExpressionBodyView::Conditional(test, consequent, alternative) => match alternative {
            Some(alternative) => "(if "@ + expression_text(test.data) + " "@ + expression_text(
                consequent.data,
            ) + " "@ + expression_text(alternative.data) + ")"@,
            None => "(if "@ + expression_text(test.data) + " "@ + expression_text(consequent.data)
                + ")"@,
        },
        ExpressionBodyView::Quote(datum) => "'"@ + expression_text(datum.data),
    }
}

impl ParameterFormals {
    /// The formals as written.
    pub fn to_string(&self) -> (text: String)
        ensures
            text@ == formals_text(self@),
    {
        if self.0.len() == 0 {
            match &self.1 {
                None => String::from_str("()"),
                Some(variadic) => variadic.clone(),
            }
        } else {
            let mut text = String::from_str("(");
            let names = join_texts(&self.0, " ");
            text.append(names.as_str());
            match &self.1 {
                Some(variadic) => {
                    text.append(" . ");
                    text.append(variadic.as_str());
                },
                None => {},
            }
            text.append(")");
            text
        }
    }
}

impl SchemeProcedure {
    /// The procedure as written.
    pub fn to_string(&self) -> (text: String)
        ensures
            text@ == procedure_text(self@),
    {
        let mut text = String::from_str("(lambda ");
        let formals = self.0.to_string();
        text.append(formals.as_str());
        text.append(")");
        text
    }
}

/// The texts of `expressions`, in order.
fn texts_of(expressions: &Vec<Expression>) -> (texts: Vec<String>)
    ensures
        names_view(texts@) == expression_texts(expressions_view(expressions@)),
    decreases expressions,
{
    let mut texts: Vec<String> = Vec::new();
    let mut i: usize = 0;
    while i < expressions.len()
        invariant
            i <= expressions.len(),
            texts@.len() == i,
            forall|j: int|
                0 <= j < i ==> (#[trigger] texts@[j])@ == expression_text(
                    expression_body_view(expressions@[j].data),
                ),
        decreases expressions.len() - i,
    {
        let text = expressions[i].data.to_string();
        texts.push(text);
        i += 1;
    }
    assert(names_view(texts@) =~= expression_texts(expressions_view(expressions@)));
    texts
}

impl ExpressionBody {
    /// The expression as written.
    pub fn to_string(&self) -> (text: String)
        ensures
            text@ == expression_text(self@),
        decreases self,
    {
        match self {
            ExpressionBody::Identifier(name) => name.clone(),
            ExpressionBody::Integer(value) => decimal_text(*value as i64),
            ExpressionBody::Boolean(value) => if *value {
                String::from_str("#t")
            } else {
                String::from_str("#f")
            },
            ExpressionBody::Real(text) => text.clone(),
            ExpressionBody::Rational(numerator, denominator) => {
                let mut text = decimal_text(*numerator as i64);
                text.append("/");
                let bottom = decimal_text(*denominator as i64);
                text.append(bottom.as_str());
                text
            },
            ExpressionBody::Character(character) => {
                let mut text = String::from_str("#\\");
                let rest = character_text(*character);
                text.append(rest.as_str());
                text
            },
            ExpressionBody::String(content) => {
                let mut text = String::from_str("\"");
                text.append(content.as_str());
                text.append("\"");
                text
            },
            ExpressionBody::Period => String::from_str("."),
            ExpressionBody::List(items) => {
                let texts = texts_of(items);
                let mut text = String::from_str("(");
                let inner = join_texts(&texts, " ");
                text.append(inner.as_str());
                text.append(")");
                text
            },
            ExpressionBody::Vector(items) => {
                let texts = texts_of(items);
                let mut text = String::from_str("#(");
                let inner = join_texts(&texts, " ");
                text.append(inner.as_str());
                text.append(")");
                text
            },
            ExpressionBody::Assignment(name, value) => {
                let mut text = String::from_str("(set! ");
                text.append(name.as_str());
                text.append(" ");
                let inner = value.data.to_string();
                text.append(inner.as_str());
                text.append(")");
                text
            },
            ExpressionBody::Procedure(procedure) => procedure.to_string(),
            ExpressionBody::ProcedureCall(operator, arguments) => {
                let first = operator.data.to_string();
                let rest = texts_of(arguments);
                let mut texts: Vec<String> = Vec::new();
                texts.push(first);
                let mut all = rest;
                let ghost tail = all@;
                texts.append(&mut all);
                assert(names_view(texts@) =~= seq![first@] + names_view(tail));
                let mut text = String::from_str("(");
                let inner = join_texts(&texts, " ");
                text.append(inner.as_str());
                text.append(")");
                text
            },
            ExpressionBody::Conditional(parts) => {
                let mut text = String::from_str("(if ");
                let test = parts.0.data.to_string();
                text.append(test.as_str());
                text.append(" ");
                let consequent = parts.1.data.to_string();
                text.append(consequent.as_str());
                match &parts.2 {
                    Some(alternative) => {
                        text.append(" ");
                        let last = alternative.data.to_string();
                        text.append(last.as_str());
                    },
                    None => {},
                }
                text.append(")");
                text
            },
            ExpressionBody::Quote(datum) => {
                let mut text = String::from_str("'");
                let inner = datum.data.to_string();
                text.append(inner.as_str());
                text
            },
        }
    }
}

} // verus!
