//! The abstract syntax tree that the parser produces.

use crate::located::Located;
use vstd::prelude::*;

verus! {

/// One top-level form.
#[derive(Debug, PartialEq)]
pub enum Statement {
    ImportDeclaration(Vec<ImportSet>),
    Definition(Definition),
    Expression(Expression),
}

/// A name and the expression whose value it is bound to.
#[derive(Debug, PartialEq)]
pub struct DefinitionBody(pub String, pub Expression);

pub type Definition = Located<DefinitionBody>;

pub type ImportSet = Located<ImportSetBody>;

/// Which bindings of a library an import brings in, and under what names.
#[derive(Debug, PartialEq)]
pub enum ImportSetBody {
    Direct(String),
    Only(Box<ImportSet>, Vec<String>),
    Except(Box<ImportSet>, Vec<String>),
    Prefix(Box<ImportSet>, String),
    Rename(Box<ImportSet>, Vec<(String, String)>),
}

pub type Expression = Located<ExpressionBody>;

#[derive(Debug, PartialEq)]
pub enum ExpressionBody {
    Identifier(String),
    Integer(i32),
    Boolean(bool),
    /// An inexact literal, kept as written.
    Real(String),
    Rational(i32, u32),
    Character(char),
    String(String),
    /// The separator `.`; it stands for itself only inside data.
    Period,
    /// A list datum.
    List(Vec<Expression>),
    Vector(Vec<Expression>),
    Assignment(String, Box<Expression>),
    Procedure(SchemeProcedure),
    ProcedureCall(Box<Expression>, Vec<Expression>),
    /// Test, consequent and, where there is one, alternative.
    Conditional(Box<(Expression, Expression, Option<Expression>)>),
    Quote(Box<Expression>),
}

/// The parameters of a procedure: the fixed ones in order, then the name
/// that takes all further arguments as a list, where there is one.
#[derive(Debug, PartialEq)]
pub struct ParameterFormals(pub Vec<String>, pub Option<String>);

/// A `lambda`: formals, the definitions that open the body, and the
/// expressions that follow them.
#[derive(Debug, PartialEq)]
pub struct SchemeProcedure(pub ParameterFormals, pub Vec<Definition>, pub Vec<Expression>);

pub struct ParameterFormalsView {
    pub fixed: Seq<Seq<char>>,
    pub variadic: Option<Seq<char>>,
}

pub struct SchemeProcedureView {
    pub formals: ParameterFormalsView,
    pub definitions: Seq<DefinitionView>,
    pub expressions: Seq<ExpressionView>,
}

pub struct DefinitionBodyView {
    pub name: Seq<char>,
    pub value: ExpressionView,
}

pub type DefinitionView = Located<DefinitionBodyView>;

pub enum ExpressionBodyView {
    Identifier(Seq<char>),
    Integer(i32),
    Boolean(bool),
    Real(Seq<char>),
    Rational(i32, u32),
    Character(char),
    String(Seq<char>),
    Period,
    List(Seq<ExpressionView>),
    Vector(Seq<ExpressionView>),
    Assignment(Seq<char>, Box<ExpressionView>),
    Procedure(SchemeProcedureView),
    ProcedureCall(Box<ExpressionView>, Seq<ExpressionView>),
    Conditional(Box<ExpressionView>, Box<ExpressionView>, Option<Box<ExpressionView>>),
    Quote(Box<ExpressionView>),
}

pub type ExpressionView = Located<ExpressionBodyView>;

pub enum ImportSetBodyView {
    Direct(Seq<char>),
    Only(Box<ImportSetView>, Seq<Seq<char>>),
    Except(Box<ImportSetView>, Seq<Seq<char>>),
    Prefix(Box<ImportSetView>, Seq<char>),
    Rename(Box<ImportSetView>, Seq<(Seq<char>, Seq<char>)>),
}

pub type ImportSetView = Located<ImportSetBodyView>;

pub enum StatementView {
    ImportDeclaration(Seq<ImportSetView>),
    Definition(DefinitionView),
    Expression(ExpressionView),
}

/// The texts of a sequence of strings.
pub open spec fn names_view(names: Seq<String>) -> Seq<Seq<char>> {
    Seq::new(names.len(), |i: int| names[i]@)
}

/// The texts of a sequence of pairs of strings.
pub open spec fn name_pairs_view(pairs: Seq<(String, String)>) -> Seq<(Seq<char>, Seq<char>)> {
    Seq::new(pairs.len(), |i: int| (pairs[i].0@, pairs[i].1@))
}

pub open spec fn expression_view(expression: Expression) -> ExpressionView
    decreases expression,
{
    Located { data: expression_body_view(expression.data), location: expression.location }
}

pub open spec fn expressions_view(expressions: Seq<Expression>) -> Seq<ExpressionView>
    decreases expressions,
{
    Seq::new(
        expressions.len(),
        |i: int|
            if 0 <= i < expressions.len() {
                expression_view(expressions[i])
            } else {
                arbitrary()
            },
    )
}

pub open spec fn definition_view(definition: Definition) -> DefinitionView
    decreases definition,
{
    Located {
        data: DefinitionBodyView {
            name: definition.data.0@,
            value: expression_view(definition.data.1),
        },
        location: definition.location,
    }
}

pub open spec fn definitions_view(definitions: Seq<Definition>) -> Seq<DefinitionView>
    decreases definitions,
{
    Seq::new(
        definitions.len(),
        |i: int|
            if 0 <= i < definitions.len() {
                definition_view(definitions[i])
            } else {
                arbitrary()
            },
    )
}

pub open spec fn procedure_view(procedure: SchemeProcedure) -> SchemeProcedureView
    decreases procedure,
{
    SchemeProcedureView {
        formals: procedure.0@,
        definitions: definitions_view(procedure.1@),
        expressions: expressions_view(procedure.2@),
    }
}

pub open spec fn expression_body_view(body: ExpressionBody) -> ExpressionBodyView
    decreases body,
{
    match body {
        ExpressionBody::Identifier(name) => ExpressionBodyView::Identifier(name@),
        ExpressionBody::Integer(n) => ExpressionBodyView::Integer(n),
        ExpressionBody::Boolean(b) => ExpressionBodyView::Boolean(b),
        ExpressionBody::Real(text) => ExpressionBodyView::Real(text@),
        ExpressionBody::Rational(n, d) => ExpressionBodyView::Rational(n, d),
        ExpressionBody::Character(c) => ExpressionBodyView::Character(c),
        ExpressionBody::String(text) => ExpressionBodyView::String(text@),
        ExpressionBody::Period => ExpressionBodyView::Period,
        ExpressionBody::List(items) => ExpressionBodyView::List(expressions_view(items@)),
        ExpressionBody::Vector(items) => ExpressionBodyView::Vector(expressions_view(items@)),
        ExpressionBody::Assignment(name, value) => ExpressionBodyView::Assignment(
            name@,
            Box::new(expression_view(*value)),
        ),
        ExpressionBody::Procedure(procedure) => ExpressionBodyView::Procedure(
            procedure_view(procedure),
        ),
        ExpressionBody::ProcedureCall(operator, arguments) => ExpressionBodyView::ProcedureCall(
            Box::new(expression_view(*operator)),
            expressions_view(arguments@),
        ),
        ExpressionBody::Conditional(parts) => ExpressionBodyView::Conditional(
            Box::new(expression_view(parts.0)),
            Box::new(expression_view(parts.1)),
            match parts.2 {
                Some(alternative) => Some(Box::new(expression_view(alternative))),
                None => None,
            },
        ),
        ExpressionBody::Quote(datum) => ExpressionBodyView::Quote(
            Box::new(expression_view(*datum)),
        ),
    }
}

pub open spec fn import_set_view(set: ImportSet) -> ImportSetView
    decreases set,
{
    Located { data: import_set_body_view(set.data), location: set.location }
}

pub open spec fn import_set_body_view(body: ImportSetBody) -> ImportSetBodyView
    decreases body,
{
    match body {
        ImportSetBody::Direct(library) => ImportSetBodyView::Direct(library@),
        ImportSetBody::Only(inner, names) => ImportSetBodyView::Only(
            Box::new(import_set_view(*inner)),
            names_view(names@),
        ),
        ImportSetBody::Except(inner, names) => ImportSetBodyView::Except(
            Box::new(import_set_view(*inner)),
            names_view(names@),
        ),
        ImportSetBody::Prefix(inner, prefix) => ImportSetBodyView::Prefix(
            Box::new(import_set_view(*inner)),
            prefix@,
        ),
        ImportSetBody::Rename(inner, pairs) => ImportSetBodyView::Rename(
            Box::new(import_set_view(*inner)),
            name_pairs_view(pairs@),
        ),
    }
}

pub open spec fn import_sets_view(sets: Seq<ImportSet>) -> Seq<ImportSetView> {
    Seq::new(sets.len(), |i: int| import_set_view(sets[i]))
}

impl View for ParameterFormals {
    type V = ParameterFormalsView;

    open spec fn view(&self) -> ParameterFormalsView {
        ParameterFormalsView {
            fixed: names_view(self.0@),
            variadic: match self.1 {
                Some(name) => Some(name@),
                None => None,
            },
        }
    }
}

impl View for SchemeProcedure {
    type V = SchemeProcedureView;

    open spec fn view(&self) -> SchemeProcedureView {
        procedure_view(*self)
    }
}

impl View for DefinitionBody {
    type V = DefinitionBodyView;

    open spec fn view(&self) -> DefinitionBodyView {
        DefinitionBodyView { name: self.0@, value: expression_view(self.1) }
    }
}

impl View for ExpressionBody {
    type V = ExpressionBodyView;

    open spec fn view(&self) -> ExpressionBodyView {
        expression_body_view(*self)
    }
}

impl View for ImportSetBody {
    type V = ImportSetBodyView;

    open spec fn view(&self) -> ImportSetBodyView {
        import_set_body_view(*self)
    }
}

impl View for Statement {
    type V = StatementView;

    open spec fn view(&self) -> StatementView {
        match self {
            Statement::ImportDeclaration(sets) => StatementView::ImportDeclaration(
                import_sets_view(sets@),
            ),
            Statement::Definition(definition) => StatementView::Definition(
                definition_view(*definition),
            ),
            Statement::Expression(expression) => StatementView::Expression(
                expression_view(*expression),
            ),
        }
    }
}

impl Clone for ParameterFormals {
    fn clone(&self) -> (copy: ParameterFormals)
        ensures
            copy@ == self@,
    {
        let variadic = match &self.1 {
            Some(name) => Some(name.clone()),
            None => None,
        };
        ParameterFormals(copy_names(&self.0), variadic)
    }
}

fn copy_names(names: &Vec<String>) -> (copies: Vec<String>)
    ensures
        copies@ == names@,
{
    let mut copies: Vec<String> = Vec::new();
    let mut i: usize = 0;
    while i < names.len()
        invariant
            i <= names@.len(),
            copies@ == names@.take(i as int),
        decreases names@.len() - i,
    {
        copies.push(names[i].clone());
        assert(copies@ =~= names@.take(i + 1));
        i += 1;
    }
    assert(copies@ =~= names@);
    copies
}

fn copy_name_pairs(pairs: &Vec<(String, String)>) -> (copies: Vec<(String, String)>)
    ensures
        copies@ == pairs@,
{
    let mut copies: Vec<(String, String)> = Vec::new();
    let mut i: usize = 0;
    while i < pairs.len()
        invariant
            i <= pairs@.len(),
            copies@ == pairs@.take(i as int),
        decreases pairs@.len() - i,
    {
        copies.push((pairs[i].0.clone(), pairs[i].1.clone()));
        assert(copies@ =~= pairs@.take(i + 1));
        i += 1;
    }
    assert(copies@ =~= pairs@);
    copies
}

fn copy_expression(expression: &Expression) -> (copy: Expression)
    ensures
        expression_view(copy) == expression_view(*expression),
    decreases expression,
{
    Located { data: copy_expression_body(&expression.data), location: expression.location }
}

fn copy_expressions(expressions: &Vec<Expression>) -> (copies: Vec<Expression>)
    ensures
        expressions_view(copies@) == expressions_view(expressions@),
    decreases expressions,
{
    let mut copies: Vec<Expression> = Vec::new();
    let mut i: usize = 0;
    while i < expressions.len()
        invariant
            i <= expressions@.len(),
            copies@.len() == i,
            forall|j: int|
                0 <= j < i ==> expression_view(#[trigger] copies@[j]) == expression_view(
                    expressions@[j],
                ),
        decreases expressions@.len() - i,
    {
        let copy = copy_expression(&expressions[i]);
        copies.push(copy);
        i += 1;
    }
    assert(expressions_view(copies@) =~= expressions_view(expressions@));
    copies
}

fn copy_definition(definition: &Definition) -> (copy: Definition)
    ensures
        definition_view(copy) == definition_view(*definition),
    decreases definition,
{
    Located {
        data: DefinitionBody(definition.data.0.clone(), copy_expression(&definition.data.1)),
        location: definition.location,
    }
}

fn copy_definitions(definitions: &Vec<Definition>) -> (copies: Vec<Definition>)
    ensures
        definitions_view(copies@) == definitions_view(definitions@),
    decreases definitions,
{
    let mut copies: Vec<Definition> = Vec::new();
    let mut i: usize = 0;
    while i < definitions.len()
        invariant
            i <= definitions@.len(),
            copies@.len() == i,
            forall|j: int|
                0 <= j < i ==> definition_view(#[trigger] copies@[j]) == definition_view(
                    definitions@[j],
                ),
        decreases definitions@.len() - i,
    {
        let copy = copy_definition(&definitions[i]);
        copies.push(copy);
        i += 1;
    }
    assert(definitions_view(copies@) =~= definitions_view(definitions@));
    copies
}

fn copy_procedure(procedure: &SchemeProcedure) -> (copy: SchemeProcedure)
    ensures
        procedure_view(copy) == procedure_view(*procedure),
    decreases procedure,
{
    SchemeProcedure(
        procedure.0.clone(),
        copy_definitions(&procedure.1),
        copy_expressions(&procedure.2),
    )
}

fn copy_expression_body(body: &ExpressionBody) -> (copy: ExpressionBody)
    ensures
        expression_body_view(copy) == expression_body_view(*body),
    decreases body,
{
    match body {
        ExpressionBody::Identifier(name) => ExpressionBody::Identifier(name.clone()),
        ExpressionBody::Integer(value) => ExpressionBody::Integer(*value),
        ExpressionBody::Boolean(value) => ExpressionBody::Boolean(*value),
        ExpressionBody::Real(text) => ExpressionBody::Real(text.clone()),
        ExpressionBody::Rational(numerator, denominator) => ExpressionBody::Rational(
            *numerator,
            *denominator,
        ),
        ExpressionBody::Character(character) => ExpressionBody::Character(*character),
        ExpressionBody::String(text) => ExpressionBody::String(text.clone()),
        ExpressionBody::Period => ExpressionBody::Period,
        ExpressionBody::List(items) => ExpressionBody::List(copy_expressions(items)),
        ExpressionBody::Vector(items) => ExpressionBody::Vector(copy_expressions(items)),
        ExpressionBody::Assignment(name, value) => ExpressionBody::Assignment(
            name.clone(),
            Box::new(copy_expression(&**value)),
        ),
        ExpressionBody::Procedure(procedure) => ExpressionBody::Procedure(
            copy_procedure(procedure),
        ),
        ExpressionBody::ProcedureCall(operator, arguments) => ExpressionBody::ProcedureCall(
            Box::new(copy_expression(&**operator)),
            copy_expressions(arguments),
        ),
        ExpressionBody::Conditional(parts) => ExpressionBody::Conditional(
            Box::new(
                (
                    copy_expression(&parts.0),
                    copy_expression(&parts.1),
                    match &parts.2 {
                        Some(alternative) => Some(copy_expression(alternative)),
                        None => None,
                    },
                ),
            ),
        ),
        ExpressionBody::Quote(datum) => ExpressionBody::Quote(Box::new(copy_expression(&**datum))),
    }
}

fn copy_import_set(set: &ImportSet) -> (copy: ImportSet)
    ensures
        import_set_view(copy) == import_set_view(*set),
    decreases set,
{
    Located { data: copy_import_set_body(&set.data), location: set.location }
}

fn copy_import_sets(sets: &Vec<ImportSet>) -> (copies: Vec<ImportSet>)
    ensures
        import_sets_view(copies@) == import_sets_view(sets@),
{
    let mut copies: Vec<ImportSet> = Vec::new();
    let mut i: usize = 0;
    while i < sets.len()
        invariant
            i <= sets@.len(),
            copies@.len() == i,
            forall|j: int|
                0 <= j < i ==> import_set_view(#[trigger] copies@[j]) == import_set_view(sets@[j]),
        decreases sets@.len() - i,
    {
        let copy = copy_import_set(&sets[i]);
        copies.push(copy);
        i += 1;
    }
    assert(import_sets_view(copies@) =~= import_sets_view(sets@));
    copies
}

impl Clone for ExpressionBody {
    fn clone(&self) -> (copy: ExpressionBody)
        ensures
            copy@ == self@,
    {
        copy_expression_body(self)
    }
}

impl Clone for DefinitionBody {
    fn clone(&self) -> (copy: DefinitionBody)
        ensures
            copy@ == self@,
    {
        DefinitionBody(self.0.clone(), copy_expression(&self.1))
    }
}

impl Clone for SchemeProcedure {
    fn clone(&self) -> (copy: SchemeProcedure)
        ensures
            copy@ == self@,
    {
        copy_procedure(self)
    }
}

impl Clone for ImportSetBody {
    fn clone(&self) -> (copy: ImportSetBody)
        ensures
            copy@ == self@,
    {
        copy_import_set_body(self)
    }
}

fn copy_import_set_body(body: &ImportSetBody) -> (copy: ImportSetBody)
    ensures
        import_set_body_view(copy) == import_set_body_view(*body),
    decreases body,
{
    match body {
        ImportSetBody::Direct(library) => ImportSetBody::Direct(library.clone()),
        ImportSetBody::Only(inner, names) => ImportSetBody::Only(
            Box::new(copy_import_set(&**inner)),
            copy_names(names),
        ),
        ImportSetBody::Except(inner, names) => ImportSetBody::Except(
            Box::new(copy_import_set(&**inner)),
            copy_names(names),
        ),
        ImportSetBody::Prefix(inner, prefix) => ImportSetBody::Prefix(
            Box::new(copy_import_set(&**inner)),
            prefix.clone(),
        ),
        ImportSetBody::Rename(inner, pairs) => ImportSetBody::Rename(
            Box::new(copy_import_set(&**inner)),
            copy_name_pairs(pairs),
        ),
    }
}

impl Clone for Statement {
    fn clone(&self) -> (copy: Statement)
        ensures
            copy@ == self@,
    {
        match self {
            Statement::ImportDeclaration(sets) => Statement::ImportDeclaration(
                copy_import_sets(sets),
            ),
            Statement::Definition(definition) => Statement::Definition(
                copy_definition(definition),
            ),
            Statement::Expression(expression) => Statement::Expression(
                copy_expression(expression),
            ),
        }
    }
}

impl ParameterFormals {
    /// No fixed parameter and no variadic one.
    pub fn new() -> (formals: ParameterFormals)
        ensures
            formals@ == (ParameterFormalsView { fixed: Seq::empty(), variadic: None }),
    {
        let formals = ParameterFormals(Vec::new(), None);
        assert(formals@.fixed =~= Seq::empty());
        formals
    }
}

/// The procedure with the given formals whose body is the one expression,
/// at no position.
pub fn simple_procedure(formals: ParameterFormals, expression: Expression) -> (procedure:
    Expression)
    ensures
        procedure@ == (Located {
            data: ExpressionBodyView::Procedure(
                SchemeProcedureView {
                    formals: formals@,
                    definitions: Seq::empty(),
                    expressions: seq![expression@],
                },
            ),
            location: None,
        }),
{
    let mut expressions: Vec<Expression> = Vec::new();
    expressions.push(expression);
    let definitions: Vec<Definition> = Vec::new();
    assert(definitions_view(definitions@) =~= Seq::empty());
    assert(expressions_view(expressions@) =~= seq![expression@]);
    Located::from_data(
        ExpressionBody::Procedure(SchemeProcedure(formals, definitions, expressions)),
    )
}

/// The expression `body`, at no position, as a statement.
pub fn expr_body_to_statement(body: ExpressionBody) -> (statement: Option<Statement>)
    ensures
        statement matches Some(found) && found@ == StatementView::Expression(
            Located { data: body@, location: None },
        ),
{
    Some(Statement::Expression(Located::from_data(body)))
}

/// The definition `body`, at no position, as a statement.
pub fn def_body_to_statement(body: DefinitionBody) -> (statement: Option<Statement>)
    ensures
        statement matches Some(found) && found@ == StatementView::Definition(
            Located { data: body@, location: None },
        ),
{
    Some(Statement::Definition(Located::from_data(body)))
}

} // verus!
