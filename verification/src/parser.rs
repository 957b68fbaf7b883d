//! The parser: it reads statements, one at a time, from the tokens of a
//! lexer. What it reads is stated by the functions of [`crate::grammar`].

use crate::ast::{
    definitions_view, expressions_view, import_set_view, import_sets_view,
    name_pairs_view, names_view, Definition, DefinitionBody, Expression, ExpressionBody,
    ExpressionView, ImportSet, ImportSetBody, ImportSetView, ParameterFormals,
    SchemeProcedure, Statement, StatementView,
};
use crate::error::{ErrorType, ErrorView, SchemeError};
use crate::grammar;
use crate::grammar::{BodyView, Form, ImportForm, ItemView, Parsed, ParserView};
use crate::located::{Located, Location};
use crate::token::{Token, TokenData, TokenView};
use std::collections::VecDeque;
use vstd::prelude::*;
use vstd::string::*;

verus! {

/// A parser over the items of a lexer.
#[derive(Debug)]
pub struct Parser {
    /// The token bound last, until it is used up.
    pub current: Option<Token>,
    /// The items not yet read, the next one in front.
    pub lexer: VecDeque<Result<Token, SchemeError>>,
    /// The position of the token bound last.
    pub location: Location,
}

pub open spec fn option_token_view(token: Option<Token>) -> Option<TokenView> {
    match token {
        Some(token) => Some(token@),
        None => None,
    }
}

pub open spec fn item_view(item: Result<Token, SchemeError>) -> ItemView {
    match item {
        Ok(token) => Ok(token@),
        Err(error) => Err(error@),
    }
}

pub open spec fn items_view(items: Seq<Result<Token, SchemeError>>) -> Seq<ItemView> {
    Seq::new(items.len(), |i: int| item_view(items[i]))
}

/// The tokens `tokens` as items of a lexer that never fails.
pub open spec fn sound_items(tokens: Seq<Token>) -> Seq<ItemView> {
    Seq::new(tokens.len(), |i: int| Ok(tokens[i]@))
}

pub open spec fn statements_view(statements: Seq<Statement>) -> Seq<StatementView> {
    Seq::new(statements.len(), |i: int| statements[i]@)
}

impl View for Parser {
    type V = ParserView;

    open spec fn view(&self) -> ParserView {
        ParserView {
            current: option_token_view(self.current),
            remaining: items_view(self.lexer@),
            location: self.location,
        }
    }
}

/// Whether an outcome and the state it left are those that the grammar
/// gives. After an error the grammar leaves the state open.
pub open spec fn agrees<V>(outcome: Result<V, ErrorView>, after: ParserView, expected: Parsed<V>) -> bool {
    match expected {
        Ok((value, state)) => outcome == Ok::<V, ErrorView>(value) && after =~= state,
        Err(error) => outcome == Err::<V, ErrorView>(error),
    }
}

/// Whether a reading failed, if at all, in one of the two ways there
/// are: with a syntax error, or with an error that the lexer delivered,
/// handed on as it came. The lexer is left with no error in store that it
/// had not before. So where the lexer delivers tokens only, a failure is
/// a syntax error.
pub open spec fn orderly<T>(
    before: ParserView,
    outcome: Result<T, SchemeError>,
    after: ParserView,
) -> bool {
    grammar::handed_on(before, after) && (outcome matches Err(error) ==> error.category
        == ErrorType::Syntax || grammar::delivered(before.remaining, error@))
}

/// Where the lexer delivers tokens only, it goes on doing so, and a
/// reading that fails fails with a syntax error.
pub proof fn lemma_failure_on_tokens_is_a_syntax_error<T>(
    before: ParserView,
    outcome: Result<T, SchemeError>,
    after: ParserView,
)
    requires
        orderly(before, outcome, after),
        grammar::sound(before),
    ensures
        grammar::sound(after),
        outcome matches Err(error) ==> error.category == ErrorType::Syntax,
{
}

pub open spec fn outcome_view<T: View>(outcome: Result<T, SchemeError>) -> Result<T::V, ErrorView> {
    match outcome {
        Ok(value) => Ok(value@),
        Err(error) => Err(error@),
    }
}

pub open spec fn unit_outcome(outcome: Result<(), SchemeError>) -> Result<(), ErrorView> {
    match outcome {
        Ok(_) => Ok(()),
        Err(error) => Err(error@),
    }
}

pub open spec fn statement_outcome(outcome: Result<Option<Statement>, SchemeError>) -> Result<
    Option<StatementView>,
    ErrorView,
> {
    match outcome {
        Ok(Some(statement)) => Ok(Some(statement@)),
        Ok(None) => Ok(None),
        Err(error) => Err(error@),
    }
}

pub open spec fn root_outcome(
    outcome: Result<Option<(Statement, Location)>, SchemeError>,
) -> Result<Option<(StatementView, Location)>, ErrorView> {
    match outcome {
        Ok(Some((statement, location))) => Ok(Some((statement@, location))),
        Ok(None) => Ok(None),
        Err(error) => Err(error@),
    }
}

pub open spec fn expressions_outcome(outcome: Result<Vec<Expression>, SchemeError>) -> Result<
    Seq<ExpressionView>,
    ErrorView,
> {
    match outcome {
        Ok(expressions) => Ok(expressions_view(expressions@)),
        Err(error) => Err(error@),
    }
}

pub open spec fn statements_outcome(outcome: Result<Vec<Statement>, SchemeError>) -> Result<
    Seq<StatementView>,
    ErrorView,
> {
    match outcome {
        Ok(statements) => Ok(statements_view(statements@)),
        Err(error) => Err(error@),
    }
}

pub open spec fn import_sets_outcome(outcome: Result<Vec<ImportSet>, SchemeError>) -> Result<
    Seq<ImportSetView>,
    ErrorView,
> {
    match outcome {
        Ok(sets) => Ok(import_sets_view(sets@)),
        Err(error) => Err(error@),
    }
}

pub open spec fn name_outcome(outcome: Result<String, SchemeError>) -> Result<Seq<char>, ErrorView> {
    match outcome {
        Ok(name) => Ok(name@),
        Err(error) => Err(error@),
    }
}

pub open spec fn names_outcome(outcome: Result<Vec<String>, SchemeError>) -> Result<
    Seq<Seq<char>>,
    ErrorView,
> {
    match outcome {
        Ok(names) => Ok(names_view(names@)),
        Err(error) => Err(error@),
    }
}

pub open spec fn pair_outcome(outcome: Result<(String, String), SchemeError>) -> Result<
    (Seq<char>, Seq<char>),
    ErrorView,
> {
    match outcome {
        Ok((old_name, new_name)) => Ok((old_name@, new_name@)),
        Err(error) => Err(error@),
    }
}

pub open spec fn pairs_outcome(outcome: Result<Vec<(String, String)>, SchemeError>) -> Result<
    Seq<(Seq<char>, Seq<char>)>,
    ErrorView,
> {
    match outcome {
        Ok(pairs) => Ok(name_pairs_view(pairs@)),
        Err(error) => Err(error@),
    }
}

pub open spec fn binding_outcome(outcome: Result<(String, Expression), SchemeError>) -> Result<
    (Seq<char>, ExpressionView),
    ErrorView,
> {
    match outcome {
        Ok((name, value)) => Ok((name@, value@)),
        Err(error) => Err(error@),
    }
}

pub open spec fn peeked_view(outcome: Result<Option<&Token>, SchemeError>) -> Result<
    Option<TokenView>,
    ErrorView,
> {
    match outcome {
        Ok(Some(token)) => Ok(Some(token@)),
        Ok(None) => Ok(None),
        Err(error) => Err(error@),
    }
}

proof fn lemma_rest_is_handed_on(items: Seq<Result<Token, SchemeError>>, count: int)
    requires
        0 <= count <= items.len(),
    ensures
        forall|error: ErrorView| #[trigger]
            grammar::delivered(items_view(items.skip(count)), error) ==> grammar::delivered(
                items_view(items),
                error,
            ),
{
    assert forall|error: ErrorView| #[trigger]
        grammar::delivered(items_view(items.skip(count)), error) implies grammar::delivered(
        items_view(items),
        error,
    ) by {
        let i = choose|i: int|
            0 <= i < items_view(items.skip(count)).len() && #[trigger] items_view(
                items.skip(count),
            )[i] == Err::<TokenView, ErrorView>(error);
        assert(items_view(items)[i + count] == Err::<TokenView, ErrorView>(error));
    }
}

proof fn lemma_items_skip(items: Seq<Result<Token, SchemeError>>, count: int)
    requires
        0 <= count <= items.len(),
    ensures
        items_view(items.skip(count)) =~= items_view(items).skip(count),
{
}

/// The elements of `items`, last first.
fn reversed<T>(items: Vec<T>) -> (turned: Vec<T>)
    ensures
        turned@ == items@.reverse(),
{
    let ghost all = items@;
    let mut rest = items;
    let mut turned: Vec<T> = Vec::new();
    while rest.len() > 0
        invariant
            rest@.len() + turned@.len() == all.len(),
            rest@ == all.take(rest@.len() as int),
            forall|i: int| 0 <= i < turned@.len() ==> turned@[i] == all[all.len() - 1 - i],
        decreases rest@.len(),
    {
        let item = rest.pop().unwrap();
        turned.push(item);
    }
    assert(turned@ =~= all.reverse());
    turned
}

fn is_text(name: &String, text: &str) -> (same: bool)
    ensures
        same == (name@ == text@),
{
    *name == String::from_str(text)
}

fn is_right_paren(data: &TokenData) -> (closing: bool)
    ensures
        closing == (data@ is RightParen),
{
    match data {
        TokenData::RightParen => true,
        _ => false,
    }
}

fn is_period(data: &TokenData) -> (period: bool)
    ensures
        period == (data@ is Period),
{
    match data {
        TokenData::Period => true,
        _ => false,
    }
}

fn form_of(next: Option<&Token>) -> (form: Form)
    ensures
        form == grammar::form(
            match next {
                Some(token) => Some(token@),
                None => None,
            },
        ),
{
    match next {
        Some(token) => match &token.data {
            TokenData::Identifier(name) => if is_text(name, "lambda") {
                Form::Lambda
            } else if is_text(name, "quote") {
                Form::Quote
            } else if is_text(name, "define") {
                Form::Define
            } else if is_text(name, "set!") {
                Form::Assign
            } else if is_text(name, "import") {
                Form::Import
            } else if is_text(name, "if") {
                Form::Conditional
            } else {
                Form::Call
            },
            TokenData::RightParen => Form::Empty(token.location),
            _ => Form::Call,
        },
        None => Form::Call,
    }
}

fn import_form_of(name: &String) -> (form: Option<ImportForm>)
    ensures
        form == grammar::import_form(name@),
{
    if is_text(name, "only") {
        Some(ImportForm::Only)
    } else if is_text(name, "except") {
        Some(ImportForm::Except)
    } else if is_text(name, "prefix") {
        Some(ImportForm::Prefix)
    } else if is_text(name, "rename") {
        Some(ImportForm::Rename)
    } else {
        None
    }
}

fn as_statement(parsed: Result<Expression, SchemeError>) -> (statement: Result<
    Option<Statement>,
    SchemeError,
>)
    ensures
        statement_outcome(statement) == (match outcome_view(parsed) {
            Ok(expression) => Ok(Some(StatementView::Expression(expression))),
            Err(error) => Err(error),
        }),
{
    match parsed {
        Ok(expression) => Ok(Some(Statement::Expression(expression))),
        Err(error) => Err(error),
    }
}

/// Sorts the statements of a procedure body into its definitions and its
/// expressions; `location` is where an error is reported.
fn split_body(statements: Vec<Statement>, location: Location) -> (parts: Result<
    (Vec<Definition>, Vec<Expression>),
    SchemeError,
>)
    ensures
        match grammar::split_body(
            statements_view(statements@),
            BodyView { definitions: Seq::empty(), expressions: Seq::empty() },
            location,
        ) {
            Ok(body) => parts matches Ok((definitions, expressions)) && definitions_view(
                definitions@,
            ) == body.definitions && expressions_view(expressions@) == body.expressions,
            Err(error) => parts matches Err(found) && found@ == error,
        },
        parts matches Err(found) ==> found.category == ErrorType::Syntax,
{
    let ghost all = statements@;
    let ghost views = statements_view(all);
    let mut pending = reversed(statements);
    let mut definitions: Vec<Definition> = Vec::new();
    let mut expressions: Vec<Expression> = Vec::new();
    assert(definitions_view(definitions@) =~= Seq::empty());
    assert(expressions_view(expressions@) =~= Seq::empty());
    assert(views.skip(0) =~= views);
    while pending.len() > 0
        invariant
            all == statements@,
            views == statements_view(all),
            pending@.len() <= all.len(),
            pending@ == all.reverse().take(pending@.len() as int),
            grammar::split_body(
                views,
                BodyView { definitions: Seq::empty(), expressions: Seq::empty() },
                location,
            ) == grammar::split_body(
                views.skip(all.len() - pending@.len()),
                BodyView {
                    definitions: definitions_view(definitions@),
                    expressions: expressions_view(expressions@),
                },
                location,
            ),
        decreases pending@.len(),
    {
        let ghost done = all.len() - pending@.len();
        let ghost found = BodyView {
            definitions: definitions_view(definitions@),
            expressions: expressions_view(expressions@),
        };
        let statement = pending.pop().unwrap();
        assert(statement == all[done]);
        assert(views.skip(done)[0] == statement@);
        assert(views.skip(done).skip(1) =~= views.skip(done + 1));
        match statement {
            Statement::Definition(definition) => {
                if expressions.len() == 0 {
                    assert(definitions_view(definitions@.push(definition)) =~= definitions_view(
                        definitions@,
                    ).push(definition@));
                    definitions.push(definition);
                } else {
                    return Err(SchemeError::syntax(location, "unexpect definition af expression"));
                }
            },
            Statement::Expression(expression) => {
                assert(expressions_view(expressions@.push(expression)) =~= expressions_view(
                    expressions@,
                ).push(expression@));
                expressions.push(expression);
            },
            Statement::ImportDeclaration(_) => {
                return Err(
                    SchemeError::syntax(
                        location,
                        "procedure body can only contains definition or expression",
                    ),
                );
            },
        }
    }
    if expressions.len() == 0 {
        Err(SchemeError::syntax(location, "no expression in procedure body"))
    } else {
        Ok((definitions, expressions))
    }
}

impl Parser {
    /// A parser that will read the items of `lexer`, from the first on.
    pub fn from_lexer(lexer: Vec<Result<Token, SchemeError>>) -> (parser: Parser)
        ensures
            parser@ == (ParserView {
                current: None,
                remaining: items_view(lexer@),
                location: None,
            }),
    {
        let ghost all = lexer@;
        let mut rest = lexer;
        let mut queue: VecDeque<Result<Token, SchemeError>> = VecDeque::new();
        while rest.len() > 0
            invariant
                rest@ + queue@ =~= all,
            decreases rest@.len(),
        {
            let ghost before = rest@;
            let ghost front = queue@;
            let item = rest.pop().unwrap();
            queue.push_front(item);
            assert(rest@ + queue@ =~= before + front) by {
                assert(before =~= rest@.push(item));
            }
        }
        assert(queue@ =~= all);
        Parser { current: None, lexer: queue, location: None }
    }

    /// Discards `count - 1` items and binds the one after them.
    fn advance(&mut self, count: usize) -> (bound: Result<(), SchemeError>)
        requires
            count >= 1,
        ensures
            agrees(unit_outcome(bound), final(self)@, grammar::advance(old(self)@, count as nat)),
            final(self).lexer@.len() <= old(self).lexer@.len(),
            orderly(old(self)@, bound, final(self)@),
            old(self).lexer@.len() > 0 ==> final(self).lexer@.len() < old(self).lexer@.len(),
    {
        let ghost before = self.lexer@;
        let mut skipped: usize = 1;
        while skipped < count
            invariant
                1 <= skipped <= count,
                before == old(self).lexer@,
                skipped - 1 <= before.len() ==> self.lexer@ == before.skip(skipped - 1),
                skipped - 1 > before.len() ==> self.lexer@.len() == 0,
                self.current == old(self).current,
                self.location == old(self).location,
            decreases count - skipped,
        {
            let _ = self.lexer.pop_front();
            proof {
                if skipped - 1 < before.len() {
                    assert(self.lexer@ =~= before.skip(skipped as int));
                }
            }
            skipped += 1;
        }
        let ghost queue = self.lexer@;
        match self.lexer.pop_front() {
            None => {
                self.current = None;
                self.location = None;
                assert(items_view(self.lexer@) =~= Seq::empty());
                assert(grammar::handed_on(old(self)@, self@));
                Ok(())
            },
            Some(Ok(token)) => {
                proof {
                    assert(queue == before.skip(count - 1));
                    assert(self.lexer@ =~= before.skip(count as int));
                    lemma_items_skip(before, count as int);
                    lemma_rest_is_handed_on(before, count as int);
                    assert(items_view(before)[count - 1] == item_view(before[count - 1]));
                }
                self.location = token.location;
                self.current = Some(token);
                Ok(())
            },
            Some(Err(error)) => {
                proof {
                    assert(queue == before.skip(count - 1));
                    assert(self.lexer@ =~= before.skip(count as int));
                    lemma_rest_is_handed_on(before, count as int);
                    assert(items_view(before)[count - 1] == item_view(before[count - 1]));
                    assert(grammar::delivered(items_view(before), error@));
                }
                Err(error)
            },
        }
    }

    /// The next token, without reading it.
    fn peek_next_token(&self) -> (next: Result<Option<&Token>, SchemeError>)
        ensures
            peeked_view(next) == grammar::peek(self@),
            next matches Err(error) ==> grammar::delivered(self@.remaining, error@),
    {
        if self.lexer.len() == 0 {
            Ok(None)
        } else {
            assert(items_view(self.lexer@)[0] == item_view(self.lexer@[0]));
            match &self.lexer[0] {
                Ok(token) => Ok(Some(token)),
                Err(error) => Err(error.clone()),
            }
        }
    }

    /// The name that the current token holds.
    fn get_identifier(&self) -> (name: Result<String, SchemeError>)
        ensures
            name_outcome(name) == grammar::identifier(self@),
    {
        match &self.current {
            Some(token) => match &token.data {
                TokenData::Identifier(name) => Ok(name.clone()),
                _ => Err(SchemeError::syntax(self.location, "expect an identifier")),
            },
            None => Err(
                SchemeError::syntax(
                    self.location,
                    "expect an identifier while encountered end of input",
                ),
            ),
        }
    }

    /// Whether the current token is a closing parenthesis.
    fn at_closing(&self) -> (closing: bool)
        ensures
            closing == grammar::at_closing(self@),
    {
        match &self.current {
            Some(token) => is_right_paren(&token.data),
            None => false,
        }
    }

    /// Binds the next token and reads the statement that it starts.
    /// Gives `None` at the end of the input.
    pub fn parse(&mut self) -> (statement: Result<Option<Statement>, SchemeError>)
        ensures
            agrees(statement_outcome(statement), final(self)@, grammar::parse(old(self)@)),
            final(self).lexer@.len() <= old(self).lexer@.len(),
            orderly(old(self)@, statement, final(self)@),
            old(self).lexer@.len() > 0 ==> final(self).lexer@.len() < old(self).lexer@.len(),
        decreases old(self).lexer@.len(), 1int,
    {
        match self.advance(1) {
            Err(error) => Err(error),
            Ok(()) => if self.current.is_none() {
                Ok(None)
            } else {
                self.parse_current()
            },
        }
    }

    /// The next statement of the stream: `None` at the end of the input,
    /// and an error in the place of a statement that cannot be read.
    pub fn next(&mut self) -> (item: Option<Result<Statement, SchemeError>>)
        ensures
            agrees(
                statement_outcome(
                    match item {
                        Some(Ok(statement)) => Ok(Some(statement)),
                        Some(Err(error)) => Err(error),
                        None => Ok(None),
                    },
                ),
                final(self)@,
                grammar::parse(old(self)@),
            ),
            final(self).lexer@.len() <= old(self).lexer@.len(),
            grammar::handed_on(old(self)@, final(self)@),
            item matches Some(Err(error)) ==> error.category == ErrorType::Syntax
                || grammar::delivered(old(self)@.remaining, error@),
    {
        match self.parse() {
            Ok(Some(statement)) => Some(Ok(statement)),
            Ok(None) => None,
            Err(error) => Some(Err(error)),
        }
    }

    /// All the statements from the next token to the end of the input, or
    /// the first error.
    pub fn parse_all(&mut self) -> (statements: Result<Vec<Statement>, SchemeError>)
        ensures
            agrees(
                statements_outcome(statements),
                final(self)@,
                grammar::statements(old(self)@, Seq::empty()),
            ),
            final(self).lexer@.len() <= old(self).lexer@.len(),
            orderly(old(self)@, statements, final(self)@),
    {
        let ghost start = self@;
        let ghost length = self.lexer@.len();
        let mut statements: Vec<Statement> = Vec::new();
        assert(statements_view(statements@) =~= Seq::empty());
        loop
            invariant
                grammar::statements(start, Seq::empty()) == grammar::statements(
                    self@,
                    statements_view(statements@),
                ),
                start == old(self)@,
                grammar::handed_on(old(self)@, self@),
                self.lexer@.len() <= length,
                length == old(self).lexer@.len(),
            decreases self.lexer@.len(),
        {
            if self.lexer.len() == 0 {
                match self.advance(1) {
                    Err(error) => {
                        return Err(error);
                    },
                    Ok(()) => {
                        return Ok(statements);
                    },
                }
            }
            let statement = match self.parse() {
                Err(error) => {
                    return Err(error);
                },
                Ok(None) => {
                    return Ok(statements);
                },
                Ok(Some(statement)) => statement,
            };
            assert(statements_view(statements@.push(statement)) =~= statements_view(
                statements@,
            ).push(statement@));
            statements.push(statement);
        }
    }

    /// As [`Parser::parse`], with the position at which the statement
    /// ended.
    pub fn parse_root(&mut self) -> (statement: Result<Option<(Statement, Location)>, SchemeError>)
        ensures
            agrees(root_outcome(statement), final(self)@, grammar::parse_root(old(self)@)),
            final(self).lexer@.len() <= old(self).lexer@.len(),
            orderly(old(self)@, statement, final(self)@),
    {
        match self.parse() {
            Err(error) => Err(error),
            Ok(Some(statement)) => Ok(Some((statement, self.location))),
            Ok(None) => Ok(None),
        }
    }

    /// Reads the statement that the current token starts. Gives `None`
    /// where no token is bound.
    pub fn parse_current(&mut self) -> (statement: Result<Option<Statement>, SchemeError>)
        ensures
            agrees(statement_outcome(statement), final(self)@, grammar::parse_current(old(self)@)),
            final(self).lexer@.len() <= old(self).lexer@.len(),
            orderly(old(self)@, statement, final(self)@),
        decreases old(self).lexer@.len(), 7int,
    {
        match self.current.take() {
            None => Ok(None),
            Some(token) => {
                let Located { data, location } = token;
                match data {
                    TokenData::Boolean(b) => Ok(
                        Some(
                            Statement::Expression(
                                Located { data: ExpressionBody::Boolean(b), location },
                            ),
                        ),
                    ),
                    TokenData::Integer(n) => Ok(
                        Some(
                            Statement::Expression(
                                Located { data: ExpressionBody::Integer(n), location },
                            ),
                        ),
                    ),
                    TokenData::Real(text) => Ok(
                        Some(
                            Statement::Expression(
                                Located { data: ExpressionBody::Real(text), location },
                            ),
                        ),
                    ),
                    TokenData::Rational(n, d) => Ok(
                        Some(
                            Statement::Expression(
                                Located { data: ExpressionBody::Rational(n, d), location },
                            ),
                        ),
                    ),
                    TokenData::Identifier(name) => Ok(
                        Some(
                            Statement::Expression(
                                Located { data: ExpressionBody::Identifier(name), location },
                            ),
                        ),
                    ),
                    TokenData::Character(c) => Ok(
                        Some(
                            Statement::Expression(
                                Located { data: ExpressionBody::Character(c), location },
                            ),
                        ),
                    ),
                    TokenData::String(text) => Ok(
                        Some(
                            Statement::Expression(
                                Located { data: ExpressionBody::String(text), location },
                            ),
                        ),
                    ),
                    TokenData::Period => Ok(
                        Some(Statement::Expression(Located { data: ExpressionBody::Period, location })),
                    ),
                    TokenData::RightParen => Err(
                        SchemeError::syntax(location, "Unmatched Parentheses!"),
                    ),
                    TokenData::VecConsIntro => as_statement(self.vector(location)),
                    TokenData::Quote => as_statement(self.quote_prefixed(location)),
                    TokenData::LeftParen => {
                        let form = match self.peek_next_token() {
                            Err(error) => {
                                return Err(error);
                            },
                            Ok(next) => form_of(next),
                        };
                        match form {
                            Form::Lambda => as_statement(self.lambda(location)),
                            Form::Quote => as_statement(self.quote_form(location)),
                            Form::Define => self.definition(location),
                            Form::Assign => as_statement(self.assignment(location)),
                            Form::Import => self.import_declaration(),
                            Form::Conditional => as_statement(self.condition(location)),
                            Form::Empty(closing) => Err(
                                SchemeError::syntax(closing, "empty procedure call"),
                            ),
                            Form::Call => as_statement(self.procedure_call(location)),
                        }
                    },
                }
            },
        }
    }

    /// Reads the statement that the current token starts, which must be
    /// an expression.
    pub fn parse_current_expression(&mut self) -> (expression: Result<Expression, SchemeError>)
        ensures
            agrees(
                outcome_view(expression),
                final(self)@,
                grammar::parse_current_expression(old(self)@),
            ),
            final(self).lexer@.len() <= old(self).lexer@.len(),
            orderly(old(self)@, expression, final(self)@),
        decreases old(self).lexer@.len(), 8int,
    {
        match self.parse_current() {
            Err(error) => Err(error),
            Ok(Some(Statement::Expression(expression))) => Ok(expression),
            Ok(_) => Err(SchemeError::syntax(self.location, "expect a expression here")),
        }
    }

    /// Reads the datum that the current token starts.
    fn datum(&mut self) -> (datum: Result<Expression, SchemeError>)
        ensures
            agrees(outcome_view(datum), final(self)@, grammar::datum(old(self)@)),
            final(self).lexer@.len() <= old(self).lexer@.len(),
            orderly(old(self)@, datum, final(self)@),
        decreases old(self).lexer@.len(), 9int,
    {
        let opener = match &self.current {
            None => {
                return Err(SchemeError::syntax(self.location, "expect a literal"));
            },
            Some(token) => match &token.data {
                TokenData::LeftParen => Some((true, token.location)),
                TokenData::VecConsIntro => Some((false, token.location)),
                _ => None,
            },
        };
        match opener {
            Some((true, location)) => match self.collect_data() {
                Err(error) => Err(error),
                Ok(items) => Ok(Located { data: ExpressionBody::List(items), location }),
            },
            Some((false, location)) => self.vector(location),
            None => self.parse_current_expression(),
        }
    }

    /// The data from the next token up to the closing parenthesis.
    fn collect_data(&mut self) -> (items: Result<Vec<Expression>, SchemeError>)
        ensures
            agrees(
                expressions_outcome(items),
                final(self)@,
                grammar::collect_data(old(self)@, Seq::empty()),
            ),
            final(self).lexer@.len() <= old(self).lexer@.len(),
            orderly(old(self)@, items, final(self)@),
        decreases old(self).lexer@.len(), 2int,
    {
        let ghost start = self@;
        let ghost length = self.lexer@.len();
        let mut items: Vec<Expression> = Vec::new();
        assert(expressions_view(items@) =~= Seq::empty());
        loop
            invariant
                grammar::collect_data(start, Seq::empty()) == grammar::collect_data(
                    self@,
                    expressions_view(items@),
                ),
                start == old(self)@,
                grammar::handed_on(old(self)@, self@),
                self.lexer@.len() <= length,
                length == old(self).lexer@.len(),
            decreases self.lexer@.len(),
        {
            let closing = match self.peek_next_token() {
                Err(error) => {
                    return Err(error);
                },
                Ok(None) => {
                    return Err(SchemeError::syntax(self.location, "unexpect end of input"));
                },
                Ok(Some(token)) => is_right_paren(&token.data),
            };
            match self.advance(1) {
                Err(error) => {
                    return Err(error);
                },
                Ok(()) => {},
            }
            if closing {
                return Ok(items);
            }
            let item = match self.datum() {
                Err(error) => {
                    return Err(error);
                },
                Ok(item) => item,
            };
            assert(expressions_view(items@.push(item)) =~= expressions_view(items@).push(item@));
            items.push(item);
        }
    }

    /// A vector literal: the data up to the closing parenthesis.
    fn vector(&mut self, opening: Location) -> (vector: Result<Expression, SchemeError>)
        ensures
            agrees(outcome_view(vector), final(self)@, grammar::vector(old(self)@, opening)),
            final(self).lexer@.len() <= old(self).lexer@.len(),
            orderly(old(self)@, vector, final(self)@),
        decreases old(self).lexer@.len(), 6int,
    {
        match self.collect_data() {
            Err(error) => Err(error),
            Ok(items) => Ok(Located { data: ExpressionBody::Vector(items), location: opening }),
        }
    }

    /// The quotation of the datum that the current token starts.
    fn quote(&mut self, opening: Location) -> (quoted: Result<Expression, SchemeError>)
        ensures
            agrees(outcome_view(quoted), final(self)@, grammar::quote(old(self)@, opening)),
            final(self).lexer@.len() <= old(self).lexer@.len(),
            orderly(old(self)@, quoted, final(self)@),
        decreases old(self).lexer@.len(), 10int,
    {
        match self.datum() {
            Err(error) => Err(error),
            Ok(inner) => Ok(
                Located { data: ExpressionBody::Quote(Box::new(inner)), location: opening },
            ),
        }
    }

    /// `'` and the datum after it.
    fn quote_prefixed(&mut self, opening: Location) -> (quoted: Result<Expression, SchemeError>)
        ensures
            agrees(outcome_view(quoted), final(self)@, grammar::quote_prefixed(old(self)@, opening)),
            final(self).lexer@.len() <= old(self).lexer@.len(),
            orderly(old(self)@, quoted, final(self)@),
        decreases old(self).lexer@.len(), 6int,
    {
        match self.advance(1) {
            Err(error) => Err(error),
            Ok(()) => if self.current.is_none() {
                Err(SchemeError::syntax(self.location, "expect a literal"))
            } else {
                self.quote(opening)
            },
        }
    }

    /// `(quote datum)`, from behind the opening parenthesis.
    fn quote_form(&mut self, opening: Location) -> (quoted: Result<Expression, SchemeError>)
        ensures
            agrees(outcome_view(quoted), final(self)@, grammar::quote_form(old(self)@, opening)),
            final(self).lexer@.len() <= old(self).lexer@.len(),
            orderly(old(self)@, quoted, final(self)@),
        decreases old(self).lexer@.len(), 6int,
    {
        match self.advance(2) {
            Err(error) => {
                return Err(error);
            },
            Ok(()) => {},
        }
        if self.current.is_none() {
            return Err(SchemeError::syntax(self.location, "expect a literal"));
        }
        let quoted = match self.quote(opening) {
            Err(error) => {
                return Err(error);
            },
            Ok(quoted) => quoted,
        };
        match self.advance(1) {
            Err(error) => {
                return Err(error);
            },
            Ok(()) => {},
        }
        if self.at_closing() {
            self.current = None;
            Ok(quoted)
        } else if self.current.is_none() {
            Err(SchemeError::syntax(self.location, "unclosed quotation!"))
        } else {
            Err(SchemeError::syntax(self.location, "expect ) after the quoted datum"))
        }
    }

    /// `(lambda formals body...)`, from behind the opening parenthesis.
    fn lambda(&mut self, opening: Location) -> (procedure: Result<Expression, SchemeError>)
        ensures
            agrees(outcome_view(procedure), final(self)@, grammar::lambda(old(self)@, opening)),
            final(self).lexer@.len() <= old(self).lexer@.len(),
            orderly(old(self)@, procedure, final(self)@),
        decreases old(self).lexer@.len(), 6int,
    {
        match self.advance(2) {
            Err(error) => {
                return Err(error);
            },
            Ok(()) => {},
        }
        match self.current.take() {
            Some(Located { data: TokenData::Identifier(name), .. }) => {
                let formals = ParameterFormals(Vec::new(), Some(name));
                assert(formals@.fixed =~= Seq::empty());
                self.procedure_body(formals, opening)
            },
            Some(Located { data: TokenData::LeftParen, .. }) => {
                let formals = match self.procedure_formals() {
                    Err(error) => {
                        return Err(error);
                    },
                    Ok(formals) => formals,
                };
                self.procedure_body(formals, opening)
            },
            _ => Err(SchemeError::syntax(opening, "expect formal identifiers")),
        }
    }

    /// The formals from the next token up to the closing parenthesis.
    fn procedure_formals(&mut self) -> (formals: Result<ParameterFormals, SchemeError>)
        ensures
            agrees(
                outcome_view(formals),
                final(self)@,
                grammar::procedure_formals(old(self)@, Seq::empty()),
            ),
            final(self).lexer@.len() <= old(self).lexer@.len(),
            orderly(old(self)@, formals, final(self)@),
    {
        let ghost start = self@;
        let ghost length = self.lexer@.len();
        let mut fixed: Vec<String> = Vec::new();
        assert(names_view(fixed@) =~= Seq::empty());
        loop
            invariant
                grammar::procedure_formals(start, Seq::empty()) == grammar::procedure_formals(
                    self@,
                    names_view(fixed@),
                ),
                start == old(self)@,
                grammar::handed_on(old(self)@, self@),
                self.lexer@.len() <= length,
                length == old(self).lexer@.len(),
            decreases self.lexer@.len(),
        {
            let (closing, period) = match self.peek_next_token() {
                Err(error) => {
                    return Err(error);
                },
                Ok(None) => {
                    return Err(SchemeError::syntax(self.location, "unexpect end of input"));
                },
                Ok(Some(token)) => (is_right_paren(&token.data), is_period(&token.data)),
            };
            if closing {
                match self.advance(1) {
                    Err(error) => {
                        return Err(error);
                    },
                    Ok(()) => {
                        return Ok(ParameterFormals(fixed, None));
                    },
                }
            }
            if period {
                if fixed.len() == 0 {
                    return Err(
                        SchemeError::syntax(
                            self.location,
                            "must provide at least normal parameter before variadic parameter",
                        ),
                    );
                }
                return self.variadic_formals(fixed);
            }
            match self.advance(1) {
                Err(error) => {
                    return Err(error);
                },
                Ok(()) => {},
            }
            let name = match self.get_identifier() {
                Err(error) => {
                    return Err(error);
                },
                Ok(name) => name,
            };
            assert(names_view(fixed@.push(name)) =~= names_view(fixed@).push(name@));
            fixed.push(name);
        }
    }

    /// `. name )` at the end of formals whose fixed parameters are `fixed`.
    fn variadic_formals(&mut self, fixed: Vec<String>) -> (formals: Result<
        ParameterFormals,
        SchemeError,
    >)
        ensures
            agrees(
                outcome_view(formals),
                final(self)@,
                grammar::variadic_formals(old(self)@, names_view(fixed@)),
            ),
            final(self).lexer@.len() <= old(self).lexer@.len(),
            orderly(old(self)@, formals, final(self)@),
    {
        match self.advance(2) {
            Err(error) => {
                return Err(error);
            },
            Ok(()) => {},
        }
        let name = match self.get_identifier() {
            Err(error) => {
                return Err(error);
            },
            Ok(name) => name,
        };
        match self.advance(1) {
            Err(error) => {
                return Err(error);
            },
            Ok(()) => {},
        }
        if self.at_closing() {
            Ok(ParameterFormals(fixed, Some(name)))
        } else {
            Err(SchemeError::syntax(self.location, "expect ) after the variadic parameter"))
        }
    }

    /// The statements from the next token up to the closing parenthesis.
    fn collect_statements(&mut self) -> (statements: Result<Vec<Statement>, SchemeError>)
        ensures
            agrees(
                statements_outcome(statements),
                final(self)@,
                grammar::collect_statements(old(self)@, Seq::empty()),
            ),
            final(self).lexer@.len() <= old(self).lexer@.len(),
            orderly(old(self)@, statements, final(self)@),
        decreases old(self).lexer@.len(), 2int,
    {
        let ghost start = self@;
        let ghost length = self.lexer@.len();
        let mut statements: Vec<Statement> = Vec::new();
        assert(statements_view(statements@) =~= Seq::empty());
        loop
            invariant
                grammar::collect_statements(start, Seq::empty()) == grammar::collect_statements(
                    self@,
                    statements_view(statements@),
                ),
                start == old(self)@,
                grammar::handed_on(old(self)@, self@),
                self.lexer@.len() <= length,
                length == old(self).lexer@.len(),
            decreases self.lexer@.len(),
        {
            let closing = match self.peek_next_token() {
                Err(error) => {
                    return Err(error);
                },
                Ok(None) => {
                    return Err(SchemeError::syntax(self.location, "unexpect end of input"));
                },
                Ok(Some(token)) => is_right_paren(&token.data),
            };
            match self.advance(1) {
                Err(error) => {
                    return Err(error);
                },
                Ok(()) => {},
            }
            if closing {
                return Ok(statements);
            }
            let statement = match self.parse_current() {
                Err(error) => {
                    return Err(error);
                },
                Ok(None) => {
                    return Err(SchemeError::syntax(self.location, "lambda body empty"));
                },
                Ok(Some(statement)) => statement,
            };
            assert(statements_view(statements@.push(statement)) =~= statements_view(
                statements@,
            ).push(statement@));
            statements.push(statement);
        }
    }

    /// The body of a procedure with the given formals, up to the closing
    /// parenthesis.
    fn procedure_body(&mut self, formals: ParameterFormals, opening: Location) -> (procedure:
        Result<Expression, SchemeError>)
        ensures
            agrees(
                outcome_view(procedure),
                final(self)@,
                grammar::procedure_body(old(self)@, formals@, opening),
            ),
            final(self).lexer@.len() <= old(self).lexer@.len(),
            orderly(old(self)@, procedure, final(self)@),
        decreases old(self).lexer@.len(), 4int,
    {
        let statements = match self.collect_statements() {
            Err(error) => {
                return Err(error);
            },
            Ok(statements) => statements,
        };
        match split_body(statements, self.location) {
            Err(error) => Err(error),
            Ok((definitions, expressions)) => Ok(
                Located {
                    data: ExpressionBody::Procedure(
                        SchemeProcedure(formals, definitions, expressions),
                    ),
                    location: opening,
                },
            ),
        }
    }

    /// `(import set...)`, from behind the opening parenthesis.
    fn import_declaration(&mut self) -> (statement: Result<Option<Statement>, SchemeError>)
        ensures
            agrees(
                statement_outcome(statement),
                final(self)@,
                grammar::import_declaration(old(self)@),
            ),
            final(self).lexer@.len() <= old(self).lexer@.len(),
            orderly(old(self)@, statement, final(self)@),
        decreases old(self).lexer@.len(), 6int,
    {
        match self.advance(1) {
            Err(error) => {
                return Err(error);
            },
            Ok(()) => {},
        }
        match self.collect_import_sets() {
            Err(error) => Err(error),
            Ok(sets) => Ok(Some(Statement::ImportDeclaration(sets))),
        }
    }

    /// The import sets from the next token up to the closing parenthesis.
    fn collect_import_sets(&mut self) -> (sets: Result<Vec<ImportSet>, SchemeError>)
        ensures
            agrees(
                import_sets_outcome(sets),
                final(self)@,
                grammar::collect_import_sets(old(self)@, Seq::empty()),
            ),
            final(self).lexer@.len() <= old(self).lexer@.len(),
            orderly(old(self)@, sets, final(self)@),
        decreases old(self).lexer@.len(), 2int,
    {
        let ghost start = self@;
        let ghost length = self.lexer@.len();
        let mut sets: Vec<ImportSet> = Vec::new();
        assert(import_sets_view(sets@) =~= Seq::empty());
        loop
            invariant
                grammar::collect_import_sets(start, Seq::empty()) == grammar::collect_import_sets(
                    self@,
                    import_sets_view(sets@),
                ),
                start == old(self)@,
                grammar::handed_on(old(self)@, self@),
                self.lexer@.len() <= length,
                length == old(self).lexer@.len(),
            decreases self.lexer@.len(),
        {
            let closing = match self.peek_next_token() {
                Err(error) => {
                    return Err(error);
                },
                Ok(None) => {
                    return Err(SchemeError::syntax(self.location, "unexpect end of input"));
                },
                Ok(Some(token)) => is_right_paren(&token.data),
            };
            match self.advance(1) {
                Err(error) => {
                    return Err(error);
                },
                Ok(()) => {},
            }
            if closing {
                return Ok(sets);
            }
            let set = match self.import_set() {
                Err(error) => {
                    return Err(error);
                },
                Ok(set) => set,
            };
            assert(import_sets_view(sets@.push(set)) =~= import_sets_view(sets@).push(
                import_set_view(set),
            ));
            sets.push(set);
        }
    }

    /// The import set that the current token starts.
    fn import_set(&mut self) -> (set: Result<ImportSet, SchemeError>)
        ensures
            agrees(outcome_view(set), final(self)@, grammar::import_set(old(self)@)),
            final(self).lexer@.len() <= old(self).lexer@.len(),
            orderly(old(self)@, set, final(self)@),
        decreases old(self).lexer@.len(), 4int,
    {
        let entry = self.location;
        match self.current.take() {
            Some(Located { data: TokenData::Identifier(library), location }) => Ok(
                Located { data: ImportSetBody::Direct(library), location },
            ),
            Some(Located { data: TokenData::LeftParen, location }) => {
                match self.advance(1) {
                    Err(error) => {
                        return Err(error);
                    },
                    Ok(()) => {},
                }
                let kind = match self.current.take() {
                    Some(Located { data: TokenData::Identifier(keyword), .. }) => {
                        match import_form_of(&keyword) {
                            None => {
                                return Err(
                                    SchemeError::syntax(location, "import: expect sub import set"),
                                );
                            },
                            Some(kind) => kind,
                        }
                    },
                    _ => {
                        return Err(
                            SchemeError::syntax(
                                location,
                                "import: expect library name or sub import sets",
                            ),
                        );
                    },
                };
                match self.advance(1) {
                    Err(error) => {
                        return Err(error);
                    },
                    Ok(()) => {},
                }
                let inner = match self.import_set() {
                    Err(error) => {
                        return Err(error);
                    },
                    Ok(inner) => inner,
                };
                self.import_detail(kind, inner, location)
            },
            _ => Err(SchemeError::syntax(entry, "expect an import set")),
        }
    }

    /// What follows the inner set in an import set of the given kind.
    fn import_detail(&mut self, kind: ImportForm, inner: ImportSet, opening: Location) -> (set:
        Result<ImportSet, SchemeError>)
        ensures
            agrees(
                outcome_view(set),
                final(self)@,
                grammar::import_detail(old(self)@, kind, import_set_view(inner), opening),
            ),
            final(self).lexer@.len() <= old(self).lexer@.len(),
            orderly(old(self)@, set, final(self)@),
    {
        match kind {
            ImportForm::Only => match self.collect_identifiers() {
                Err(error) => Err(error),
                Ok(names) => Ok(
                    Located { data: ImportSetBody::Only(Box::new(inner), names), location: opening },
                ),
            },
            ImportForm::Except => match self.collect_identifiers() {
                Err(error) => Err(error),
                Ok(names) => Ok(
                    Located {
                        data: ImportSetBody::Except(Box::new(inner), names),
                        location: opening,
                    },
                ),
            },
            ImportForm::Prefix => {
                match self.advance(1) {
                    Err(error) => {
                        return Err(error);
                    },
                    Ok(()) => {},
                }
                let prefix = match self.current.take() {
                    Some(Located { data: TokenData::Identifier(prefix), .. }) => prefix,
                    _ => {
                        return Err(
                            SchemeError::syntax(opening, "expect a prefix name after import"),
                        );
                    },
                };
                match self.advance(1) {
                    Err(error) => {
                        return Err(error);
                    },
                    Ok(()) => {},
                }
                if self.at_closing() {
                    Ok(
                        Located {
                            data: ImportSetBody::Prefix(Box::new(inner), prefix),
                            location: opening,
                        },
                    )
                } else {
                    Err(SchemeError::syntax(self.location, "expect ) after the prefix name"))
                }
            },
            ImportForm::Rename => match self.collect_identifier_pairs() {
                Err(error) => Err(error),
                Ok(pairs) => Ok(
                    Located {
                        data: ImportSetBody::Rename(Box::new(inner), pairs),
                        location: opening,
                    },
                ),
            },
        }
    }

    /// The identifiers from the next token up to the closing parenthesis.
    fn collect_identifiers(&mut self) -> (names: Result<Vec<String>, SchemeError>)
        ensures
            agrees(
                names_outcome(names),
                final(self)@,
                grammar::collect_identifiers(old(self)@, Seq::empty()),
            ),
            final(self).lexer@.len() <= old(self).lexer@.len(),
            orderly(old(self)@, names, final(self)@),
    {
        let ghost start = self@;
        let ghost length = self.lexer@.len();
        let mut names: Vec<String> = Vec::new();
        assert(names_view(names@) =~= Seq::empty());
        loop
            invariant
                grammar::collect_identifiers(start, Seq::empty()) == grammar::collect_identifiers(
                    self@,
                    names_view(names@),
                ),
                start == old(self)@,
                grammar::handed_on(old(self)@, self@),
                self.lexer@.len() <= length,
                length == old(self).lexer@.len(),
            decreases self.lexer@.len(),
        {
            let closing = match self.peek_next_token() {
                Err(error) => {
                    return Err(error);
                },
                Ok(None) => {
                    return Err(SchemeError::syntax(self.location, "unexpect end of input"));
                },
                Ok(Some(token)) => is_right_paren(&token.data),
            };
            match self.advance(1) {
                Err(error) => {
                    return Err(error);
                },
                Ok(()) => {},
            }
            if closing {
                return Ok(names);
            }
            let name = match self.get_identifier() {
                Err(error) => {
                    return Err(error);
                },
                Ok(name) => name,
            };
            assert(names_view(names@.push(name)) =~= names_view(names@).push(name@));
            names.push(name);
        }
    }

    /// The pair `(old new)` that the current token starts.
    fn get_identifier_pair(&mut self) -> (pair: Result<(String, String), SchemeError>)
        ensures
            agrees(pair_outcome(pair), final(self)@, grammar::identifier_pair(old(self)@)),
            final(self).lexer@.len() <= old(self).lexer@.len(),
            orderly(old(self)@, pair, final(self)@),
    {
        let location = self.location;
        let first = self.current.take();
        match self.advance(1) {
            Err(error) => {
                return Err(error);
            },
            Ok(()) => {},
        }
        let second = self.current.take();
        match self.advance(1) {
            Err(error) => {
                return Err(error);
            },
            Ok(()) => {},
        }
        let third = self.current.take();
        match self.advance(1) {
            Err(error) => {
                return Err(error);
            },
            Ok(()) => {},
        }
        let fourth = self.current.take();
        match (first, second, third, fourth) {
            (
                Some(Located { data: TokenData::LeftParen, .. }),
                Some(Located { data: TokenData::Identifier(old_name), .. }),
                Some(Located { data: TokenData::Identifier(new_name), .. }),
                Some(Located { data: TokenData::RightParen, .. }),
            ) => Ok((old_name, new_name)),
            _ => Err(SchemeError::syntax(location, "expect an identifier pair: (ident1, ident2)")),
        }
    }

    /// The pairs `(old new)` from the next token up to the closing
    /// parenthesis.
    fn collect_identifier_pairs(&mut self) -> (pairs: Result<Vec<(String, String)>, SchemeError>)
        ensures
            agrees(
                pairs_outcome(pairs),
                final(self)@,
                grammar::collect_identifier_pairs(old(self)@, Seq::empty()),
            ),
            final(self).lexer@.len() <= old(self).lexer@.len(),
            orderly(old(self)@, pairs, final(self)@),
    {
        let ghost start = self@;
        let ghost length = self.lexer@.len();
        let mut pairs: Vec<(String, String)> = Vec::new();
        assert(name_pairs_view(pairs@) =~= Seq::empty());
        loop
            invariant
                grammar::collect_identifier_pairs(start, Seq::empty())
                    == grammar::collect_identifier_pairs(self@, name_pairs_view(pairs@)),
                start == old(self)@,
                grammar::handed_on(old(self)@, self@),
                self.lexer@.len() <= length,
                length == old(self).lexer@.len(),
            decreases self.lexer@.len(),
        {
            let closing = match self.peek_next_token() {
                Err(error) => {
                    return Err(error);
                },
                Ok(None) => {
                    return Err(SchemeError::syntax(self.location, "unexpect end of input"));
                },
                Ok(Some(token)) => is_right_paren(&token.data),
            };
            match self.advance(1) {
                Err(error) => {
                    return Err(error);
                },
                Ok(()) => {},
            }
            if closing {
                return Ok(pairs);
            }
            let pair = match self.get_identifier_pair() {
                Err(error) => {
                    return Err(error);
                },
                Ok(pair) => pair,
            };
            assert(name_pairs_view(pairs@.push(pair)) =~= name_pairs_view(pairs@).push(
                (pair.0@, pair.1@),
            ));
            pairs.push(pair);
        }
    }

    /// `(if test consequent)` or `(if test consequent alternative)`, from
    /// behind the opening parenthesis.
    fn condition(&mut self, opening: Location) -> (conditional: Result<Expression, SchemeError>)
        ensures
            agrees(outcome_view(conditional), final(self)@, grammar::condition(old(self)@, opening)),
            final(self).lexer@.len() <= old(self).lexer@.len(),
            orderly(old(self)@, conditional, final(self)@),
        decreases old(self).lexer@.len(), 6int,
    {
        match self.advance(1) {
            Err(error) => {
                return Err(error);
            },
            Ok(()) => {},
        }
        let test = match self.parse() {
            Err(error) => {
                return Err(error);
            },
            Ok(test) => test,
        };
        let consequent = match self.parse() {
            Err(error) => {
                return Err(error);
            },
            Ok(consequent) => consequent,
        };
        let closing = match self.peek_next_token() {
            Err(error) => {
                return Err(error);
            },
            Ok(None) => None,
            Ok(Some(token)) => Some(is_right_paren(&token.data)),
        };
        match (test, consequent, closing) {
            (
                Some(Statement::Expression(test)),
                Some(Statement::Expression(consequent)),
                Some(closing),
            ) => {
                if closing {
                    match self.advance(1) {
                        Err(error) => Err(error),
                        Ok(()) => Ok(
                            Located {
                                data: ExpressionBody::Conditional(
                                    Box::new((test, consequent, None)),
                                ),
                                location: opening,
                            },
                        ),
                    }
                } else {
                    self.alternative(test, consequent, opening)
                }
            },
            _ => Err(SchemeError::syntax(self.location, "conditional syntax error")),
        }
    }

    /// The alternative of a conditional and its closing parenthesis.
    fn alternative(&mut self, test: Expression, consequent: Expression, opening: Location) -> (conditional:
        Result<Expression, SchemeError>)
        ensures
            agrees(
                outcome_view(conditional),
                final(self)@,
                grammar::alternative(old(self)@, test@, consequent@, opening),
            ),
            final(self).lexer@.len() <= old(self).lexer@.len(),
            orderly(old(self)@, conditional, final(self)@),
        decreases old(self).lexer@.len(), 5int,
    {
        let alternative = match self.parse() {
            Err(error) => {
                return Err(error);
            },
            Ok(Some(Statement::Expression(alternative))) => alternative,
            Ok(_) => {
                return Err(SchemeError::syntax(self.location, "expect condition alternatives"));
            },
        };
        match self.advance(1) {
            Err(error) => {
                return Err(error);
            },
            Ok(()) => {},
        }
        if self.at_closing() {
            Ok(
                Located {
                    data: ExpressionBody::Conditional(
                        Box::new((test, consequent, Some(alternative))),
                    ),
                    location: opening,
                },
            )
        } else {
            Err(SchemeError::syntax(self.location, "expect ) after condition alternatives"))
        }
    }

    /// What `define` and `set!` bind: a name and the expression for its
    /// value.
    fn binding(&mut self, opening: Location, complaint: &str) -> (bound: Result<
        (String, Expression),
        SchemeError,
    >)
        ensures
            agrees(
                binding_outcome(bound),
                final(self)@,
                grammar::binding(old(self)@, opening, complaint@),
            ),
            final(self).lexer@.len() <= old(self).lexer@.len(),
            orderly(old(self)@, bound, final(self)@),
        decreases old(self).lexer@.len(), 5int,
    {
        match self.advance(2) {
            Err(error) => {
                return Err(error);
            },
            Ok(()) => {},
        }
        match self.current.take() {
            Some(Located { data: TokenData::Identifier(name), .. }) => {
                let value = match self.parse() {
                    Err(error) => {
                        return Err(error);
                    },
                    Ok(value) => value,
                };
                match self.advance(1) {
                    Err(error) => {
                        return Err(error);
                    },
                    Ok(()) => {},
                }
                match value {
                    Some(Statement::Expression(expression)) => if self.at_closing() {
                        self.current = None;
                        Ok((name, expression))
                    } else {
                        Err(SchemeError::syntax(opening, complaint))
                    },
                    _ => Err(SchemeError::syntax(opening, complaint)),
                }
            },
            Some(Located { data: TokenData::LeftParen, location }) => {
                match self.advance(1) {
                    Err(error) => {
                        return Err(error);
                    },
                    Ok(()) => {},
                }
                let name = match self.current.take() {
                    Some(Located { data: TokenData::Identifier(name), .. }) => name,
                    _ => {
                        return Err(SchemeError::syntax(opening, complaint));
                    },
                };
                let formals = match self.shorthand_formals() {
                    Err(error) => {
                        return Err(error);
                    },
                    Ok(formals) => formals,
                };
                match self.procedure_body(formals, location) {
                    Err(error) => Err(error),
                    Ok(procedure) => Ok((name, procedure)),
                }
            },
            _ => Err(SchemeError::syntax(opening, complaint)),
        }
    }

    /// The formals behind the name in `(name formals...)`.
    fn shorthand_formals(&mut self) -> (formals: Result<ParameterFormals, SchemeError>)
        ensures
            agrees(outcome_view(formals), final(self)@, grammar::shorthand_formals(old(self)@)),
            final(self).lexer@.len() <= old(self).lexer@.len(),
            orderly(old(self)@, formals, final(self)@),
    {
        let period = match self.peek_next_token() {
            Err(error) => {
                return Err(error);
            },
            Ok(None) => false,
            Ok(Some(token)) => is_period(&token.data),
        };
        if period {
            let fixed: Vec<String> = Vec::new();
            assert(names_view(fixed@) =~= Seq::empty());
            self.variadic_formals(fixed)
        } else {
            self.procedure_formals()
        }
    }

    /// `(define ...)`, from behind the opening parenthesis.
    fn definition(&mut self, opening: Location) -> (statement: Result<
        Option<Statement>,
        SchemeError,
    >)
        ensures
            agrees(
                statement_outcome(statement),
                final(self)@,
                grammar::definition(old(self)@, opening),
            ),
            final(self).lexer@.len() <= old(self).lexer@.len(),
            orderly(old(self)@, statement, final(self)@),
        decreases old(self).lexer@.len(), 6int,
    {
        match self.binding(opening, "define: expect identifier and expression") {
            Err(error) => Err(error),
            Ok((name, value)) => Ok(
                Some(
                    Statement::Definition(
                        Located { data: DefinitionBody(name, value), location: opening },
                    ),
                ),
            ),
        }
    }

    /// `(set! ...)`, from behind the opening parenthesis.
    fn assignment(&mut self, opening: Location) -> (assignment: Result<Expression, SchemeError>)
        ensures
            agrees(outcome_view(assignment), final(self)@, grammar::assignment(old(self)@, opening)),
            final(self).lexer@.len() <= old(self).lexer@.len(),
            orderly(old(self)@, assignment, final(self)@),
        decreases old(self).lexer@.len(), 6int,
    {
        match self.binding(opening, "set!: expect identifier and expression") {
            Err(error) => Err(error),
            Ok((name, value)) => Ok(
                Located {
                    data: ExpressionBody::Assignment(name, Box::new(value)),
                    location: opening,
                },
            ),
        }
    }

    /// A procedure call, from behind the opening parenthesis.
    fn procedure_call(&mut self, opening: Location) -> (call: Result<Expression, SchemeError>)
        ensures
            agrees(outcome_view(call), final(self)@, grammar::procedure_call(old(self)@, opening)),
            final(self).lexer@.len() <= old(self).lexer@.len(),
            orderly(old(self)@, call, final(self)@),
        decreases old(self).lexer@.len(), 6int,
    {
        let operator = match self.parse() {
            Err(error) => {
                return Err(error);
            },
            Ok(Some(Statement::Expression(operator))) => operator,
            Ok(_) => {
                return Err(SchemeError::syntax(self.location, "operator should be an expression"));
            },
        };
        match self.call_arguments() {
            Err(error) => Err(error),
            Ok(arguments) => Ok(
                Located {
                    data: ExpressionBody::ProcedureCall(Box::new(operator), arguments),
                    location: opening,
                },
            ),
        }
    }

    /// The expressions from the next token up to the closing parenthesis.
    fn call_arguments(&mut self) -> (arguments: Result<Vec<Expression>, SchemeError>)
        ensures
            agrees(
                expressions_outcome(arguments),
                final(self)@,
                grammar::call_arguments(old(self)@, Seq::empty()),
            ),
            final(self).lexer@.len() <= old(self).lexer@.len(),
            orderly(old(self)@, arguments, final(self)@),
        decreases old(self).lexer@.len(), 2int,
    {
        let ghost start = self@;
        let ghost length = self.lexer@.len();
        let mut arguments: Vec<Expression> = Vec::new();
        assert(expressions_view(arguments@) =~= Seq::empty());
        loop
            invariant
                grammar::call_arguments(start, Seq::empty()) == grammar::call_arguments(
                    self@,
                    expressions_view(arguments@),
                ),
                start == old(self)@,
                grammar::handed_on(old(self)@, self@),
                self.lexer@.len() <= length,
                length == old(self).lexer@.len(),
            decreases self.lexer@.len(),
        {
            let closing = match self.peek_next_token() {
                Err(error) => {
                    return Err(error);
                },
                Ok(None) => {
                    return Err(SchemeError::syntax(self.location, "Unmatched Parentheses!"));
                },
                Ok(Some(token)) => is_right_paren(&token.data),
            };
            if closing {
                match self.advance(1) {
                    Err(error) => {
                        return Err(error);
                    },
                    Ok(()) => {
                        return Ok(arguments);
                    },
                }
            }
            let argument = match self.parse() {
                Err(error) => {
                    return Err(error);
                },
                Ok(Some(Statement::Expression(argument))) => argument,
                Ok(_) => {
                    return Err(SchemeError::syntax(self.location, "Unmatched Parentheses!"));
                },
            };
            assert(expressions_view(arguments@.push(argument)) =~= expressions_view(
                arguments@,
            ).push(argument@));
            arguments.push(argument);
        }
    }
}

/// A parser over tokens that a lexer delivered without error.
pub fn token_stream_to_parser(token_stream: Vec<Token>) -> (parser: Parser)
    ensures
        parser@ == (ParserView {
            current: None,
            remaining: sound_items(token_stream@),
            location: None,
        }),
        grammar::sound(parser@),
{
    let ghost all = token_stream@;
    let mut rest = token_stream;
    let mut queue: VecDeque<Result<Token, SchemeError>> = VecDeque::new();
    while rest.len() > 0
        invariant
            rest@.len() + queue@.len() == all.len(),
            rest@ == all.take(rest@.len() as int),
            forall|i: int|
                0 <= i < queue@.len() ==> #[trigger] queue@[i] == Ok::<Token, SchemeError>(
                    all[rest@.len() + i],
                ),
        decreases rest@.len(),
    {
        let token = rest.pop().unwrap();
        queue.push_front(Ok(token));
    }
    assert(items_view(queue@) =~= sound_items(all));
    Parser { current: None, lexer: queue, location: None }
}

} // verus!
