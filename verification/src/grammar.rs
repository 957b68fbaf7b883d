//! The grammar, as functions from a parser state to the form read and the
//! state that follows.
//!
//! A state holds the token most recently bound, the items the lexer has
//! yet to deliver, and the position of the token bound last. Each function
//! here reads one syntactic form from a state. It gives the form together
//! with the state after it, or the error at the first token that does not
//! fit. A node of the tree carries the position of the token that opens it.

use crate::ast::{
    DefinitionBodyView, DefinitionView, ExpressionBodyView, ExpressionView, ImportSetBodyView,
    ImportSetView, ParameterFormalsView, SchemeProcedureView, StatementView,
};
use crate::error::{syntax_error, ErrorView};
use crate::located::{Located, Location};
use crate::token::{TokenDataView, TokenView};
use vstd::prelude::*;

verus! {

/// What the lexer delivers: a token or its own error.
pub type ItemView = Result<TokenView, ErrorView>;

/// The state of a parser.
#[verifier::ext_equal]
pub struct ParserView {
    /// The token bound last, unless it has been used up.
    pub current: Option<TokenView>,
    /// The items not yet read, the next one first.
    pub remaining: Seq<ItemView>,
    /// The position of the token bound last.
    pub location: Location,
}

/// The outcome of reading a form: the form and the state after it, or the
/// error.
pub type Parsed<T> = Result<(T, ParserView), ErrorView>;

/// The special forms, and what else may follow an opening parenthesis.
#[derive(Clone, Copy, Debug, PartialEq, Eq)]
pub enum Form {
    Lambda,
    Quote,
    Define,
    Assign,
    Import,
    Conditional,
    /// A closing parenthesis follows at once; it stands at this position.
    Empty(Location),
    /// Anything else: a procedure call.
    Call,
}

/// The sub-forms of an import set.
#[derive(Clone, Copy, Debug, PartialEq, Eq)]
pub enum ImportForm {
    Only,
    Except,
    Prefix,
    Rename,
}

/// Whether `error` is among what the lexer delivers in `items`.
pub open spec fn delivered(items: Seq<ItemView>, error: ErrorView) -> bool {
    exists|i: int| 0 <= i < items.len() && #[trigger] items[i] == Err::<TokenView, ErrorView>(error)
}

/// Whether the lexer delivers tokens only, and no error of its own.
pub open spec fn sound(s: ParserView) -> bool {
    forall|error: ErrorView| !#[trigger] delivered(s.remaining, error)
}

/// Whether the lexer has no error in store after a reading that it had
/// not in store before it.
pub open spec fn handed_on(before: ParserView, after: ParserView) -> bool {
    forall|error: ErrorView| #[trigger]
        delivered(after.remaining, error) ==> delivered(before.remaining, error)
}

/// The state `s` once its current token has been used up.
pub open spec fn used(s: ParserView) -> ParserView {
    ParserView { current: None, remaining: s.remaining, location: s.location }
}

/// Discards `count - 1` items and binds the one after them. At the end of
/// the input no token is bound and there is no position. An error of the
/// lexer in the place of the token to bind is handed on.
pub open spec fn advance(s: ParserView, count: nat) -> Parsed<()> {
    if s.remaining.len() < count || count == 0 {
        Ok(((), ParserView { current: None, remaining: Seq::empty(), location: None }))
    } else {
        match s.remaining[count - 1] {
            Ok(token) => Ok(
                (
                    (),
                    ParserView {
                        current: Some(token),
                        remaining: s.remaining.skip(count as int),
                        location: token.location,
                    },
                ),
            ),
            Err(error) => Err(error),
        }
    }
}

/// The next token, without reading it; `None` at the end of the input.
pub open spec fn peek(s: ParserView) -> Result<Option<TokenView>, ErrorView> {
    if s.remaining.len() == 0 {
        Ok(None)
    } else {
        match s.remaining[0] {
            Ok(token) => Ok(Some(token)),
            Err(error) => Err(error),
        }
    }
}

/// Which form an opening parenthesis starts, given the token after it.
pub open spec fn form(next: Option<TokenView>) -> Form {
    match next {
        Some(token) => match token.data {
            TokenDataView::Identifier(name) => if name == "lambda"@ {
                Form::Lambda
            } else if name == "quote"@ {
                Form::Quote
            } else if name == "define"@ {
                Form::Define
            } else if name == "set!"@ {
                Form::Assign
            } else if name == "import"@ {
                Form::Import
            } else if name == "if"@ {
                Form::Conditional
            } else {
                Form::Call
            },
            TokenDataView::RightParen => Form::Empty(token.location),
            _ => Form::Call,
        },
        None => Form::Call,
    }
}

/// Which sub-form of an import set a keyword names, if any.
pub open spec fn import_form(name: Seq<char>) -> Option<ImportForm> {
    if name == "only"@ {
        Some(ImportForm::Only)
    } else if name == "except"@ {
        Some(ImportForm::Except)
    } else if name == "prefix"@ {
        Some(ImportForm::Prefix)
    } else if name == "rename"@ {
        Some(ImportForm::Rename)
    } else {
        None
    }
}

/// The name that the current token holds.
pub open spec fn identifier(s: ParserView) -> Result<Seq<char>, ErrorView> {
    match s.current {
        Some(token) => match token.data {
            TokenDataView::Identifier(name) => Ok(name),
            _ => Err(syntax_error(s.location, "expect an identifier"@)),
        },
        None => Err(
            syntax_error(s.location, "expect an identifier while encountered end of input"@),
        ),
    }
}

/// Whether the current token is a closing parenthesis.
pub open spec fn at_closing(s: ParserView) -> bool {
    s.current matches Some(token) && token.data is RightParen
}

/// The outcome `parsed`, unless it left more than `limit` items unread.
/// Reading never adds to the input, so where `limit` is the number of
/// items left before the reading, this is `parsed` itself; it is what makes
/// the grammar well-founded.
pub open spec fn bounded<T>(parsed: Parsed<T>, limit: int) -> Parsed<T> {
    match parsed {
        Ok((_, after)) => if after.remaining.len() <= limit {
            parsed
        } else {
            Err(syntax_error(after.location, "unexpect end of input"@))
        },
        Err(_) => parsed,
    }
}

/// An expression read as a statement.
pub open spec fn as_statement(parsed: Parsed<ExpressionView>) -> Parsed<Option<StatementView>> {
    match parsed {
        Ok((expression, after)) => Ok((Some(StatementView::Expression(expression)), after)),
        Err(error) => Err(error),
    }
}

/// Binds the next token and reads the statement that it starts; `None` at
/// the end of the input.
pub open spec fn parse(s: ParserView) -> Parsed<Option<StatementView>>
    decreases s.remaining.len(), 1int,
{
    match advance(s, 1) {
        Err(error) => Err(error),
        Ok((_, bound)) => if bound.current is None {
            Ok((None, bound))
        } else {
            parse_current(bound)
        },
    }
}

/// The statements `found`, then those from the next token to the end of
/// the input.
pub open spec fn statements(s: ParserView, found: Seq<StatementView>) -> Parsed<
    Seq<StatementView>,
>
    decreases s.remaining.len(),
{
    if s.remaining.len() == 0 {
        match advance(s, 1) {
            Err(error) => Err(error),
            Ok((_, end)) => Ok((found, end)),
        }
    } else {
        match bounded(parse(s), s.remaining.len() - 1) {
            Err(error) => Err(error),
            Ok((None, end)) => Ok((found, end)),
            Ok((Some(statement), after)) => statements(after, found.push(statement)),
        }
    }
}

/// As [`parse`], with the position at which the statement ended.
pub open spec fn parse_root(s: ParserView) -> Parsed<Option<(StatementView, Location)>> {
    match parse(s) {
        Err(error) => Err(error),
        Ok((Some(statement), after)) => Ok((Some((statement, after.location)), after)),
        Ok((None, after)) => Ok((None, after)),
    }
}

/// Reads the statement that the current token starts; `None` where no
/// token is bound.
pub open spec fn parse_current(s: ParserView) -> Parsed<Option<StatementView>>
    decreases s.remaining.len(), 7int,
{
    match s.current {
        None => Ok((None, s)),
        Some(token) => {
            let opening = token.location;
            let rest = used(s);
            match token.data {
                TokenDataView::Boolean(b) => literal(ExpressionBodyView::Boolean(b), opening, rest),
                TokenDataView::Integer(n) => literal(ExpressionBodyView::Integer(n), opening, rest),
                TokenDataView::Real(text) => literal(ExpressionBodyView::Real(text), opening, rest),
                TokenDataView::Rational(n, d) => literal(
                    ExpressionBodyView::Rational(n, d),
                    opening,
                    rest,
                ),
                TokenDataView::Identifier(name) => literal(
                    ExpressionBodyView::Identifier(name),
                    opening,
                    rest,
                ),
                TokenDataView::Character(c) => literal(
                    ExpressionBodyView::Character(c),
                    opening,
                    rest,
                ),
                TokenDataView::String(text) => literal(
                    ExpressionBodyView::String(text),
                    opening,
                    rest,
                ),
                TokenDataView::Period => literal(ExpressionBodyView::Period, opening, rest),
                TokenDataView::RightParen => Err(syntax_error(opening, "Unmatched Parentheses!"@)),
                TokenDataView::VecConsIntro => as_statement(vector(rest, opening)),
                TokenDataView::Quote => as_statement(quote_prefixed(rest, opening)),
                TokenDataView::LeftParen => match peek(rest) {
                    Err(error) => Err(error),
                    Ok(next) => match form(next) {
                        Form::Lambda => as_statement(lambda(rest, opening)),
                        Form::Quote => as_statement(quote_form(rest, opening)),
                        Form::Define => definition(rest, opening),
                        Form::Assign => as_statement(assignment(rest, opening)),
                        Form::Import => import_declaration(rest),
                        Form::Conditional => as_statement(condition(rest, opening)),
                        Form::Empty(closing) => Err(syntax_error(closing, "empty procedure call"@)),
                        Form::Call => as_statement(procedure_call(rest, opening)),
                    },
                },
            }
        }
    }
}

/// A token that is an expression by itself.
pub open spec fn literal(data: ExpressionBodyView, location: Location, after: ParserView) -> Parsed<
    Option<StatementView>,
> {
    Ok((Some(StatementView::Expression(Located { data, location })), after))
}

/// Reads the statement that the current token starts, which must be an
/// expression.
pub open spec fn parse_current_expression(s: ParserView) -> Parsed<ExpressionView>
    decreases s.remaining.len(), 8int,
{
    match parse_current(s) {
        Err(error) => Err(error),
        Ok((Some(StatementView::Expression(expression)), after)) => Ok((expression, after)),
        Ok((_, after)) => Err(syntax_error(after.location, "expect a expression here"@)),
    }
}

/// Reads the datum that the current token starts. Inside a datum a
/// parenthesis opens a list, and no identifier is a keyword.
pub open spec fn datum(s: ParserView) -> Parsed<ExpressionView>
    decreases s.remaining.len(), 9int,
{
    match s.current {
        None => Err(syntax_error(s.location, "expect a literal"@)),
        Some(token) => match token.data {
            TokenDataView::LeftParen => match collect_data(s, Seq::empty()) {
                Err(error) => Err(error),
                Ok((items, after)) => Ok(
                    (Located { data: ExpressionBodyView::List(items), location: token.location }, after),
                ),
            },
            TokenDataView::VecConsIntro => vector(s, token.location),
            _ => parse_current_expression(s),
        },
    }
}

/// The items `items`, then the data from the next token up to the closing
/// parenthesis, which is read too.
pub open spec fn collect_data(s: ParserView, items: Seq<ExpressionView>) -> Parsed<
    Seq<ExpressionView>,
>
    decreases s.remaining.len(), 2int,
{
    match peek(s) {
        Err(error) => Err(error),
        Ok(None) => Err(syntax_error(s.location, "unexpect end of input"@)),
        Ok(Some(next)) => match advance(s, 1) {
            Err(error) => Err(error),
            Ok((_, bound)) => if next.data is RightParen {
                Ok((items, bound))
            } else {
                match bounded(datum(bound), s.remaining.len() - 1) {
                    Err(error) => Err(error),
                    Ok((item, after)) => collect_data(after, items.push(item)),
                }
            },
        },
    }
}

/// A vector literal: the data up to the closing parenthesis.
pub open spec fn vector(s: ParserView, opening: Location) -> Parsed<ExpressionView>
    decreases s.remaining.len(), 6int,
{
    match collect_data(s, Seq::empty()) {
        Err(error) => Err(error),
        Ok((items, after)) => Ok(
            (Located { data: ExpressionBodyView::Vector(items), location: opening }, after),
        ),
    }
}

/// The quotation of the datum that the current token starts.
pub open spec fn quote(s: ParserView, opening: Location) -> Parsed<ExpressionView>
    decreases s.remaining.len(), 10int,
{
    match datum(s) {
        Err(error) => Err(error),
        Ok((inner, after)) => Ok(
            (Located { data: ExpressionBodyView::Quote(Box::new(inner)), location: opening }, after),
        ),
    }
}

/// `'` and the datum after it.
pub open spec fn quote_prefixed(s: ParserView, opening: Location) -> Parsed<ExpressionView>
    decreases s.remaining.len(), 6int,
{
    match advance(s, 1) {
        Err(error) => Err(error),
        Ok((_, bound)) => if bound.current is None {
            Err(syntax_error(bound.location, "expect a literal"@))
        } else {
            quote(bound, opening)
        },
    }
}

/// `(quote datum)`, from behind the opening parenthesis.
pub open spec fn quote_form(s: ParserView, opening: Location) -> Parsed<ExpressionView>
    decreases s.remaining.len(), 6int,
{
    match advance(s, 2) {
        Err(error) => Err(error),
        Ok((_, bound)) => if bound.current is None {
            Err(syntax_error(bound.location, "expect a literal"@))
        } else {
            match quote(bound, opening) {
                Err(error) => Err(error),
                Ok((quoted, after)) => match advance(after, 1) {
                    Err(error) => Err(error),
                    Ok((_, end)) => if at_closing(end) {
                        Ok((quoted, used(end)))
                    } else if end.current is None {
                        Err(syntax_error(end.location, "unclosed quotation!"@))
                    } else {
                        Err(syntax_error(end.location, "expect ) after the quoted datum"@))
                    },
                },
            }
        },
    }
}

/// `(lambda formals body...)`, from behind the opening parenthesis. The
/// formals are one identifier, which takes all arguments, or a list in
/// parentheses.
pub open spec fn lambda(s: ParserView, opening: Location) -> Parsed<ExpressionView>
    decreases s.remaining.len(), 6int,
{
    match advance(s, 2) {
        Err(error) => Err(error),
        Ok((_, bound)) => match bound.current {
            Some(token) => match token.data {
                TokenDataView::Identifier(name) => procedure_body(
                    used(bound),
                    ParameterFormalsView { fixed: Seq::empty(), variadic: Some(name) },
                    opening,
                ),
                TokenDataView::LeftParen => match bounded(
                    procedure_formals(used(bound), Seq::empty()),
                    bound.remaining.len() as int,
                ) {
                    Err(error) => Err(error),
                    Ok((formals, after)) => procedure_body(after, formals, opening),
                },
                _ => Err(syntax_error(opening, "expect formal identifiers"@)),
            },
            None => Err(syntax_error(opening, "expect formal identifiers"@)),
        },
    }
}

/// The fixed parameters `fixed`, then the formals from the next token up
/// to the closing parenthesis: identifiers and, after at least one of
/// them, `.` with the one identifier that takes the further arguments.
pub open spec fn procedure_formals(s: ParserView, fixed: Seq<Seq<char>>) -> Parsed<
    ParameterFormalsView,
>
    decreases s.remaining.len(), 3int,
{
    match peek(s) {
        Err(error) => Err(error),
        Ok(None) => Err(syntax_error(s.location, "unexpect end of input"@)),
        Ok(Some(next)) => match next.data {
            TokenDataView::RightParen => match advance(s, 1) {
                Err(error) => Err(error),
                Ok((_, bound)) => Ok((ParameterFormalsView { fixed, variadic: None }, bound)),
            },
            TokenDataView::Period => if fixed.len() == 0 {
                Err(
                    syntax_error(
                        s.location,
                        "must provide at least normal parameter before variadic parameter"@,
                    ),
                )
            } else {
                variadic_formals(s, fixed)
            },
            _ => match advance(s, 1) {
                Err(error) => Err(error),
                Ok((_, bound)) => match identifier(bound) {
                    Err(error) => Err(error),
                    Ok(name) => procedure_formals(bound, fixed.push(name)),
                },
            },
        },
    }
}

/// `. name )` at the end of formals whose fixed parameters are `fixed`.
pub open spec fn variadic_formals(s: ParserView, fixed: Seq<Seq<char>>) -> Parsed<
    ParameterFormalsView,
> {
    match advance(s, 2) {
        Err(error) => Err(error),
        Ok((_, bound)) => match identifier(bound) {
            Err(error) => Err(error),
            Ok(name) => match advance(bound, 1) {
                Err(error) => Err(error),
                Ok((_, end)) => if at_closing(end) {
                    Ok((ParameterFormalsView { fixed, variadic: Some(name) }, end))
                } else {
                    Err(syntax_error(end.location, "expect ) after the variadic parameter"@))
                },
            },
        },
    }
}

/// The statements `statements`, then those from the next token up to the
/// closing parenthesis, which is read too.
pub open spec fn collect_statements(s: ParserView, statements: Seq<StatementView>) -> Parsed<
    Seq<StatementView>,
>
    decreases s.remaining.len(), 2int,
{
    match peek(s) {
        Err(error) => Err(error),
        Ok(None) => Err(syntax_error(s.location, "unexpect end of input"@)),
        Ok(Some(next)) => match advance(s, 1) {
            Err(error) => Err(error),
            Ok((_, bound)) => if next.data is RightParen {
                Ok((statements, bound))
            } else {
                match bounded(parse_current(bound), s.remaining.len() - 1) {
                    Err(error) => Err(error),
                    Ok((None, after)) => Err(syntax_error(after.location, "lambda body empty"@)),
                    Ok((Some(statement), after)) => collect_statements(
                        after,
                        statements.push(statement),
                    ),
                }
            },
        },
    }
}

/// Parts of a procedure body: its definitions and its expressions.
pub struct BodyView {
    pub definitions: Seq<DefinitionView>,
    pub expressions: Seq<ExpressionView>,
}

/// Sorts the statements of a body, in order, behind the definitions and
/// expressions already found. A definition may not follow an expression,
/// nothing else may stand in a body, and there is at least one expression.
/// `location` is where an error is reported.
pub open spec fn split_body(
    statements: Seq<StatementView>,
    found: BodyView,
    location: Location,
) -> Result<BodyView, ErrorView>
    decreases statements.len(),
{
    if statements.len() == 0 {
        if found.expressions.len() == 0 {
            Err(syntax_error(location, "no expression in procedure body"@))
        } else {
            Ok(found)
        }
    } else {
        match statements[0] {
            StatementView::Definition(definition) => if found.expressions.len() == 0 {
                split_body(
                    statements.skip(1),
                    BodyView {
                        definitions: found.definitions.push(definition),
                        expressions: found.expressions,
                    },
                    location,
                )
            } else {
                Err(syntax_error(location, "unexpect definition af expression"@))
            },
            StatementView::Expression(expression) => split_body(
                statements.skip(1),
                BodyView {
                    definitions: found.definitions,
                    expressions: found.expressions.push(expression),
                },
                location,
            ),
            StatementView::ImportDeclaration(_) => Err(
                syntax_error(
                    location,
                    "procedure body can only contains definition or expression"@,
                ),
            ),
        }
    }
}

/// The body of a procedure with the given formals, up to the closing
/// parenthesis.
pub open spec fn procedure_body(
    s: ParserView,
    formals: ParameterFormalsView,
    opening: Location,
) -> Parsed<ExpressionView>
    decreases s.remaining.len(), 4int,
{
    match collect_statements(s, Seq::empty()) {
        Err(error) => Err(error),
        Ok((statements, after)) => match split_body(
            statements,
            BodyView { definitions: Seq::empty(), expressions: Seq::empty() },
            after.location,
        ) {
            Err(error) => Err(error),
            Ok(body) => Ok(
                (
                    Located {
                        data: ExpressionBodyView::Procedure(
                            SchemeProcedureView {
                                formals,
                                definitions: body.definitions,
                                expressions: body.expressions,
                            },
                        ),
                        location: opening,
                    },
                    after,
                ),
            ),
        },
    }
}

/// `(import set...)`, from behind the opening parenthesis.
pub open spec fn import_declaration(s: ParserView) -> Parsed<Option<StatementView>>
    decreases s.remaining.len(), 6int,
{
    match advance(s, 1) {
        Err(error) => Err(error),
        Ok((_, bound)) => match collect_import_sets(bound, Seq::empty()) {
            Err(error) => Err(error),
            Ok((sets, after)) => Ok((Some(StatementView::ImportDeclaration(sets)), after)),
        },
    }
}

/// The import sets `sets`, then those from the next token up to the
/// closing parenthesis, which is read too.
pub open spec fn collect_import_sets(s: ParserView, sets: Seq<ImportSetView>) -> Parsed<
    Seq<ImportSetView>,
>
    decreases s.remaining.len(), 2int,
{
    match peek(s) {
        Err(error) => Err(error),
        Ok(None) => Err(syntax_error(s.location, "unexpect end of input"@)),
        Ok(Some(next)) => match advance(s, 1) {
            Err(error) => Err(error),
            Ok((_, bound)) => if next.data is RightParen {
                Ok((sets, bound))
            } else {
                match bounded(import_set(bound), s.remaining.len() - 1) {
                    Err(error) => Err(error),
                    Ok((set, after)) => collect_import_sets(after, sets.push(set)),
                }
            },
        },
    }
}

/// The import set that the current token starts: the name of a library,
/// or `(only set name...)`, `(except set name...)`, `(prefix set name)`,
/// `(rename set (old new)...)`.
pub open spec fn import_set(s: ParserView) -> Parsed<ImportSetView>
    decreases s.remaining.len(), 4int,
{
    match s.current {
        Some(token) => match token.data {
            TokenDataView::Identifier(library) => Ok(
                (
                    Located { data: ImportSetBodyView::Direct(library), location: token.location },
                    used(s),
                ),
            ),
            TokenDataView::LeftParen => match advance(used(s), 1) {
                Err(error) => Err(error),
                Ok((_, bound)) => match bound.current {
                    Some(Located { data: TokenDataView::Identifier(keyword), .. }) => {
                        match import_form(keyword) {
                            None => Err(
                                syntax_error(token.location, "import: expect sub import set"@),
                            ),
                            Some(kind) => match advance(used(bound), 1) {
                                Err(error) => Err(error),
                                Ok((_, inside)) => match import_set(inside) {
                                    Err(error) => Err(error),
                                    Ok((inner, after)) => import_detail(
                                        after,
                                        kind,
                                        inner,
                                        token.location,
                                    ),
                                },
                            },
                        }
                    },
                    _ => Err(
                        syntax_error(
                            token.location,
                            "import: expect library name or sub import sets"@,
                        ),
                    ),
                },
            },
            _ => Err(syntax_error(s.location, "expect an import set"@)),
        },
        None => Err(syntax_error(s.location, "expect an import set"@)),
    }
}

/// What follows the inner set in an import set of the given kind, up to
/// the closing parenthesis.
pub open spec fn import_detail(
    s: ParserView,
    kind: ImportForm,
    inner: ImportSetView,
    opening: Location,
) -> Parsed<ImportSetView> {
    match kind {
        ImportForm::Only => match collect_identifiers(s, Seq::empty()) {
            Err(error) => Err(error),
            Ok((names, after)) => Ok(
                (
                    Located {
                        data: ImportSetBodyView::Only(Box::new(inner), names),
                        location: opening,
                    },
                    after,
                ),
            ),
        },
        ImportForm::Except => match collect_identifiers(s, Seq::empty()) {
            Err(error) => Err(error),
            Ok((names, after)) => Ok(
                (
                    Located {
                        data: ImportSetBodyView::Except(Box::new(inner), names),
                        location: opening,
                    },
                    after,
                ),
            ),
        },
        ImportForm::Prefix => match advance(s, 1) {
            Err(error) => Err(error),
            Ok((_, bound)) => match bound.current {
                Some(Located { data: TokenDataView::Identifier(prefix), .. }) => match advance(
                    used(bound),
                    1,
                ) {
                    Err(error) => Err(error),
                    Ok((_, end)) => if at_closing(end) {
                        Ok(
                            (
                                Located {
                                    data: ImportSetBodyView::Prefix(Box::new(inner), prefix),
                                    location: opening,
                                },
                                end,
                            ),
                        )
                    } else {
                        Err(syntax_error(end.location, "expect ) after the prefix name"@))
                    },
                },
                _ => Err(syntax_error(opening, "expect a prefix name after import"@)),
            },
        },
        ImportForm::Rename => match collect_identifier_pairs(s, Seq::empty()) {
            Err(error) => Err(error),
            Ok((pairs, after)) => Ok(
                (
                    Located {
                        data: ImportSetBodyView::Rename(Box::new(inner), pairs),
                        location: opening,
                    },
                    after,
                ),
            ),
        },
    }
}

/// The names `names`, then the identifiers from the next token up to the
/// closing parenthesis, which is read too.
pub open spec fn collect_identifiers(s: ParserView, names: Seq<Seq<char>>) -> Parsed<
    Seq<Seq<char>>,
>
    decreases s.remaining.len(),
{
    match peek(s) {
        Err(error) => Err(error),
        Ok(None) => Err(syntax_error(s.location, "unexpect end of input"@)),
        Ok(Some(next)) => match advance(s, 1) {
            Err(error) => Err(error),
            Ok((_, bound)) => if next.data is RightParen {
                Ok((names, bound))
            } else {
                match identifier(bound) {
                    Err(error) => Err(error),
                    Ok(name) => collect_identifiers(bound, names.push(name)),
                }
            },
        },
    }
}

/// The pair `(old new)` that the current token starts. All four tokens
/// are read before any is judged.
pub open spec fn identifier_pair(s: ParserView) -> Parsed<(Seq<char>, Seq<char>)> {
    match advance(used(s), 1) {
        Err(error) => Err(error),
        Ok((_, second)) => match advance(used(second), 1) {
            Err(error) => Err(error),
            Ok((_, third)) => match advance(used(third), 1) {
                Err(error) => Err(error),
                Ok((_, fourth)) => match (s.current, identifier(second), identifier(third)) {
                    (Some(first), Ok(old_name), Ok(new_name)) => if first.data is LeftParen
                        && at_closing(fourth) {
                        Ok(((old_name, new_name), used(fourth)))
                    } else {
                        Err(
                            syntax_error(
                                s.location,
                                "expect an identifier pair: (ident1, ident2)"@,
                            ),
                        )
                    },
                    _ => Err(
                        syntax_error(s.location, "expect an identifier pair: (ident1, ident2)"@),
                    ),
                },
            },
        },
    }
}

/// The pairs `pairs`, then the pairs `(old new)` from the next token up
/// to the closing parenthesis, which is read too.
pub open spec fn collect_identifier_pairs(
    s: ParserView,
    pairs: Seq<(Seq<char>, Seq<char>)>,
) -> Parsed<Seq<(Seq<char>, Seq<char>)>>
    decreases s.remaining.len(),
{
    match peek(s) {
        Err(error) => Err(error),
        Ok(None) => Err(syntax_error(s.location, "unexpect end of input"@)),
        Ok(Some(next)) => match advance(s, 1) {
            Err(error) => Err(error),
            Ok((_, bound)) => if next.data is RightParen {
                Ok((pairs, bound))
            } else {
                match identifier_pair(bound) {
                    Err(error) => Err(error),
                    Ok((pair, after)) => collect_identifier_pairs(after, pairs.push(pair)),
                }
            },
        },
    }
}

/// `(if test consequent)` or `(if test consequent alternative)`, from
/// behind the opening parenthesis.
pub open spec fn condition(s: ParserView, opening: Location) -> Parsed<ExpressionView>
    decreases s.remaining.len(), 6int,
{
    match advance(s, 1) {
        Err(error) => Err(error),
        Ok((_, bound)) => match bounded(parse(bound), bound.remaining.len() as int) {
            Err(error) => Err(error),
            Ok((test, after_test)) => match bounded(
                parse(after_test),
                after_test.remaining.len() as int,
            ) {
                Err(error) => Err(error),
                Ok((consequent, after_consequent)) => match peek(after_consequent) {
                    Err(error) => Err(error),
                    Ok(next) => match (test, consequent, next) {
                        (
                            Some(StatementView::Expression(test)),
                            Some(StatementView::Expression(consequent)),
                            Some(next),
                        ) => if next.data is RightParen {
                            match advance(after_consequent, 1) {
                                Err(error) => Err(error),
                                Ok((_, end)) => Ok(
                                    (
                                        Located {
                                            data: ExpressionBodyView::Conditional(
                                                Box::new(test),
                                                Box::new(consequent),
                                                None,
                                            ),
                                            location: opening,
                                        },
                                        end,
                                    ),
                                ),
                            }
                        } else {
                            alternative(after_consequent, test, consequent, opening)
                        },
                        _ => Err(
                            syntax_error(after_consequent.location, "conditional syntax error"@),
                        ),
                    },
                },
            },
        },
    }
}

/// The alternative of a conditional and its closing parenthesis.
pub open spec fn alternative(
    s: ParserView,
    test: ExpressionView,
    consequent: ExpressionView,
    opening: Location,
) -> Parsed<ExpressionView>
    decreases s.remaining.len(), 5int,
{
    match parse(s) {
        Err(error) => Err(error),
        Ok((Some(StatementView::Expression(alternative)), after)) => match advance(after, 1) {
            Err(error) => Err(error),
            Ok((_, end)) => if at_closing(end) {
                Ok(
                    (
                        Located {
                            data: ExpressionBodyView::Conditional(
                                Box::new(test),
                                Box::new(consequent),
                                Some(Box::new(alternative)),
                            ),
                            location: opening,
                        },
                        end,
                    ),
                )
            } else {
                Err(syntax_error(end.location, "expect ) after condition alternatives"@))
            },
        },
        Ok((_, after)) => Err(syntax_error(after.location, "expect condition alternatives"@)),
    }
}

/// What `define` and `set!` bind: a name and the expression for its value.
/// Either `name expression )`, or `(name formals...) body... )`, which
/// stands for the name and a procedure. In the second shape `.` may follow
/// the name at once.
pub open spec fn binding(s: ParserView, opening: Location, complaint: Seq<char>) -> Parsed<
    (Seq<char>, ExpressionView),
>
    decreases s.remaining.len(), 5int,
{
    match advance(s, 2) {
        Err(error) => Err(error),
        Ok((_, bound)) => match bound.current {
            Some(token) => match token.data {
                TokenDataView::Identifier(name) => match parse(used(bound)) {
                    Err(error) => Err(error),
                    Ok((value, after)) => match advance(after, 1) {
                        Err(error) => Err(error),
                        Ok((_, end)) => match value {
                            Some(StatementView::Expression(expression)) => if at_closing(end) {
                                Ok(((name, expression), used(end)))
                            } else {
                                Err(syntax_error(opening, complaint))
                            },
                            _ => Err(syntax_error(opening, complaint)),
                        },
                    },
                },
                TokenDataView::LeftParen => match advance(used(bound), 1) {
                    Err(error) => Err(error),
                    Ok((_, named)) => match named.current {
                        Some(Located { data: TokenDataView::Identifier(name), .. }) => {
                            match bounded(
                                shorthand_formals(used(named)),
                                named.remaining.len() as int,
                            ) {
                                Err(error) => Err(error),
                                Ok((formals, after)) => match procedure_body(
                                    after,
                                    formals,
                                    token.location,
                                ) {
                                    Err(error) => Err(error),
                                    Ok((procedure, end)) => Ok(((name, procedure), end)),
                                },
                            }
                        },
                        _ => Err(syntax_error(opening, complaint)),
                    },
                },
                _ => Err(syntax_error(opening, complaint)),
            },
            None => Err(syntax_error(opening, complaint)),
        },
    }
}

/// The formals behind the name in `(name formals...)`.
pub open spec fn shorthand_formals(s: ParserView) -> Parsed<ParameterFormalsView> {
    match peek(s) {
        Err(error) => Err(error),
        Ok(Some(Located { data: TokenDataView::Period, .. })) => variadic_formals(s, Seq::empty()),
        Ok(_) => procedure_formals(s, Seq::empty()),
    }
}

/// `(define ...)`, from behind the opening parenthesis.
pub open spec fn definition(s: ParserView, opening: Location) -> Parsed<Option<StatementView>>
    decreases s.remaining.len(), 6int,
{
    match binding(s, opening, "define: expect identifier and expression"@) {
        Err(error) => Err(error),
        Ok(((name, value), after)) => Ok(
            (
                Some(
                    StatementView::Definition(
                        Located { data: DefinitionBodyView { name, value }, location: opening },
                    ),
                ),
                after,
            ),
        ),
    }
}

/// `(set! ...)`, from behind the opening parenthesis.
pub open spec fn assignment(s: ParserView, opening: Location) -> Parsed<ExpressionView>
    decreases s.remaining.len(), 6int,
{
    match binding(s, opening, "set!: expect identifier and expression"@) {
        Err(error) => Err(error),
        Ok(((name, value), after)) => Ok(
            (
                Located {
                    data: ExpressionBodyView::Assignment(name, Box::new(value)),
                    location: opening,
                },
                after,
            ),
        ),
    }
}

/// A procedure call, from behind the opening parenthesis: the operator,
/// then the arguments up to the closing parenthesis.
pub open spec fn procedure_call(s: ParserView, opening: Location) -> Parsed<ExpressionView>
    decreases s.remaining.len(), 6int,
{
    match bounded(parse(s), s.remaining.len() as int) {
        Err(error) => Err(error),
        Ok((Some(StatementView::Expression(operator)), after)) => match call_arguments(
            after,
            Seq::empty(),
        ) {
            Err(error) => Err(error),
            Ok((arguments, end)) => Ok(
                (
                    Located {
                        data: ExpressionBodyView::ProcedureCall(Box::new(operator), arguments),
                        location: opening,
                    },
                    end,
                ),
            ),
        },
        Ok((_, after)) => Err(syntax_error(after.location, "operator should be an expression"@)),
    }
}

/// The arguments `arguments`, then the expressions from the next token up
/// to the closing parenthesis, which is read too.
pub open spec fn call_arguments(s: ParserView, arguments: Seq<ExpressionView>) -> Parsed<
    Seq<ExpressionView>,
>
    decreases s.remaining.len(), 2int,
{
    match peek(s) {
        Err(error) => Err(error),
        Ok(None) => Err(syntax_error(s.location, "Unmatched Parentheses!"@)),
        Ok(Some(next)) => if next.data is RightParen {
            match advance(s, 1) {
                Err(error) => Err(error),
                Ok((_, bound)) => Ok((arguments, bound)),
            }
        } else {
            match bounded(parse(s), s.remaining.len() - 1) {
                Err(error) => Err(error),
                Ok((Some(StatementView::Expression(argument)), after)) => call_arguments(
                    after,
                    arguments.push(argument),
                ),
                Ok((_, after)) => Err(syntax_error(after.location, "Unmatched Parentheses!"@)),
            }
        },
    }
}

/// Whether a reading left no more items unread than there were.
pub open spec fn never_grows<T>(s: ParserView, parsed: Parsed<T>) -> bool {
    parsed matches Ok((_, after)) ==> after.remaining.len() <= s.remaining.len()
}

/// Reading a statement never adds to the input, and it takes at least one
/// item where there is one; at the end of the input it gives `None`. So a
/// stream of statements ends, and [`bounded`], wherever the grammar
/// applies it, hands on what it is given.
pub proof fn lemma_parse_never_grows(s: ParserView)
    ensures
        never_grows(s, parse(s)),
        s.remaining.len() == 0 ==> parse(s) matches Ok((None, _)),
        parse(s) matches Ok((_, after)) ==> s.remaining.len() > 0 ==> after.remaining.len()
            < s.remaining.len(),
        bounded(parse(s), s.remaining.len() as int) == parse(s),
        s.remaining.len() > 0 ==> bounded(parse(s), s.remaining.len() - 1) == parse(s),
    decreases s.remaining.len(), 1int,
{
    match advance(s, 1) {
        Ok((_, bound)) => {
            if bound.current is Some {
                lemma_parse_current_never_grows(bound);
            }
        },
        Err(_) => {},
    }
}

/// Reading the statement at the current token never adds to the input.
pub proof fn lemma_parse_current_never_grows(s: ParserView)
    ensures
        never_grows(s, parse_current(s)),
    decreases s.remaining.len(), 7int,
{
    match s.current {
        None => {},
        Some(token) => {
            let opening = token.location;
            let rest = used(s);
            match token.data {
                TokenDataView::VecConsIntro => {
                    lemma_vector(rest, opening);
                },
                TokenDataView::Quote => {
                    lemma_quote_prefixed(rest, opening);
                },
                TokenDataView::LeftParen => match peek(rest) {
                    Err(_) => {},
                    Ok(next) => match form(next) {
                        Form::Lambda => {
                            lemma_lambda(rest, opening);
                        },
                        Form::Quote => {
                            lemma_quote_form(rest, opening);
                        },
                        Form::Define => {
                            lemma_binding(
                                rest,
                                opening,
                                "define: expect identifier and expression"@,
                            );
                        },
                        Form::Assign => {
                            lemma_binding(rest, opening, "set!: expect identifier and expression"@);
                        },
                        Form::Import => {
                            lemma_import_declaration(rest);
                        },
                        Form::Conditional => {
                            lemma_condition(rest, opening);
                        },
                        Form::Empty(_) => {},
                        Form::Call => {
                            lemma_procedure_call(rest, opening);
                        },
                    },
                },
                _ => {},
            }
        },
    }
}

/// Reading the expression at the current token never adds to the input.
pub proof fn lemma_parse_current_expression_never_grows(s: ParserView)
    ensures
        never_grows(s, parse_current_expression(s)),
    decreases s.remaining.len(), 8int,
{
    lemma_parse_current_never_grows(s);
}

/// Reading all statements never adds to the input.
pub proof fn lemma_statements_never_grow(s: ParserView, found: Seq<StatementView>)
    ensures
        never_grows(s, statements(s, found)),
    decreases s.remaining.len(),
{
    if s.remaining.len() > 0 {
        match bounded(parse(s), s.remaining.len() - 1) {
            Ok((Some(statement), after)) => {
                lemma_statements_never_grow(after, found.push(statement));
            },
            _ => {},
        }
    }
}

proof fn lemma_datum(s: ParserView)
    ensures
        never_grows(s, datum(s)),
    decreases s.remaining.len(), 9int,
{
    match s.current {
        None => {},
        Some(token) => match token.data {
            TokenDataView::LeftParen => {
                lemma_collect_data(s, Seq::empty());
            },
            TokenDataView::VecConsIntro => {
                lemma_vector(s, token.location);
            },
            _ => {
                lemma_parse_current_expression_never_grows(s);
            },
        },
    }
}

proof fn lemma_collect_data(s: ParserView, items: Seq<ExpressionView>)
    ensures
        never_grows(s, collect_data(s, items)),
    decreases s.remaining.len(), 2int,
{
    match peek(s) {
        Ok(Some(next)) => match advance(s, 1) {
            Ok((_, bound)) => {
                if !(next.data is RightParen) {
                    match bounded(datum(bound), s.remaining.len() - 1) {
                        Ok((item, after)) => {
                            lemma_collect_data(after, items.push(item));
                        },
                        Err(_) => {},
                    }
                }
            },
            Err(_) => {},
        },
        _ => {},
    }
}

proof fn lemma_vector(s: ParserView, opening: Location)
    ensures
        never_grows(s, vector(s, opening)),
    decreases s.remaining.len(), 6int,
{
    lemma_collect_data(s, Seq::empty());
}

proof fn lemma_quote(s: ParserView, opening: Location)
    ensures
        never_grows(s, quote(s, opening)),
    decreases s.remaining.len(), 10int,
{
    lemma_datum(s);
}

proof fn lemma_quote_prefixed(s: ParserView, opening: Location)
    ensures
        never_grows(s, quote_prefixed(s, opening)),
    decreases s.remaining.len(), 6int,
{
    match advance(s, 1) {
        Ok((_, bound)) => {
            if bound.current is Some {
                lemma_quote(bound, opening);
            }
        },
        Err(_) => {},
    }
}

proof fn lemma_quote_form(s: ParserView, opening: Location)
    ensures
        never_grows(s, quote_form(s, opening)),
    decreases s.remaining.len(), 6int,
{
    match advance(s, 2) {
        Ok((_, bound)) => {
            if bound.current is Some {
                lemma_quote(bound, opening);
            }
        },
        Err(_) => {},
    }
}

proof fn lemma_lambda(s: ParserView, opening: Location)
    ensures
        never_grows(s, lambda(s, opening)),
    decreases s.remaining.len(), 6int,
{
    match advance(s, 2) {
        Ok((_, bound)) => match bound.current {
            Some(token) => match token.data {
                TokenDataView::Identifier(name) => {
                    lemma_procedure_body(
                        used(bound),
                        ParameterFormalsView { fixed: Seq::empty(), variadic: Some(name) },
                        opening,
                    );
                },
                TokenDataView::LeftParen => match bounded(
                    procedure_formals(used(bound), Seq::empty()),
                    bound.remaining.len() as int,
                ) {
                    Ok((formals, after)) => {
                        lemma_procedure_body(after, formals, opening);
                    },
                    Err(_) => {},
                },
                _ => {},
            },
            None => {},
        },
        Err(_) => {},
    }
}

proof fn lemma_procedure_formals(s: ParserView, fixed: Seq<Seq<char>>)
    ensures
        never_grows(s, procedure_formals(s, fixed)),
    decreases s.remaining.len(), 3int,
{
    match peek(s) {
        Ok(Some(next)) => match next.data {
            TokenDataView::RightParen => {},
            TokenDataView::Period => {},
            _ => match advance(s, 1) {
                Ok((_, bound)) => match identifier(bound) {
                    Ok(name) => {
                        lemma_procedure_formals(bound, fixed.push(name));
                    },
                    Err(_) => {},
                },
                Err(_) => {},
            },
        },
        _ => {},
    }
}

proof fn lemma_collect_statements(s: ParserView, found: Seq<StatementView>)
    ensures
        never_grows(s, collect_statements(s, found)),
    decreases s.remaining.len(), 2int,
{
    match peek(s) {
        Ok(Some(next)) => match advance(s, 1) {
            Ok((_, bound)) => {
                if !(next.data is RightParen) {
                    match bounded(parse_current(bound), s.remaining.len() - 1) {
                        Ok((Some(statement), after)) => {
                            lemma_collect_statements(after, found.push(statement));
                        },
                        _ => {},
                    }
                }
            },
            Err(_) => {},
        },
        _ => {},
    }
}

proof fn lemma_procedure_body(s: ParserView, formals: ParameterFormalsView, opening: Location)
    ensures
        never_grows(s, procedure_body(s, formals, opening)),
    decreases s.remaining.len(), 4int,
{
    lemma_collect_statements(s, Seq::empty());
}

proof fn lemma_import_declaration(s: ParserView)
    ensures
        never_grows(s, import_declaration(s)),
    decreases s.remaining.len(), 6int,
{
    match advance(s, 1) {
        Ok((_, bound)) => {
            lemma_collect_import_sets(bound, Seq::empty());
        },
        Err(_) => {},
    }
}

proof fn lemma_collect_import_sets(s: ParserView, sets: Seq<ImportSetView>)
    ensures
        never_grows(s, collect_import_sets(s, sets)),
    decreases s.remaining.len(), 2int,
{
    match peek(s) {
        Ok(Some(next)) => match advance(s, 1) {
            Ok((_, bound)) => {
                if !(next.data is RightParen) {
                    match bounded(import_set(bound), s.remaining.len() - 1) {
                        Ok((set, after)) => {
                            lemma_collect_import_sets(after, sets.push(set));
                        },
                        Err(_) => {},
                    }
                }
            },
            Err(_) => {},
        },
        _ => {},
    }
}

proof fn lemma_import_set(s: ParserView)
    ensures
        never_grows(s, import_set(s)),
    decreases s.remaining.len(), 4int,
{
    match s.current {
        Some(token) => match token.data {
            TokenDataView::LeftParen => match advance(used(s), 1) {
                Ok((_, bound)) => match bound.current {
                    Some(Located { data: TokenDataView::Identifier(keyword), .. }) => {
                        match import_form(keyword) {
                            Some(kind) => match advance(used(bound), 1) {
                                Ok((_, inside)) => {
                                    lemma_import_set(inside);
                                    match import_set(inside) {
                                        Ok((inner, after)) => {
                                            lemma_import_detail(after, kind, inner, token.location);
                                        },
                                        Err(_) => {},
                                    }
                                },
                                Err(_) => {},
                            },
                            None => {},
                        }
                    },
                    _ => {},
                },
                Err(_) => {},
            },
            _ => {},
        },
        None => {},
    }
}

proof fn lemma_import_detail(
    s: ParserView,
    kind: ImportForm,
    inner: ImportSetView,
    opening: Location,
)
    ensures
        never_grows(s, import_detail(s, kind, inner, opening)),
{
    match kind {
        ImportForm::Only => {
            lemma_collect_identifiers(s, Seq::empty());
        },
        ImportForm::Except => {
            lemma_collect_identifiers(s, Seq::empty());
        },
        ImportForm::Prefix => {},
        ImportForm::Rename => {
            lemma_collect_identifier_pairs(s, Seq::empty());
        },
    }
}

proof fn lemma_collect_identifiers(s: ParserView, names: Seq<Seq<char>>)
    ensures
        never_grows(s, collect_identifiers(s, names)),
    decreases s.remaining.len(),
{
    match peek(s) {
        Ok(Some(next)) => match advance(s, 1) {
            Ok((_, bound)) => {
                if !(next.data is RightParen) {
                    match identifier(bound) {
                        Ok(name) => {
                            lemma_collect_identifiers(bound, names.push(name));
                        },
                        Err(_) => {},
                    }
                }
            },
            Err(_) => {},
        },
        _ => {},
    }
}

proof fn lemma_collect_identifier_pairs(s: ParserView, pairs: Seq<(Seq<char>, Seq<char>)>)
    ensures
        never_grows(s, collect_identifier_pairs(s, pairs)),
    decreases s.remaining.len(),
{
    match peek(s) {
        Ok(Some(next)) => match advance(s, 1) {
            Ok((_, bound)) => {
                if !(next.data is RightParen) {
                    match identifier_pair(bound) {
                        Ok((pair, after)) => {
                            lemma_collect_identifier_pairs(after, pairs.push(pair));
                        },
                        Err(_) => {},
                    }
                }
            },
            Err(_) => {},
        },
        _ => {},
    }
}

proof fn lemma_condition(s: ParserView, opening: Location)
    ensures
        never_grows(s, condition(s, opening)),
    decreases s.remaining.len(), 6int,
{
    match advance(s, 1) {
        Ok((_, bound)) => match bounded(parse(bound), bound.remaining.len() as int) {
            Ok((test, after_test)) => match bounded(
                parse(after_test),
                after_test.remaining.len() as int,
            ) {
                Ok((consequent, after_consequent)) => match (test, consequent) {
                    (
                        Some(StatementView::Expression(test)),
                        Some(StatementView::Expression(consequent)),
                    ) => {
                        lemma_alternative(after_consequent, test, consequent, opening);
                    },
                    _ => {},
                },
                Err(_) => {},
            },
            Err(_) => {},
        },
        Err(_) => {},
    }
}

proof fn lemma_alternative(
    s: ParserView,
    test: ExpressionView,
    consequent: ExpressionView,
    opening: Location,
)
    ensures
        never_grows(s, alternative(s, test, consequent, opening)),
    decreases s.remaining.len(), 5int,
{
    lemma_parse_never_grows(s);
}

proof fn lemma_binding(s: ParserView, opening: Location, complaint: Seq<char>)
    ensures
        never_grows(s, binding(s, opening, complaint)),
        never_grows(s, definition(s, opening)),
        never_grows(s, assignment(s, opening)),
    decreases s.remaining.len(), 5int,
{
    lemma_binding_only(s, opening, "define: expect identifier and expression"@);
    lemma_binding_only(s, opening, "set!: expect identifier and expression"@);
    lemma_binding_only(s, opening, complaint);
}

proof fn lemma_binding_only(s: ParserView, opening: Location, complaint: Seq<char>)
    ensures
        never_grows(s, binding(s, opening, complaint)),
    decreases s.remaining.len(), 4int,
{
    match advance(s, 2) {
        Ok((_, bound)) => match bound.current {
            Some(token) => match token.data {
                TokenDataView::Identifier(name) => {
                    lemma_parse_never_grows(used(bound));
                },
                TokenDataView::LeftParen => match advance(used(bound), 1) {
                    Ok((_, named)) => match bounded(
                        shorthand_formals(used(named)),
                        named.remaining.len() as int,
                    ) {
                        Ok((formals, after)) => {
                            lemma_procedure_body(after, formals, token.location);
                        },
                        Err(_) => {},
                    },
                    Err(_) => {},
                },
                _ => {},
            },
            None => {},
        },
        Err(_) => {},
    }
}

proof fn lemma_procedure_call(s: ParserView, opening: Location)
    ensures
        never_grows(s, procedure_call(s, opening)),
    decreases s.remaining.len(), 6int,
{
    match bounded(parse(s), s.remaining.len() as int) {
        Ok((Some(StatementView::Expression(operator)), after)) => {
            lemma_call_arguments(after, Seq::empty());
        },
        _ => {},
    }
}

proof fn lemma_call_arguments(s: ParserView, arguments: Seq<ExpressionView>)
    ensures
        never_grows(s, call_arguments(s, arguments)),
    decreases s.remaining.len(), 2int,
{
    match peek(s) {
        Ok(Some(next)) => {
            if !(next.data is RightParen) {
                match bounded(parse(s), s.remaining.len() - 1) {
                    Ok((Some(StatementView::Expression(argument)), after)) => {
                        lemma_call_arguments(after, arguments.push(argument));
                    },
                    _ => {},
                }
            }
        },
        _ => {},
    }
}

/// Whether every procedure in an expression has a body: at least one
/// expression behind its definitions.
pub open spec fn has_bodies(expression: ExpressionView) -> bool
    decreases expression,
{
    match expression.data {
        ExpressionBodyView::List(items) => all_have_bodies(items),
        ExpressionBodyView::Vector(items) => all_have_bodies(items),
        ExpressionBodyView::Assignment(_, value) => has_bodies(*value),
        ExpressionBodyView::Procedure(procedure) => procedure.expressions.len() > 0
            && all_have_bodies(procedure.expressions) && definitions_have_bodies(
            procedure.definitions,
        ),
        ExpressionBodyView::ProcedureCall(operator, arguments) => has_bodies(*operator)
            && all_have_bodies(arguments),
        ExpressionBodyView::Conditional(test, consequent, alternative) => has_bodies(*test)
            && has_bodies(*consequent) && (match alternative {
            Some(alternative) => has_bodies(*alternative),
            None => true,
        }),
        ExpressionBodyView::Quote(datum) => has_bodies(*datum),
        _ => true,
    }
}

pub open spec fn all_have_bodies(expressions: Seq<ExpressionView>) -> bool
    decreases expressions,
{
    forall|i: int| 0 <= i < expressions.len() ==> has_bodies(#[trigger] expressions[i])
}

pub open spec fn definitions_have_bodies(definitions: Seq<DefinitionView>) -> bool
    decreases definitions,
{
    forall|i: int| 0 <= i < definitions.len() ==> has_bodies((#[trigger] definitions[i]).data.value)
}

/// Whether every procedure in a statement has a body.
pub open spec fn statement_has_bodies(statement: StatementView) -> bool {
    match statement {
        StatementView::ImportDeclaration(_) => true,
        StatementView::Definition(definition) => has_bodies(definition.data.value),
        StatementView::Expression(expression) => has_bodies(expression),
    }
}

pub open spec fn statements_have_bodies(statements: Seq<StatementView>) -> bool {
    forall|i: int| 0 <= i < statements.len() ==> statement_has_bodies(#[trigger] statements[i])
}

/// Every procedure in a statement that was read has a body.
pub proof fn lemma_parse_gives_bodies(s: ParserView)
    ensures
        parse(s) matches Ok((Some(statement), _)) ==> statement_has_bodies(statement),
    decreases s.remaining.len(), 1int,
{
    match advance(s, 1) {
        Ok((_, bound)) => {
            if bound.current is Some {
                lemma_parse_current_gives_bodies(bound);
            }
        },
        Err(_) => {},
    }
}

/// Every procedure in a statement that was read from the current token
/// has a body.
pub proof fn lemma_parse_current_gives_bodies(s: ParserView)
    ensures
        parse_current(s) matches Ok((Some(statement), _)) ==> statement_has_bodies(statement),
    decreases s.remaining.len(), 7int,
{
    match s.current {
        None => {},
        Some(token) => {
            let opening = token.location;
            let rest = used(s);
            match token.data {
                TokenDataView::VecConsIntro => {
                    lemma_vector_bodies(rest, opening);
                },
                TokenDataView::Quote => {
                    lemma_quote_prefixed_bodies(rest, opening);
                },
                TokenDataView::LeftParen => match peek(rest) {
                    Err(_) => {},
                    Ok(next) => match form(next) {
                        Form::Lambda => {
                            lemma_lambda_bodies(rest, opening);
                        },
                        Form::Quote => {
                            lemma_quote_form_bodies(rest, opening);
                        },
                        Form::Define => {
                            lemma_binding_bodies(
                                rest,
                                opening,
                                "define: expect identifier and expression"@,
                            );
                        },
                        Form::Assign => {
                            lemma_binding_bodies(
                                rest,
                                opening,
                                "set!: expect identifier and expression"@,
                            );
                        },
                        Form::Import => {},
                        Form::Conditional => {
                            lemma_condition_bodies(rest, opening);
                        },
                        Form::Empty(_) => {},
                        Form::Call => {
                            lemma_procedure_call_bodies(rest, opening);
                        },
                    },
                },
                _ => {},
            }
        },
    }
}

/// Every procedure in the statements of a stream has a body.
pub proof fn lemma_statements_give_bodies(s: ParserView, found: Seq<StatementView>)
    requires
        statements_have_bodies(found),
    ensures
        statements(s, found) matches Ok((all, _)) ==> statements_have_bodies(all),
    decreases s.remaining.len(),
{
    if s.remaining.len() > 0 {
        lemma_parse_gives_bodies(s);
        match bounded(parse(s), s.remaining.len() - 1) {
            Ok((Some(statement), after)) => {
                lemma_statements_give_bodies(after, found.push(statement));
            },
            _ => {},
        }
    }
}

/// The definitions and then the expressions of a body, as statements.
pub open spec fn body_statements(body: BodyView) -> Seq<StatementView> {
    Seq::new(body.definitions.len(), |i: int| StatementView::Definition(body.definitions[i]))
        + Seq::new(body.expressions.len(), |i: int| StatementView::Expression(body.expressions[i]))
}

/// The body of a procedure holds its statements in their order, the
/// definitions first, and at least one expression.
pub proof fn lemma_split_body(statements: Seq<StatementView>, found: BodyView, location: Location)
    ensures
        split_body(statements, found, location) matches Ok(body) ==> body.expressions.len() > 0
            && body_statements(body) == body_statements(found) + statements,
    decreases statements.len(),
{
    if statements.len() > 0 {
        match statements[0] {
            StatementView::Definition(definition) => {
                if found.expressions.len() == 0 {
                    let next = BodyView {
                        definitions: found.definitions.push(definition),
                        expressions: found.expressions,
                    };
                    lemma_split_body(statements.skip(1), next, location);
                    assert(body_statements(next) + statements.skip(1) =~= body_statements(found)
                        + statements);
                }
            },
            StatementView::Expression(expression) => {
                let next = BodyView {
                    definitions: found.definitions,
                    expressions: found.expressions.push(expression),
                };
                lemma_split_body(statements.skip(1), next, location);
                assert(body_statements(next) + statements.skip(1) =~= body_statements(found)
                    + statements);
            },
            StatementView::ImportDeclaration(_) => {},
        }
    } else {
        assert(body_statements(found) + statements =~= body_statements(found));
    }
}

proof fn lemma_split_body_bodies(
    statements: Seq<StatementView>,
    found: BodyView,
    location: Location,
)
    requires
        statements_have_bodies(statements),
        definitions_have_bodies(found.definitions),
        all_have_bodies(found.expressions),
    ensures
        split_body(statements, found, location) matches Ok(body) ==> body.expressions.len() > 0
            && definitions_have_bodies(body.definitions) && all_have_bodies(body.expressions),
    decreases statements.len(),
{
    if statements.len() > 0 {
        assert(statement_has_bodies(statements[0]));
        assert(statements_have_bodies(statements.skip(1))) by {
            assert forall|i: int| 0 <= i < statements.skip(1).len() implies statement_has_bodies(
            #[trigger] statements.skip(1)[i]) by {
                assert(statement_has_bodies(statements[i + 1]));
            }
        }
        match statements[0] {
            StatementView::Definition(definition) => {
                if found.expressions.len() == 0 {
                    let next = BodyView {
                        definitions: found.definitions.push(definition),
                        expressions: found.expressions,
                    };
                    lemma_split_body_bodies(statements.skip(1), next, location);
                }
            },
            StatementView::Expression(expression) => {
                let next = BodyView {
                    definitions: found.definitions,
                    expressions: found.expressions.push(expression),
                };
                lemma_split_body_bodies(statements.skip(1), next, location);
            },
            StatementView::ImportDeclaration(_) => {},
        }
    }
}

proof fn lemma_datum_bodies(s: ParserView)
    ensures
        datum(s) matches Ok((expression, _)) ==> has_bodies(expression),
    decreases s.remaining.len(), 9int,
{
    match s.current {
        None => {},
        Some(token) => match token.data {
            TokenDataView::LeftParen => {
                lemma_collect_data_bodies(s, Seq::empty());
            },
            TokenDataView::VecConsIntro => {
                lemma_vector_bodies(s, token.location);
            },
            _ => {
                lemma_parse_current_gives_bodies(s);
            },
        },
    }
}

proof fn lemma_collect_data_bodies(s: ParserView, items: Seq<ExpressionView>)
    requires
        all_have_bodies(items),
    ensures
        collect_data(s, items) matches Ok((all, _)) ==> all_have_bodies(all),
    decreases s.remaining.len(), 2int,
{
    match peek(s) {
        Ok(Some(next)) => match advance(s, 1) {
            Ok((_, bound)) => {
                if !(next.data is RightParen) {
                    lemma_datum_bodies(bound);
                    match bounded(datum(bound), s.remaining.len() - 1) {
                        Ok((item, after)) => {
                            lemma_collect_data_bodies(after, items.push(item));
                        },
                        Err(_) => {},
                    }
                }
            },
            Err(_) => {},
        },
        _ => {},
    }
}

proof fn lemma_vector_bodies(s: ParserView, opening: Location)
    ensures
        vector(s, opening) matches Ok((expression, _)) ==> has_bodies(expression),
    decreases s.remaining.len(), 6int,
{
    lemma_collect_data_bodies(s, Seq::empty());
}

proof fn lemma_quote_bodies(s: ParserView, opening: Location)
    ensures
        quote(s, opening) matches Ok((expression, _)) ==> has_bodies(expression),
    decreases s.remaining.len(), 10int,
{
    lemma_datum_bodies(s);
}

proof fn lemma_quote_prefixed_bodies(s: ParserView, opening: Location)
    ensures
        quote_prefixed(s, opening) matches Ok((expression, _)) ==> has_bodies(expression),
    decreases s.remaining.len(), 6int,
{
    match advance(s, 1) {
        Ok((_, bound)) => {
            if bound.current is Some {
                lemma_quote_bodies(bound, opening);
            }
        },
        Err(_) => {},
    }
}

proof fn lemma_quote_form_bodies(s: ParserView, opening: Location)
    ensures
        quote_form(s, opening) matches Ok((expression, _)) ==> has_bodies(expression),
    decreases s.remaining.len(), 6int,
{
    match advance(s, 2) {
        Ok((_, bound)) => {
            if bound.current is Some {
                lemma_quote_bodies(bound, opening);
            }
        },
        Err(_) => {},
    }
}

proof fn lemma_lambda_bodies(s: ParserView, opening: Location)
    ensures
        lambda(s, opening) matches Ok((expression, _)) ==> has_bodies(expression),
    decreases s.remaining.len(), 6int,
{
    match advance(s, 2) {
        Ok((_, bound)) => match bound.current {
            Some(token) => match token.data {
                TokenDataView::Identifier(name) => {
                    lemma_procedure_body_bodies(
                        used(bound),
                        ParameterFormalsView { fixed: Seq::empty(), variadic: Some(name) },
                        opening,
                    );
                },
                TokenDataView::LeftParen => match bounded(
                    procedure_formals(used(bound), Seq::empty()),
                    bound.remaining.len() as int,
                ) {
                    Ok((formals, after)) => {
                        lemma_procedure_body_bodies(after, formals, opening);
                    },
                    Err(_) => {},
                },
                _ => {},
            },
            None => {},
        },
        Err(_) => {},
    }
}

proof fn lemma_collect_statements_bodies(s: ParserView, found: Seq<StatementView>)
    requires
        statements_have_bodies(found),
    ensures
        collect_statements(s, found) matches Ok((all, _)) ==> statements_have_bodies(all),
    decreases s.remaining.len(), 2int,
{
    match peek(s) {
        Ok(Some(next)) => match advance(s, 1) {
            Ok((_, bound)) => {
                if !(next.data is RightParen) {
                    lemma_parse_current_gives_bodies(bound);
                    match bounded(parse_current(bound), s.remaining.len() - 1) {
                        Ok((Some(statement), after)) => {
                            lemma_collect_statements_bodies(after, found.push(statement));
                        },
                        _ => {},
                    }
                }
            },
            Err(_) => {},
        },
        _ => {},
    }
}

proof fn lemma_procedure_body_bodies(
    s: ParserView,
    formals: ParameterFormalsView,
    opening: Location,
)
    ensures
        procedure_body(s, formals, opening) matches Ok((expression, _)) ==> has_bodies(expression),
    decreases s.remaining.len(), 4int,
{
    lemma_collect_statements_bodies(s, Seq::empty());
    match collect_statements(s, Seq::empty()) {
        Ok((statements, after)) => {
            lemma_split_body_bodies(
                statements,
                BodyView { definitions: Seq::empty(), expressions: Seq::empty() },
                after.location,
            );
        },
        Err(_) => {},
    }
}

proof fn lemma_condition_bodies(s: ParserView, opening: Location)
    ensures
        condition(s, opening) matches Ok((expression, _)) ==> has_bodies(expression),
    decreases s.remaining.len(), 6int,
{
    match advance(s, 1) {
        Ok((_, bound)) => {
            lemma_parse_gives_bodies(bound);
            match bounded(parse(bound), bound.remaining.len() as int) {
                Ok((test, after_test)) => {
                    lemma_parse_gives_bodies(after_test);
                    match bounded(parse(after_test), after_test.remaining.len() as int) {
                        Ok((consequent, after_consequent)) => match (test, consequent) {
                            (
                                Some(StatementView::Expression(test)),
                                Some(StatementView::Expression(consequent)),
                            ) => {
                                lemma_alternative_bodies(
                                    after_consequent,
                                    test,
                                    consequent,
                                    opening,
                                );
                            },
                            _ => {},
                        },
                        Err(_) => {},
                    }
                },
                Err(_) => {},
            }
        },
        Err(_) => {},
    }
}

proof fn lemma_alternative_bodies(
    s: ParserView,
    test: ExpressionView,
    consequent: ExpressionView,
    opening: Location,
)
    requires
        has_bodies(test),
        has_bodies(consequent),
    ensures
        alternative(s, test, consequent, opening) matches Ok((expression, _)) ==> has_bodies(
            expression,
        ),
    decreases s.remaining.len(), 5int,
{
    lemma_parse_gives_bodies(s);
}

proof fn lemma_binding_bodies(s: ParserView, opening: Location, complaint: Seq<char>)
    ensures
        binding(s, opening, complaint) matches Ok(((_, value), _)) ==> has_bodies(value),
    decreases s.remaining.len(), 5int,
{
    match advance(s, 2) {
        Ok((_, bound)) => match bound.current {
            Some(token) => match token.data {
                TokenDataView::Identifier(name) => {
                    lemma_parse_gives_bodies(used(bound));
                },
                TokenDataView::LeftParen => match advance(used(bound), 1) {
                    Ok((_, named)) => match bounded(
                        shorthand_formals(used(named)),
                        named.remaining.len() as int,
                    ) {
                        Ok((formals, after)) => {
                            lemma_procedure_body_bodies(after, formals, token.location);
                        },
                        Err(_) => {},
                    },
                    Err(_) => {},
                },
                _ => {},
            },
            None => {},
        },
        Err(_) => {},
    }
}

proof fn lemma_procedure_call_bodies(s: ParserView, opening: Location)
    ensures
        procedure_call(s, opening) matches Ok((expression, _)) ==> has_bodies(expression),
    decreases s.remaining.len(), 6int,
{
    lemma_parse_gives_bodies(s);
    match bounded(parse(s), s.remaining.len() as int) {
        Ok((Some(StatementView::Expression(operator)), after)) => {
            lemma_call_arguments_bodies(after, Seq::empty());
        },
        _ => {},
    }
}

proof fn lemma_call_arguments_bodies(s: ParserView, arguments: Seq<ExpressionView>)
    requires
        all_have_bodies(arguments),
    ensures
        call_arguments(s, arguments) matches Ok((all, _)) ==> all_have_bodies(all),
    decreases s.remaining.len(), 2int,
{
    match peek(s) {
        Ok(Some(next)) => {
            if !(next.data is RightParen) {
                lemma_parse_gives_bodies(s);
                match bounded(parse(s), s.remaining.len() - 1) {
                    Ok((Some(StatementView::Expression(argument)), after)) => {
                        lemma_call_arguments_bodies(after, arguments.push(argument));
                    },
                    _ => {},
                }
            }
        },
        _ => {},
    }
}

} // verus!
