//! The built-in procedures of the `base` library.
//!
//! Each takes the values of its arguments, in order, and gives a value or
//! a logic error. What it gives is stated by a relation between the
//! arguments and the outcome. Of exact numbers the relation holds for one
//! outcome only. Of inexact numbers it says which operations of their type
//! are asked for, with what, and how their answers are used.

use crate::ast::{names_view, ParameterFormals, ParameterFormalsView};
use crate::error::{logic_error, ErrorType, ErrorView, SchemeError};
use crate::number::{
    combines, compares, exactly, holds, Arithmetic, Number, RealNumber, Relation,
};
use crate::value::{
    all_exact, all_well_formed, lemma_exact_value_is_written_one_way, BuiltinFunction,
    BuiltinProcedure, Procedure, Value,
};
use vstd::hash_map::StringHashMap;
use vstd::prelude::*;
use vstd::string::*;

verus! {

/// What a built-in procedure gives: a value or an error.
pub type Outcome<R> = Result<Value<R>, ErrorView>;

pub open spec fn outcome_of<R: RealNumber>(result: Result<Value<R>, SchemeError>) -> Outcome<R> {
    match result {
        Ok(value) => Ok(value),
        Err(error) => Err(error@),
    }
}

/// The number or the error in an outcome, if it is one of the two.
pub open spec fn number_in<R: RealNumber>(outcome: Outcome<R>) -> Option<
    Result<Number<R>, ErrorView>,
> {
    match outcome {
        Ok(Value::Number(number)) => Some(Ok(number)),
        Ok(_) => None,
        Err(error) => Some(Err(error)),
    }
}

/// Whether `error` is some logic error.
pub open spec fn rejected(error: ErrorView) -> bool {
    error.category == ErrorType::Logic && error.location is None
}

#[derive(Clone, Copy, Debug, PartialEq, Eq)]
pub enum Extreme {
    Min,
    Max,
}

/// The procedures of one number.
#[derive(Clone, Copy, Debug, PartialEq, Eq)]
pub enum Unary {
    Sqrt,
    Floor,
    Ceiling,
    Exact,
}

/// The procedures of two numbers.
#[derive(Clone, Copy, Debug, PartialEq, Eq)]
pub enum Binary {
    FloorQuotient,
    FloorRemainder,
}

/// The complaint about a value that should have been a number, given how
/// the value is displayed.
pub open spec fn number_expected(text: Seq<char>) -> ErrorView {
    logic_error("expect a number, got "@ + text)
}

/// Whether `outcome` is the complaint about `found`, which should have
/// been a number.
pub open spec fn not_a_number<R: RealNumber>(found: Value<R>, outcome: Outcome<R>) -> bool {
    exists|text: Seq<char>|
        #![trigger number_expected(text)]
        found.displays(text) && outcome == Err::<Value<R>, ErrorView>(number_expected(text))
}

/// Whether `outcome` is what comes of taking the arguments from `from`
/// on, one by one, into the number so far. The first argument that is no
/// number, and the first operation that fails, end it.
pub open spec fn folds<R: RealNumber>(
    operation: Arithmetic,
    arguments: Seq<Value<R>>,
    from: int,
    so_far: Number<R>,
    outcome: Outcome<R>,
) -> bool
    decreases arguments.len() - from,
{
    if from < 0 || from >= arguments.len() {
        outcome == Ok::<Value<R>, ErrorView>(Value::Number(so_far))
    } else {
        match arguments[from] {
            Value::Number(next) => exists|step: Result<Number<R>, ErrorView>| #[trigger]
                combines(operation, so_far, next, step) && match step {
                    Ok(number) => folds(operation, arguments, from + 1, number, outcome),
                    Err(error) => outcome == Err::<Value<R>, ErrorView>(error),
                },
            other => not_a_number(other, outcome),
        }
    }
}

/// `+`: the sum of the arguments, zero where there is none.
pub open spec fn adds<R: RealNumber>(arguments: Seq<Value<R>>, outcome: Outcome<R>) -> bool {
    folds(Arithmetic::Add, arguments, 0, Number::Integer(0), outcome)
}

/// `*`: the product of the arguments, one where there is none.
pub open spec fn multiplies<R: RealNumber>(arguments: Seq<Value<R>>, outcome: Outcome<R>) -> bool {
    folds(Arithmetic::Mul, arguments, 0, Number::Integer(1), outcome)
}

/// `-`: of one argument its negation, of more the first less all the
/// others.
pub open spec fn subtracts<R: RealNumber>(arguments: Seq<Value<R>>, outcome: Outcome<R>) -> bool {
    if arguments.len() == 0 {
        outcome == Err::<Value<R>, ErrorView>(logic_error("'-' needs at least one argument"@))
    } else {
        match arguments[0] {
            Value::Number(first) => if arguments.len() == 1 {
                folds(Arithmetic::Sub, arguments, 0, Number::Integer(0), outcome)
            } else {
                folds(Arithmetic::Sub, arguments, 1, first, outcome)
            },
            other => not_a_number(other, outcome),
        }
    }
}

/// `/`: of one argument its reciprocal, of more the first divided by all
/// the others in turn.
pub open spec fn divides<R: RealNumber>(arguments: Seq<Value<R>>, outcome: Outcome<R>) -> bool {
    if arguments.len() == 0 {
        outcome == Err::<Value<R>, ErrorView>(logic_error("'/' needs at least one argument"@))
    } else {
        match arguments[0] {
            Value::Number(first) => if arguments.len() == 1 {
                folds(Arithmetic::Div, arguments, 0, Number::Integer(1), outcome)
            } else {
                folds(Arithmetic::Div, arguments, 1, first, outcome)
            },
            other => not_a_number(other, outcome),
        }
    }
}

pub open spec fn relation_sign(relation: Relation) -> Seq<char> {
    match relation {
        Relation::Equal => "=="@,
        Relation::Less => "<"@,
        Relation::LessEqual => "<="@,
        Relation::Greater => ">"@,
        Relation::GreaterEqual => ">="@,
    }
}

/// The complaint about a comparison with what is no number.
pub open spec fn comparison_error(relation: Relation) -> ErrorView {
    logic_error(relation_sign(relation) + " comparision can only between numbers!"@)
}

/// Whether `outcome` says if the relation holds between each argument
/// from `from` on and the one after it. The first pair for which it fails
/// gives `#f`; a pair not of numbers, met before that, gives an error.
pub open spec fn chains<R: RealNumber>(
    relation: Relation,
    arguments: Seq<Value<R>>,
    from: int,
    outcome: Outcome<R>,
) -> bool
    decreases arguments.len() - from,
{
    if from < 0 || from + 1 >= arguments.len() {
        outcome == Ok::<Value<R>, ErrorView>(Value::Boolean(true))
    } else {
        match (arguments[from], arguments[from + 1]) {
            (Value::Number(left), Value::Number(right)) => exists|answer: bool| #[trigger]
                compares(relation, left, right, answer) && if answer {
                    chains(relation, arguments, from + 1, outcome)
                } else {
                    outcome == Ok::<Value<R>, ErrorView>(Value::Boolean(false))
                },
            _ => outcome == Err::<Value<R>, ErrorView>(comparison_error(relation)),
        }
    }
}

pub open spec fn extreme_name(kind: Extreme) -> Seq<char> {
    match kind {
        Extreme::Min => "min"@,
        Extreme::Max => "max"@,
    }
}

/// Whether `wins` says that a number takes the place of the one held so
/// far: for `min` that it is below it, for `max` that the one held is
/// below it.
pub open spec fn beats<R: RealNumber>(
    kind: Extreme,
    next: Number<R>,
    held: Number<R>,
    wins: bool,
) -> bool {
    match kind {
        Extreme::Min => compares(Relation::Less, next, held, wins),
        Extreme::Max => compares(Relation::Less, held, next, wins),
    }
}

/// Whether `outcome` is the argument that is least, or greatest, among
/// the one at `best` and those from `from` on, as it was handed in. Of
/// several such it is the first.
pub open spec fn selects<R: RealNumber>(
    kind: Extreme,
    arguments: Seq<Value<R>>,
    from: int,
    best: int,
    outcome: Outcome<R>,
) -> bool
    decreases arguments.len() - from,
{
    if from < 0 || from >= arguments.len() {
        outcome == Ok::<Value<R>, ErrorView>(arguments[best])
    } else {
        match arguments[from] {
            Value::Number(next) => match arguments[best] {
                Value::Number(held) => exists|wins: bool| #[trigger]
                    beats(kind, next, held, wins) && selects(
                        kind,
                        arguments,
                        from + 1,
                        if wins {
                            from
                        } else {
                            best
                        },
                        outcome,
                    ),
                _ => false,
            },
            other => not_a_number(other, outcome),
        }
    }
}

/// `min` and `max`: the least, or greatest, of the arguments.
pub open spec fn extreme<R: RealNumber>(
    kind: Extreme,
    arguments: Seq<Value<R>>,
    outcome: Outcome<R>,
) -> bool {
    if arguments.len() == 0 {
        outcome == Err::<Value<R>, ErrorView>(
            logic_error(extreme_name(kind) + " requires at least one argument!"@),
        )
    } else {
        match arguments[0] {
            Value::Number(_) => selects(kind, arguments, 1, 0, outcome),
            other => not_a_number(other, outcome),
        }
    }
}

pub open spec fn unary_name(kind: Unary) -> Seq<char> {
    match kind {
        Unary::Sqrt => "sqrt"@,
        Unary::Floor => "floor"@,
        Unary::Ceiling => "ceiling"@,
        Unary::Exact => "exact"@,
    }
}

/// The complaint of a procedure of one number about what is no number,
/// given how that is shown for inspection.
pub open spec fn requires_a_number(kind: Unary, text: Seq<char>) -> ErrorView {
    logic_error(unary_name(kind) + " requires a number, got "@ + text)
}

/// `sqrt`, `floor`, `ceiling`, `exact`: of exactly one argument, a
/// number.
pub open spec fn numeric_one<R: RealNumber>(
    kind: Unary,
    arguments: Seq<Value<R>>,
    outcome: Outcome<R>,
) -> bool {
    if arguments.len() != 1 {
        outcome == Err::<Value<R>, ErrorView>(
            logic_error(unary_name(kind) + " takes exactly one argument"@),
        )
    } else {
        match arguments[0] {
            Value::Number(number) => match kind {
                Unary::Sqrt => outcome matches Ok(Value::Number(found)) && number.takes_root(found),
                Unary::Floor => outcome matches Ok(Value::Number(whole)) && number.rounds_down(
                    whole,
                ),
                Unary::Ceiling => outcome matches Ok(Value::Number(whole)) && number.rounds_up(
                    whole,
                ),
                Unary::Exact => number_in(outcome) matches Some(converted) && number.makes_exact(
                    converted,
                ),
            },
            other => exists|text: Seq<char>|
                #![trigger requires_a_number(kind, text)]
                other.inspects(text) && outcome == Err::<Value<R>, ErrorView>(
                    requires_a_number(kind, text),
                ),
        }
    }
}

pub open spec fn binary_name(kind: Binary) -> Seq<char> {
    match kind {
        Binary::FloorQuotient => "floor-quotient"@,
        Binary::FloorRemainder => "floor-remainder"@,
    }
}

/// `floor-quotient`, `floor-remainder`: of exactly two arguments, both
/// numbers.
pub open spec fn numeric_two<R: RealNumber>(
    kind: Binary,
    arguments: Seq<Value<R>>,
    outcome: Outcome<R>,
) -> bool {
    if arguments.len() != 2 {
        outcome == Err::<Value<R>, ErrorView>(
            logic_error(binary_name(kind) + " takes exactly two arguments"@),
        )
    } else {
        match (arguments[0], arguments[1]) {
            (Value::Number(left), Value::Number(right)) => number_in(outcome) matches Some(
                result,
            ) && (match kind {
                Binary::FloorQuotient => left.floor_divides(right, result),
                Binary::FloorRemainder => left.floor_leaves(right, result),
            }),
            _ => outcome == Err::<Value<R>, ErrorView>(logic_error("expect a number!"@)),
        }
    }
}

/// `vector-ref`: the element of a vector at an index.
pub open spec fn element<R: RealNumber>(arguments: Seq<Value<R>>) -> Outcome<R> {
    if arguments.len() != 2 {
        Err(logic_error("vector_ref requires exactly two argument"@))
    } else {
        match arguments[0] {
            Value::Vector(items) => match arguments[1] {
                Value::Number(Number::Integer(index)) => if 0 <= index < items@.len() {
                    Ok(items@[index as int])
                } else {
                    Err(logic_error("vector index out of bound"@))
                },
                _ => Err(logic_error("expect a integer!"@)),
            },
            _ => Err(logic_error("expect a vector!"@)),
        }
    }
}

fn expected_a_number<R: RealNumber>(found: &Value<R>) -> (error: SchemeError)
    ensures
        not_a_number(*found, Err::<Value<R>, ErrorView>(error@)),
{
    let mut message = String::from_str("expect a number, got ");
    let text = found.to_string();
    message.append(text.as_str());
    let error = SchemeError::logic(message);
    assert(error@ == number_expected(text@));
    error
}

/// Takes the arguments from `from` on, one by one, into `start`.
fn fold<R: RealNumber>(
    operation: Arithmetic,
    arguments: &Vec<Value<R>>,
    from: usize,
    start: Number<R>,
) -> (result: Result<Value<R>, SchemeError>)
    requires
        from <= arguments@.len(),
        start.well_formed(),
        all_well_formed(arguments@),
    ensures
        folds(operation, arguments@, from as int, start, outcome_of(result)),
        result matches Ok(value) ==> value.well_formed(),
{
    let mut total = start;
    let mut i: usize = from;
    while i < arguments.len()
        invariant
            from <= i <= arguments@.len(),
            total.well_formed(),
            all_well_formed(arguments@),
            forall|outcome: Outcome<R>| #[trigger]
                folds(operation, arguments@, i as int, total, outcome) ==> folds(
                    operation,
                    arguments@,
                    from as int,
                    start,
                    outcome,
                ),
        decreases arguments@.len() - i,
    {
        match &arguments[i] {
            Value::Number(next) => {
                assert(arguments@[i as int].well_formed());
                match total.combine(operation, *next) {
                    Ok(number) => {
                        assert forall|outcome: Outcome<R>| #[trigger]
                            folds(
                                operation,
                                arguments@,
                                i + 1,
                                number,
                                outcome,
                            ) implies folds(operation, arguments@, from as int, start, outcome) by {
                            assert(combines(
                                operation,
                                total,
                                *next,
                                Ok::<Number<R>, ErrorView>(number),
                            ));
                            assert(folds(operation, arguments@, i as int, total, outcome));
                        }
                        total = number;
                    },
                    Err(error) => {
                        assert(combines(
                            operation,
                            total,
                            *next,
                            Err::<Number<R>, ErrorView>(error@),
                        ));
                        assert(folds(
                            operation,
                            arguments@,
                            i as int,
                            total,
                            Err::<Value<R>, ErrorView>(error@),
                        ));
                        return Err(error);
                    },
                }
            },
            other => {
                let error = expected_a_number(other);
                assert(folds(
                    operation,
                    arguments@,
                    i as int,
                    total,
                    Err::<Value<R>, ErrorView>(error@),
                ));
                return Err(error);
            },
        }
        i += 1;
    }
    assert(folds(
        operation,
        arguments@,
        i as int,
        total,
        Ok::<Value<R>, ErrorView>(Value::Number(total)),
    ));
    Ok(Value::Number(total))
}

/// `+`
pub fn add<R: RealNumber>(arguments: Vec<Value<R>>) -> (result: Result<Value<R>, SchemeError>)
    requires
        all_well_formed(arguments@),
    ensures
        adds(arguments@, outcome_of(result)),
        result matches Ok(value) ==> value.well_formed(),
{
    fold(Arithmetic::Add, &arguments, 0, Number::Integer(0))
}

/// `*`
pub fn mul<R: RealNumber>(arguments: Vec<Value<R>>) -> (result: Result<Value<R>, SchemeError>)
    requires
        all_well_formed(arguments@),
    ensures
        multiplies(arguments@, outcome_of(result)),
        result matches Ok(value) ==> value.well_formed(),
{
    fold(Arithmetic::Mul, &arguments, 0, Number::Integer(1))
}

/// `-`
pub fn sub<R: RealNumber>(arguments: Vec<Value<R>>) -> (result: Result<Value<R>, SchemeError>)
    requires
        all_well_formed(arguments@),
    ensures
        subtracts(arguments@, outcome_of(result)),
        result matches Ok(value) ==> value.well_formed(),
{
    if arguments.len() == 0 {
        return Err(SchemeError::logic_text("'-' needs at least one argument"));
    }
    match &arguments[0] {
        Value::Number(first) => {
            assert(arguments@[0].well_formed());
            if arguments.len() == 1 {
                fold(Arithmetic::Sub, &arguments, 0, Number::Integer(0))
            } else {
                fold(Arithmetic::Sub, &arguments, 1, *first)
            }
        },
        other => Err(expected_a_number(other)),
    }
}

/// `/`
pub fn div<R: RealNumber>(arguments: Vec<Value<R>>) -> (result: Result<Value<R>, SchemeError>)
    requires
        all_well_formed(arguments@),
    ensures
        divides(arguments@, outcome_of(result)),
        result matches Ok(value) ==> value.well_formed(),
{
    if arguments.len() == 0 {
        return Err(SchemeError::logic_text("'/' needs at least one argument"));
    }
    match &arguments[0] {
        Value::Number(first) => {
            assert(arguments@[0].well_formed());
            if arguments.len() == 1 {
                fold(Arithmetic::Div, &arguments, 0, Number::Integer(1))
            } else {
                fold(Arithmetic::Div, &arguments, 1, *first)
            }
        },
        other => Err(expected_a_number(other)),
    }
}

fn relation_text(relation: Relation) -> (sign: String)
    ensures
        sign@ == relation_sign(relation),
{
    match relation {
        Relation::Equal => String::from_str("=="),
        Relation::Less => String::from_str("<"),
        Relation::LessEqual => String::from_str("<="),
        Relation::Greater => String::from_str(">"),
        Relation::GreaterEqual => String::from_str(">="),
    }
}

/// A comparison chain.
pub fn compare<R: RealNumber>(relation: Relation, arguments: Vec<Value<R>>) -> (result: Result<
    Value<R>,
    SchemeError,
>)
    ensures
        chains(relation, arguments@, 0, outcome_of(result)),
        result matches Ok(value) ==> value.well_formed(),
{
    let mut i: usize = 0;
    while arguments.len() - i > 1
        invariant
            i <= arguments@.len(),
            forall|outcome: Outcome<R>| #[trigger]
                chains(relation, arguments@, i as int, outcome) ==> chains(
                    relation,
                    arguments@,
                    0,
                    outcome,
                ),
        decreases arguments@.len() - i,
    {
        match (&arguments[i], &arguments[i + 1]) {
            (Value::Number(left), Value::Number(right)) => {
                let answer = left.compare(relation, *right);
                if !answer {
                    assert(chains(
                        relation,
                        arguments@,
                        i as int,
                        Ok::<Value<R>, ErrorView>(Value::Boolean(false)),
                    ));
                    return Ok(Value::Boolean(false));
                }
                assert forall|outcome: Outcome<R>| #[trigger]
                    chains(relation, arguments@, i + 1, outcome) implies chains(
                    relation,
                    arguments@,
                    0,
                    outcome,
                ) by {
                    assert(compares(relation, *left, *right, true));
                    assert(chains(relation, arguments@, i as int, outcome));
                }
            },
            _ => {
                let mut message = relation_text(relation);
                message.append(" comparision can only between numbers!");
                let error = SchemeError::logic(message);
                assert(chains(
                    relation,
                    arguments@,
                    i as int,
                    Err::<Value<R>, ErrorView>(error@),
                ));
                return Err(error);
            },
        }
        i += 1;
    }
    assert(chains(
        relation,
        arguments@,
        i as int,
        Ok::<Value<R>, ErrorView>(Value::Boolean(true)),
    ));
    Ok(Value::Boolean(true))
}

/// `=`
pub fn equals<R: RealNumber>(arguments: Vec<Value<R>>) -> (result: Result<Value<R>, SchemeError>)
    ensures
        chains(Relation::Equal, arguments@, 0, outcome_of(result)),
{
    compare(Relation::Equal, arguments)
}

/// `<`
pub fn less<R: RealNumber>(arguments: Vec<Value<R>>) -> (result: Result<Value<R>, SchemeError>)
    ensures
        chains(Relation::Less, arguments@, 0, outcome_of(result)),
{
    compare(Relation::Less, arguments)
}

/// `<=`
pub fn less_equal<R: RealNumber>(arguments: Vec<Value<R>>) -> (result: Result<
    Value<R>,
    SchemeError,
>)
    ensures
        chains(Relation::LessEqual, arguments@, 0, outcome_of(result)),
{
    compare(Relation::LessEqual, arguments)
}

/// `>`
pub fn greater<R: RealNumber>(arguments: Vec<Value<R>>) -> (result: Result<Value<R>, SchemeError>)
    ensures
        chains(Relation::Greater, arguments@, 0, outcome_of(result)),
{
    compare(Relation::Greater, arguments)
}

/// `>=`
pub fn greater_equal<R: RealNumber>(arguments: Vec<Value<R>>) -> (result: Result<
    Value<R>,
    SchemeError,
>)
    ensures
        chains(Relation::GreaterEqual, arguments@, 0, outcome_of(result)),
{
    compare(Relation::GreaterEqual, arguments)
}

/// The least, or greatest, of the arguments.
pub fn select<R: RealNumber>(kind: Extreme, arguments: Vec<Value<R>>) -> (result: Result<
    Value<R>,
    SchemeError,
>)
    requires
        all_well_formed(arguments@),
    ensures
        extreme(kind, arguments@, outcome_of(result)),
        result matches Ok(value) ==> value.well_formed(),
        result matches Ok(value) ==> exists|k: int|
            0 <= k < arguments@.len() && #[trigger] arguments@[k] == value,
{
    if arguments.len() == 0 {
        let mut message = match kind {
            Extreme::Min => String::from_str("min"),
            Extreme::Max => String::from_str("max"),
        };
        message.append(" requires at least one argument!");
        return Err(SchemeError::logic(message));
    }
    let mut best: Number<R> = match &arguments[0] {
        Value::Number(first) => *first,
        other => {
            return Err(expected_a_number(other));
        },
    };
    let ghost mut at: int = 0;
    let mut i: usize = 1;
    while i < arguments.len()
        invariant
            1 <= i <= arguments@.len(),
            0 <= at < i,
            arguments@[0] is Number,
            arguments@[at] == Value::Number(best),
            forall|outcome: Outcome<R>| #[trigger]
                selects(kind, arguments@, i as int, at, outcome) ==> selects(
                    kind,
                    arguments@,
                    1,
                    0,
                    outcome,
                ),
        decreases arguments@.len() - i,
    {
        match &arguments[i] {
            Value::Number(next) => {
                let wins = match kind {
                    Extreme::Min => next.less(best),
                    Extreme::Max => best.less(*next),
                };
                let ghost before = at;
                let ghost after = if wins {
                    i as int
                } else {
                    at
                };
                assert forall|outcome: Outcome<R>| #[trigger]
                    selects(kind, arguments@, i + 1, after, outcome) implies selects(
                    kind,
                    arguments@,
                    1,
                    0,
                    outcome,
                ) by {
                    assert(beats(kind, *next, best, wins));
                    assert(selects(kind, arguments@, i as int, before, outcome));
                }
                if wins {
                    best = *next;
                }
                proof {
                    at = after;
                }
            },
            other => {
                let error = expected_a_number(other);
                assert(selects(
                    kind,
                    arguments@,
                    i as int,
                    at,
                    Err::<Value<R>, ErrorView>(error@),
                ));
                return Err(error);
            },
        }
        i += 1;
    }
    assert(arguments@[at].well_formed());
    assert(selects(
        kind,
        arguments@,
        i as int,
        at,
        Ok::<Value<R>, ErrorView>(Value::Number(best)),
    ));
    Ok(Value::Number(best))
}

/// `min`
pub fn min<R: RealNumber>(arguments: Vec<Value<R>>) -> (result: Result<Value<R>, SchemeError>)
    requires
        all_well_formed(arguments@),
    ensures
        extreme(Extreme::Min, arguments@, outcome_of(result)),
        result matches Ok(value) ==> exists|k: int|
            0 <= k < arguments@.len() && #[trigger] arguments@[k] == value,
{
    select(Extreme::Min, arguments)
}

/// `max`
pub fn max<R: RealNumber>(arguments: Vec<Value<R>>) -> (result: Result<Value<R>, SchemeError>)
    requires
        all_well_formed(arguments@),
    ensures
        extreme(Extreme::Max, arguments@, outcome_of(result)),
        result matches Ok(value) ==> exists|k: int|
            0 <= k < arguments@.len() && #[trigger] arguments@[k] == value,
{
    select(Extreme::Max, arguments)
}

fn unary_text(kind: Unary) -> (name: String)
    ensures
        name@ == unary_name(kind),
{
    match kind {
        Unary::Sqrt => String::from_str("sqrt"),
        Unary::Floor => String::from_str("floor"),
        Unary::Ceiling => String::from_str("ceiling"),
        Unary::Exact => String::from_str("exact"),
    }
}

/// A procedure of one number.
pub fn unary<R: RealNumber>(kind: Unary, arguments: Vec<Value<R>>) -> (result: Result<
    Value<R>,
    SchemeError,
>)
    requires
        all_well_formed(arguments@),
    ensures
        numeric_one(kind, arguments@, outcome_of(result)),
        result matches Ok(value) ==> value.well_formed(),
{
    if arguments.len() != 1 {
        let mut message = unary_text(kind);
        message.append(" takes exactly one argument");
        return Err(SchemeError::logic(message));
    }
    match &arguments[0] {
        Value::Number(number) => {
            assert(arguments@[0].well_formed());
            match kind {
                Unary::Sqrt => Ok(Value::Number(number.sqrt())),
                Unary::Floor => Ok(Value::Number(number.floor())),
                Unary::Ceiling => Ok(Value::Number(number.ceiling())),
                Unary::Exact => match number.exact() {
                    Ok(exact) => Ok(Value::Number(exact)),
                    Err(error) => Err(error),
                },
            }
        },
        other => {
            let mut message = unary_text(kind);
            message.append(" requires a number, got ");
            let text = other.to_debug_string();
            message.append(text.as_str());
            let error = SchemeError::logic(message);
            assert(error@ == requires_a_number(kind, text@));
            Err(error)
        },
    }
}

/// `sqrt`
pub fn sqrt<R: RealNumber>(arguments: Vec<Value<R>>) -> (result: Result<Value<R>, SchemeError>)
    requires
        all_well_formed(arguments@),
    ensures
        numeric_one(Unary::Sqrt, arguments@, outcome_of(result)),
{
    unary(Unary::Sqrt, arguments)
}

/// `floor`
pub fn floor<R: RealNumber>(arguments: Vec<Value<R>>) -> (result: Result<Value<R>, SchemeError>)
    requires
        all_well_formed(arguments@),
    ensures
        numeric_one(Unary::Floor, arguments@, outcome_of(result)),
{
    unary(Unary::Floor, arguments)
}

/// `ceiling`
pub fn ceiling<R: RealNumber>(arguments: Vec<Value<R>>) -> (result: Result<Value<R>, SchemeError>)
    requires
        all_well_formed(arguments@),
    ensures
        numeric_one(Unary::Ceiling, arguments@, outcome_of(result)),
{
    unary(Unary::Ceiling, arguments)
}

/// `exact`
pub fn exact<R: RealNumber>(arguments: Vec<Value<R>>) -> (result: Result<Value<R>, SchemeError>)
    requires
        all_well_formed(arguments@),
    ensures
        numeric_one(Unary::Exact, arguments@, outcome_of(result)),
{
    unary(Unary::Exact, arguments)
}

/// A procedure of two numbers.
pub fn binary<R: RealNumber>(kind: Binary, arguments: Vec<Value<R>>) -> (result: Result<
    Value<R>,
    SchemeError,
>)
    requires
        all_well_formed(arguments@),
    ensures
        numeric_two(kind, arguments@, outcome_of(result)),
        result matches Ok(value) ==> value.well_formed(),
{
    if arguments.len() != 2 {
        let mut message = match kind {
            Binary::FloorQuotient => String::from_str("floor-quotient"),
            Binary::FloorRemainder => String::from_str("floor-remainder"),
        };
        message.append(" takes exactly two arguments");
        return Err(SchemeError::logic(message));
    }
    match (&arguments[0], &arguments[1]) {
        (Value::Number(left), Value::Number(right)) => {
            assert(arguments@[0].well_formed());
            assert(arguments@[1].well_formed());
            let outcome = match kind {
                Binary::FloorQuotient => left.floor_quotient(*right),
                Binary::FloorRemainder => left.floor_remainder(*right),
            };
            match outcome {
                Ok(number) => Ok(Value::Number(number)),
                Err(error) => Err(error),
            }
        },
        _ => Err(SchemeError::logic_text("expect a number!")),
    }
}

/// `floor-quotient`
pub fn floor_quotient<R: RealNumber>(arguments: Vec<Value<R>>) -> (result: Result<
    Value<R>,
    SchemeError,
>)
    requires
        all_well_formed(arguments@),
    ensures
        numeric_two(Binary::FloorQuotient, arguments@, outcome_of(result)),
{
    binary(Binary::FloorQuotient, arguments)
}

/// `floor-remainder`
pub fn floor_remainder<R: RealNumber>(arguments: Vec<Value<R>>) -> (result: Result<
    Value<R>,
    SchemeError,
>)
    requires
        all_well_formed(arguments@),
    ensures
        numeric_two(Binary::FloorRemainder, arguments@, outcome_of(result)),
{
    binary(Binary::FloorRemainder, arguments)
}

/// `vector`: the arguments, in order, as a vector.
pub fn vector<R: RealNumber>(arguments: Vec<Value<R>>) -> (result: Result<Value<R>, SchemeError>)
    ensures
        result == Ok::<Value<R>, SchemeError>(Value::Vector(arguments)),
{
    Ok(Value::Vector(arguments))
}

/// `vector-ref`
pub fn vector_ref<R: RealNumber>(arguments: Vec<Value<R>>) -> (result: Result<
    Value<R>,
    SchemeError,
>)
    ensures
        outcome_of(result) == element(arguments@),
        all_well_formed(arguments@) ==> (result matches Ok(value) ==> value.well_formed()),
{
    let ghost given = arguments@;
    let mut arguments = arguments;
    if arguments.len() != 2 {
        return Err(SchemeError::logic_text("vector_ref requires exactly two argument"));
    }
    let second = arguments.pop().unwrap();
    let first = arguments.pop().unwrap();
    assert(first == given[0] && second == given[1]);
    match first {
        Value::Vector(items) => match second {
            Value::Number(Number::Integer(index)) => {
                let mut items = items;
                if index >= 0 && (index as usize) < items.len() {
                    proof {
                        if all_well_formed(given) {
                            assert(given[0].well_formed());
                            assert(all_well_formed(items@));
                            assert(items@[index as int].well_formed());
                        }
                    }
                    Ok(items.swap_remove(index as usize))
                } else {
                    Err(SchemeError::logic_text("vector index out of bound"))
                }
            },
            _ => Err(SchemeError::logic_text("expect a integer!")),
        },
        _ => Err(SchemeError::logic_text("expect a vector!")),
    }
}

/// `display`: writes its one argument, as it is displayed, to the end of
/// `output`.
pub fn display<R: RealNumber>(arguments: Vec<Value<R>>, output: &mut String) -> (result: Result<
    Value<R>,
    SchemeError,
>)
    ensures
        outcome_of(result) == BuiltinFunction::Display.plainly_gives(arguments@),
        old(output)@.is_prefix_of(final(output)@),
        BuiltinFunction::Display.writes(
            arguments@,
            final(output)@.skip(old(output)@.len() as int),
        ),
{
    if arguments.len() != 1 {
        assert(output@.skip(output@.len() as int) =~= Seq::empty());
        return Err(SchemeError::logic_text("display takes exactly one argument"));
    }
    let text = arguments[0].to_string();
    output.append(text.as_str());
    assert(output@.skip(old(output)@.len() as int) =~= text@);
    Ok(Value::Void)
}

/// `newline`: writes the end of a line to the end of `output`.
pub fn newline<R: RealNumber>(arguments: Vec<Value<R>>, output: &mut String) -> (result: Result<
    Value<R>,
    SchemeError,
>)
    ensures
        outcome_of(result) == BuiltinFunction::Newline.plainly_gives(arguments@),
        old(output)@.is_prefix_of(final(output)@),
        BuiltinFunction::Newline.writes(
            arguments@,
            final(output)@.skip(old(output)@.len() as int),
        ),
{
    if arguments.len() != 0 {
        assert(output@.skip(output@.len() as int) =~= Seq::empty());
        return Err(SchemeError::logic_text("newline takes no argument"));
    }
    output.append("\n");
    assert(output@.skip(old(output)@.len() as int) =~= "\n"@);
    Ok(Value::Void)
}

impl BuiltinFunction {
    /// The name under which the procedure is registered.
    pub open spec fn name(self) -> Seq<char> {
        match self {
            BuiltinFunction::Add => "+"@,
            BuiltinFunction::Sub => "-"@,
            BuiltinFunction::Mul => "*"@,
            BuiltinFunction::Div => "/"@,
            BuiltinFunction::Equals => "="@,
            BuiltinFunction::Less => "<"@,
            BuiltinFunction::LessEqual => "<="@,
            BuiltinFunction::Greater => ">"@,
            BuiltinFunction::GreaterEqual => ">="@,
            BuiltinFunction::Min => "min"@,
            BuiltinFunction::Max => "max"@,
            BuiltinFunction::Sqrt => "sqrt"@,
            BuiltinFunction::Floor => "floor"@,
            BuiltinFunction::Ceiling => "ceiling"@,
            BuiltinFunction::Exact => "exact"@,
            BuiltinFunction::FloorQuotient => "floor-quotient"@,
            BuiltinFunction::FloorRemainder => "floor-remainder"@,
            BuiltinFunction::Display => "display"@,
            BuiltinFunction::Newline => "newline"@,
            BuiltinFunction::Vector => "vector"@,
            BuiltinFunction::VectorRef => "vector-ref"@,
        }
    }

    /// The formals that the procedure declares.
    pub open spec fn declared(self) -> ParameterFormalsView {
        match self {
            BuiltinFunction::Sqrt | BuiltinFunction::Floor | BuiltinFunction::Ceiling
            | BuiltinFunction::Exact => ParameterFormalsView {
                fixed: seq!["x"@],
                variadic: None,
            },
            BuiltinFunction::FloorQuotient | BuiltinFunction::FloorRemainder => {
                ParameterFormalsView { fixed: seq!["n1"@, "n2"@], variadic: None }
            },
            BuiltinFunction::Display => ParameterFormalsView {
                fixed: seq!["value"@],
                variadic: None,
            },
            BuiltinFunction::Newline => ParameterFormalsView {
                fixed: Seq::empty(),
                variadic: None,
            },
            BuiltinFunction::VectorRef => ParameterFormalsView {
                fixed: seq!["vector"@, "k"@],
                variadic: None,
            },
            _ => ParameterFormalsView { fixed: Seq::empty(), variadic: Some("x"@) },
        }
    }

    /// The number of arguments that the procedure takes, where its
    /// formals fix it.
    pub open spec fn arity(self) -> Option<nat> {
        if self.declared().variadic is None {
            Some(self.declared().fixed.len())
        } else {
            None
        }
    }

    /// What `display` and `newline` return: nothing, or the complaint
    /// about the number of their arguments.
    pub open spec fn plainly_gives<R: RealNumber>(self, arguments: Seq<Value<R>>) -> Outcome<R> {
        if self.arity() matches Some(count) && arguments.len() != count {
            Err(
                logic_error(
                    if self is Display {
                        "display takes exactly one argument"@
                    } else {
                        "newline takes no argument"@
                    },
                ),
            )
        } else {
            Ok(Value::Void)
        }
    }

    /// Whether `outcome` is what the procedure returns for the given
    /// arguments.
    pub open spec fn gives<R: RealNumber>(
        self,
        arguments: Vec<Value<R>>,
        outcome: Outcome<R>,
    ) -> bool {
        match self {
            BuiltinFunction::Add => adds(arguments@, outcome),
            BuiltinFunction::Sub => subtracts(arguments@, outcome),
            BuiltinFunction::Mul => multiplies(arguments@, outcome),
            BuiltinFunction::Div => divides(arguments@, outcome),
            BuiltinFunction::Equals => chains(Relation::Equal, arguments@, 0, outcome),
            BuiltinFunction::Less => chains(Relation::Less, arguments@, 0, outcome),
            BuiltinFunction::LessEqual => chains(Relation::LessEqual, arguments@, 0, outcome),
            BuiltinFunction::Greater => chains(Relation::Greater, arguments@, 0, outcome),
            BuiltinFunction::GreaterEqual => chains(Relation::GreaterEqual, arguments@, 0, outcome),
            BuiltinFunction::Min => extreme(Extreme::Min, arguments@, outcome),
            BuiltinFunction::Max => extreme(Extreme::Max, arguments@, outcome),
            BuiltinFunction::Sqrt => numeric_one(Unary::Sqrt, arguments@, outcome),
            BuiltinFunction::Floor => numeric_one(Unary::Floor, arguments@, outcome),
            BuiltinFunction::Ceiling => numeric_one(Unary::Ceiling, arguments@, outcome),
            BuiltinFunction::Exact => numeric_one(Unary::Exact, arguments@, outcome),
            BuiltinFunction::FloorQuotient => numeric_two(
                Binary::FloorQuotient,
                arguments@,
                outcome,
            ),
            BuiltinFunction::FloorRemainder => numeric_two(
                Binary::FloorRemainder,
                arguments@,
                outcome,
            ),
            BuiltinFunction::Display => outcome == self.plainly_gives(arguments@),
            BuiltinFunction::Newline => outcome == self.plainly_gives(arguments@),
            BuiltinFunction::Vector => outcome == Ok::<Value<R>, ErrorView>(
                Value::Vector(arguments),
            ),
            BuiltinFunction::VectorRef => outcome == element(arguments@),
        }
    }

    /// Whether `written` is what the procedure writes for the given
    /// arguments: for `display` its one argument as displayed, for
    /// `newline` the end of a line, and nothing else.
    pub open spec fn writes<R: RealNumber>(
        self,
        arguments: Seq<Value<R>>,
        written: Seq<char>,
    ) -> bool {
        match self {
            BuiltinFunction::Display => if arguments.len() != 1 {
                written == Seq::<char>::empty()
            } else {
                arguments[0].displays(written)
            },
            BuiltinFunction::Newline => if arguments.len() != 0 {
                written == Seq::<char>::empty()
            } else {
                written == "\n"@
            },
            _ => written == Seq::<char>::empty(),
        }
    }

    /// Calls the procedure on the values of its arguments. What it
    /// writes goes to the end of `output`. Where its formals fix the
    /// number of arguments, any other number of them is a logic error.
    pub fn call<R: RealNumber>(self, arguments: Vec<Value<R>>, output: &mut String) -> (result:
        Result<Value<R>, SchemeError>)
        requires
            all_well_formed(arguments@),
        ensures
            self.gives(arguments, outcome_of(result)),
            old(output)@.is_prefix_of(final(output)@),
            self.writes(arguments@, final(output)@.skip(old(output)@.len() as int)),
            self.arity() matches Some(count) && arguments@.len() != count ==> (
            result matches Err(error) && rejected(error@)),
            result matches Ok(value) ==> value.well_formed(),
    {
        proof {
            assert(output@.skip(output@.len() as int) =~= Seq::empty());
        }
        let ghost given = arguments;
        let result = match self {
            BuiltinFunction::Add => self::add(arguments),
            BuiltinFunction::Sub => self::sub(arguments),
            BuiltinFunction::Mul => self::mul(arguments),
            BuiltinFunction::Div => div(arguments),
            BuiltinFunction::Equals => compare(Relation::Equal, arguments),
            BuiltinFunction::Less => compare(Relation::Less, arguments),
            BuiltinFunction::LessEqual => compare(Relation::LessEqual, arguments),
            BuiltinFunction::Greater => compare(Relation::Greater, arguments),
            BuiltinFunction::GreaterEqual => compare(Relation::GreaterEqual, arguments),
            BuiltinFunction::Min => select(Extreme::Min, arguments),
            BuiltinFunction::Max => select(Extreme::Max, arguments),
            BuiltinFunction::Sqrt => unary(Unary::Sqrt, arguments),
            BuiltinFunction::Floor => unary(Unary::Floor, arguments),
            BuiltinFunction::Ceiling => unary(Unary::Ceiling, arguments),
            BuiltinFunction::Exact => unary(Unary::Exact, arguments),
            BuiltinFunction::FloorQuotient => binary(Binary::FloorQuotient, arguments),
            BuiltinFunction::FloorRemainder => binary(Binary::FloorRemainder, arguments),
            BuiltinFunction::Display => display(arguments, output),
            BuiltinFunction::Newline => newline(arguments, output),
            BuiltinFunction::Vector => vector(arguments),
            BuiltinFunction::VectorRef => vector_ref(arguments),
        };
        proof {
            lemma_fixed_arity_is_enforced(self, given, outcome_of(result));
        }
        result
    }
}

/// A built-in procedure whose formals fix the number of its arguments
/// fails with a logic error on any other number of them.
pub proof fn lemma_fixed_arity_is_enforced<R: RealNumber>(
    function: BuiltinFunction,
    arguments: Vec<Value<R>>,
    outcome: Outcome<R>,
)
    requires
        function.gives(arguments, outcome),
    ensures
        function.arity() matches Some(count) && arguments@.len() != count ==> (
        outcome matches Err(error) && rejected(error)),
{
}

impl BuiltinProcedure {
    /// Whether the procedure stands under its own name and declares its
    /// own formals.
    pub open spec fn well_formed(self) -> bool {
        self.name@ == self.function.name() && self.parameters@ == self.function.declared()
    }

    /// The built-in procedure for `function`.
    pub fn new(function: BuiltinFunction) -> (procedure: BuiltinProcedure)
        ensures
            procedure.function == function,
            procedure.well_formed(),
    {
        BuiltinProcedure { name: name_of(function), parameters: formals_of(function), function }
    }

    /// Calls the procedure on the values of its arguments. What it
    /// writes goes to the end of `output`. Where the formals fix the
    /// number of arguments, any other number of them is a logic error.
    pub fn call<R: RealNumber>(&self, arguments: Vec<Value<R>>, output: &mut String) -> (result:
        Result<Value<R>, SchemeError>)
        requires
            all_well_formed(arguments@),
        ensures
            self.function.gives(arguments, outcome_of(result)),
            old(output)@.is_prefix_of(final(output)@),
            self.function.writes(arguments@, final(output)@.skip(old(output)@.len() as int)),
            self.well_formed() && self.parameters@.variadic is None && arguments@.len()
                != self.parameters@.fixed.len() ==> (result matches Err(error) && rejected(
                error@,
            )),
            result matches Ok(value) ==> value.well_formed(),
    {
        self.function.call(arguments, output)
    }
}

fn name_of(function: BuiltinFunction) -> (name: String)
    ensures
        name@ == function.name(),
{
    match function {
        BuiltinFunction::Add => String::from_str("+"),
        BuiltinFunction::Sub => String::from_str("-"),
        BuiltinFunction::Mul => String::from_str("*"),
        BuiltinFunction::Div => String::from_str("/"),
        BuiltinFunction::Equals => String::from_str("="),
        BuiltinFunction::Less => String::from_str("<"),
        BuiltinFunction::LessEqual => String::from_str("<="),
        BuiltinFunction::Greater => String::from_str(">"),
        BuiltinFunction::GreaterEqual => String::from_str(">="),
        BuiltinFunction::Min => String::from_str("min"),
        BuiltinFunction::Max => String::from_str("max"),
        BuiltinFunction::Sqrt => String::from_str("sqrt"),
        BuiltinFunction::Floor => String::from_str("floor"),
        BuiltinFunction::Ceiling => String::from_str("ceiling"),
        BuiltinFunction::Exact => String::from_str("exact"),
        BuiltinFunction::FloorQuotient => String::from_str("floor-quotient"),
        BuiltinFunction::FloorRemainder => String::from_str("floor-remainder"),
        BuiltinFunction::Display => String::from_str("display"),
        BuiltinFunction::Newline => String::from_str("newline"),
        BuiltinFunction::Vector => String::from_str("vector"),
        BuiltinFunction::VectorRef => String::from_str("vector-ref"),
    }
}

fn one_name(name: &str) -> (names: Vec<String>)
    ensures
        names_view(names@) == seq![name@],
{
    let mut names: Vec<String> = Vec::new();
    names.push(String::from_str(name));
    assert(names_view(names@) =~= seq![name@]);
    names
}

fn two_names(first: &str, second: &str) -> (names: Vec<String>)
    ensures
        names_view(names@) == seq![first@, second@],
{
    let mut names: Vec<String> = Vec::new();
    names.push(String::from_str(first));
    names.push(String::from_str(second));
    assert(names_view(names@) =~= seq![first@, second@]);
    names
}

fn formals_of(function: BuiltinFunction) -> (formals: ParameterFormals)
    ensures
        formals@ == function.declared(),
{
    match function {
        BuiltinFunction::Sqrt | BuiltinFunction::Floor | BuiltinFunction::Ceiling
        | BuiltinFunction::Exact => ParameterFormals(one_name("x"), None),
        BuiltinFunction::FloorQuotient | BuiltinFunction::FloorRemainder => ParameterFormals(
            two_names("n1", "n2"),
            None,
        ),
        BuiltinFunction::Display => ParameterFormals(one_name("value"), None),
        BuiltinFunction::Newline => {
            let formals = ParameterFormals(Vec::new(), None);
            assert(names_view(formals.0@) =~= Seq::empty());
            formals
        },
        BuiltinFunction::VectorRef => ParameterFormals(two_names("vector", "k"), None),
        _ => {
            let formals = ParameterFormals(Vec::new(), Some(String::from_str("x")));
            assert(names_view(formals.0@) =~= Seq::empty());
            formals
        },
    }
}

/// Whether `value` is the built-in procedure for `function`, under its
/// name and with the formals it declares.
pub open spec fn registered<R: RealNumber>(value: Value<R>, function: BuiltinFunction) -> bool {
    value matches Value::Procedure(Procedure::Builtin(procedure)) && procedure.function == function
        && procedure.well_formed()
}

/// No two built-in procedures have the same name.
pub proof fn lemma_names_differ(first: BuiltinFunction, second: BuiltinFunction)
    requires
        first.name() == second.name(),
    ensures
        first == second,
{
    reveal_strlit("+");
    reveal_strlit("-");
    reveal_strlit("*");
    reveal_strlit("/");
    reveal_strlit("=");
    reveal_strlit("<");
    reveal_strlit("<=");
    reveal_strlit(">");
    reveal_strlit(">=");
    reveal_strlit("min");
    reveal_strlit("max");
    reveal_strlit("sqrt");
    reveal_strlit("floor");
    reveal_strlit("ceiling");
    reveal_strlit("exact");
    reveal_strlit("floor-quotient");
    reveal_strlit("floor-remainder");
    reveal_strlit("display");
    reveal_strlit("newline");
    reveal_strlit("vector");
    reveal_strlit("vector-ref");
    let a = first.name();
    let b = second.name();
    assert(a.len() == b.len());
    assert(a[0] == b[0]);
    if a.len() > 1 {
        assert(a[1] == b[1]);
    }
    if a.len() > 6 {
        assert(a[6] == b[6]);
    }
}

fn register<R: RealNumber>(library: &mut StringHashMap<Value<R>>, function: BuiltinFunction)
    ensures
        final(library)@.dom() == old(library)@.dom().insert(function.name()),
        registered(final(library)@[function.name()], function),
        forall|name: Seq<char>|
            name != function.name() && old(library)@.contains_key(name) ==> #[trigger] final(library)@[name]
                == old(library)@[name],
{
    let procedure = BuiltinProcedure::new(function);
    library.insert(name_of(function), Value::Procedure(Procedure::Builtin(procedure)));
}

/// The `base` library: each built-in procedure under its name.
pub fn base_library<R: RealNumber>() -> (library: StringHashMap<Value<R>>)
    ensures
        forall|function: BuiltinFunction| #[trigger]
            library@.contains_key(function.name()) && registered(
                library@[function.name()],
                function,
            ),
        forall|name: Seq<char>| #[trigger]
            library@.contains_key(name) ==> exists|function: BuiltinFunction| #[trigger]
                function.name() == name,
{
    let mut library: StringHashMap<Value<R>> = StringHashMap::new();
    let mut functions: Vec<BuiltinFunction> = Vec::new();
    functions.push(BuiltinFunction::Add);
    functions.push(BuiltinFunction::Sub);
    functions.push(BuiltinFunction::Mul);
    functions.push(BuiltinFunction::Div);
    functions.push(BuiltinFunction::Equals);
    functions.push(BuiltinFunction::Less);
    functions.push(BuiltinFunction::LessEqual);
    functions.push(BuiltinFunction::Greater);
    functions.push(BuiltinFunction::GreaterEqual);
    functions.push(BuiltinFunction::Min);
    functions.push(BuiltinFunction::Max);
    functions.push(BuiltinFunction::Sqrt);
    functions.push(BuiltinFunction::Floor);
    functions.push(BuiltinFunction::Ceiling);
    functions.push(BuiltinFunction::Exact);
    functions.push(BuiltinFunction::FloorQuotient);
    functions.push(BuiltinFunction::FloorRemainder);
    functions.push(BuiltinFunction::Display);
    functions.push(BuiltinFunction::Newline);
    functions.push(BuiltinFunction::Vector);
    functions.push(BuiltinFunction::VectorRef);
    assert(forall|function: BuiltinFunction| functions@.contains(function)) by {
        assert(functions@[0] == BuiltinFunction::Add);
        assert(functions@[1] == BuiltinFunction::Sub);
        assert(functions@[2] == BuiltinFunction::Mul);
        assert(functions@[3] == BuiltinFunction::Div);
        assert(functions@[4] == BuiltinFunction::Equals);
        assert(functions@[5] == BuiltinFunction::Less);
        assert(functions@[6] == BuiltinFunction::LessEqual);
        assert(functions@[7] == BuiltinFunction::Greater);
        assert(functions@[8] == BuiltinFunction::GreaterEqual);
        assert(functions@[9] == BuiltinFunction::Min);
        assert(functions@[10] == BuiltinFunction::Max);
        assert(functions@[11] == BuiltinFunction::Sqrt);
        assert(functions@[12] == BuiltinFunction::Floor);
        assert(functions@[13] == BuiltinFunction::Ceiling);
        assert(functions@[14] == BuiltinFunction::Exact);
        assert(functions@[15] == BuiltinFunction::FloorQuotient);
        assert(functions@[16] == BuiltinFunction::FloorRemainder);
        assert(functions@[17] == BuiltinFunction::Display);
        assert(functions@[18] == BuiltinFunction::Newline);
        assert(functions@[19] == BuiltinFunction::Vector);
        assert(functions@[20] == BuiltinFunction::VectorRef);
    }
    let mut i: usize = 0;
    while i < functions.len()
        invariant
            i <= functions@.len(),
            forall|j: int|
                0 <= j < i ==> library@.contains_key((#[trigger] functions@[j]).name())
                    && registered(library@[functions@[j].name()], functions@[j]),
            forall|name: Seq<char>| #[trigger]
                library@.contains_key(name) ==> exists|j: int|
                    0 <= j < i && (#[trigger] functions@[j]).name() == name,
        decreases functions@.len() - i,
    {
        let function = functions[i];
        let ghost before = library@;
        register(&mut library, function);
        proof {
            assert forall|j: int| 0 <= j < i + 1 implies library@.contains_key(
                (#[trigger] functions@[j]).name(),
            ) && registered(library@[functions@[j].name()], functions@[j]) by {
                if j < i {
                    if functions@[j].name() == function.name() {
                        lemma_names_differ(functions@[j], function);
                    }
                }
            }
            assert forall|name: Seq<char>| #[trigger] library@.contains_key(name) implies exists|
                j: int,
            |
                0 <= j < i + 1 && (#[trigger] functions@[j]).name() == name by {
                if name == function.name() {
                    assert(functions@[i as int].name() == name);
                } else {
                    assert(before.contains_key(name));
                    let j = choose|j: int| 0 <= j < i && (#[trigger] functions@[j]).name() == name;
                    assert(functions@[j].name() == name);
                }
            }
        }
        i += 1;
    }
    proof {
        assert forall|function: BuiltinFunction| #[trigger]
            library@.contains_key(function.name()) && registered(
                library@[function.name()],
                function,
            ) by {
            assert(functions@.contains(function));
            let j = choose|j: int| 0 <= j < functions@.len() && functions@[j] == function;
            assert(library@.contains_key(functions@[j].name()));
        }
    }
    library
}

/// `exact` of an exact number is that number, so `exact` of that is the
/// same again.
pub proof fn lemma_exact_is_idempotent<R: RealNumber>(
    number: Number<R>,
    once: Outcome<R>,
    twice: Outcome<R>,
)
    requires
        number.is_exact(),
        numeric_one(Unary::Exact, seq![Value::Number(number)], once),
        once matches Ok(value) ==> numeric_one(Unary::Exact, seq![value], twice),
    ensures
        once == Ok::<Value<R>, ErrorView>(Value::Number(number)),
        twice == once,
{
}

/// Of arguments that hold no inexact number, and a number so far that is
/// exact, a fold gives one outcome only.
pub proof fn lemma_exact_fold_is_determined<R: RealNumber>(
    operation: Arithmetic,
    arguments: Seq<Value<R>>,
    from: int,
    so_far: Number<R>,
    first: Outcome<R>,
    second: Outcome<R>,
)
    requires
        all_exact(arguments),
        so_far.is_exact(),
        folds(operation, arguments, from, so_far, first),
        folds(operation, arguments, from, so_far, second),
    ensures
        first == second,
    decreases arguments.len() - from,
{
    if 0 <= from < arguments.len() {
        assert(arguments[from].is_exact());
        match arguments[from] {
            Value::Number(next) => {
                match exactly(operation, so_far, next) {
                    Ok(number) => {
                        lemma_exact_fold_is_determined(
                            operation,
                            arguments,
                            from + 1,
                            number,
                            first,
                            second,
                        );
                    },
                    Err(_) => {},
                }
            },
            other => {
                lemma_complaint_is_determined(other, first, second);
            },
        }
    }
}

proof fn lemma_complaint_is_determined<R: RealNumber>(
    found: Value<R>,
    first: Outcome<R>,
    second: Outcome<R>,
)
    requires
        found.is_exact(),
        not_a_number(found, first),
        not_a_number(found, second),
    ensures
        first == second,
{
    let one = choose|text: Seq<char>|
        #![trigger number_expected(text)]
        found.displays(text) && first == Err::<Value<R>, ErrorView>(number_expected(text));
    let other = choose|text: Seq<char>|
        #![trigger number_expected(text)]
        found.displays(text) && second == Err::<Value<R>, ErrorView>(number_expected(text));
    lemma_exact_value_is_written_one_way(found, one);
    lemma_exact_value_is_written_one_way(found, other);
}

/// Of arguments that hold no inexact number, a comparison chain gives one
/// outcome only.
pub proof fn lemma_exact_chain_is_determined<R: RealNumber>(
    relation: Relation,
    arguments: Seq<Value<R>>,
    from: int,
    first: Outcome<R>,
    second: Outcome<R>,
)
    requires
        all_exact(arguments),
        chains(relation, arguments, from, first),
        chains(relation, arguments, from, second),
    ensures
        first == second,
    decreases arguments.len() - from,
{
    if 0 <= from && from + 1 < arguments.len() {
        assert(arguments[from].is_exact());
        assert(arguments[from + 1].is_exact());
        match (arguments[from], arguments[from + 1]) {
            (Value::Number(left), Value::Number(right)) => {
                if holds(relation, left, right) {
                    lemma_exact_chain_is_determined(relation, arguments, from + 1, first, second);
                }
            },
            _ => {},
        }
    }
}

/// Of arguments that hold no inexact number, `min` and `max` give one
/// outcome only.
pub proof fn lemma_exact_selection_is_determined<R: RealNumber>(
    kind: Extreme,
    arguments: Seq<Value<R>>,
    from: int,
    best: int,
    first: Outcome<R>,
    second: Outcome<R>,
)
    requires
        all_exact(arguments),
        0 <= best < arguments.len(),
        selects(kind, arguments, from, best, first),
        selects(kind, arguments, from, best, second),
    ensures
        first == second,
    decreases arguments.len() - from,
{
    if 0 <= from < arguments.len() {
        assert(arguments[from].is_exact());
        assert(arguments[best].is_exact());
        match arguments[from] {
            Value::Number(next) => match arguments[best] {
                Value::Number(held) => {
                    let wins = match kind {
                        Extreme::Min => next.below(held),
                        Extreme::Max => held.below(next),
                    };
                    lemma_exact_selection_is_determined(
                        kind,
                        arguments,
                        from + 1,
                        if wins {
                            from
                        } else {
                            best
                        },
                        first,
                        second,
                    );
                },
                _ => {},
            },
            other => {
                lemma_complaint_is_determined(other, first, second);
            },
        }
    }
}

/// Whether every one of `arguments` is an exact number fit for
/// arithmetic.
pub open spec fn exact_numbers<R: RealNumber>(arguments: Seq<Value<R>>) -> bool {
    forall|i: int|
        0 <= i < arguments.len() ==> ((#[trigger] arguments[i]) matches Value::Number(number)
            && number.is_exact() && number.well_formed())
}

/// Whether `value` is an exact number that none of the arguments before
/// `until` takes the place of.
pub open spec fn unbeaten<R: RealNumber>(
    kind: Extreme,
    value: Value<R>,
    arguments: Seq<Value<R>>,
    until: int,
) -> bool {
    value matches Value::Number(held) && forall|i: int|
        0 <= i < until ==> ((#[trigger] arguments[i]) matches Value::Number(other) && !beats(
            kind,
            other,
            held,
            true,
        ))
}

proof fn lemma_beats_is_transitive<R: RealNumber>(
    kind: Extreme,
    other: Number<R>,
    held: Number<R>,
    next: Number<R>,
)
    requires
        other.is_exact() && held.is_exact() && next.is_exact(),
        other.well_formed() && held.well_formed() && next.well_formed(),
        !beats(kind, other, held, true),
        beats(kind, next, held, true),
    ensures
        !beats(kind, other, next, true),
{
    let a = other.numerator();
    let b = other.denominator();
    let c = held.numerator();
    let d = held.denominator();
    let e = next.numerator();
    let f = next.denominator();
    match kind {
        Extreme::Min => {
            assert(!(a * f < e * b)) by (nonlinear_arith)
                requires
                    b > 0,
                    d > 0,
                    f > 0,
                    !(a * d < c * b),
                    e * d < c * f,
            {
                assert((c * b) * f <= (a * d) * f);
                assert((e * d) * b < (c * f) * b);
                assert((e * b) * d < (a * f) * d);
            }
        },
        Extreme::Max => {
            assert(!(e * b < a * f)) by (nonlinear_arith)
                requires
                    b > 0,
                    d > 0,
                    f > 0,
                    !(c * b < a * d),
                    c * f < e * d,
            {
                assert((a * d) * f <= (c * b) * f);
                assert((c * f) * b < (e * d) * b);
                assert((a * f) * d < (e * b) * d);
            }
        },
    }
}

proof fn lemma_selects_the_extreme<R: RealNumber>(
    kind: Extreme,
    arguments: Seq<Value<R>>,
    from: int,
    best: int,
    outcome: Outcome<R>,
)
    requires
        exact_numbers(arguments),
        0 <= best < from <= arguments.len(),
        unbeaten(kind, arguments[best], arguments, from),
        selects(kind, arguments, from, best, outcome),
    ensures
        outcome matches Ok(value) && arguments.contains(value) && unbeaten(
            kind,
            value,
            arguments,
            arguments.len() as int,
        ),
    decreases arguments.len() - from,
{
    if from < arguments.len() {
        let next = arguments[from]->Number_0;
        let held = arguments[best]->Number_0;
        let wins = choose|wins: bool| #[trigger]
            beats(kind, next, held, wins) && selects(
                kind,
                arguments,
                from + 1,
                if wins {
                    from
                } else {
                    best
                },
                outcome,
            );
        if wins {
            assert forall|i: int| 0 <= i < from + 1 implies ((#[trigger] arguments[i]) matches Value::Number(
                other,
            ) && !beats(kind, other, next, true)) by {
                let other = arguments[i]->Number_0;
                if i < from {
                    lemma_beats_is_transitive(kind, other, held, next);
                }
            }
            lemma_selects_the_extreme(kind, arguments, from + 1, from, outcome);
        } else {
            lemma_selects_the_extreme(kind, arguments, from + 1, best, outcome);
        }
    }
}

/// `min` of exact numbers is one of them, and none of them is below it;
/// `max` is one of them, and it is below none of them.
pub proof fn lemma_extreme_is_least_or_greatest<R: RealNumber>(
    kind: Extreme,
    arguments: Seq<Value<R>>,
    outcome: Outcome<R>,
)
    requires
        arguments.len() > 0,
        exact_numbers(arguments),
        extreme(kind, arguments, outcome),
    ensures
        outcome matches Ok(Value::Number(chosen)) && arguments.contains(Value::Number(chosen))
            && forall|i: int|
            0 <= i < arguments.len() ==> ((#[trigger] arguments[i]) matches Value::Number(other) && (
            match kind {
                Extreme::Min => !other.below(chosen),
                Extreme::Max => !chosen.below(other),
            })),
{
    lemma_selects_the_extreme(kind, arguments, 1, 0, outcome);
}

} // verus!
