//! The values that a program computes with.

use crate::ast::{names_view, ParameterFormals, SchemeProcedure};
use crate::external::procedure_text;
use crate::number::{Number, RealNumber};
use crate::text::{character_text, join_texts, joined, quoted, quoted_character, quoted_character_text, quoted_text};
use std::rc::Rc;
use vstd::prelude::*;
use vstd::string::*;

verus! {

/// The built-in procedures of the `base` library.
#[derive(Clone, Copy, Debug, PartialEq, Eq)]
pub enum BuiltinFunction {
    Add,
    Sub,
    Mul,
    Div,
    Equals,
    Less,
    LessEqual,
    Greater,
    GreaterEqual,
    Min,
    Max,
    Sqrt,
    Floor,
    Ceiling,
    Exact,
    FloorQuotient,
    FloorRemainder,
    Display,
    Newline,
    Vector,
    VectorRef,
}

/// A built-in procedure under its name, with the formals it declares.
#[derive(Debug, PartialEq)]
pub struct BuiltinProcedure {
    pub name: String,
    pub parameters: ParameterFormals,
    pub function: BuiltinFunction,
}

#[derive(Debug, PartialEq)]
pub enum Procedure {
    Builtin(BuiltinProcedure),
    /// A procedure of the program, with the number of the scope it was
    /// made in.
    UserDefined { procedure: Rc<SchemeProcedure>, environment: usize },
}

#[derive(Debug, PartialEq)]
pub enum Value<R: RealNumber> {
    Number(Number<R>),
    Boolean(bool),
    Character(char),
    String(String),
    Symbol(String),
    Vector(Vec<Value<R>>),
    Procedure(Procedure),
    Void,
    EmptyList,
    Pair(Box<Value<R>>, Box<Value<R>>),
}

/// `Rc::clone` of the standard library: one more pointer to the value
/// that the given one points to.
#[verifier::external_body]
fn shared(procedure: &Rc<SchemeProcedure>) -> (other: Rc<SchemeProcedure>)
    ensures
        other == *procedure,
{
    Rc::clone(procedure)
}

impl Clone for BuiltinProcedure {
    fn clone(&self) -> (copy: BuiltinProcedure)
        ensures
            copy.name == self.name,
            copy.parameters@ == self.parameters@,
            copy.function == self.function,
    {
        BuiltinProcedure {
            name: self.name.clone(),
            parameters: self.parameters.clone(),
            function: self.function,
        }
    }
}

impl Clone for Procedure {
    fn clone(&self) -> (copy: Procedure)
        ensures
            self.alike(copy),
    {
        match self {
            Procedure::Builtin(builtin) => Procedure::Builtin(builtin.clone()),
            Procedure::UserDefined { procedure, environment } => Procedure::UserDefined {
                procedure: shared(procedure),
                environment: *environment,
            },
        }
    }
}

impl<R: RealNumber> Clone for Value<R> {
    fn clone(&self) -> (copy: Value<R>)
        ensures
            self.alike(copy),
        decreases self,
    {
        match self {
            Value::Number(number) => Value::Number(*number),
            Value::Boolean(value) => Value::Boolean(*value),
            Value::Character(character) => Value::Character(*character),
            Value::String(text) => Value::String(text.clone()),
            Value::Symbol(name) => Value::Symbol(name.clone()),
            Value::Vector(items) => Value::Vector(copies_of(items)),
            Value::Procedure(procedure) => Value::Procedure(procedure.clone()),
            Value::Void => Value::Void,
            Value::EmptyList => Value::EmptyList,
            Value::Pair(head, tail) => Value::Pair(
                Box::new((&**head).clone()),
                Box::new((&**tail).clone()),
            ),
        }
    }
}

fn copies_of<R: RealNumber>(values: &Vec<Value<R>>) -> (copies: Vec<Value<R>>)
    ensures
        all_alike(values@, copies@),
    decreases values,
{
    let mut copies: Vec<Value<R>> = Vec::new();
    let mut i: usize = 0;
    while i < values.len()
        invariant
            i <= values@.len(),
            copies@.len() == i,
            forall|j: int| 0 <= j < i ==> (#[trigger] values@[j]).alike(copies@[j]),
        decreases values@.len() - i,
    {
        let copy = values[i].clone();
        copies.push(copy);
        i += 1;
    }
    copies
}

/// Whether the values of one sequence are like those of another, each
/// like the one in its place.
pub open spec fn all_alike<R: RealNumber>(values: Seq<Value<R>>, others: Seq<Value<R>>) -> bool
    decreases values,
{
    values.len() == others.len() && forall|i: int|
        0 <= i < values.len() ==> (#[trigger] values[i]).alike(others[i])
}

impl Procedure {
    /// Whether two procedures are the same but for where their texts are
    /// kept.
    pub open spec fn alike(self, other: Procedure) -> bool {
        match (self, other) {
            (Procedure::Builtin(one), Procedure::Builtin(two)) => one.name@ == two.name@
                && one.parameters@ == two.parameters@ && one.function == two.function,
            (
                Procedure::UserDefined { procedure: one, environment: scope },
                Procedure::UserDefined { procedure: two, environment: other_scope },
            ) => one == two && scope == other_scope,
            _ => false,
        }
    }

    /// How a procedure is written: `#<procedure name>` for a built-in
    /// one, `(lambda formals)` for one of the program.
    pub open spec fn text(self) -> Seq<char> {
        match self {
            Procedure::Builtin(builtin) => "#<procedure "@ + builtin.name@ + ">"@,
            Procedure::UserDefined { procedure, .. } => procedure_text(procedure@),
        }
    }

    /// The procedure written out.
    pub fn to_string(&self) -> (text: String)
        ensures
            text@ == self.text(),
    {
        match self {
            Procedure::Builtin(builtin) => {
                let mut text = String::from_str("#<procedure ");
                text.append(builtin.name.as_str());
                text.append(">");
                text
            },
            Procedure::UserDefined { procedure, .. } => procedure.to_string(),
        }
    }
}

/// The texts of values, in order.
pub open spec fn value_texts<R: RealNumber>(values: Seq<Value<R>>) -> Seq<Seq<char>>
    decreases values,
{
    Seq::new(
        values.len(),
        |i: int|
            if 0 <= i < values.len() {
                values[i].text()
            } else {
                Seq::empty()
            },
    )
}

/// The texts of values for inspection, in order.
pub open spec fn value_debug_texts<R: RealNumber>(values: Seq<Value<R>>) -> Seq<Seq<char>>
    decreases values,
{
    Seq::new(
        values.len(),
        |i: int|
            if 0 <= i < values.len() {
                values[i].debug_text()
            } else {
                Seq::empty()
            },
    )
}

/// A pair as displayed, given its two parts as displayed.
pub open spec fn pair_text(first: Seq<char>, second: Seq<char>) -> Seq<char> {
    "("@ + first + " . "@ + second + ")"@
}

/// A pair as shown for inspection, given its two parts as shown.
pub open spec fn pair_debug_text(first: Seq<char>, second: Seq<char>) -> Seq<char> {
    "Pair("@ + first + ", "@ + second + ")"@
}

/// Whether `texts` are values as displayed, each the one in its place.
pub open spec fn all_display<R: RealNumber>(values: Seq<Value<R>>, texts: Seq<Seq<char>>) -> bool {
    values.len() == texts.len() && forall|i: int|
        0 <= i < values.len() ==> (#[trigger] values[i]).displays(texts[i])
}

/// Whether `texts` are values as shown for inspection, each the one in
/// its place.
pub open spec fn all_inspect<R: RealNumber>(values: Seq<Value<R>>, texts: Seq<Seq<char>>) -> bool {
    values.len() == texts.len() && forall|i: int|
        0 <= i < values.len() ==> (#[trigger] values[i]).inspects(texts[i])
}

/// Whether every value is fit for the built-in procedures.
pub open spec fn all_well_formed<R: RealNumber>(values: Seq<Value<R>>) -> bool
    decreases values,
{
    forall|i: int| 0 <= i < values.len() ==> (#[trigger] values[i]).well_formed()
}

/// Whether no value holds an inexact number.
pub open spec fn all_exact<R: RealNumber>(values: Seq<Value<R>>) -> bool
    decreases values,
{
    forall|i: int| 0 <= i < values.len() ==> (#[trigger] values[i]).is_exact()
}

impl<R: RealNumber> Value<R> {
    /// Whether two values are the same but for where their texts and
    /// elements are kept: what a copy is to the value it was made from.
    pub open spec fn alike(self, other: Value<R>) -> bool
        decreases self,
    {
        match (self, other) {
            (Value::Number(one), Value::Number(two)) => one == two,
            (Value::Boolean(one), Value::Boolean(two)) => one == two,
            (Value::Character(one), Value::Character(two)) => one == two,
            (Value::String(one), Value::String(two)) => one@ == two@,
            (Value::Symbol(one), Value::Symbol(two)) => one@ == two@,
            (Value::Vector(one), Value::Vector(two)) => all_alike(one@, two@),
            (Value::Procedure(one), Value::Procedure(two)) => one.alike(two),
            (Value::Void, Value::Void) => true,
            (Value::EmptyList, Value::EmptyList) => true,
            (Value::Pair(head, tail), Value::Pair(other_head, other_tail)) => head.alike(
                *other_head,
            ) && tail.alike(*other_tail),
            _ => false,
        }
    }

    /// Whether the value is fit for the built-in procedures: every
    /// rational in it has a denominator other than zero.
    pub open spec fn well_formed(self) -> bool
        decreases self,
    {
        match self {
            Value::Number(number) => number.well_formed(),
            Value::Vector(items) => all_well_formed(items@),
            Value::Pair(head, tail) => head.well_formed() && tail.well_formed(),
            _ => true,
        }
    }

    /// Whether the value holds no inexact number.
    pub open spec fn is_exact(self) -> bool
        decreases self,
    {
        match self {
            Value::Number(number) => number.is_exact(),
            Value::Vector(items) => all_exact(items@),
            Value::Pair(head, tail) => head.is_exact() && tail.is_exact(),
            _ => true,
        }
    }

    /// Whether `text` is the value as displayed: a number as it is
    /// written, `#t` and `#f`, a character behind `#\`, a string between
    /// double quotes, a vector as `#(` and its elements with spaces between
    /// them and `)`, a symbol and a procedure as they are written.
    pub open spec fn displays(self, text: Seq<char>) -> bool
        decreases self,
    {
        match self {
            Value::Number(number) => number.written(text),
            Value::Vector(items) => exists|texts: Seq<Seq<char>>|
                #![trigger joined(texts, " "@)]
                texts.len() == items@.len() && (forall|i: int|
                    0 <= i < items@.len() ==> (#[trigger] items@[i]).displays(texts[i])) && text
                    == "#("@ + joined(texts, " "@) + ")"@,
            Value::Pair(head, tail) => exists|first: Seq<char>, second: Seq<char>|
                #![trigger pair_text(first, second)]
                head.displays(first) && tail.displays(second) && text == pair_text(first, second),
            _ => text == self.text(),
        }
    }

    /// Whether `text` is the value as shown for inspection: the name of
    /// its kind, and in parentheses what it holds.
    pub open spec fn inspects(self, text: Seq<char>) -> bool
        decreases self,
    {
        match self {
            Value::Number(number) => exists|inner: Seq<char>| #[trigger]
                number.written(inner) && text == (match number {
                    Number::Integer(_) => "Number(Integer("@,
                    Number::Rational(_, _) => "Number(Rational("@,
                    Number::Real(_) => "Number(Real("@,
                }) + inner + "))"@,
            Value::Vector(items) => exists|texts: Seq<Seq<char>>|
                #![trigger joined(texts, ", "@)]
                texts.len() == items@.len() && (forall|i: int|
                    0 <= i < items@.len() ==> (#[trigger] items@[i]).inspects(texts[i])) && text
                    == "Vector(["@ + joined(texts, ", "@) + "])"@,
            Value::Pair(head, tail) => exists|first: Seq<char>, second: Seq<char>|
                #![trigger pair_debug_text(first, second)]
                head.inspects(first) && tail.inspects(second) && text == pair_debug_text(
                    first,
                    second,
                ),
            _ => text == self.debug_text(),
        }
    }

    /// How a value that holds no inexact number is displayed.
    pub open spec fn text(self) -> Seq<char>
        decreases self,
    {
        match self {
            Value::Number(number) => number.text(),
            Value::Boolean(value) => if value {
                "#t"@
            } else {
                "#f"@
            },
            Value::Character(character) => "#\\"@ + seq![character],
            Value::String(text) => "\""@ + text@ + "\""@,
            Value::Symbol(name) => name@,
            Value::Vector(items) => "#("@ + joined(value_texts(items@), " "@) + ")"@,
            Value::Procedure(procedure) => procedure.text(),
            Value::Void => Seq::empty(),
            Value::EmptyList => "()"@,
            Value::Pair(head, tail) => pair_text(head.text(), tail.text()),
        }
    }

    /// How a value that holds no inexact number is shown for inspection:
    /// the name of its kind, and in parentheses what it holds.
    pub open spec fn debug_text(self) -> Seq<char>
        decreases self,
    {
        match self {
            Value::Number(number) => match number {
                Number::Integer(_) => "Number(Integer("@ + number.text() + "))"@,
                Number::Rational(_, _) => "Number(Rational("@ + number.text() + "))"@,
                Number::Real(_) => Seq::empty(),
            },
            Value::Boolean(value) => if value {
                "Boolean(true)"@
            } else {
                "Boolean(false)"@
            },
            Value::Character(character) => "Character"@ + "("@ + quoted_character(character)
                + ")"@,
            Value::String(text) => "String"@ + "("@ + quoted(text@) + ")"@,
            Value::Symbol(name) => "Symbol"@ + "("@ + quoted(name@) + ")"@,
            Value::Vector(items) => "Vector(["@ + joined(value_debug_texts(items@), ", "@) + "])"@,
            Value::Procedure(procedure) => "Procedure"@ + "("@ + procedure.text() + ")"@,
            Value::Void => "Void"@,
            Value::EmptyList => "EmptyList"@,
            Value::Pair(head, tail) => pair_debug_text(head.debug_text(), tail.debug_text()),
        }
    }

    /// Whether the value is fit for the built-in procedures.
    pub fn is_well_formed(&self) -> (fit: bool)
        ensures
            fit == self.well_formed(),
        decreases self,
    {
        match self {
            Value::Number(number) => number.is_well_formed(),
            Value::Vector(items) => are_well_formed(items),
            Value::Pair(head, tail) => head.is_well_formed() && tail.is_well_formed(),
            _ => true,
        }
    }

    /// The value as displayed. An inexact number in it is written as its
    /// type writes it.
    pub fn to_string(&self) -> (text: String)
        ensures
            self.displays(text@),
            self.is_exact() ==> text@ == self.text(),
        decreases self,
    {
        match self {
            Value::Number(number) => number.to_string(),
            Value::Boolean(value) => if *value {
                String::from_str("#t")
            } else {
                String::from_str("#f")
            },
            Value::Character(character) => {
                let mut text = String::from_str("#\\");
                let rest = character_text(*character);
                text.append(rest.as_str());
                text
            },
            Value::String(content) => {
                let mut text = String::from_str("\"");
                text.append(content.as_str());
                text.append("\"");
                text
            },
            Value::Symbol(name) => name.clone(),
            Value::Vector(items) => {
                let texts = texts_of(items);
                let mut text = String::from_str("#(");
                let inner = join_texts(&texts, " ");
                text.append(inner.as_str());
                text.append(")");
                assert(all_display(items@, names_view(texts@)));
                assert(self.displays(text@));
                text
            },
            Value::Procedure(procedure) => procedure.to_string(),
            Value::Void => String::new(),
            Value::EmptyList => String::from_str("()"),
            Value::Pair(head, tail) => {
                let mut text = String::from_str("(");
                let first = head.to_string();
                text.append(first.as_str());
                text.append(" . ");
                let second = tail.to_string();
                text.append(second.as_str());
                text.append(")");
                assert(text@ == pair_text(first@, second@));
                text
            },
        }
    }

    /// The value as shown for inspection.
    pub fn to_debug_string(&self) -> (text: String)
        ensures
            self.inspects(text@),
            self.is_exact() ==> text@ == self.debug_text(),
        decreases self,
    {
        match self {
            Value::Number(number) => {
                let mut text = match number {
                    Number::Integer(_) => String::from_str("Number(Integer("),
                    Number::Rational(_, _) => String::from_str("Number(Rational("),
                    Number::Real(_) => String::from_str("Number(Real("),
                };
                let inner = number.to_string();
                text.append(inner.as_str());
                text.append("))");
                assert(number.written(inner@));
                assert(self.inspects(text@));
                text
            },
            Value::Boolean(value) => if *value {
                String::from_str("Boolean(true)")
            } else {
                String::from_str("Boolean(false)")
            },
            Value::Character(character) => {
                let inner = quoted_character_text(*character);
                inspected("Character", inner.as_str())
            },
            Value::String(content) => {
                let inner = quoted_text(content.as_str());
                inspected("String", inner.as_str())
            },
            Value::Symbol(name) => {
                let inner = quoted_text(name.as_str());
                inspected("Symbol", inner.as_str())
            },
            Value::Vector(items) => {
                let texts = debug_texts_of(items);
                let mut text = String::from_str("Vector([");
                let inner = join_texts(&texts, ", ");
                text.append(inner.as_str());
                text.append("])");
                assert(all_inspect(items@, names_view(texts@)));
                assert(self.inspects(text@));
                text
            },
            Value::Procedure(procedure) => {
                let inner = procedure.to_string();
                inspected("Procedure", inner.as_str())
            },
            Value::Void => String::from_str("Void"),
            Value::EmptyList => String::from_str("EmptyList"),
            Value::Pair(head, tail) => {
                let mut text = String::from_str("Pair(");
                let first = head.to_debug_string();
                text.append(first.as_str());
                text.append(", ");
                let second = tail.to_debug_string();
                text.append(second.as_str());
                text.append(")");
                assert(text@ == pair_debug_text(first@, second@));
                text
            },
        }
    }
}

/// What a value of the given kind shows for inspection, given what it
/// holds as that is shown: the name of the kind, and in parentheses what
/// it holds.
pub fn inspected(kind: &str, held: &str) -> (text: String)
    ensures
        text@ == kind@ + "("@ + held@ + ")"@,
{
    let mut text = String::from_str(kind);
    text.append("(");
    text.append(held);
    text.append(")");
    text
}

/// Whether every one of `values` is fit for the built-in procedures.
pub fn are_well_formed<R: RealNumber>(values: &Vec<Value<R>>) -> (fit: bool)
    ensures
        fit == all_well_formed(values@),
    decreases values,
{
    let mut i: usize = 0;
    while i < values.len()
        invariant
            i <= values.len(),
            forall|j: int| 0 <= j < i ==> (#[trigger] values@[j]).well_formed(),
        decreases values.len() - i,
    {
        if !values[i].is_well_formed() {
            return false;
        }
        i += 1;
    }
    true
}

fn texts_of<R: RealNumber>(values: &Vec<Value<R>>) -> (texts: Vec<String>)
    ensures
        all_display(values@, names_view(texts@)),
        all_exact(values@) ==> names_view(texts@) == value_texts(values@),
    decreases values,
{
    let mut texts: Vec<String> = Vec::new();
    let mut i: usize = 0;
    while i < values.len()
        invariant
            i <= values.len(),
            texts@.len() == i,
            forall|j: int| 0 <= j < i ==> (#[trigger] values@[j]).displays(texts@[j]@),
            all_exact(values@) ==> forall|j: int|
                0 <= j < i ==> (#[trigger] texts@[j])@ == values@[j].text(),
        decreases values.len() - i,
    {
        let text = values[i].to_string();
        texts.push(text);
        i += 1;
    }
    assert(all_exact(values@) ==> names_view(texts@) =~= value_texts(values@));
    texts
}

fn debug_texts_of<R: RealNumber>(values: &Vec<Value<R>>) -> (texts: Vec<String>)
    ensures
        all_inspect(values@, names_view(texts@)),
        all_exact(values@) ==> names_view(texts@) == value_debug_texts(values@),
    decreases values,
{
    let mut texts: Vec<String> = Vec::new();
    let mut i: usize = 0;
    while i < values.len()
        invariant
            i <= values.len(),
            texts@.len() == i,
            forall|j: int| 0 <= j < i ==> (#[trigger] values@[j]).inspects(texts@[j]@),
            all_exact(values@) ==> forall|j: int|
                0 <= j < i ==> (#[trigger] texts@[j])@ == values@[j].debug_text(),
        decreases values.len() - i,
    {
        let text = values[i].to_debug_string();
        texts.push(text);
        i += 1;
    }
    assert(all_exact(values@) ==> names_view(texts@) =~= value_debug_texts(values@));
    texts
}

/// Values that are alike are fit for the built-in procedures together,
/// hold inexact numbers together, and are written the same.
pub proof fn lemma_alike_values_read_the_same<R: RealNumber>(value: Value<R>, other: Value<R>)
    requires
        value.alike(other),
    ensures
        value.well_formed() == other.well_formed(),
        value.is_exact() == other.is_exact(),
        value.text() == other.text(),
        value.debug_text() == other.debug_text(),
    decreases value,
{
    match (value, other) {
        (Value::Vector(one), Value::Vector(two)) => {
            lemma_all_alike_read_the_same(one@, two@);
        },
        (Value::Pair(head, tail), Value::Pair(other_head, other_tail)) => {
            lemma_alike_values_read_the_same(*head, *other_head);
            lemma_alike_values_read_the_same(*tail, *other_tail);
        },
        _ => {},
    }
}

proof fn lemma_all_alike_read_the_same<R: RealNumber>(values: Seq<Value<R>>, others: Seq<Value<R>>)
    requires
        all_alike(values, others),
    ensures
        all_well_formed(values) == all_well_formed(others),
        all_exact(values) == all_exact(others),
        value_texts(values) == value_texts(others),
        value_debug_texts(values) == value_debug_texts(others),
    decreases values,
{
    assert forall|i: int| 0 <= i < values.len() implies (#[trigger] values[i]).well_formed()
        == others[i].well_formed() && values[i].is_exact() == others[i].is_exact()
        && values[i].text() == others[i].text() && values[i].debug_text()
        == others[i].debug_text() by {
        lemma_alike_values_read_the_same(values[i], others[i]);
    }
    if all_well_formed(values) {
        assert forall|i: int| 0 <= i < others.len() implies (#[trigger] others[i]).well_formed() by {
            assert(values[i].well_formed());
        }
    }
    if all_well_formed(others) {
        assert forall|i: int| 0 <= i < values.len() implies (#[trigger] values[i]).well_formed() by {
            assert(others[i].well_formed());
        }
    }
    if all_exact(values) {
        assert forall|i: int| 0 <= i < others.len() implies (#[trigger] others[i]).is_exact() by {
            assert(values[i].is_exact());
        }
    }
    if all_exact(others) {
        assert forall|i: int| 0 <= i < values.len() implies (#[trigger] values[i]).is_exact() by {
            assert(others[i].is_exact());
        }
    }
    assert(value_texts(values) =~= value_texts(others));
    assert(value_debug_texts(values) =~= value_debug_texts(others));
}

/// Of a value that holds no inexact number there is one way to display
/// it and one way to show it for inspection: those of [`Value::text`]
/// and [`Value::debug_text`].
pub proof fn lemma_exact_value_is_written_one_way<R: RealNumber>(value: Value<R>, text: Seq<char>)
    requires
        value.is_exact(),
    ensures
        value.displays(text) <==> text == value.text(),
        value.inspects(text) <==> text == value.debug_text(),
    decreases value,
{
    match value {
        Value::Vector(items) => {
            lemma_exact_values_are_written_one_way(items@);
            if value.displays(text) {
                let texts = choose|texts: Seq<Seq<char>>|
                    #![trigger joined(texts, " "@)]
                    texts.len() == items@.len() && (forall|i: int|
                        0 <= i < items@.len() ==> (#[trigger] items@[i]).displays(texts[i]))
                        && text == "#("@ + joined(texts, " "@) + ")"@;
                assert(texts =~= value_texts(items@));
            }
            if value.inspects(text) {
                let texts = choose|texts: Seq<Seq<char>>|
                    #![trigger joined(texts, ", "@)]
                    texts.len() == items@.len() && (forall|i: int|
                        0 <= i < items@.len() ==> (#[trigger] items@[i]).inspects(texts[i]))
                        && text == "Vector(["@ + joined(texts, ", "@) + "])"@;
                assert(texts =~= value_debug_texts(items@));
            }
            if text == value.text() {
                let texts = value_texts(items@);
                assert(text == "#("@ + joined(texts, " "@) + ")"@);
                assert forall|i: int| 0 <= i < items@.len() implies (#[trigger] items@[i]).displays(
                    texts[i],
                ) by {
                    assert(texts[i] == items@[i].text());
                    assert(items@[i].displays(items@[i].text()));
                }
                assert(value.displays(text));
            }
            if text == value.debug_text() {
                let texts = value_debug_texts(items@);
                assert(text == "Vector(["@ + joined(texts, ", "@) + "])"@);
                assert forall|i: int| 0 <= i < items@.len() implies (#[trigger] items@[i]).inspects(
                    texts[i],
                ) by {
                    assert(texts[i] == items@[i].debug_text());
                    assert(items@[i].inspects(items@[i].debug_text()));
                }
                assert(value.inspects(text));
            }
        },
        Value::Pair(head, tail) => {
            if value.displays(text) {
                let (first, second) = choose|first: Seq<char>, second: Seq<char>|
                    #![trigger pair_text(first, second)]
                    head.displays(first) && tail.displays(second) && text == pair_text(
                        first,
                        second,
                    );
                lemma_exact_value_is_written_one_way(*head, first);
                lemma_exact_value_is_written_one_way(*tail, second);
            }
            if value.inspects(text) {
                let (first, second) = choose|first: Seq<char>, second: Seq<char>|
                    #![trigger pair_debug_text(first, second)]
                    head.inspects(first) && tail.inspects(second) && text == pair_debug_text(
                        first,
                        second,
                    );
                lemma_exact_value_is_written_one_way(*head, first);
                lemma_exact_value_is_written_one_way(*tail, second);
            }
            lemma_exact_value_is_written_one_way(*head, head.text());
            lemma_exact_value_is_written_one_way(*tail, tail.text());
            lemma_exact_value_is_written_one_way(*head, head.debug_text());
            lemma_exact_value_is_written_one_way(*tail, tail.debug_text());
            if text == value.text() {
                assert(text == pair_text(head.text(), tail.text()));
                assert(value.displays(text));
            }
            if text == value.debug_text() {
                assert(text == pair_debug_text(head.debug_text(), tail.debug_text()));
                assert(value.inspects(text));
            }
        },
        Value::Number(number) => {
            if value.inspects(text) {
                let inner = choose|inner: Seq<char>| #[trigger]
                    number.written(inner) && text == (match number {
                        Number::Integer(_) => "Number(Integer("@,
                        Number::Rational(_, _) => "Number(Rational("@,
                        Number::Real(_) => "Number(Real("@,
                    }) + inner + "))"@;
                assert(inner == number.text());
            }
            if text == value.debug_text() {
                assert(number.written(number.text()));
                assert(value.inspects(text));
            }
        },
        _ => {},
    }
}

proof fn lemma_exact_values_are_written_one_way<R: RealNumber>(values: Seq<Value<R>>)
    requires
        all_exact(values),
    ensures
        forall|i: int, text: Seq<char>|
            0 <= i < values.len() ==> ((#[trigger] values[i].displays(text)) <==> text
                == values[i].text()),
        forall|i: int, text: Seq<char>|
            0 <= i < values.len() ==> ((#[trigger] values[i].inspects(text)) <==> text
                == values[i].debug_text()),
    decreases values,
{
    assert forall|i: int, text: Seq<char>| 0 <= i < values.len() implies ((
    #[trigger] values[i].displays(text)) <==> text == values[i].text()) by {
        lemma_exact_value_is_written_one_way(values[i], text);
    }
    assert forall|i: int, text: Seq<char>| 0 <= i < values.len() implies ((
    #[trigger] values[i].inspects(text)) <==> text == values[i].debug_text()) by {
        lemma_exact_value_is_written_one_way(values[i], text);
    }
}

} // verus!
