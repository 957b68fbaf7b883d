//! Numbers: exact integers and rationals, and inexact reals.
//!
//! Exact arithmetic is done here and is stated in full. Inexact
//! arithmetic is that of the type behind [`RealNumber`]. Of an inexact
//! result it is stated which operation of that type gave it, and for
//! what: `call_ensures(R::sum, (x, y), r)` says that `r` is what the call
//! `R::sum(x, y)` returned.

use crate::error::{logic_error, ErrorView, SchemeError};
use crate::text::{decimal, decimal_text};
use vstd::arithmetic::div_mod::{
    lemma_div_is_ordered, lemma_div_nonincreasing, lemma_fundamental_div_mod,
    lemma_fundamental_div_mod_converse_div, lemma_fundamental_div_mod_converse_mod,
    lemma_mod_bound,
};
use vstd::prelude::*;
use vstd::std_specs::cmp::PartialEqSpecImpl;
use vstd::string::*;

verus! {

/// An inexact number: a floating-point type. What its operations return
/// is its own affair.
pub trait RealNumber: Copy {
    fn from_integer(value: i32) -> Self;

    /// The quotient of an integer and a positive integer.
    fn from_ratio(numerator: i32, denominator: u32) -> Self;

    fn sum(self, other: Self) -> Self;

    fn difference(self, other: Self) -> Self;

    fn product(self, other: Self) -> Self;

    fn quotient(self, other: Self) -> Self;

    fn is_zero(self) -> bool;

    fn less(self, other: Self) -> bool;

    fn equals(self, other: Self) -> bool;

    fn square_root(self) -> Self;

    fn floor(self) -> Self;

    fn ceiling(self) -> Self;

    /// A numerator and a denominator whose quotient is this number or
    /// near it; `None` where there is no such pair.
    fn to_ratio(self) -> Option<(i32, u32)>;

    fn to_text(self) -> String;
}

/// A number. `Integer` and `Rational` are exact, `Real` is inexact.
///
/// Two numbers are equal where they have the same value, whatever their
/// form; with an inexact number that is for its type to say.
#[derive(Clone, Copy, Debug)]
pub enum Number<R: RealNumber> {
    Integer(i32),
    /// Numerator and denominator; the denominator is not zero.
    Rational(i32, u32),
    Real(R),
}

impl<R: RealNumber> PartialEq for Number<R> {
    fn eq(&self, other: &Number<R>) -> (equal: bool) {
        self.equals(*other)
    }
}

impl<R: RealNumber> PartialEqSpecImpl for Number<R> {
    /// What `==` gives is not stated here: see [`Number::equals`].
    open spec fn obeys_eq_spec() -> bool {
        false
    }

    open spec fn eq_spec(&self, other: &Number<R>) -> bool {
        self.same_value(*other)
    }
}

/// The error for an exact result that no `Integer` or `Rational` holds.
pub open spec fn out_of_range() -> ErrorView {
    logic_error("exact number out of range"@)
}

pub open spec fn division_by_zero() -> ErrorView {
    logic_error("division by zero"@)
}

/// The error for an inexact number that has no exact counterpart.
pub open spec fn not_exact() -> ErrorView {
    logic_error("cannot convert to an exact number"@)
}

/// The greatest common divisor, by Euclid's algorithm.
pub open spec fn gcd(a: nat, b: nat) -> nat
    decreases b,
{
    if b == 0 {
        a
    } else {
        proof {
            lemma_mod_bound(a as int, b as int);
        }
        gcd(b, a % b)
    }
}

pub open spec fn magnitude(value: int) -> int {
    if value < 0 {
        -value
    } else {
        value
    }
}

/// Numerator and denominator of `p / q` in lowest terms, for `q > 0`: both
/// divided by their greatest common divisor, the sign on the numerator.
pub open spec fn lowest_terms(p: int, q: int) -> (int, int) {
    let divisor = gcd(magnitude(p) as nat, q as nat) as int;
    (if p < 0 {
        -(magnitude(p) / divisor)
    } else {
        magnitude(p) / divisor
    }, q / divisor)
}

/// The number `numerator / denominator`, an `Integer` where the
/// denominator is one.
pub open spec fn number_of<R: RealNumber>(numerator: int, denominator: int) -> Number<R> {
    if denominator == 1 {
        Number::Integer(numerator as i32)
    } else {
        Number::Rational(numerator as i32, denominator as u32)
    }
}

/// The exact number `p / q`, for `q > 0`, in canonical form; an error
/// where its numerator or denominator is out of range.
pub open spec fn exact_result<R: RealNumber>(p: int, q: int) -> Result<Number<R>, ErrorView> {
    let (numerator, denominator) = lowest_terms(p, q);
    if i32::MIN <= numerator <= i32::MAX && denominator <= u32::MAX {
        Ok(number_of(numerator, denominator))
    } else {
        Err(out_of_range())
    }
}

pub open spec fn number_outcome<R: RealNumber>(outcome: Result<Number<R>, SchemeError>) -> Result<
    Number<R>,
    ErrorView,
> {
    match outcome {
        Ok(number) => Ok(number),
        Err(error) => Err(error@),
    }
}

/// Whether `root` is the integer part of the square root of `value`.
pub open spec fn is_root(root: nat, value: nat) -> bool {
    root * root <= value < (root + 1) * (root + 1)
}

/// The integer part of the square root.
pub open spec fn root(value: nat) -> nat {
    choose|root: nat| is_root(root, value)
}

pub open spec fn is_square(value: int) -> bool {
    value >= 0 && root(value as nat) * root(value as nat) == value
}

/// The quotient of `a` by `b` rounded down, for `b` other than zero.
pub open spec fn floor_quotient(a: int, b: int) -> int {
    if b > 0 {
        a / b
    } else {
        (-a) / (-b)
    }
}

/// What is left of `a` beside `floor_quotient(a, b)` times `b`.
pub open spec fn floor_remainder(a: int, b: int) -> int {
    a - b * floor_quotient(a, b)
}

proof fn lemma_gcd_bounds(a: nat, b: nat)
    requires
        b > 0,
    ensures
        0 < gcd(a, b) <= b,
    decreases b,
{
    lemma_mod_bound(a as int, b as int);
    if a % b != 0 {
        lemma_gcd_bounds(b, a % b);
    } else {
        assert(gcd(b, 0) == b);
    }
}

proof fn lemma_root_unique(first: nat, second: nat, value: nat)
    requires
        is_root(first, value),
        is_root(second, value),
    ensures
        first == second,
{
    if first < second {
        assert((first + 1) * (first + 1) <= second * second) by (nonlinear_arith)
            requires
                first + 1 <= second,
        ;
    }
    if second < first {
        assert((second + 1) * (second + 1) <= first * first) by (nonlinear_arith)
            requires
                second + 1 <= first,
        ;
    }
}

fn greatest_common_divisor(a: u128, b: u128) -> (divisor: u128)
    ensures
        divisor == gcd(a as nat, b as nat),
{
    let mut x: u128 = a;
    let mut y: u128 = b;
    while y != 0
        invariant
            gcd(x as nat, y as nat) == gcd(a as nat, b as nat),
        decreases y,
    {
        let rest: u128 = x % y;
        x = y;
        y = rest;
    }
    x
}

/// The product of a numerator and a denominator.
fn scaled(numerator: i32, denominator: u32) -> (product: i128)
    ensures
        product == numerator * denominator,
        -0x8000_0000_0000_0000 <= product <= 0x8000_0000_0000_0000,
{
    assert(-0x8000_0000_0000_0000 <= numerator * denominator <= 0x8000_0000_0000_0000)
        by (nonlinear_arith)
        requires
            -0x8000_0000 <= numerator <= 0x7fff_ffff,
            0 <= denominator <= 0xffff_ffff,
    ;
    (numerator as i128) * (denominator as i128)
}

/// The product of two denominators.
fn common_denominator(first: u32, second: u32) -> (product: i128)
    requires
        first != 0,
        second != 0,
    ensures
        product == first * second,
        0 < product <= 0x1_0000_0000_0000_0000,
{
    assert(0 < first * second <= 0x1_0000_0000_0000_0000) by (nonlinear_arith)
        requires
            0 < first <= 0xffff_ffff,
            0 < second <= 0xffff_ffff,
    ;
    (first as i128) * (second as i128)
}

fn size_of(value: i32) -> (size: u32)
    ensures
        size == magnitude(value as int),
{
    if value < 0 {
        (0 - (value as i64)) as u32
    } else {
        value as u32
    }
}

/// Quotient and remainder of `x` by `y`, the remainder never negative.
fn divided(x: i64, y: i64) -> (parts: (i64, i64))
    requires
        0 < y <= 0x1_0000_0000,
        -0x1_0000_0000 <= x <= 0x1_0000_0000,
    ensures
        parts.0 == x / y,
        parts.1 == x % y,
        -0x1_0000_0001 <= parts.0 <= 0x1_0000_0000,
        0 <= parts.1 < y,
{
    proof {
        lemma_mod_bound(x as int, y as int);
    }
    if x >= 0 {
        let a: u64 = x as u64;
        let b: u64 = y as u64;
        proof {
            lemma_div_nonincreasing(a as int, b as int);
        }
        ((a / b) as i64, (a % b) as i64)
    } else {
        let a: u64 = (0 - x) as u64;
        let b: u64 = y as u64;
        let whole: u64 = a / b;
        let rest: u64 = a % b;
        proof {
            lemma_fundamental_div_mod(a as int, b as int);
            lemma_div_nonincreasing(a as int, b as int);
            lemma_mod_bound(a as int, b as int);
        }
        if rest == 0 {
            proof {
                assert(x == (-(whole as int)) * y + 0) by (nonlinear_arith)
                    requires
                        a == b * whole + rest,
                        rest == 0,
                        x == -a,
                        y == b,
                ;
                lemma_fundamental_div_mod_converse_div(x as int, y as int, -(whole as int), 0);
                lemma_fundamental_div_mod_converse_mod(x as int, y as int, -(whole as int), 0);
            }
            (0 - (whole as i64), 0)
        } else {
            proof {
                assert(x == (-(whole as int) - 1) * y + (y - rest)) by (nonlinear_arith)
                    requires
                        a == b * whole + rest,
                        x == -a,
                        y == b,
                ;
                lemma_fundamental_div_mod_converse_div(
                    x as int,
                    y as int,
                    -(whole as int) - 1,
                    y - rest,
                );
                lemma_fundamental_div_mod_converse_mod(
                    x as int,
                    y as int,
                    -(whole as int) - 1,
                    y - rest,
                );
            }
            (0 - (whole as i64) - 1, y - (rest as i64))
        }
    }
}

/// The integer part of the square root of `value`.
fn integer_root(value: u32) -> (found: u32)
    ensures
        found == root(value as nat),
        is_root(found as nat, value as nat),
        found <= 0xffff,
{
    let target: u64 = value as u64;
    let mut low: u64 = 0;
    let mut high: u64 = 0x1_0000;
    assert(0x1_0000 * 0x1_0000 > target) by (nonlinear_arith)
        requires
            target <= 0xffff_ffff,
    ;
    while high - low > 1
        invariant
            low < high <= 0x1_0000,
            low * low <= target < high * high,
            target == value,
        decreases high - low,
    {
        let middle: u64 = low + (high - low) / 2;
        assert(middle * middle <= 0x1_0000 * 0x1_0000) by (nonlinear_arith)
            requires
                0 <= middle <= 0x1_0000,
        ;
        if middle * middle <= target {
            low = middle;
        } else {
            high = middle;
        }
    }
    proof {
        assert(is_root(low as nat, value as nat));
        lemma_root_unique(low as nat, root(value as nat), value as nat);
    }
    low as u32
}

/// The four operations of arithmetic.
#[derive(Clone, Copy, Debug, PartialEq, Eq)]
pub enum Arithmetic {
    Add,
    Sub,
    Mul,
    Div,
}

/// The relations of order.
#[derive(Clone, Copy, Debug, PartialEq, Eq)]
pub enum Relation {
    Equal,
    Less,
    LessEqual,
    Greater,
    GreaterEqual,
}

/// What an operation makes of two exact numbers.
pub open spec fn exactly<R: RealNumber>(
    operation: Arithmetic,
    left: Number<R>,
    right: Number<R>,
) -> Result<Number<R>, ErrorView> {
    match operation {
        Arithmetic::Add => left.exact_sum(right),
        Arithmetic::Sub => left.exact_difference(right),
        Arithmetic::Mul => left.exact_product(right),
        Arithmetic::Div => left.exact_quotient(right),
    }
}

/// Whether `outcome` is what an operation made of two inexact numbers:
/// what their type gave for them, and for a division an error where it
/// took the divisor for zero.
pub open spec fn inexactly<R: RealNumber>(
    operation: Arithmetic,
    left: R,
    right: R,
    outcome: Result<Number<R>, ErrorView>,
) -> bool {
    match operation {
        Arithmetic::Add => outcome matches Ok(Number::Real(result)) && call_ensures(
            R::sum,
            (left, right),
            result,
        ),
        Arithmetic::Sub => outcome matches Ok(Number::Real(result)) && call_ensures(
            R::difference,
            (left, right),
            result,
        ),
        Arithmetic::Mul => outcome matches Ok(Number::Real(result)) && call_ensures(
            R::product,
            (left, right),
            result,
        ),
        Arithmetic::Div => exists|zero: bool| #[trigger]
            call_ensures(R::is_zero, (right,), zero) && if zero {
                outcome == Err::<Number<R>, ErrorView>(division_by_zero())
            } else {
                outcome matches Ok(Number::Real(result)) && call_ensures(
                    R::quotient,
                    (left, right),
                    result,
                )
            },
    }
}

/// Whether `outcome` is what an operation makes of two numbers. Of exact
/// numbers it is the exact result. With an inexact number, both are taken
/// as inexact and the operation is that of their type.
pub open spec fn combines<R: RealNumber>(
    operation: Arithmetic,
    left: Number<R>,
    right: Number<R>,
    outcome: Result<Number<R>, ErrorView>,
) -> bool {
    if left.is_exact() && right.is_exact() {
        outcome == exactly(operation, left, right)
    } else {
        exists|x: R, y: R|
            #![trigger left.converts(x), right.converts(y)]
            left.converts(x) && right.converts(y) && inexactly(operation, x, y, outcome)
    }
}

/// Whether a relation holds between two exact numbers.
pub open spec fn holds<R: RealNumber>(relation: Relation, left: Number<R>, right: Number<R>) -> bool {
    match relation {
        Relation::Equal => left.same_value(right),
        Relation::Less => left.below(right),
        Relation::LessEqual => left.below(right) || left.same_value(right),
        Relation::Greater => right.below(left),
        Relation::GreaterEqual => right.below(left) || right.same_value(left),
    }
}

/// Whether `answer` is what the type of two inexact numbers said of
/// them: `<` and `=` are its own, `<=` is `<` or else `=`, and `>` and
/// `>=` are `<` and `<=` the other way round.
pub open spec fn inexactly_holds<R: RealNumber>(
    relation: Relation,
    left: R,
    right: R,
    answer: bool,
) -> bool {
    match relation {
        Relation::Equal => call_ensures(R::equals, (left, right), answer),
        Relation::Less => call_ensures(R::less, (left, right), answer),
        Relation::LessEqual => below_or_equal(left, right, answer),
        Relation::Greater => call_ensures(R::less, (right, left), answer),
        Relation::GreaterEqual => below_or_equal(right, left, answer),
    }
}

pub open spec fn below_or_equal<R: RealNumber>(left: R, right: R, answer: bool) -> bool {
    exists|below: bool| #[trigger]
        call_ensures(R::less, (left, right), below) && if below {
            answer
        } else {
            call_ensures(R::equals, (left, right), answer)
        }
}

/// Whether `answer` says that a relation holds between two numbers.
/// Between exact numbers it is so. With an inexact number, both are
/// taken as inexact and the answer is that of their type.
pub open spec fn compares<R: RealNumber>(
    relation: Relation,
    left: Number<R>,
    right: Number<R>,
    answer: bool,
) -> bool {
    if left.is_exact() && right.is_exact() {
        answer == holds(relation, left, right)
    } else {
        exists|x: R, y: R|
            #![trigger left.converts(x), right.converts(y)]
            left.converts(x) && right.converts(y) && inexactly_holds(relation, x, y, answer)
    }
}

/// The exact number for the ratio that an inexact number gave of itself.
pub open spec fn exact_of_ratio<R: RealNumber>(ratio: Option<(i32, u32)>) -> Result<
    Number<R>,
    ErrorView,
> {
    match ratio {
        Some((numerator, denominator)) => if denominator == 0 {
            Err(not_exact())
        } else {
            exact_result::<R>(numerator as int, denominator as int)
        },
        None => Err(not_exact()),
    }
}

impl<R: RealNumber> Number<R> {
    pub open spec fn is_exact(self) -> bool {
        !(self is Real)
    }

    /// A rational has a denominator other than zero.
    pub open spec fn well_formed(self) -> bool {
        self matches Number::Rational(_, denominator) ==> denominator != 0
    }

    /// Of an exact number; its denominator is then positive.
    pub open spec fn numerator(self) -> int {
        match self {
            Number::Integer(value) => value as int,
            Number::Rational(numerator, _) => numerator as int,
            Number::Real(_) => 0,
        }
    }

    pub open spec fn denominator(self) -> int {
        match self {
            Number::Integer(_) => 1,
            Number::Rational(_, denominator) => denominator as int,
            Number::Real(_) => 1,
        }
    }

    /// Whether two exact numbers have the same value.
    pub open spec fn same_value(self, other: Number<R>) -> bool {
        self.numerator() * other.denominator() == other.numerator() * self.denominator()
    }

    /// Whether the value of an exact number is below that of another.
    pub open spec fn below(self, other: Number<R>) -> bool {
        self.numerator() * other.denominator() < other.numerator() * self.denominator()
    }

    /// How an exact number is written: an integer in decimal, a rational
    /// as numerator, `/` and denominator.
    pub open spec fn text(self) -> Seq<char> {
        match self {
            Number::Integer(value) => decimal(value as int),
            Number::Rational(numerator, denominator) => decimal(numerator as int) + seq!['/']
                + decimal(denominator as int),
            Number::Real(_) => Seq::empty(),
        }
    }

    /// The sum of two exact numbers.
    pub open spec fn exact_sum(self, other: Number<R>) -> Result<Number<R>, ErrorView> {
        exact_result(
            self.numerator() * other.denominator() + other.numerator() * self.denominator(),
            self.denominator() * other.denominator(),
        )
    }

    /// The difference of two exact numbers.
    pub open spec fn exact_difference(self, other: Number<R>) -> Result<Number<R>, ErrorView> {
        exact_result(
            self.numerator() * other.denominator() - other.numerator() * self.denominator(),
            self.denominator() * other.denominator(),
        )
    }

    /// The product of two exact numbers.
    pub open spec fn exact_product(self, other: Number<R>) -> Result<Number<R>, ErrorView> {
        exact_result(
            self.numerator() * other.numerator(),
            self.denominator() * other.denominator(),
        )
    }

    /// The quotient of two exact numbers.
    pub open spec fn exact_quotient(self, other: Number<R>) -> Result<Number<R>, ErrorView> {
        if other.numerator() == 0 {
            Err(division_by_zero())
        } else if other.numerator() > 0 {
            exact_result(
                self.numerator() * other.denominator(),
                self.denominator() * other.numerator(),
            )
        } else {
            exact_result(
                -(self.numerator() * other.denominator()),
                self.denominator() * (-other.numerator()),
            )
        }
    }

    /// The square root of an exact number, where it is exact.
    pub open spec fn exact_root(self) -> Option<Number<R>> {
        let (numerator, denominator) = lowest_terms(self.numerator(), self.denominator());
        if is_square(numerator) && is_square(denominator) {
            Some(number_of(root(numerator as nat) as int, root(denominator as nat) as int))
        } else {
            None
        }
    }

    /// The greatest integer not above an exact number.
    pub open spec fn exact_floor(self) -> Number<R> {
        Number::Integer((self.numerator() / self.denominator()) as i32)
    }

    /// The least integer not below an exact number.
    pub open spec fn exact_ceiling(self) -> Number<R> {
        Number::Integer(
            (if self.numerator() % self.denominator() == 0 {
                self.numerator() / self.denominator()
            } else {
                self.numerator() / self.denominator() + 1
            }) as i32,
        )
    }

    /// The quotient of two integers rounded down.
    pub open spec fn exact_floor_quotient(self, other: Number<R>) -> Result<Number<R>, ErrorView> {
        if other.numerator() == 0 {
            Err(division_by_zero())
        } else if i32::MIN <= floor_quotient(self.numerator(), other.numerator()) <= i32::MAX {
            Ok(Number::Integer(floor_quotient(self.numerator(), other.numerator()) as i32))
        } else {
            Err(out_of_range())
        }
    }

    /// What the quotient of two integers rounded down leaves.
    pub open spec fn exact_floor_remainder(self, other: Number<R>) -> Result<Number<R>, ErrorView> {
        if other.numerator() == 0 {
            Err(division_by_zero())
        } else {
            Ok(Number::Integer(floor_remainder(self.numerator(), other.numerator()) as i32))
        }
    }

    /// Whether a rational is in lowest terms with a denominator above
    /// one.
    pub open spec fn canonical(self) -> bool {
        match self {
            Number::Rational(numerator, denominator) => denominator >= 2 && gcd(
                magnitude(numerator as int) as nat,
                denominator as nat,
            ) == 1,
            _ => true,
        }
    }

    /// Where in the order integer, rational, real the number stands.
    pub open spec fn level(self) -> int {
        match self {
            Number::Integer(_) => 0,
            Number::Rational(_, _) => 1,
            Number::Real(_) => 2,
        }
    }

    /// Whether `inexact` is what the type of inexact numbers makes of the
    /// number: an inexact number is itself.
    pub open spec fn converts(self, inexact: R) -> bool {
        match self {
            Number::Integer(value) => call_ensures(R::from_integer, (value,), inexact),
            Number::Rational(numerator, denominator) => call_ensures(
                R::from_ratio,
                (numerator, denominator),
                inexact,
            ),
            Number::Real(held) => inexact == held,
        }
    }

    /// Whether `found` is the square root of the number: the exact one
    /// where there is one, else what the type of inexact numbers gives for
    /// the number.
    pub open spec fn takes_root(self, found: Number<R>) -> bool {
        if self.is_exact() && self.exact_root() is Some {
            found == self.exact_root()->0
        } else {
            exists|x: R| #[trigger]
                self.converts(x) && (found matches Number::Real(result) && call_ensures(
                    R::square_root,
                    (x,),
                    result,
                ))
        }
    }

    /// Whether `whole` is the number rounded down.
    pub open spec fn rounds_down(self, whole: Number<R>) -> bool {
        match self {
            Number::Real(held) => whole matches Number::Real(result) && call_ensures(
                R::floor,
                (held,),
                result,
            ),
            _ => whole == self.exact_floor(),
        }
    }

    /// Whether `whole` is the number rounded up.
    pub open spec fn rounds_up(self, whole: Number<R>) -> bool {
        match self {
            Number::Real(held) => whole matches Number::Real(result) && call_ensures(
                R::ceiling,
                (held,),
                result,
            ),
            _ => whole == self.exact_ceiling(),
        }
    }

    /// Whether `outcome` is the exact number for the number: itself
    /// where it is exact, else the one for the ratio that it gives of
    /// itself.
    pub open spec fn makes_exact(self, outcome: Result<Number<R>, ErrorView>) -> bool {
        match self {
            Number::Real(held) => exists|ratio: Option<(i32, u32)>| #[trigger]
                call_ensures(R::to_ratio, (held,), ratio) && outcome == exact_of_ratio::<R>(ratio),
            _ => outcome == Ok::<Number<R>, ErrorView>(self),
        }
    }

    /// Whether `outcome` is the quotient of two numbers rounded down. Of
    /// integers it is an integer. Otherwise both are taken as inexact, and
    /// it is their quotient rounded down, as their type gives them.
    pub open spec fn floor_divides(self, other: Number<R>, outcome: Result<Number<R>, ErrorView>) -> bool {
        if self is Integer && other is Integer {
            outcome == self.exact_floor_quotient(other)
        } else {
            exists|x: R, y: R, zero: bool|
                #![trigger self.converts(x), other.converts(y), call_ensures(R::is_zero, (y,), zero)]
                self.converts(x) && other.converts(y) && call_ensures(R::is_zero, (y,), zero)
                    && if zero {
                    outcome == Err::<Number<R>, ErrorView>(division_by_zero())
                } else {
                    exists|quotient: R| #[trigger]
                        call_ensures(R::quotient, (x, y), quotient) && (outcome matches Ok(
                            Number::Real(result),
                        ) && call_ensures(R::floor, (quotient,), result))
                }
        }
    }

    /// Whether `outcome` is what the quotient of two numbers rounded down
    /// leaves. Of integers it is an integer. Otherwise both are taken as
    /// inexact, and it is the dividend less the divisor times the
    /// quotient rounded down, as their type gives them.
    pub open spec fn floor_leaves(self, other: Number<R>, outcome: Result<Number<R>, ErrorView>) -> bool {
        if self is Integer && other is Integer {
            outcome == self.exact_floor_remainder(other)
        } else {
            exists|x: R, y: R, zero: bool|
                #![trigger self.converts(x), other.converts(y), call_ensures(R::is_zero, (y,), zero)]
                self.converts(x) && other.converts(y) && call_ensures(R::is_zero, (y,), zero)
                    && if zero {
                    outcome == Err::<Number<R>, ErrorView>(division_by_zero())
                } else {
                    exists|quotient: R, whole: R, taken: R|
                        #![trigger call_ensures(R::quotient, (x, y), quotient), call_ensures(R::floor, (quotient,), whole), call_ensures(R::product, (y, whole), taken)]
                        call_ensures(R::quotient, (x, y), quotient) && call_ensures(
                            R::floor,
                            (quotient,),
                            whole,
                        ) && call_ensures(R::product, (y, whole), taken) && (outcome matches Ok(
                            Number::Real(result),
                        ) && call_ensures(R::difference, (x, taken), result))
                }
        }
    }

    /// Whether `text` is the number written out: an exact number as
    /// [`Number::text`] has it, an inexact one as its type writes it.
    pub open spec fn written(self, text: Seq<char>) -> bool {
        match self {
            Number::Real(held) => exists|given: String| #[trigger]
                call_ensures(R::to_text, (held,), given) && given@ == text,
            _ => text == self.text(),
        }
    }

    /// Whether the number is exact.
    pub fn is_exact_number(&self) -> (exact: bool)
        ensures
            exact == self.is_exact(),
    {
        match self {
            Number::Real(_) => false,
            _ => true,
        }
    }

    /// Whether the number is fit for arithmetic.
    pub fn is_well_formed(&self) -> (fit: bool)
        ensures
            fit == self.well_formed(),
    {
        match self {
            Number::Rational(_, denominator) => *denominator != 0,
            _ => true,
        }
    }

    /// Numerator and denominator of an exact number.
    fn exact_parts(self) -> (parts: Option<(i32, u32)>)
        ensures
            self.is_exact() ==> parts == Some((self.numerator() as i32, self.denominator() as u32)),
            !self.is_exact() ==> parts is None,
    {
        match self {
            Number::Integer(value) => Some((value, 1)),
            Number::Rational(numerator, denominator) => Some((numerator, denominator)),
            Number::Real(_) => None,
        }
    }

    /// The number as an inexact one.
    fn to_real(self) -> (inexact: R)
        ensures
            self.converts(inexact),
    {
        match self {
            Number::Integer(value) => R::from_integer(value),
            Number::Rational(numerator, denominator) => R::from_ratio(numerator, denominator),
            Number::Real(inexact) => inexact,
        }
    }

    /// The exact number `p / q` in canonical form.
    fn from_ratio(p: i128, q: i128) -> (number: Result<Number<R>, SchemeError>)
        requires
            0 < q <= 0x1_0000_0000_0000_0000_0000,
            -0x1_0000_0000_0000_0000_0000 <= p <= 0x1_0000_0000_0000_0000_0000,
        ensures
            number_outcome(number) == exact_result::<R>(p as int, q as int),
            number matches Ok(found) ==> found.well_formed() && found.is_exact(),
    {
        let negative: bool = p < 0;
        let size: u128 = if negative {
            (0 - p) as u128
        } else {
            p as u128
        };
        let divisor: u128 = greatest_common_divisor(size, q as u128);
        proof {
            lemma_gcd_bounds(size as nat, q as nat);
            lemma_div_nonincreasing(size as int, divisor as int);
            lemma_div_nonincreasing(q as int, divisor as int);
            lemma_div_is_ordered(divisor as int, q as int, divisor as int);
            assert(divisor / divisor == 1) by (nonlinear_arith)
                requires
                    divisor > 0,
            ;
        }
        let top: u128 = size / divisor;
        let bottom: u128 = (q as u128) / divisor;
        if bottom > 0xffff_ffff {
            return Err(SchemeError::logic_text("exact number out of range"));
        }
        if negative {
            if top > 0x8000_0000 {
                Err(SchemeError::logic_text("exact number out of range"))
            } else {
                let numerator: i32 = (0 - (top as i64)) as i32;
                Ok(Self::build(numerator, bottom as u32))
            }
        } else {
            if top > 0x7fff_ffff {
                Err(SchemeError::logic_text("exact number out of range"))
            } else {
                Ok(Self::build(top as i32, bottom as u32))
            }
        }
    }

    fn build(numerator: i32, denominator: u32) -> (number: Number<R>)
        ensures
            number == number_of::<R>(numerator as int, denominator as int),
    {
        if denominator == 1 {
            Number::Integer(numerator)
        } else {
            Number::Rational(numerator, denominator)
        }
    }

    /// The rational `numerator / denominator` in canonical form: in
    /// lowest terms, the sign on the numerator, and an integer where the
    /// denominator comes to one. A denominator of zero is an error.
    pub fn rational(numerator: i32, denominator: u32) -> (number: Result<Number<R>, SchemeError>)
        ensures
            denominator == 0 ==> number_outcome(number) == Err::<Number<R>, ErrorView>(
                division_by_zero(),
            ),
            denominator != 0 ==> number_outcome(number) == exact_result::<R>(
                numerator as int,
                denominator as int,
            ),
            number matches Ok(found) ==> found.well_formed() && found.is_exact(),
    {
        if denominator == 0 {
            Err(SchemeError::logic_text("division by zero"))
        } else {
            Self::from_ratio(numerator as i128, denominator as i128)
        }
    }

    /// Both numbers in the least of the forms integer, rational, real that
    /// holds both, each on its own side. A number already in that form is
    /// handed back as it is.
    pub fn upcast_operands(self, other: Number<R>) -> (pair: (Number<R>, Number<R>))
        ensures
            pair.0.level() == pair.1.level(),
            pair.0.level() == if self.level() >= other.level() {
                self.level()
            } else {
                other.level()
            },
            self.level() >= other.level() ==> pair.0 == self,
            other.level() >= self.level() ==> pair.1 == other,
            self.is_exact() && other.is_exact() ==> pair.0.numerator() == self.numerator()
                && pair.0.denominator() == self.denominator() && pair.1.numerator()
                == other.numerator() && pair.1.denominator() == other.denominator(),
            self.well_formed() && other.well_formed() ==> pair.0.well_formed()
                && pair.1.well_formed(),
            pair.0 matches Number::Real(inexact) ==> self.converts(inexact),
            pair.1 matches Number::Real(inexact) ==> other.converts(inexact),
    {
        match (self, other) {
            (Number::Integer(value), Number::Rational(_, _)) => (Number::Rational(value, 1), other),
            (Number::Rational(_, _), Number::Integer(value)) => (self, Number::Rational(value, 1)),
            (Number::Real(_), Number::Integer(_)) => (self, Number::Real(other.to_real())),
            (Number::Real(_), Number::Rational(_, _)) => (self, Number::Real(other.to_real())),
            (Number::Integer(_), Number::Real(_)) => (Number::Real(self.to_real()), other),
            (Number::Rational(_, _), Number::Real(_)) => (Number::Real(self.to_real()), other),
            _ => (self, other),
        }
    }

    /// The sum. Of two exact numbers it is exact; with an inexact number
    /// it is inexact.
    pub fn sum(self, other: Number<R>) -> (total: Result<Number<R>, SchemeError>)
        requires
            self.well_formed(),
            other.well_formed(),
        ensures
            combines(Arithmetic::Add, self, other, number_outcome(total)),
            total matches Ok(found) ==> found.well_formed(),
    {
        match (self.exact_parts(), other.exact_parts()) {
            (Some((a, b)), Some((c, d))) => {
                let left: i128 = scaled(a, d);
                let right: i128 = scaled(c, b);
                let bottom: i128 = common_denominator(b, d);
                Self::from_ratio(left + right, bottom)
            },
            _ => Ok(Number::Real(self.to_real().sum(other.to_real()))),
        }
    }

    /// The difference.
    pub fn difference(self, other: Number<R>) -> (rest: Result<Number<R>, SchemeError>)
        requires
            self.well_formed(),
            other.well_formed(),
        ensures
            combines(Arithmetic::Sub, self, other, number_outcome(rest)),
            rest matches Ok(found) ==> found.well_formed(),
    {
        match (self.exact_parts(), other.exact_parts()) {
            (Some((a, b)), Some((c, d))) => {
                let left: i128 = scaled(a, d);
                let right: i128 = scaled(c, b);
                let bottom: i128 = common_denominator(b, d);
                Self::from_ratio(left - right, bottom)
            },
            _ => Ok(Number::Real(self.to_real().difference(other.to_real()))),
        }
    }

    /// The number with the sign turned: zero less the number.
    pub fn negate(self) -> (turned: Result<Number<R>, SchemeError>)
        requires
            self.well_formed(),
        ensures
            combines(Arithmetic::Sub, Number::Integer(0), self, number_outcome(turned)),
            turned matches Ok(found) ==> found.well_formed(),
    {
        Number::Integer(0).difference(self)
    }

    /// The product.
    pub fn product(self, other: Number<R>) -> (result: Result<Number<R>, SchemeError>)
        requires
            self.well_formed(),
            other.well_formed(),
        ensures
            combines(Arithmetic::Mul, self, other, number_outcome(result)),
            result matches Ok(found) ==> found.well_formed(),
    {
        match (self.exact_parts(), other.exact_parts()) {
            (Some((a, b)), Some((c, d))) => {
                assert(-0x4000_0000_0000_0000 <= a * c <= 0x4000_0000_0000_0000)
                    by (nonlinear_arith)
                    requires
                        -0x8000_0000 <= a <= 0x7fff_ffff,
                        -0x8000_0000 <= c <= 0x7fff_ffff,
                ;
                let top: i128 = (a as i128) * (c as i128);
                let bottom: i128 = common_denominator(b, d);
                Self::from_ratio(top, bottom)
            },
            _ => Ok(Number::Real(self.to_real().product(other.to_real()))),
        }
    }

    /// The quotient. Division by zero, exact or inexact, is an error.
    pub fn quotient(self, other: Number<R>) -> (result: Result<Number<R>, SchemeError>)
        requires
            self.well_formed(),
            other.well_formed(),
        ensures
            combines(Arithmetic::Div, self, other, number_outcome(result)),
            result matches Ok(found) ==> found.well_formed(),
    {
        match (self.exact_parts(), other.exact_parts()) {
            (Some((a, b)), Some((c, d))) => {
                if c == 0 {
                    Err(SchemeError::logic_text("division by zero"))
                } else {
                    let top: i128 = scaled(a, d);
                    let bottom: i128 = common_denominator(b, size_of(c));
                    if c > 0 {
                        Self::from_ratio(top, bottom)
                    } else {
                        Self::from_ratio(-top, bottom)
                    }
                }
            },
            _ => {
                let dividend = self.to_real();
                let divisor = other.to_real();
                let zero = divisor.is_zero();
                let result = if zero {
                    Err(SchemeError::logic_text("division by zero"))
                } else {
                    Ok(Number::Real(dividend.quotient(divisor)))
                };
                assert(inexactly(Arithmetic::Div, dividend, divisor, number_outcome(result)));
                result
            },
        }
    }

    /// What an operation makes of the number and another.
    pub fn combine(self, operation: Arithmetic, other: Number<R>) -> (result: Result<
        Number<R>,
        SchemeError,
    >)
        requires
            self.well_formed(),
            other.well_formed(),
        ensures
            combines(operation, self, other, number_outcome(result)),
            result matches Ok(found) ==> found.well_formed(),
    {
        match operation {
            Arithmetic::Add => self.sum(other),
            Arithmetic::Sub => self.difference(other),
            Arithmetic::Mul => self.product(other),
            Arithmetic::Div => self.quotient(other),
        }
    }

    /// Whether a relation holds between the number and another.
    pub fn compare(self, relation: Relation, other: Number<R>) -> (answer: bool)
        ensures
            compares(relation, self, other, answer),
    {
        match relation {
            Relation::Equal => self.equals(other),
            Relation::Less => self.less(other),
            Relation::LessEqual => self.less_equal(other),
            Relation::Greater => self.greater(other),
            Relation::GreaterEqual => self.greater_equal(other),
        }
    }

    /// Whether the number is below the other.
    pub fn less(self, other: Number<R>) -> (answer: bool)
        ensures
            compares(Relation::Less, self, other, answer),
    {
        match (self.exact_parts(), other.exact_parts()) {
            (Some((a, b)), Some((c, d))) => scaled(a, d) < scaled(c, b),
            _ => self.to_real().less(other.to_real()),
        }
    }

    /// Whether the two numbers have the same value.
    pub fn equals(self, other: Number<R>) -> (answer: bool)
        ensures
            compares(Relation::Equal, self, other, answer),
    {
        match (self.exact_parts(), other.exact_parts()) {
            (Some((a, b)), Some((c, d))) => scaled(a, d) == scaled(c, b),
            _ => self.to_real().equals(other.to_real()),
        }
    }

    /// Whether the number is below the other or has its value.
    pub fn less_equal(self, other: Number<R>) -> (answer: bool)
        ensures
            compares(Relation::LessEqual, self, other, answer),
    {
        match (self.exact_parts(), other.exact_parts()) {
            (Some((a, b)), Some((c, d))) => scaled(a, d) <= scaled(c, b),
            _ => {
                let left = self.to_real();
                let right = other.to_real();
                let below = left.less(right);
                let answer = if below {
                    true
                } else {
                    left.equals(right)
                };
                assert(below_or_equal(left, right, answer));
                answer
            },
        }
    }

    /// Whether the other number is below this one.
    pub fn greater(self, other: Number<R>) -> (answer: bool)
        ensures
            compares(Relation::Greater, self, other, answer),
    {
        other.less(self)
    }

    /// Whether the other number is below this one or has its value.
    pub fn greater_equal(self, other: Number<R>) -> (answer: bool)
        ensures
            compares(Relation::GreaterEqual, self, other, answer),
    {
        other.less_equal(self)
    }

    /// The greatest integer not above the number.
    pub fn floor(self) -> (whole: Number<R>)
        requires
            self.well_formed(),
        ensures
            self.rounds_down(whole),
            whole.well_formed(),
    {
        match self {
            Number::Integer(value) => Number::Integer(value),
            Number::Rational(numerator, denominator) => {
                let parts: (i64, i64) = divided(numerator as i64, denominator as i64);
                proof {
                    lemma_floor_in_range(numerator as int, denominator as int);
                }
                Number::Integer(parts.0 as i32)
            },
            Number::Real(inexact) => Number::Real(inexact.floor()),
        }
    }

    /// The least integer not below the number.
    pub fn ceiling(self) -> (whole: Number<R>)
        requires
            self.well_formed(),
        ensures
            self.rounds_up(whole),
            whole.well_formed(),
    {
        match self {
            Number::Integer(value) => Number::Integer(value),
            Number::Rational(numerator, denominator) => {
                let parts: (i64, i64) = divided(numerator as i64, denominator as i64);
                proof {
                    lemma_floor_in_range(numerator as int, denominator as int);
                }
                if parts.1 == 0 {
                    Number::Integer(parts.0 as i32)
                } else {
                    Number::Integer((parts.0 + 1) as i32)
                }
            },
            Number::Real(inexact) => Number::Real(inexact.ceiling()),
        }
    }

    /// The square root. It is exact where the number is exact and, in
    /// lowest terms, its numerator and its denominator are squares;
    /// otherwise it is inexact.
    pub fn sqrt(self) -> (found: Number<R>)
        requires
            self.well_formed(),
        ensures
            self.takes_root(found),
            found.well_formed(),
    {
        match self.exact_parts() {
            Some((a, b)) => {
                if a < 0 {
                    proof {
                        lemma_lowest_terms_sign(a as int, b as int);
                    }
                    return Number::Real(self.to_real().square_root());
                }
                let divisor: u128 = greatest_common_divisor(a as u128, b as u128);
                proof {
                    lemma_gcd_bounds(a as nat, b as nat);
                    lemma_div_nonincreasing(a as int, divisor as int);
                    lemma_div_nonincreasing(b as int, divisor as int);
                    lemma_div_is_ordered(divisor as int, b as int, divisor as int);
                    assert(divisor / divisor == 1) by (nonlinear_arith)
                        requires
                            divisor > 0,
                    ;
                }
                let top: u32 = ((a as u128) / divisor) as u32;
                let bottom: u32 = ((b as u128) / divisor) as u32;
                let top_root: u32 = integer_root(top);
                let bottom_root: u32 = integer_root(bottom);
                assert(top_root * top_root <= 0xffff * 0xffff && bottom_root * bottom_root <= 0xffff
                    * 0xffff) by (nonlinear_arith)
                    requires
                        top_root <= 0xffff,
                        bottom_root <= 0xffff,
                ;
                if top_root * top_root == top && bottom_root * bottom_root == bottom {
                    assert(bottom_root != 0) by (nonlinear_arith)
                        requires
                            bottom_root * bottom_root == bottom,
                            bottom >= 1,
                    ;
                    Self::build(top_root as i32, bottom_root)
                } else {
                    Number::Real(self.to_real().square_root())
                }
            },
            None => Number::Real(self.to_real().square_root()),
        }
    }

    /// The exact number with the value of this one: the number itself
    /// where it is exact.
    pub fn exact(self) -> (converted: Result<Number<R>, SchemeError>)
        ensures
            self.makes_exact(number_outcome(converted)),
            converted matches Ok(found) ==> found.is_exact() && (self.well_formed()
                ==> found.well_formed()),
    {
        match self {
            Number::Real(inexact) => Self::exact_from(inexact.to_ratio()),
            _ => Ok(self),
        }
    }

    /// The exact number for the ratio that an inexact number gave of
    /// itself: the ratio in canonical form. No ratio, and one with a
    /// denominator of zero, is an error.
    pub fn exact_from(ratio: Option<(i32, u32)>) -> (converted: Result<Number<R>, SchemeError>)
        ensures
            number_outcome(converted) == exact_of_ratio::<R>(ratio),
            converted matches Ok(found) ==> found.is_exact() && found.well_formed(),
    {
        match ratio {
            Some((numerator, denominator)) => if denominator == 0 {
                Err(SchemeError::logic_text("cannot convert to an exact number"))
            } else {
                Self::from_ratio(numerator as i128, denominator as i128)
            },
            None => Err(SchemeError::logic_text("cannot convert to an exact number")),
        }
    }

    /// The quotient rounded down. Of two integers it is an integer; a
    /// divisor of zero is an error. Where an operand is no integer, both
    /// are taken as inexact.
    pub fn floor_quotient(self, other: Number<R>) -> (result: Result<Number<R>, SchemeError>)
        requires
            self.well_formed(),
            other.well_formed(),
        ensures
            self.floor_divides(other, number_outcome(result)),
            result matches Ok(found) ==> found.well_formed(),
    {
        match (self, other) {
            (Number::Integer(a), Number::Integer(b)) => {
                if b == 0 {
                    Err(SchemeError::logic_text("division by zero"))
                } else {
                    let parts: (i64, i64) = if b > 0 {
                        divided(a as i64, b as i64)
                    } else {
                        divided(0 - (a as i64), 0 - (b as i64))
                    };
                    if parts.0 > 0x7fff_ffff || parts.0 < -0x8000_0000 {
                        Err(SchemeError::logic_text("exact number out of range"))
                    } else {
                        Ok(Number::Integer(parts.0 as i32))
                    }
                }
            },
            _ => {
                let dividend = self.to_real();
                let divisor = other.to_real();
                let zero = divisor.is_zero();
                if zero {
                    let result = Err(SchemeError::logic_text("division by zero"));
                    assert(self.floor_divides(other, number_outcome(result)));
                    result
                } else {
                    let quotient = dividend.quotient(divisor);
                    let result = Ok(Number::Real(quotient.floor()));
                    assert(self.floor_divides(other, number_outcome(result)));
                    result
                }
            },
        }
    }

    /// What the quotient rounded down leaves: `a - b * floor(a / b)`. It
    /// has the sign of the divisor.
    pub fn floor_remainder(self, other: Number<R>) -> (result: Result<Number<R>, SchemeError>)
        requires
            self.well_formed(),
            other.well_formed(),
        ensures
            self.floor_leaves(other, number_outcome(result)),
            self is Integer && other is Integer && other.numerator() != 0 ==> i32::MIN
                <= floor_remainder(self.numerator(), other.numerator()) <= i32::MAX,
            result matches Ok(found) ==> found.well_formed(),
    {
        match (self, other) {
            (Number::Integer(a), Number::Integer(b)) => {
                if b == 0 {
                    Err(SchemeError::logic_text("division by zero"))
                } else if b > 0 {
                    let parts: (i64, i64) = divided(a as i64, b as i64);
                    proof {
                        lemma_fundamental_div_mod(a as int, b as int);
                    }
                    Ok(Number::Integer(parts.1 as i32))
                } else {
                    let parts: (i64, i64) = divided(0 - (a as i64), 0 - (b as i64));
                    proof {
                        lemma_fundamental_div_mod(-(a as int), -(b as int));
                        assert(a - b * ((-a) / (-b)) == -((-a) % (-b))) by (nonlinear_arith)
                            requires
                                -a == (-b) * ((-a) / (-b)) + ((-a) % (-b)),
                        ;
                    }
                    Ok(Number::Integer((0 - parts.1) as i32))
                }
            },
            _ => {
                let dividend = self.to_real();
                let divisor = other.to_real();
                let zero = divisor.is_zero();
                if zero {
                    let result = Err(SchemeError::logic_text("division by zero"));
                    assert(self.floor_leaves(other, number_outcome(result)));
                    result
                } else {
                    let quotient = dividend.quotient(divisor);
                    let whole = quotient.floor();
                    let taken = divisor.product(whole);
                    let result = Ok(Number::Real(dividend.difference(taken)));
                    assert(self.floor_leaves(other, number_outcome(result)));
                    result
                }
            },
        }
    }

    /// The number written out. An inexact number is written as its type
    /// writes it.
    pub fn to_string(&self) -> (text: String)
        ensures
            self.written(text@),
    {
        match self {
            Number::Integer(value) => decimal_text(*value as i64),
            Number::Rational(numerator, denominator) => {
                let mut text = decimal_text(*numerator as i64);
                text.append("/");
                let bottom = decimal_text(*denominator as i64);
                text.append(bottom.as_str());
                proof {
                    reveal_strlit("/");
                    assert("/"@ =~= seq!['/']);
                }
                text
            },
            Number::Real(inexact) => inexact.to_text(),
        }
    }
}

proof fn lemma_floor_in_range(numerator: int, denominator: int)
    requires
        i32::MIN <= numerator <= i32::MAX,
        0 < denominator,
    ensures
        i32::MIN <= numerator / denominator <= i32::MAX,
{
    lemma_div_is_ordered(i32::MIN as int, numerator, denominator);
    lemma_div_is_ordered(numerator, i32::MAX as int, denominator);
    lemma_div_nonincreasing(i32::MAX as int, denominator);
    lemma_fundamental_div_mod(i32::MIN as int, denominator);
    lemma_mod_bound(i32::MIN as int, denominator);
    assert((i32::MIN as int) / denominator >= i32::MIN) by (nonlinear_arith)
        requires
            i32::MIN == denominator * ((i32::MIN as int) / denominator) + ((i32::MIN as int)
                % denominator),
            0 <= (i32::MIN as int) % denominator < denominator,
            denominator > 0,
    ;
}

proof fn lemma_lowest_terms_sign(p: int, q: int)
    requires
        p < 0,
        q > 0,
    ensures
        lowest_terms(p, q).0 < 0,
{
    let divisor = gcd(magnitude(p) as nat, q as nat) as int;
    lemma_gcd_bounds(magnitude(p) as nat, q as nat);
    lemma_gcd_divides(magnitude(p) as nat, q as nat);
    lemma_fundamental_div_mod(magnitude(p), divisor);
    assert(magnitude(p) / divisor > 0) by (nonlinear_arith)
        requires
            magnitude(p) == divisor * (magnitude(p) / divisor) + (magnitude(p) % divisor),
            magnitude(p) % divisor == 0,
            magnitude(p) > 0,
            divisor > 0,
    ;
}

/// The greatest common divisor divides both numbers.
pub proof fn lemma_gcd_divides(a: nat, b: nat)
    requires
        a > 0 || b > 0,
    ensures
        gcd(a, b) > 0,
        a % gcd(a, b) == 0,
        b % gcd(a, b) == 0,
    decreases b,
{
    if b == 0 {
        assert(a % a == 0) by (nonlinear_arith)
            requires
                a > 0,
        ;
    } else {
        lemma_mod_bound(a as int, b as int);
        lemma_gcd_divides(b, a % b);
        let g = gcd(a, b);
        lemma_fundamental_div_mod(a as int, b as int);
        lemma_fundamental_div_mod(b as int, g as int);
        lemma_fundamental_div_mod((a % b) as int, g as int);
        let x = (b / g) as int;
        let y = ((a % b) / g) as int;
        let k = (a / b) as int;
        assert(a == (g as int) * (x * k + y)) by (nonlinear_arith)
            requires
                a == b * k + (a % b),
                b == g * x,
                (a % b) == g * y,
        ;
        lemma_fundamental_div_mod_converse_mod(a as int, g as int, x * k + y, 0);
        assert((x * k + y) * (g as int) + 0 == a) by (nonlinear_arith)
            requires
                a == (g as int) * (x * k + y),
        ;
    }
}

proof fn lemma_multiple_is_divided(divisor: int, factor: int)
    requires
        divisor > 0,
    ensures
        (divisor * factor) % divisor == 0,
{
    assert(factor * divisor + 0 == divisor * factor) by (nonlinear_arith);
    lemma_fundamental_div_mod_converse_mod(divisor * factor, divisor, factor, 0);
}

/// Whatever divides both numbers divides their greatest common divisor.
pub proof fn lemma_gcd_is_greatest(a: nat, b: nat, divisor: nat)
    requires
        divisor > 0,
        a % divisor == 0,
        b % divisor == 0,
    ensures
        gcd(a, b) % divisor == 0,
    decreases b,
{
    if b != 0 {
        lemma_mod_bound(a as int, b as int);
        lemma_fundamental_div_mod(a as int, b as int);
        lemma_fundamental_div_mod(a as int, divisor as int);
        lemma_fundamental_div_mod(b as int, divisor as int);
        let x = (a / divisor) as int;
        let y = (b / divisor) as int;
        let k = (a / b) as int;
        assert((a % b) as int == (divisor as int) * (x - y * k)) by (nonlinear_arith)
            requires
                a == b * k + (a % b),
                a == divisor * x,
                b == divisor * y,
        ;
        lemma_multiple_is_divided(divisor as int, x - y * k);
        lemma_gcd_is_greatest(b, a % b, divisor);
    }
}

/// A fraction in lowest terms has the value of the fraction it was made
/// from, a positive denominator, and no divisor common to numerator and
/// denominator but one.
pub proof fn lemma_lowest_terms(p: int, q: int)
    requires
        q > 0,
    ensures
        lowest_terms(p, q).1 > 0,
        lowest_terms(p, q).0 * q == p * lowest_terms(p, q).1,
        gcd(magnitude(lowest_terms(p, q).0) as nat, lowest_terms(p, q).1 as nat) == 1,
{
    let size = magnitude(p);
    let g = gcd(size as nat, q as nat) as int;
    lemma_gcd_divides(size as nat, q as nat);
    lemma_gcd_bounds(size as nat, q as nat);
    lemma_fundamental_div_mod(size, g);
    lemma_fundamental_div_mod(q, g);
    let top = size / g;
    let bottom = q / g;
    assert(bottom > 0 && top >= 0) by (nonlinear_arith)
        requires
            q == g * bottom,
            size == g * top,
            q > 0,
            g > 0,
            size >= 0,
    ;
    assert(lowest_terms(p, q).0 * q == p * bottom) by (nonlinear_arith)
        requires
            q == g * bottom,
            size == g * top,
            lowest_terms(p, q).0 == (if p < 0 {
                -top
            } else {
                top
            }),
            size == (if p < 0 {
                -p
            } else {
                p
            }),
    ;
    assert(magnitude(lowest_terms(p, q).0) == top);
    let h = gcd(top as nat, bottom as nat) as int;
    lemma_gcd_divides(top as nat, bottom as nat);
    lemma_fundamental_div_mod(top, h);
    lemma_fundamental_div_mod(bottom, h);
    assert(size == (h * g) * (top / h) && q == (h * g) * (bottom / h) && h * g >= g && (h > 1
        ==> h * g > g)) by (nonlinear_arith)
        requires
            q == g * bottom,
            size == g * top,
            top == h * (top / h),
            bottom == h * (bottom / h),
            h > 0,
            g > 0,
    ;
    lemma_multiple_is_divided(h * g, top / h);
    lemma_multiple_is_divided(h * g, bottom / h);
    lemma_gcd_is_greatest(size as nat, q as nat, (h * g) as nat);
    if h > 1 {
        vstd::arithmetic::div_mod::lemma_small_mod(g as nat, (h * g) as nat);
    }
}

/// An exact result is exact and fit for arithmetic, it is in canonical
/// form, and it has the value asked for.
pub proof fn lemma_exact_result<R: RealNumber>(p: int, q: int)
    requires
        q > 0,
    ensures
        exact_result::<R>(p, q) matches Ok(number) ==> number.is_exact() && number.well_formed()
            && number.canonical() && number.numerator() * q == p * number.denominator(),
{
    lemma_lowest_terms(p, q);
}

/// The exact square root of a number, squared, has the value of the
/// number.
pub proof fn lemma_exact_root<R: RealNumber>(number: Number<R>)
    requires
        number.is_exact(),
        number.well_formed(),
    ensures
        number.exact_root() matches Some(found) ==> found.is_exact() && found.denominator() > 0
            && found.numerator() >= 0 && (found.numerator() * found.numerator())
            * number.denominator() == number.numerator() * (found.denominator()
            * found.denominator()),
{
    let (n, d) = lowest_terms(number.numerator(), number.denominator());
    lemma_lowest_terms(number.numerator(), number.denominator());
    if is_square(n) && is_square(d) {
        let a = root(n as nat) as int;
        let b = root(d as nat) as int;
        assert(b > 0) by (nonlinear_arith)
            requires
                b * b == d,
                d > 0,
                b >= 0,
        ;
        let divisor = gcd(magnitude(number.numerator()) as nat, number.denominator() as nat) as int;
        lemma_gcd_bounds(magnitude(number.numerator()) as nat, number.denominator() as nat);
        lemma_div_nonincreasing(magnitude(number.numerator()), divisor);
        lemma_div_nonincreasing(number.denominator(), divisor);
        lemma_root_fits(n as nat);
        lemma_root_fits(d as nat);
        assert((a * a) * number.denominator() == number.numerator() * (b * b));
    }
}

proof fn lemma_root_fits(value: nat)
    requires
        value <= 0xffff_ffff,
        root(value) * root(value) == value,
    ensures
        root(value) <= 0xffff,
{
    let r = root(value) as int;
    if r > 0xffff {
        assert(r * r >= 0x1_0000 * 0x1_0000) by (nonlinear_arith)
            requires
                r >= 0x1_0000,
        ;
    }
}

/// Division rounded down leaves nothing out: the quotient times the
/// divisor and the remainder make the dividend, and the remainder lies
/// between zero and the divisor.
pub proof fn lemma_floor_division(a: int, b: int)
    requires
        b != 0,
    ensures
        a == floor_quotient(a, b) * b + floor_remainder(a, b),
        b > 0 ==> 0 <= floor_remainder(a, b) < b,
        b < 0 ==> b < floor_remainder(a, b) <= 0,
{
    let q = floor_quotient(a, b);
    assert(q * b == b * q) by (nonlinear_arith);
    if b > 0 {
        lemma_fundamental_div_mod(a, b);
        lemma_mod_bound(a, b);
    } else {
        lemma_fundamental_div_mod(-a, -b);
        lemma_mod_bound(-a, -b);
        assert(a - b * ((-a) / (-b)) == -((-a) % (-b))) by (nonlinear_arith)
            requires
                -a == (-b) * ((-a) / (-b)) + ((-a) % (-b)),
        ;
    }
}

/// The floor of an exact number is not above it and less than one below
/// it; the ceiling is not below it and less than one above it.
pub proof fn lemma_floor_and_ceiling<R: RealNumber>(number: Number<R>)
    requires
        number.is_exact(),
        number.well_formed(),
    ensures
        number.exact_floor().numerator() * number.denominator() <= number.numerator(),
        number.numerator() < (number.exact_floor().numerator() + 1) * number.denominator(),
        number.numerator() <= number.exact_ceiling().numerator() * number.denominator(),
        (number.exact_ceiling().numerator() - 1) * number.denominator() < number.numerator(),
{
    let n = number.numerator();
    let d = number.denominator();
    lemma_floor_in_range(n, d);
    lemma_fundamental_div_mod(n, d);
    lemma_mod_bound(n, d);
    let f = n / d;
    let r = n % d;
    assert(f * d <= n && n < (f + 1) * d) by (nonlinear_arith)
        requires
            n == d * f + r,
            0 <= r < d,
    ;
    assert(number.exact_floor().numerator() == f);
    if r == 0 {
        assert(number.exact_ceiling().numerator() == f);
        assert((f - 1) * d < n) by (nonlinear_arith)
            requires
                n == d * f + r,
                r == 0,
                d > 0,
        ;
    } else {
        assert(f < i32::MAX) by (nonlinear_arith)
            requires
                n == d * f + r,
                0 < r,
                n <= i32::MAX,
                d >= 1,
        ;
        assert(number.exact_ceiling().numerator() == f + 1);
        assert(n <= (f + 1) * d && ((f + 1) - 1) * d < n) by (nonlinear_arith)
            requires
                n == d * f + r,
                0 < r < d,
        ;
    }
}

} // verus!
