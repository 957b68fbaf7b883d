use ruschm::error::{ErrorType, SchemeError};
use ruschm::number::{Arithmetic, Number, RealNumber, Relation};

#[derive(Clone, Copy, Debug, PartialEq)]
struct Double(f64);

impl RealNumber for Double {
    fn from_integer(value: i32) -> Self {
        Double(value as f64)
    }

    fn from_ratio(numerator: i32, denominator: u32) -> Self {
        Double(numerator as f64 / denominator as f64)
    }

    fn sum(self, other: Self) -> Self {
        Double(self.0 + other.0)
    }

    fn difference(self, other: Self) -> Self {
        Double(self.0 - other.0)
    }

    fn product(self, other: Self) -> Self {
        Double(self.0 * other.0)
    }

    fn quotient(self, other: Self) -> Self {
        Double(self.0 / other.0)
    }

    fn is_zero(self) -> bool {
        self.0 == 0.0
    }

    fn less(self, other: Self) -> bool {
        self.0 < other.0
    }

    fn equals(self, other: Self) -> bool {
        self.0 == other.0
    }

    fn square_root(self) -> Self {
        Double(self.0.sqrt())
    }

    fn floor(self) -> Self {
        Double(self.0.floor())
    }

    fn ceiling(self) -> Self {
        Double(self.0.ceil())
    }

    fn to_ratio(self) -> Option<(i32, u32)> {
        if self.0 == 0.125 {
            Some((2, 16))
        } else if self.0 == 7.0 {
            Some((7, 0))
        } else {
            None
        }
    }

    fn to_text(self) -> String {
        format!("{:?}", self.0)
    }
}

type N = Number<Double>;

/// Asserts that two values are the same in form, not only in value.
fn same<T: std::fmt::Debug>(left: T, right: T) {
    assert_eq!(format!("{:?}", left), format!("{:?}", right));
}

fn logic(message: &str) -> SchemeError {
    SchemeError {
        location: None,
        category: ErrorType::Logic,
        message: message.to_string(),
    }
}

#[test]
fn rationals_are_made_in_lowest_terms() {
    same(N::rational(2, 4), Ok(Number::Rational(1, 2)));
    same(N::rational(-6, 4), Ok(Number::Rational(-3, 2)));
    same(N::rational(6, 3), Ok(Number::Integer(2)));
    same(N::rational(0, 5), Ok(Number::Integer(0)));
    same(N::rational(7, 1), Ok(Number::Integer(7)));
    same(
        N::rational(i32::MIN, u32::MAX),
        Ok(Number::Rational(i32::MIN, u32::MAX))
    );
    same(
        N::rational(i32::MIN, 0x8000_0000),
        Ok(Number::Integer(-1))
    );
    same(N::rational(1, 0), Err(logic("division by zero")));
}

#[test]
fn well_formed_numbers() {
    assert!(N::Integer(3).is_well_formed());
    assert!(N::Rational(3, 4).is_well_formed());
    assert!(!N::Rational(3, 0).is_well_formed());
    assert!(N::Real(Double(0.5)).is_well_formed());
}

#[test]
fn exact_sums_and_differences() {
    same(N::Integer(2).sum(Number::Integer(3)), Ok(Number::Integer(5)));
    same(
        N::Rational(1, 6).sum(Number::Rational(1, 3)),
        Ok(Number::Rational(1, 2))
    );
    same(
        N::Rational(2, 4).sum(Number::Rational(2, 4)),
        Ok(Number::Integer(1))
    );
    same(
        N::Integer(i32::MIN).sum(Number::Integer(-1)),
        Err(logic("exact number out of range"))
    );
    same(
        N::Rational(1, u32::MAX).sum(Number::Rational(1, u32::MAX - 1)),
        Err(logic("exact number out of range"))
    );
    same(
        N::Integer(2).difference(Number::Rational(1, 3)),
        Ok(Number::Rational(5, 3))
    );
    same(
        N::Integer(i32::MIN).difference(Number::Integer(1)),
        Err(logic("exact number out of range"))
    );
    same(
        N::Integer(0).difference(Number::Integer(i32::MIN)),
        Err(logic("exact number out of range"))
    );
}

#[test]
fn exact_products_and_quotients() {
    same(
        N::Rational(-2, 3).product(Number::Rational(3, 4)),
        Ok(Number::Rational(-1, 2))
    );
    same(
        N::Integer(i32::MIN).product(Number::Integer(-1)),
        Err(logic("exact number out of range"))
    );
    same(
        N::Integer(i32::MIN).product(Number::Rational(1, 2)),
        Ok(Number::Integer(-0x4000_0000))
    );
    same(
        N::Integer(3).quotient(Number::Integer(-6)),
        Ok(Number::Rational(-1, 2))
    );
    same(
        N::Rational(1, 2).quotient(Number::Rational(1, 4)),
        Ok(Number::Integer(2))
    );
    same(
        N::Integer(1).quotient(Number::Integer(i32::MIN)),
        Ok(Number::Rational(-1, 0x8000_0000))
    );
    same(
        N::Integer(3).quotient(Number::Integer(0)),
        Err(logic("division by zero"))
    );
    same(
        N::Integer(3).quotient(Number::Real(Double(0.0))),
        Err(logic("division by zero"))
    );
}

#[test]
fn inexact_operands_give_inexact_results() {
    same(
        N::Integer(1).sum(Number::Real(Double(0.5))),
        Ok(Number::Real(Double(1.5)))
    );
    same(
        N::Real(Double(0.5)).difference(Number::Rational(1, 4)),
        Ok(Number::Real(Double(0.25)))
    );
    same(
        N::Rational(1, 2).product(Number::Real(Double(3.0))),
        Ok(Number::Real(Double(1.5)))
    );
    same(
        N::Real(Double(3.0)).quotient(Number::Integer(2)),
        Ok(Number::Real(Double(1.5)))
    );
}

#[test]
fn order_of_exact_numbers() {
    assert!(N::Rational(1, 3).less(Number::Rational(1, 2)));
    assert!(!N::Rational(1, 2).less(Number::Rational(1, 2)));
    assert!(N::Rational(-1, 2).less(Number::Integer(0)));
    assert!(N::Rational(2, 4).equals(Number::Rational(1, 2)));
    assert!(!N::Rational(2, 4).equals(Number::Rational(1, 3)));
    assert!(N::Integer(i32::MIN).less(Number::Rational(i32::MIN, u32::MAX)));
    assert!(N::Rational(1, 2).less_equal(Number::Rational(2, 4)));
    assert!(N::Integer(2).greater(Number::Rational(3, 2)));
    assert!(N::Integer(2).greater_equal(Number::Integer(2)));
    assert!(!N::Integer(1).greater_equal(Number::Integer(2)));
    assert!(N::Integer(1).less(Number::Real(Double(1.5))));
    assert!(N::Integer(1).equals(Number::Real(Double(1.0))));
}

#[test]
fn promotion_keeps_each_side() {
    same(
        N::Integer(2).upcast_operands(Number::Rational(1, 2)),
        (Number::Rational(2, 1), Number::Rational(1, 2))
    );
    same(
        N::Rational(1, 2).upcast_operands(Number::Integer(2)),
        (Number::Rational(1, 2), Number::Rational(2, 1))
    );
    same(
        N::Integer(2).upcast_operands(Number::Real(Double(0.5))),
        (Number::Real(Double(2.0)), Number::Real(Double(0.5)))
    );
    same(
        N::Real(Double(0.5)).upcast_operands(Number::Rational(1, 4)),
        (Number::Real(Double(0.5)), Number::Real(Double(0.25)))
    );
    same(
        N::Integer(2).upcast_operands(Number::Integer(3)),
        (Number::Integer(2), Number::Integer(3))
    );
}

#[test]
fn floor_and_ceiling_of_numbers() {
    same(N::Rational(-49, 3).floor(), Number::Integer(-17));
    same(N::Rational(49, 3).floor(), Number::Integer(16));
    same(N::Rational(-6, 3).floor(), Number::Integer(-2));
    same(N::Rational(i32::MIN, 1).floor(), Number::Integer(i32::MIN));
    same(N::Rational(i32::MIN, u32::MAX).floor(), Number::Integer(-1));
    same(N::Rational(-49, 3).ceiling(), Number::Integer(-16));
    same(N::Rational(49, 3).ceiling(), Number::Integer(17));
    same(N::Rational(6, 3).ceiling(), Number::Integer(2));
    same(N::Rational(i32::MAX, 2).ceiling(), Number::Integer(0x4000_0000));
    same(N::Real(Double(2.5)).floor(), Number::Real(Double(2.0)));
    same(N::Real(Double(2.5)).ceiling(), Number::Real(Double(3.0)));
}

#[test]
fn square_roots() {
    same(N::Integer(0).sqrt(), Number::Integer(0));
    same(N::Integer(1).sqrt(), Number::Integer(1));
    same(N::Integer(0x3fff_0001).sqrt(), Number::Integer(0x7fff));
    same(N::Integer(2147395600).sqrt(), Number::Integer(46340));
    same(N::Integer(i32::MAX).sqrt(), Number::Real(Double((i32::MAX as f64).sqrt())));
    same(N::Rational(50, 18).sqrt(), Number::Rational(5, 3));
    same(N::Rational(1, 0xfffe_0001).sqrt(), Number::Rational(1, 0xffff));
    same(N::Rational(1, 2).sqrt(), Number::Real(Double(0.5f64.sqrt())));
    same(N::Real(Double(6.25)).sqrt(), Number::Real(Double(2.5)));
}

#[test]
fn exact_conversion() {
    same(N::Rational(2, 4).exact(), Ok(Number::Rational(2, 4)));
    same(N::Integer(-3).exact(), Ok(Number::Integer(-3)));
    same(N::Real(Double(0.125)).exact(), Ok(Number::Rational(1, 8)));
    same(
        N::Real(Double(7.0)).exact(),
        Err(logic("cannot convert to an exact number"))
    );
    same(
        N::Real(Double(0.3)).exact(),
        Err(logic("cannot convert to an exact number"))
    );
}

#[test]
fn floor_division_of_numbers() {
    same(
        N::Integer(-7).floor_quotient(Number::Integer(2)),
        Ok(Number::Integer(-4))
    );
    same(
        N::Integer(-7).floor_remainder(Number::Integer(2)),
        Ok(Number::Integer(1))
    );
    same(
        N::Integer(7).floor_quotient(Number::Integer(-2)),
        Ok(Number::Integer(-4))
    );
    same(
        N::Integer(7).floor_remainder(Number::Integer(-2)),
        Ok(Number::Integer(-1))
    );
    same(
        N::Integer(i32::MIN).floor_quotient(Number::Integer(1)),
        Ok(Number::Integer(i32::MIN))
    );
    same(
        N::Integer(i32::MIN).floor_remainder(Number::Integer(i32::MAX)),
        Ok(Number::Integer(i32::MAX - 1))
    );
    same(
        N::Rational(7, 2).floor_quotient(Number::Integer(2)),
        Ok(Number::Real(Double(1.0)))
    );
    same(
        N::Rational(7, 2).floor_remainder(Number::Integer(2)),
        Ok(Number::Real(Double(1.5)))
    );
    same(
        N::Rational(7, 2).floor_remainder(Number::Real(Double(0.0))),
        Err(logic("division by zero"))
    );
}

#[test]
fn numbers_written_out() {
    assert_eq!(N::Integer(0).to_string(), "0");
    assert_eq!(N::Integer(-17).to_string(), "-17");
    assert_eq!(N::Integer(i32::MIN).to_string(), "-2147483648");
    assert_eq!(N::Rational(-5, 3).to_string(), "-5/3");
    assert_eq!(N::Rational(5, u32::MAX).to_string(), "5/4294967295");
    assert_eq!(N::Real(Double(1.5)).to_string(), "1.5");
}

#[test]
fn numbers_are_equal_by_value() {
    assert_eq!(N::Integer(1), N::Integer(1));
    assert_eq!(N::Rational(2, 4), N::Rational(1, 2));
    assert_eq!(N::Rational(4, 2), N::Integer(2));
    assert_eq!(N::Integer(1), N::Real(Double(1.0)));
    assert_eq!(N::Real(Double(0.5)), N::Rational(1, 2));
    assert_ne!(N::Integer(1), N::Integer(2));
    assert_ne!(N::Rational(1, 3), N::Rational(1, 2));
    assert_ne!(N::Real(Double(1.5)), N::Integer(1));
    assert_ne!(N::Real(Double(f64::NAN)), N::Real(Double(f64::NAN)));
}

#[test]
fn exact_numbers_from_ratios() {
    same(N::exact_from(Some((6, 4))), Ok(Number::Rational(3, 2)));
    same(N::exact_from(Some((-6, 3))), Ok(Number::Integer(-2)));
    same(
        N::exact_from(Some((1, 0))),
        Err(logic("cannot convert to an exact number")),
    );
    same(
        N::exact_from(None),
        Err(logic("cannot convert to an exact number")),
    );
}

#[test]
fn negation() {
    same(N::Integer(5).negate(), Ok(Number::Integer(-5)));
    same(N::Rational(-1, 2).negate(), Ok(Number::Rational(1, 2)));
    same(N::Rational(2, 4).negate(), Ok(Number::Rational(-1, 2)));
    same(N::Integer(0).negate(), Ok(Number::Integer(0)));
    same(
        N::Integer(i32::MIN).negate(),
        Err(logic("exact number out of range")),
    );
    same(N::Real(Double(1.5)).negate(), Ok(Number::Real(Double(-1.5))));
}

#[test]
fn exact_and_inexact_numbers() {
    assert!(N::Integer(1).is_exact_number());
    assert!(N::Rational(1, 2).is_exact_number());
    assert!(!N::Real(Double(1.0)).is_exact_number());
}

#[test]
fn operations_by_name() {
    same(
        N::Integer(7).combine(Arithmetic::Add, Number::Integer(2)),
        Ok(Number::Integer(9)),
    );
    same(
        N::Integer(7).combine(Arithmetic::Sub, Number::Integer(2)),
        Ok(Number::Integer(5)),
    );
    same(
        N::Integer(7).combine(Arithmetic::Mul, Number::Integer(2)),
        Ok(Number::Integer(14)),
    );
    same(
        N::Integer(7).combine(Arithmetic::Div, Number::Integer(2)),
        Ok(Number::Rational(7, 2)),
    );
    assert!(!N::Integer(7).compare(Relation::Equal, Number::Integer(2)));
    assert!(!N::Integer(7).compare(Relation::Less, Number::Integer(2)));
    assert!(!N::Integer(7).compare(Relation::LessEqual, Number::Integer(2)));
    assert!(N::Integer(7).compare(Relation::Greater, Number::Integer(2)));
    assert!(N::Integer(7).compare(Relation::GreaterEqual, Number::Integer(2)));
    assert!(N::Real(Double(1.0)).compare(Relation::LessEqual, Number::Integer(1)));
    assert!(N::Real(Double(1.0)).compare(Relation::GreaterEqual, Number::Integer(1)));
    assert!(!N::Real(Double(f64::NAN)).compare(Relation::LessEqual, Number::Integer(1)));
}
