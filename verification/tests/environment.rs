use ruschm::environment::Environment;
use ruschm::error::{ErrorType, SchemeError};
use ruschm::number::{Number, RealNumber};
use ruschm::value::Value;

#[derive(Clone, Copy, Debug, PartialEq)]
struct Never;

impl RealNumber for Never {
    fn from_integer(_: i32) -> Self {
        Never
    }

    fn from_ratio(_: i32, _: u32) -> Self {
        Never
    }

    fn sum(self, _: Self) -> Self {
        Never
    }

    fn difference(self, _: Self) -> Self {
        Never
    }

    fn product(self, _: Self) -> Self {
        Never
    }

    fn quotient(self, _: Self) -> Self {
        Never
    }

    fn is_zero(self) -> bool {
        false
    }

    fn less(self, _: Self) -> bool {
        false
    }

    fn equals(self, _: Self) -> bool {
        false
    }

    fn square_root(self) -> Self {
        Never
    }

    fn floor(self) -> Self {
        Never
    }

    fn ceiling(self) -> Self {
        Never
    }

    fn to_ratio(self) -> Option<(i32, u32)> {
        None
    }

    fn to_text(self) -> String {
        String::new()
    }
}

fn integer(value: i32) -> Value<Never> {
    Value::Number(Number::Integer(value))
}

fn unbound(name: &str) -> SchemeError {
    SchemeError {
        category: ErrorType::Logic,
        message: format!("unbound variable: {}", name),
        location: None,
    }
}

#[test]
fn a_new_environment_binds_nothing() {
    let environment = Environment::<Never>::new();
    assert_eq!(environment.len(), 1);
    assert_eq!(environment.get(0, "x"), Err(unbound("x")));
}

#[test]
fn definitions_are_found_from_inside() {
    let mut environment = Environment::new();
    environment.define(0, "x".to_string(), integer(1));
    let inner = environment.child(0);
    let innermost = environment.child(inner);
    assert_eq!((inner, innermost), (1, 2));
    assert_eq!(environment.len(), 3);
    assert_eq!(environment.get(0, "x"), Ok(&integer(1)));
    assert_eq!(environment.get(inner, "x"), Ok(&integer(1)));
    assert_eq!(environment.get(innermost, "x"), Ok(&integer(1)));
    environment.define(0, "x".to_string(), integer(2));
    assert_eq!(environment.get(innermost, "x"), Ok(&integer(2)));
}

#[test]
fn an_inner_binding_shadows_an_outer_one() {
    let mut environment = Environment::new();
    environment.define(0, "x".to_string(), integer(1));
    environment.define(0, "y".to_string(), integer(10));
    let left = environment.child(0);
    let right = environment.child(0);
    environment.define(left, "x".to_string(), integer(2));
    assert_eq!(environment.get(left, "x"), Ok(&integer(2)));
    assert_eq!(environment.get(right, "x"), Ok(&integer(1)));
    assert_eq!(environment.get(0, "x"), Ok(&integer(1)));
    assert_eq!(environment.get(left, "y"), Ok(&integer(10)));
    environment.define(right, "z".to_string(), integer(3));
    assert_eq!(environment.get(left, "z"), Err(unbound("z")));
    assert_eq!(environment.get(0, "z"), Err(unbound("z")));
    assert_eq!(environment.get(right, "z"), Ok(&integer(3)));
}

#[test]
fn assignment_changes_the_nearest_binding() {
    let mut environment = Environment::new();
    environment.define(0, "x".to_string(), integer(1));
    let middle = environment.child(0);
    let inner = environment.child(middle);
    assert_eq!(environment.set(inner, "x".to_string(), integer(5)), Ok(()));
    assert_eq!(environment.get(0, "x"), Ok(&integer(5)));
    environment.define(middle, "x".to_string(), integer(7));
    assert_eq!(environment.set(inner, "x".to_string(), integer(8)), Ok(()));
    assert_eq!(environment.get(middle, "x"), Ok(&integer(8)));
    assert_eq!(environment.get(inner, "x"), Ok(&integer(8)));
    assert_eq!(environment.get(0, "x"), Ok(&integer(5)));
    assert_eq!(
        environment.set(inner, "y".to_string(), integer(1)),
        Err(unbound("y"))
    );
    assert_eq!(environment.get(inner, "y"), Err(unbound("y")));
    assert_eq!(environment.len(), 3);
}
