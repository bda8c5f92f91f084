use script_core::token::Location;
use script_core::value::{ArithOutcome, BinOp, FloatOperand, Value, ValueErrorKind};

fn here() -> Location {
    Location { line: 1, column: 1, filename: "<test>".to_string() }
}

fn operand(op: FloatOperand) -> f64 {
    match op {
        FloatOperand::FromInt(i) => i as f64,
        FloatOperand::FromBits(b) => f64::from_bits(b),
    }
}

fn float_result(outcome: ArithOutcome) -> f64 {
    match outcome {
        ArithOutcome::FloatPending { op, left, right } => {
            let l = operand(left);
            let r = operand(right);
            match op {
                BinOp::Add => l + r,
                BinOp::Subtract => l - r,
                BinOp::Multiply => l * r,
                BinOp::Divide => l / r,
            }
        }
        ArithOutcome::Concrete(_) => panic!("expected a pending float operation"),
    }
}

#[test]
fn integer_addition() {
    let r = Value::Integer(2).add(Value::Integer(40), &here()).unwrap();
    assert!(matches!(r, ArithOutcome::Concrete(Value::Integer(42))));
}

#[test]
fn integer_plus_float_promotes() {
    let r = Value::Integer(2)
        .add(Value::Float(1.5f64.to_bits()), &here())
        .unwrap();
    assert_eq!(float_result(r), 3.5);
}

#[test]
fn float_plus_float() {
    let r = Value::Float(0.25f64.to_bits())
        .add(Value::Float(0.5f64.to_bits()), &here())
        .unwrap();
    assert_eq!(float_result(r), 0.75);
}

#[test]
fn string_concatenation() {
    let r = Value::String("foo".to_string())
        .add(Value::String("bar".to_string()), &here())
        .unwrap();
    match r {
        ArithOutcome::Concrete(Value::String(s)) => assert_eq!(s, "foobar"),
        _ => panic!("expected a string"),
    }
}

#[test]
fn addition_type_error_names_location() {
    let loc = Location { line: 3, column: 7, filename: "prog".to_string() };
    let e = Value::Boolean(true).add(Value::Nothing, &loc).unwrap_err();
    assert_eq!(e.kind, ValueErrorKind::InvalidTypes { op: BinOp::Add });
    assert_eq!(e.location.line, 3);
    assert_eq!(e.location.column, 7);
    assert_eq!(e.location.filename, "prog");
}

#[test]
fn integer_addition_overflow_is_an_error() {
    let e = Value::Integer(i64::MAX).add(Value::Integer(1), &here()).unwrap_err();
    assert_eq!(e.kind, ValueErrorKind::IntegerOverflow { op: BinOp::Add });
}

#[test]
fn subtraction_of_strings_is_an_error() {
    let e = Value::String("a".to_string())
        .subtract(Value::String("b".to_string()), &here())
        .unwrap_err();
    assert_eq!(e.kind, ValueErrorKind::InvalidTypes { op: BinOp::Subtract });
}

#[test]
fn float_minus_integer() {
    let r = Value::Float(4.5f64.to_bits())
        .subtract(Value::Integer(2), &here())
        .unwrap();
    assert_eq!(float_result(r), 2.5);
}

#[test]
fn string_repetition() {
    let r = Value::String("ab".to_string())
        .multiply(Value::Integer(3), &here())
        .unwrap();
    match r {
        ArithOutcome::Concrete(Value::String(s)) => assert_eq!(s, "ababab"),
        _ => panic!("expected a string"),
    }
}

#[test]
fn string_repetition_zero_times_is_empty() {
    let r = Value::String("ab".to_string())
        .multiply(Value::Integer(0), &here())
        .unwrap();
    match r {
        ArithOutcome::Concrete(Value::String(s)) => assert_eq!(s, ""),
        _ => panic!("expected a string"),
    }
}

#[test]
fn negative_repetition_is_an_error() {
    let e = Value::String("ab".to_string())
        .multiply(Value::Integer(-1), &here())
        .unwrap_err();
    assert_eq!(e.kind, ValueErrorKind::NegativeRepeat { count: -1 });
}

#[test]
fn float_times_integer() {
    let r = Value::Float(1.5f64.to_bits())
        .multiply(Value::Integer(4), &here())
        .unwrap();
    assert_eq!(float_result(r), 6.0);
}

#[test]
fn integer_division_truncates() {
    let r = Value::Integer(7).divide(Value::Integer(2), &here()).unwrap();
    assert!(matches!(r, ArithOutcome::Concrete(Value::Integer(3))));
}

#[test]
fn integer_division_truncates_toward_zero() {
    let r = Value::Integer(-7).divide(Value::Integer(2), &here()).unwrap();
    assert!(matches!(r, ArithOutcome::Concrete(Value::Integer(-3))));
}

#[test]
fn integer_division_by_zero_is_an_error() {
    let e = Value::Integer(7).divide(Value::Integer(0), &here()).unwrap_err();
    assert_eq!(e.kind, ValueErrorKind::DivisionByZero);
}

#[test]
fn smallest_integer_divided_by_minus_one_is_an_error() {
    let e = Value::Integer(i64::MIN)
        .divide(Value::Integer(-1), &here())
        .unwrap_err();
    assert_eq!(e.kind, ValueErrorKind::IntegerOverflow { op: BinOp::Divide });
}

#[test]
fn integer_divided_by_float_promotes() {
    let r = Value::Integer(1).divide(Value::Float(2.0f64.to_bits()), &here()).unwrap();
    assert_eq!(float_result(r), 0.5);
}

#[test]
fn slice_with_all_defaults_copies_the_string() {
    let r = Value::String("hello".to_string())
        .slice(None, None, None, &here())
        .unwrap();
    match r {
        Value::String(s) => assert_eq!(s, "hello"),
        _ => panic!("expected a string"),
    }
}

#[test]
fn slice_with_bounds() {
    let r = Value::String("hello".to_string())
        .slice(Some(Value::Integer(1)), Some(Value::Integer(4)), None, &here())
        .unwrap();
    match r {
        Value::String(s) => assert_eq!(s, "ell"),
        _ => panic!("expected a string"),
    }
}

#[test]
fn slice_with_step_two() {
    let r = Value::String("abcdef".to_string())
        .slice(None, None, Some(Value::Integer(2)), &here())
        .unwrap();
    match r {
        Value::String(s) => assert_eq!(s, "ace"),
        _ => panic!("expected a string"),
    }
}

#[test]
fn slice_with_zero_step_is_an_error() {
    let e = Value::String("hello".to_string())
        .slice(None, None, Some(Value::Integer(0)), &here())
        .unwrap_err();
    assert_eq!(e.kind, ValueErrorKind::ZeroStep);
}

#[test]
fn slice_with_negative_step_is_an_error() {
    let e = Value::String("hello".to_string())
        .slice(None, None, Some(Value::Integer(-1)), &here())
        .unwrap_err();
    assert_eq!(e.kind, ValueErrorKind::NegativeStep);
}

#[test]
fn slice_past_the_end_is_an_error() {
    let e = Value::String("hi".to_string())
        .slice(None, Some(Value::Integer(5)), None, &here())
        .unwrap_err();
    assert_eq!(e.kind, ValueErrorKind::SliceOutOfRange);
}

#[test]
fn slice_with_non_integer_bound_is_an_error() {
    let e = Value::String("hi".to_string())
        .slice(Some(Value::Boolean(true)), None, None, &here())
        .unwrap_err();
    assert_eq!(e.kind, ValueErrorKind::InvalidSliceTypes);
}

#[test]
fn slicing_a_non_string_is_an_error() {
    let e = Value::Integer(1).slice(None, None, None, &here()).unwrap_err();
    assert_eq!(e.kind, ValueErrorKind::NotSliceable);
}

#[test]
fn empty_slice_when_start_reaches_end() {
    let r = Value::String("hello".to_string())
        .slice(Some(Value::Integer(3)), Some(Value::Integer(3)), None, &here())
        .unwrap();
    match r {
        Value::String(s) => assert_eq!(s, ""),
        _ => panic!("expected a string"),
    }
}

#[test]
fn value_error_message_describes_the_fault() {
    let e = Value::Integer(7).divide(Value::Integer(0), &here()).unwrap_err();
    assert_eq!(e.message(), "Division by zero");
    let e = Value::String("x".to_string())
        .slice(None, None, Some(Value::Integer(0)), &here())
        .unwrap_err();
    assert_eq!(e.message(), "Step cannot be 0");
    let e = Value::Integer(1).slice(None, None, None, &here()).unwrap_err();
    assert_eq!(e.message(), "Can only slice strings");
}
