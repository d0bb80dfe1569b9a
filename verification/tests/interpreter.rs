use stacc::error::EvalError;
use stacc::interpreter::{Interpreter, Status};

fn bits(x: f64) -> u64 {
    x.to_bits()
}

#[test]
fn addition_leaves_the_sum() {
    let mut it = Interpreter::new();
    assert_eq!(it.eval("3 4 +".to_string()), Ok(Status::Completed));
    assert_eq!(it.stack(), &vec![bits(7.0)]);
}

#[test]
fn division_divides_lower_by_top() {
    let mut it = Interpreter::new();
    assert_eq!(it.eval("10 2 /".to_string()), Ok(Status::Completed));
    assert_eq!(it.stack(), &vec![bits(5.0)]);
}

#[test]
fn subtraction_subtracts_top_from_lower() {
    let mut it = Interpreter::new();
    assert_eq!(it.eval("5 3 -".to_string()), Ok(Status::Completed));
    assert_eq!(it.stack(), &vec![bits(2.0)]);
}

#[test]
fn multiplication_leaves_the_product() {
    let mut it = Interpreter::new();
    assert_eq!(it.eval("6 7 *".to_string()), Ok(Status::Completed));
    assert_eq!(it.stack(), &vec![bits(42.0)]);
}

#[test]
fn fractional_arithmetic() {
    let mut it = Interpreter::new();
    assert_eq!(it.eval("2.5 0.5 +".to_string()), Ok(Status::Completed));
    assert_eq!(it.stack(), &vec![bits(3.0)]);
}

#[test]
fn division_by_zero_gives_infinity() {
    let mut it = Interpreter::new();
    assert_eq!(it.eval("1 0 /".to_string()), Ok(Status::Completed));
    assert_eq!(it.stack(), &vec![bits(f64::INFINITY)]);
}

#[test]
fn underflow_on_empty_stack_leaves_it_empty() {
    let mut it = Interpreter::new();
    assert_eq!(
        it.eval("+".to_string()),
        Err(EvalError::Underflow { word: "+".to_string(), needed: 2, available: 0 })
    );
    assert_eq!(it.stack(), &Vec::<u64>::new());
}

#[test]
fn print_underflow_on_empty_stack() {
    let mut it = Interpreter::new();
    assert_eq!(
        it.eval(".".to_string()),
        Err(EvalError::Underflow { word: ".".to_string(), needed: 1, available: 0 })
    );
    assert_eq!(it.stack(), &Vec::<u64>::new());
}

#[test]
fn unknown_word_leaves_stack_unchanged() {
    let mut it = Interpreter::new();
    assert_eq!(it.eval("1".to_string()), Ok(Status::Completed));
    assert_eq!(
        it.eval("foo".to_string()),
        Err(EvalError::UnknownWord { name: "foo".to_string() })
    );
    assert_eq!(it.stack(), &vec![bits(1.0)]);
}

#[test]
fn stack_persists_across_calls() {
    let mut it = Interpreter::new();
    assert_eq!(it.eval("1".to_string()), Ok(Status::Completed));
    assert_eq!(it.eval("2 +".to_string()), Ok(Status::Completed));
    assert_eq!(it.stack(), &vec![bits(3.0)]);
}

#[test]
fn print_emits_in_evaluated_order() {
    let mut it = Interpreter::new();
    assert_eq!(it.eval("1 2 3 . .".to_string()), Ok(Status::Completed));
    assert_eq!(it.take_output(), vec![bits(3.0), bits(2.0)]);
    assert_eq!(it.stack(), &vec![bits(1.0)]);
}

#[test]
fn take_output_drains() {
    let mut it = Interpreter::new();
    assert_eq!(it.eval("5 .".to_string()), Ok(Status::Completed));
    assert_eq!(it.take_output(), vec![bits(5.0)]);
    assert_eq!(it.take_output(), Vec::<u64>::new());
}

#[test]
fn reading_the_stack_is_idempotent() {
    let mut it = Interpreter::new();
    assert_eq!(it.eval("1 2".to_string()), Ok(Status::Completed));
    let first = it.stack().clone();
    let second = it.stack().clone();
    assert_eq!(first, second);
    assert_eq!(first, vec![bits(1.0), bits(2.0)]);
}

#[test]
fn exit_requests_termination_and_stops_the_pass() {
    let mut it = Interpreter::new();
    assert_eq!(it.eval("1 exit 2".to_string()), Ok(Status::ExitRequested));
    assert_eq!(it.stack(), &vec![bits(1.0)]);
}

#[test]
fn failure_keeps_the_work_done_before_it() {
    let mut it = Interpreter::new();
    assert_eq!(
        it.eval("1 2 + +".to_string()),
        Err(EvalError::Underflow { word: "+".to_string(), needed: 2, available: 1 })
    );
    assert_eq!(it.stack(), &vec![bits(3.0)]);
}

#[test]
fn parse_error_stops_the_pass_and_keeps_prior_work() {
    let mut it = Interpreter::new();
    assert_eq!(
        it.eval("1 2..3 4 +".to_string()),
        Err(EvalError::ParseError { span: "2..3".to_string() })
    );
    assert_eq!(it.stack(), &vec![bits(1.0)]);
}
