use sexpr::eval::{interpret, lookup, Builtin, Value};
use sexpr::parser::{parse_source, Expr};

fn run(src: &str) -> Vec<Result<Value, String>> {
    parse_source(src).unwrap().iter().map(interpret).collect()
}

#[test]
fn nested_evaluation() {
    assert_eq!(run("(+ 1 (+ 1 1) 3)"), vec![Ok(Value::Int(6))]);
}

#[test]
fn multiple_top_level_forms() {
    assert_eq!(run("(+ 1 1) (+ 2 2)"), vec![Ok(Value::Int(2)), Ok(Value::Int(4))]);
}

#[test]
fn forms_are_evaluated_independently() {
    assert_eq!(
        run("(foo) (+ 2 2)"),
        vec![Err("undefined symbol: foo".to_string()), Ok(Value::Int(4))]
    );
}

#[test]
fn empty_list_failure() {
    assert_eq!(interpret(&Expr::List(vec![])), Err("empty function call".to_string()));
}

#[test]
fn undefined_symbol_failure() {
    assert_eq!(run("(foo 1 2)"), vec![Err("undefined symbol: foo".to_string())]);
}

#[test]
fn type_mismatch_failure() {
    assert_eq!(run("(+ 1 +)"), vec![Err("expected an int".to_string())]);
}

#[test]
fn integer_in_function_position() {
    assert_eq!(run("(1 2)"), vec![Err("expected a function".to_string())]);
}

#[test]
fn function_check_comes_before_the_arguments() {
    assert_eq!(run("(1 foo)"), vec![Err("expected a function".to_string())]);
    assert_eq!(run("(1 ())"), vec![Err("expected a function".to_string())]);
}

#[test]
fn leftmost_argument_error_wins() {
    assert_eq!(run("(+ (bar) (baz))"), vec![Err("undefined symbol: bar".to_string())]);
}

#[test]
fn idempotent_re_evaluation() {
    let exprs = parse_source("(+ 1 (+ 2 3)) (+ 1 +)").unwrap();
    for e in &exprs {
        assert_eq!(interpret(e), interpret(e));
    }
    assert_eq!(interpret(&exprs[0]), Ok(Value::Int(6)));
}

#[test]
fn sum_of_no_arguments_is_zero() {
    assert_eq!(run("(+)"), vec![Ok(Value::Int(0))]);
}

#[test]
fn bare_symbol_is_a_function() {
    assert_eq!(interpret(&Expr::Id("+".to_string())), Ok(Value::Func(Builtin::Add)));
    assert_eq!(interpret(&Expr::Num(9)), Ok(Value::Int(9)));
}

#[test]
fn sum_up_to_the_largest_integer() {
    assert_eq!(
        run("(+ 18446744073709551614 1)"),
        vec![Ok(Value::Int(u64::MAX))]
    );
}

#[test]
fn sum_overflow_is_an_error() {
    assert_eq!(
        run("(+ 18446744073709551615 1)"),
        vec![Err("integer overflow".to_string())]
    );
}

#[test]
fn builtin_table() {
    assert_eq!(lookup(&"+".to_string()), Some(Builtin::Add));
    assert_eq!(lookup(&"-".to_string()), None);
    assert_eq!(lookup(&"++".to_string()), None);
}

#[test]
fn calling_add_directly() {
    assert_eq!(Builtin::Add.call(vec![Value::Int(4), Value::Int(5)]), Ok(Value::Int(9)));
    assert_eq!(
        Builtin::Add.call(vec![Value::Int(4), Value::Func(Builtin::Add)]),
        Err("expected an int".to_string())
    );
}

#[test]
fn value_accessors() {
    assert_eq!(Value::Int(3).get_int(), Ok(3));
    assert_eq!(Value::Func(Builtin::Add).get_int(), Err("expected an int".to_string()));
    assert_eq!(Value::Func(Builtin::Add).get_fn(), Ok(Builtin::Add));
    assert_eq!(Value::Int(3).get_fn(), Err("expected a function".to_string()));
}

#[test]
fn value_text() {
    assert_eq!(Value::Int(0).to_string(), "0");
    assert_eq!(Value::Int(42).to_string(), "42");
    assert_eq!(Value::Int(u64::MAX).to_string(), "18446744073709551615");
    assert_eq!(Value::Func(Builtin::Add).to_string(), "<func>");
}
