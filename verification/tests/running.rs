use gnarly::execution_context::{OperandKind, RuntimeError};
use gnarly::interpreter::{FatalError, Interpreter, Operand, RunError};
use gnarly::lexer::Lexer;
use gnarly::numeric::NumValue;

fn run_src(interp: &mut Interpreter, src: &str) -> Result<(), RunError> {
    let lexer = Lexer::scan(src).expect("scan failed");
    interp.run(lexer.token_list)
}

fn stack_of(interp: &Interpreter) -> &Vec<Operand> {
    interp.context.current_scope_readonly().get_operand_stack()
}

#[test]
fn addition_leaves_three() {
    let mut interp = Interpreter::new();
    run_src(&mut interp, "1 2 +").expect("run failed");
    let stack = stack_of(&interp);
    assert_eq!(stack.len(), 1);
    match &stack[0] {
        Operand::Number(v) => assert_eq!(v.micros, 3_000_000),
        other => panic!("expected a number, got {:?}", other),
    }
}

#[test]
fn subtraction_multiplication_division() {
    let mut interp = Interpreter::new();
    run_src(&mut interp, "7 2 - 3 2 * 1 2 /").expect("run failed");
    let stack = stack_of(&interp);
    assert_eq!(stack.len(), 3);
    match (&stack[0], &stack[1], &stack[2]) {
        (Operand::Number(a), Operand::Number(b), Operand::Number(c)) => {
            assert_eq!(a.micros, 5_000_000);
            assert_eq!(b.micros, 6_000_000);
            assert_eq!(c.micros, 500_000);
        },
        other => panic!("expected three numbers, got {:?}", other),
    }
}

#[test]
fn division_truncates_toward_zero() {
    let mut interp = Interpreter::new();
    run_src(&mut interp, "1 3 / -1 3 /").expect("run failed");
    let stack = stack_of(&interp);
    match (&stack[0], &stack[1]) {
        (Operand::Number(a), Operand::Number(b)) => {
            assert_eq!(a.micros, 333_333);
            assert_eq!(b.micros, -333_333);
        },
        other => panic!("expected two numbers, got {:?}", other),
    }
}

#[test]
fn division_by_zero_consumes_operands() {
    let mut interp = Interpreter::new();
    let r = run_src(&mut interp, "5 0 /");
    assert_eq!(r, Err(RunError::Runtime(RuntimeError::DivisionByZero)));
    // Both operands were popped before the zero check failed.
    assert!(stack_of(&interp).is_empty());
}

#[test]
fn string_concat() {
    let mut interp = Interpreter::new();
    run_src(&mut interp, "\"a\" \"b\" string.concat").expect("run failed");
    let stack = stack_of(&interp);
    assert_eq!(stack.len(), 1);
    match &stack[0] {
        Operand::String(s) => assert_eq!(s, "ab"),
        other => panic!("expected a string, got {:?}", other),
    }
}

#[test]
fn set_then_get_and_print() {
    let mut interp = Interpreter::new();
    run_src(&mut interp, "42 $x set").expect("run failed");
    match interp.context.get_variable(&"x".to_string()) {
        Some(Operand::Number(v)) => assert_eq!(v.micros, 42_000_000),
        other => panic!("expected x bound to a number, got {:?}", other),
    }
    run_src(&mut interp, "$x print").expect("run failed");
    assert_eq!(interp.context.output(), &vec!["42".to_string()]);
}

#[test]
fn print_renders_decimals() {
    let mut interp = Interpreter::new();
    run_src(&mut interp, "3.5 print -0.5 print").expect("run failed");
    assert_eq!(
        interp.context.output(),
        &vec!["3.5".to_string(), "-0.5".to_string()]
    );
}

#[test]
fn print_stack_shows_all_operands() {
    let mut interp = Interpreter::new();
    run_src(&mut interp, "1 \"a\" print.stack").expect("run failed");
    assert_eq!(interp.context.output(), &vec!["Stack [1, \"a\"]".to_string()]);
    // The stack was not consumed.
    assert_eq!(stack_of(&interp).len(), 2);
}

#[test]
fn unknown_operator() {
    let mut interp = Interpreter::new();
    let r = run_src(&mut interp, "bogus");
    assert_eq!(
        r,
        Err(RunError::Runtime(RuntimeError::UnknownOperator { name: "bogus".to_string() }))
    );
}

#[test]
fn empty_stack_pop() {
    let mut interp = Interpreter::new();
    let r = run_src(&mut interp, "+");
    assert_eq!(r, Err(RunError::Runtime(RuntimeError::StackEmpty)));
}

#[test]
fn type_mismatch_names_kinds() {
    let mut interp = Interpreter::new();
    let r = run_src(&mut interp, "\"a\" 1 +");
    assert_eq!(
        r,
        Err(RunError::Runtime(RuntimeError::TypeMismatch {
            expected: OperandKind::Number,
            found: OperandKind::String,
        }))
    );
}

#[test]
fn unresolved_variable_in_arithmetic() {
    let mut interp = Interpreter::new();
    let r = run_src(&mut interp, "1 $nope +");
    assert_eq!(
        r,
        Err(RunError::Runtime(RuntimeError::VariableNotFound { name: "nope".to_string() }))
    );
}

#[test]
fn variable_resolves_in_arithmetic() {
    let mut interp = Interpreter::new();
    run_src(&mut interp, "40 $x set $x 2 +").expect("run failed");
    match &stack_of(&interp)[0] {
        Operand::Number(v) => assert_eq!(v.micros, 42_000_000),
        other => panic!("expected a number, got {:?}", other),
    }
}

#[test]
fn interpolation_substitutes_bound_value() {
    let mut interp = Interpreter::new();
    run_src(&mut interp, "7 $x set \"val=$x!\" print").expect("run failed");
    assert_eq!(interp.context.output(), &vec!["val=7!".to_string()]);
}

#[test]
fn interpolation_direct_call() {
    let mut interp = Interpreter::new();
    run_src(&mut interp, "7 $x set").expect("run failed");
    let out = interp
        .context
        .interpolate_string_variables("val=$x!")
        .expect("interpolation failed");
    assert_eq!(out, "val=7!");
}

#[test]
fn interpolation_of_unbound_name_fails() {
    let mut interp = Interpreter::new();
    let r = run_src(&mut interp, "\"oops $nope\"");
    assert_eq!(
        r,
        Err(RunError::Runtime(RuntimeError::VariableNotFound { name: "nope".to_string() }))
    );
}

#[test]
fn dollar_without_name_stays_literal() {
    let mut interp = Interpreter::new();
    run_src(&mut interp, "\"$1 a\" print").expect("run failed");
    assert_eq!(interp.context.output(), &vec!["$1 a".to_string()]);
}

#[test]
fn shadowing_updates_outer_binding() {
    let mut interp = Interpreter::new();
    run_src(&mut interp, "1 $x set { 5 $x set }").expect("run failed");
    // The nested `set` wrote through to the outer binding.
    match interp.context.get_variable(&"x".to_string()) {
        Some(Operand::Number(v)) => assert_eq!(v.micros, 5_000_000),
        other => panic!("expected x bound to a number, got {:?}", other),
    }
    // The closed scope captured no binding of its own.
    match &stack_of(&interp)[0] {
        Operand::Scope(_) => {},
        other => panic!("expected a captured scope, got {:?}", other),
    }
    assert_eq!(interp.context.operand_display(&stack_of(&interp)[0]), "Scope(0)");
}

#[test]
fn scope_capture_counts_entries() {
    let mut interp = Interpreter::new();
    run_src(&mut interp, "{ 1 2 42 $v set }").expect("run failed");
    let stack = stack_of(&interp);
    assert_eq!(stack.len(), 1);
    // Two stack entries plus one variable binding.
    assert_eq!(interp.context.operand_display(&stack[0]), "Scope(3)");
}

#[test]
fn captured_scope_displays_entries() {
    let mut interp = Interpreter::new();
    run_src(&mut interp, "{ 1 2 42 $v set } print").expect("run failed");
    assert_eq!(interp.context.output(), &vec!["{ 1, 2, v = 42 }".to_string()]);
}

#[test]
fn empty_captured_scope_displays_blank() {
    let mut interp = Interpreter::new();
    run_src(&mut interp, "{ } print").expect("run failed");
    assert_eq!(interp.context.output(), &vec!["{  }".to_string()]);
}

#[test]
fn variable_reference_displays_resolution() {
    let mut interp = Interpreter::new();
    run_src(&mut interp, "3 $x set").expect("run failed");
    assert_eq!(
        interp.context.operand_display(&Operand::Variable("x".to_string())),
        "$x (3)"
    );
    assert_eq!(
        interp.context.operand_display(&Operand::Variable("q".to_string())),
        "$q (unset)"
    );
}

#[test]
fn state_persists_across_runs() {
    let mut interp = Interpreter::new();
    run_src(&mut interp, "1 $a set").expect("run failed");
    run_src(&mut interp, "$a print").expect("run failed");
    assert_eq!(interp.context.output(), &vec!["1".to_string()]);
}

#[test]
fn failed_run_keeps_earlier_effects() {
    let mut interp = Interpreter::new();
    let r = run_src(&mut interp, "1 $a set bogus");
    assert!(r.is_err());
    match interp.context.get_variable(&"a".to_string()) {
        Some(Operand::Number(v)) => assert_eq!(v.micros, 1_000_000),
        other => panic!("expected a bound to a number, got {:?}", other),
    }
}

#[test]
fn closing_root_scope_is_fatal() {
    let mut interp = Interpreter::new();
    let r = run_src(&mut interp, "}");
    assert_eq!(r, Err(RunError::Fatal(FatalError::PopRootScope)));
}

#[test]
fn binding_a_variable_value_is_fatal() {
    let mut interp = Interpreter::new();
    let r = run_src(&mut interp, "1 $a set $a $b set");
    assert_eq!(r, Err(RunError::Fatal(FatalError::BindVariableValue)));
}

#[test]
fn arithmetic_overflow_is_reported() {
    let mut interp = Interpreter::new();
    let r = run_src(&mut interp, "9223372036854 9223372036854 *");
    assert_eq!(r, Err(RunError::Runtime(RuntimeError::NumberOverflow)));
}

#[test]
fn set_requires_variable_on_top() {
    let mut interp = Interpreter::new();
    let r = run_src(&mut interp, "$x 1 set");
    assert_eq!(
        r,
        Err(RunError::Runtime(RuntimeError::TypeMismatch {
            expected: OperandKind::Variable,
            found: OperandKind::Number,
        }))
    );
}

#[test]
fn concat_type_mismatch() {
    let mut interp = Interpreter::new();
    let r = run_src(&mut interp, "\"a\" 1 string.concat");
    assert_eq!(
        r,
        Err(RunError::Runtime(RuntimeError::TypeMismatch {
            expected: OperandKind::String,
            found: OperandKind::Number,
        }))
    );
}

#[test]
fn number_value_construction() {
    let v = NumValue::from_units(42);
    assert_eq!(v.micros, 42_000_000);
    let w = NumValue::from_micros(500_000);
    assert_eq!(w.render(), "0.5");
}
