use stacklang::interpreter::{
    lookup_word, BinOp, Interpreter, InterpreterError, StackValue, ValueKind, Word,
};
use stacklang::lexer::{tokenize, Token};
use stacklang::number::Number;

fn run_source(src: &str) -> (Interpreter, Result<(), InterpreterError>) {
    let tokens = tokenize(&src.as_bytes().to_vec());
    let mut interp = Interpreter::new();
    let result = interp.interpret(tokens);
    (interp, result)
}

fn num(n: i64) -> StackValue {
    StackValue::Number(Number { num: n, den: 1 })
}

#[test]
fn addition_scenario_leaves_sum() {
    // source "3 4 +": stack ends as [7], no output
    let (interp, result) = run_source("3 4 +");
    assert_eq!(result, Ok(()));
    assert_eq!(interp.stack, vec![num(7)]);
    assert_eq!(interp.output, Vec::<Vec<u8>>::new());
}

#[test]
fn division_by_zero_halts_before_print() {
    // source "5 0 / print": halts with DivisionByZero, nothing printed
    let (interp, result) = run_source("5 0 / print");
    assert_eq!(result, Err(InterpreterError::DivisionByZero));
    assert_eq!(interp.output, Vec::<Vec<u8>>::new());
    // both operands are still on the stack; no quotient was pushed
    assert_eq!(interp.stack, vec![num(5), num(0)]);
}

#[test]
fn dup_print_print_outputs_twice() {
    // source "\"hi\" dup print print": two lines, each "hi"
    let (interp, result) = run_source("\"hi\" dup print print");
    assert_eq!(result, Ok(()));
    assert_eq!(interp.output, vec![b"hi".to_vec(), b"hi".to_vec()]);
    assert_eq!(interp.stack, Vec::<StackValue>::new());
}

#[test]
fn swap_reverses_print_order() {
    // source "true false swap print print": "true" then "false"
    let (interp, result) = run_source("true false swap print print");
    assert_eq!(result, Ok(()));
    assert_eq!(interp.output, vec![b"true".to_vec(), b"false".to_vec()]);
    assert_eq!(interp.stack, Vec::<StackValue>::new());
}

#[test]
fn division_leaves_exact_quotient() {
    // 1 / 3 is the exact rational 1/3, not a rounded value
    let (interp, result) = run_source("1 3 /");
    assert_eq!(result, Ok(()));
    assert_eq!(interp.stack, vec![StackValue::Number(Number { num: 1, den: 3 })]);
}

#[test]
fn division_tokens_built_by_hand() {
    let tokens = vec![
        Token::NumberLiteral(Number { num: 10, den: 1 }),
        Token::NumberLiteral(Number { num: 4, den: 1 }),
        Token::Slash,
    ];
    let mut interp = Interpreter::new();
    assert_eq!(interp.interpret(tokens), Ok(()));
    assert_eq!(interp.stack, vec![StackValue::Number(Number { num: 10, den: 4 })]);
}

#[test]
fn dup_then_drop_restores_single_value_stack() {
    let (interp, result) = run_source("\"x\" dup drop");
    assert_eq!(result, Ok(()));
    assert_eq!(interp.stack, vec![StackValue::String(b"x".to_vec())]);
}

#[test]
fn swap_twice_restores_order() {
    let (interp, result) = run_source("1 2 swap swap");
    assert_eq!(result, Ok(()));
    assert_eq!(interp.stack, vec![num(1), num(2)]);
}

#[test]
fn unknown_word_fails_with_its_name() {
    // an unknown identifier on the empty stack reports the name, never underflow
    let (interp, result) = run_source("foo");
    assert_eq!(result, Err(InterpreterError::UnknownWord(b"foo".to_vec())));
    assert_eq!(interp.stack, Vec::<StackValue>::new());
    assert_eq!(interp.output, Vec::<Vec<u8>>::new());
}

#[test]
fn empty_stack_print_underflows() {
    let (interp, result) = run_source("print");
    assert_eq!(result, Err(InterpreterError::StackUnderflow));
    assert_eq!(interp.stack, Vec::<StackValue>::new());
    assert_eq!(interp.output, Vec::<Vec<u8>>::new());
}

#[test]
fn empty_stack_dup_underflows() {
    let (_, result) = run_source("dup");
    assert_eq!(result, Err(InterpreterError::StackUnderflow));
}

#[test]
fn empty_stack_drop_underflows() {
    let (_, result) = run_source("drop");
    assert_eq!(result, Err(InterpreterError::StackUnderflow));
}

#[test]
fn empty_stack_swap_underflows() {
    let (_, result) = run_source("swap");
    assert_eq!(result, Err(InterpreterError::StackUnderflow));
}

#[test]
fn empty_stack_operators_underflow() {
    for src in ["+", "-", "*", "/"] {
        let (interp, result) = run_source(src);
        assert_eq!(result, Err(InterpreterError::StackUnderflow));
        assert_eq!(interp.stack, Vec::<StackValue>::new());
        assert_eq!(interp.output, Vec::<Vec<u8>>::new());
    }
}

#[test]
fn one_operand_underflows_before_type_check() {
    // underflow takes precedence when fewer than two values are on the stack
    let (_, result) = run_source("true +");
    assert_eq!(result, Err(InterpreterError::StackUnderflow));
}

#[test]
fn non_number_operand_is_type_mismatch() {
    let (interp, result) = run_source("1 true +");
    assert_eq!(result, Err(InterpreterError::TypeMismatch(ValueKind::Number)));
    // the failing word left the stack untouched
    assert_eq!(interp.stack, vec![num(1), StackValue::Boolean(true)]);
}

#[test]
fn subtraction_order_is_left_minus_right() {
    let (interp, result) = run_source("10 4 -");
    assert_eq!(result, Ok(()));
    assert_eq!(interp.stack, vec![num(6)]);
}

#[test]
fn multiplication_of_fractions_is_exact() {
    let (interp, result) = run_source("1.5 2.5 *");
    assert_eq!(result, Ok(()));
    assert_eq!(interp.stack, vec![StackValue::Number(Number { num: 375, den: 100 })]);
}

#[test]
fn identifiers_reach_the_same_words_as_operators() {
    // "+" looked up as an identifier behaves exactly like the Plus token
    let tokens = vec![
        Token::NumberLiteral(Number { num: 3, den: 1 }),
        Token::NumberLiteral(Number { num: 4, den: 1 }),
        Token::Identifier(b"+".to_vec()),
    ];
    let mut interp = Interpreter::new();
    assert_eq!(interp.interpret(tokens), Ok(()));
    assert_eq!(interp.stack, vec![num(7)]);
}

#[test]
fn lookup_finds_every_builtin() {
    assert_eq!(lookup_word(&b"print".to_vec()), Some(Word::Print));
    assert_eq!(lookup_word(&b"dup".to_vec()), Some(Word::Dup));
    assert_eq!(lookup_word(&b"drop".to_vec()), Some(Word::Drop));
    assert_eq!(lookup_word(&b"swap".to_vec()), Some(Word::Swap));
    assert_eq!(lookup_word(&b"+".to_vec()), Some(Word::Arith(BinOp::Add)));
    assert_eq!(lookup_word(&b"-".to_vec()), Some(Word::Arith(BinOp::Sub)));
    assert_eq!(lookup_word(&b"*".to_vec()), Some(Word::Arith(BinOp::Mul)));
    assert_eq!(lookup_word(&b"/".to_vec()), Some(Word::Arith(BinOp::Div)));
    assert_eq!(lookup_word(&b"Print".to_vec()), None);
    assert_eq!(lookup_word(&b"dupp".to_vec()), None);
    assert_eq!(lookup_word(&b"".to_vec()), None);
}

#[test]
fn eof_token_ends_the_run_early() {
    let tokens = vec![
        Token::NumberLiteral(Number { num: 1, den: 1 }),
        Token::EOF,
        Token::Identifier(b"foo".to_vec()),
    ];
    let mut interp = Interpreter::new();
    assert_eq!(interp.interpret(tokens), Ok(()));
    assert_eq!(interp.stack, vec![num(1)]);
}

#[test]
fn execution_halts_at_first_error() {
    // the tokens after the failing word never run
    let (interp, result) = run_source("foo 1 print");
    assert_eq!(result, Err(InterpreterError::UnknownWord(b"foo".to_vec())));
    assert_eq!(interp.stack, Vec::<StackValue>::new());
    assert_eq!(interp.output, Vec::<Vec<u8>>::new());
}

#[test]
fn print_renders_each_kind() {
    let (interp, result) = run_source("7 print true print false print \"raw\" print");
    assert_eq!(result, Ok(()));
    assert_eq!(interp.output, vec![
        b"7".to_vec(),
        b"true".to_vec(),
        b"false".to_vec(),
        b"raw".to_vec(),
    ]);
}

#[test]
fn print_renders_negative_and_fractional_numbers() {
    let (interp, result) = run_source("-12 print 3.5 print 7 2 / print 1 3 / print");
    assert_eq!(result, Ok(()));
    assert_eq!(interp.output, vec![
        b"-12".to_vec(),
        b"3.5".to_vec(),
        b"3.5".to_vec(),
        b"1/3".to_vec(),
    ]);
}

#[test]
fn dup_copies_are_independent() {
    let (interp, result) = run_source("\"s\" dup drop print");
    assert_eq!(result, Ok(()));
    assert_eq!(interp.output, vec![b"s".to_vec()]);
}

#[test]
fn pop_returns_the_top_value() {
    let mut interp = Interpreter::new();
    assert_eq!(interp.pop(), Err(InterpreterError::StackUnderflow));
    interp.stack.push(num(1));
    interp.stack.push(num(2));
    assert_eq!(interp.pop(), Ok(num(2)));
    assert_eq!(interp.pop(), Ok(num(1)));
    assert_eq!(interp.pop(), Err(InterpreterError::StackUnderflow));
}

#[test]
fn peek_leaves_the_stack_unchanged() {
    let mut interp = Interpreter::new();
    assert!(matches!(interp.peek(), Err(InterpreterError::StackUnderflow)));
    interp.stack.push(StackValue::Boolean(true));
    assert_eq!(interp.peek(), Ok(&StackValue::Boolean(true)));
    assert_eq!(interp.stack.len(), 1);
}

#[test]
fn pop_number_rejects_other_kinds_without_popping() {
    let mut interp = Interpreter::new();
    assert_eq!(interp.pop_number(), Err(InterpreterError::StackUnderflow));
    interp.stack.push(StackValue::Boolean(true));
    assert_eq!(
        interp.pop_number(),
        Err(InterpreterError::TypeMismatch(ValueKind::Number))
    );
    assert_eq!(interp.stack.len(), 1);
    interp.stack.push(num(3));
    assert_eq!(interp.pop_number(), Ok(Number { num: 3, den: 1 }));
}
