use tiny_basic::char_stream::AsciiCharStream;
use tiny_basic::error::{Error, ErrorKind, NumberParseErrorKind};
use tiny_basic::interpreter::Interpreter;

fn execute_err(statement: &[u8]) -> ErrorKind {
    let mut interpreter = Interpreter::new();
    let mut stream = AsciiCharStream::from_ascii_str(statement.to_vec());
    interpreter.execute(&mut stream).unwrap_err().get_kind()
}

#[test]
fn test_error_formatting_1() {
    let mut ctx = AsciiCharStream::from_ascii_str(b"PRINT 2 +".to_vec());
    ctx.consume_keyword();
    let error = Error::from_context(&ctx, ErrorKind::ExpectedKeyword, None);
    println!("{}", String::from_utf8(error.render()).unwrap());
}

#[test]
fn test_error_formatting_2() {
    let mut ctx = AsciiCharStream::from_ascii_str(b"RETURN".to_vec());
    ctx.consume_keyword();
    let error = Error::from_kind(ErrorKind::ReturnOnEmptyStack);
    let error = error.set_context(&ctx).set_line_number(Some(10));
    println!("{}", String::from_utf8(error.render()).unwrap());
}

#[test]
fn test_error_formatting_on_empty_with_line_lumber() {
    let mut ctx = AsciiCharStream::from_ascii_str(b"PRINT VAR".to_vec());
    ctx.consume_keyword();
    ctx.consume_var();
    let error = Error::from_context(&ctx, ErrorKind::ExpectedKeyword, Some(123));
    println!("{}", String::from_utf8(error.render()).unwrap());
}

#[test]
fn test_error_render_shape() {
    let mut ctx = AsciiCharStream::from_ascii_str(b"RETURN".to_vec());
    ctx.consume_keyword();
    let error = Error::from_kind(ErrorKind::ReturnOnEmptyStack);
    let error = error.set_context(&ctx).set_line_number(Some(10));
    let rendered = String::from_utf8(error.render()).unwrap();
    assert_eq!(
        rendered,
        "Error: Attempt to RETURN while the return stack is empty\n\n10 RETURN\n         ^^^^^^"
    );
}

#[test]
fn test_goto_zero_is_invalid_line_index() {
    assert_eq!(execute_err(b"GOTO 0"), ErrorKind::InvalidLineIndex);
}

#[test]
fn test_number_literal_overflow() {
    assert_eq!(
        execute_err(b"PRINT 32768"),
        ErrorKind::NumberParseError(NumberParseErrorKind::PosOverflow)
    );
    assert_eq!(
        execute_err(b"PRINT 99999"),
        ErrorKind::NumberParseError(NumberParseErrorKind::PosOverflow)
    );
}

#[test]
fn test_unclosed_string_literal() {
    assert_eq!(execute_err(b"PRINT \"ABC"), ErrorKind::Expected('"'));
}

#[test]
fn test_gosub_in_immediate_mode() {
    assert_eq!(execute_err(b"GOSUB 10"), ErrorKind::CommandNotUsableInInteractiveMode);
}

#[test]
fn test_trailing_junk() {
    assert_eq!(execute_err(b"PRINT 1 FOO"), ErrorKind::UnexpectedTokensAtEndOfLine);
}

#[test]
fn test_return_on_empty_stack_in_run() {
    let mut repl = tiny_basic::repl::Repl::new();
    repl.process_line(b"10 RETURN".to_vec()).unwrap();
    let outcome = repl.process_line(b"RUN".to_vec()).unwrap();
    assert_eq!(outcome, tiny_basic::repl::ReplOutcome::RunStarted);
    let mut seen_error = None;
    for _ in 0..100 {
        match repl.interpreter.run_step(&repl.program) {
            Ok(tiny_basic::interpreter::RunStep::Finished) => break,
            Ok(_) => continue,
            Err(e) => {
                seen_error = Some(e.get_kind());
                break;
            },
        }
    }
    assert_eq!(seen_error, Some(ErrorKind::ReturnOnEmptyStack));
}

#[test]
fn test_statement_parse_errors() {
    assert_eq!(execute_err(b"FOO"), ErrorKind::ExpectedStatement);
    assert_eq!(execute_err(b"LET = 5"), ErrorKind::ExpectedVariableName);
    assert_eq!(execute_err(b"LET A 5"), ErrorKind::Expected('='));
    assert_eq!(execute_err(b"IF 1 PRINT 1"), ErrorKind::ExpectedRelationalOperator);
    assert_eq!(execute_err(b"IF 1 = 1 PRINT 1"), ErrorKind::ExpectedKeyword);
    assert_eq!(execute_err(b"PRINT +"), ErrorKind::FactorCouldNotBeParsed);
    assert_eq!(execute_err(b"PRINT (1"), ErrorKind::Expected(')'));
    assert_eq!(execute_err(b"INPUT"), ErrorKind::ExpectedVariableName);
}

#[test]
fn test_non_ascii_input_is_refused() {
    let mut repl = tiny_basic::repl::Repl::new();
    let err = repl.process_line(vec![80u8, 200u8, 81u8]).unwrap_err();
    assert_eq!(err.get_kind(), ErrorKind::ExpectedAsciiInput);
}
