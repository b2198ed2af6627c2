use tiny_basic::interpreter::RunStep;
use tiny_basic::repl::{Repl, ReplOutcome};

/// Feeds lines to a fresh session, driving runs to completion with the given
/// input lines, and returns everything the session printed.
fn session(lines: &[&[u8]], inputs: &[&[u8]]) -> String {
    let mut repl = Repl::new();
    let mut output = Vec::new();
    let mut inputs = inputs.iter();
    for line in lines {
        let outcome = repl.process_line(line.to_vec()).expect("line should be accepted");
        output.extend_from_slice(&repl.take_output());
        let mut pending = outcome == ReplOutcome::AwaitingInput;
        let mut running = outcome == ReplOutcome::RunStarted;
        let mut steps = 0;
        while pending || running {
            steps += 1;
            assert!(steps < 10000, "runaway program");
            if pending {
                let next = inputs.next().expect("the script should provide enough input");
                let fed = repl
                    .interpreter
                    .provide_input(next.to_vec())
                    .expect("input should be accepted");
                output.extend_from_slice(&repl.take_output());
                pending = fed == tiny_basic::semantics::ExecOutcome::AwaitingInput;
                continue;
            }
            match repl.interpreter.run_step(&repl.program).expect("the run should not fail") {
                RunStep::Finished => running = false,
                RunStep::Continuing => (),
                RunStep::AwaitingInput => pending = true,
            }
            output.extend_from_slice(&repl.take_output());
        }
    }
    String::from_utf8(output).unwrap()
}

#[test]
fn test_hello() {
    assert_eq!(session(&[b"PRINT \"HELLO\""], &[]), "HELLO \n");
}

#[test]
fn test_arithmetic_precedence() {
    assert_eq!(session(&[b"PRINT 1+2*3"], &[]), "7 \n");
    assert_eq!(session(&[b"PRINT (1+2)*3"], &[]), "9 \n");
}

#[test]
fn test_arithmetic_edges() {
    assert_eq!(session(&[b"PRINT -5"], &[]), "-5 \n");
    assert_eq!(session(&[b"PRINT 32767"], &[]), "32767 \n");
    assert_eq!(session(&[b"PRINT 7/2"], &[]), "3 \n");
    assert_eq!(session(&[b"PRINT 0-7/2"], &[]), "-3 \n");
    // Division by zero yields zero.
    assert_eq!(session(&[b"PRINT 5/0"], &[]), "0 \n");
    // Arithmetic wraps in two's complement.
    assert_eq!(session(&[b"PRINT 32767+1"], &[]), "-32768 \n");
    assert_eq!(session(&[b"PRINT 2, \"AND\", 3"], &[]), "2 AND 3 \n");
}

#[test]
fn test_stored_program_with_branching() {
    let output = session(
        &[
            b"10 LET A = 1",
            b"20 IF A > 3 THEN GOTO 50",
            b"30 LET A = A + 1",
            b"40 GOTO 20",
            b"50 PRINT A",
            b"RUN",
        ],
        &[],
    );
    assert_eq!(output, "4 \n");
}

#[test]
fn test_subroutine() {
    let output = session(
        &[
            b"10 GOSUB 100",
            b"20 PRINT \"DONE\"",
            b"30 END",
            b"100 PRINT \"SUB\"",
            b"110 RETURN",
            b"RUN",
        ],
        &[],
    );
    assert_eq!(output, "SUB \nDONE \n");
}

#[test]
fn test_list_after_edit() {
    let output = session(&[b"10 PRINT 1", b"20 PRINT 2", b"10", b"LIST"], &[]);
    assert_eq!(output, "20 PRINT 2\n");
}

#[test]
fn test_input_numeric() {
    let output = session(&[b"10 INPUT A", b"20 PRINT A+1", b"RUN"], &[b"41"]);
    assert_eq!(output, "A? 42 \n");
}

#[test]
fn test_input_non_numeric_stores_first_character_code() {
    // `Q` is character code 81.
    let output = session(&[b"10 INPUT A", b"20 PRINT A", b"RUN"], &[b"Q"]);
    assert_eq!(output, "A? 81 \n");
}

#[test]
fn test_input_several_variables() {
    let output = session(&[b"10 INPUT A, B", b"20 PRINT A+B", b"RUN"], &[b"2", b"3"]);
    assert_eq!(output, "A? B? 5 \n");
}

#[test]
fn test_let_then_print() {
    assert_eq!(session(&[b"LET X = 42", b"PRINT X"], &[]), "42 \n");
    // Undefined variables read as zero.
    assert_eq!(session(&[b"PRINT Y"], &[]), "0 \n");
}

#[test]
fn test_clear_empties_the_program() {
    let output = session(&[b"10 PRINT 1", b"CLEAR", b"LIST"], &[]);
    assert_eq!(output, "");
}

#[test]
fn test_goto_missing_line_runs_successor() {
    let output = session(&[b"10 GOTO 15", b"20 PRINT 2", b"RUN"], &[]);
    assert_eq!(output, "2 \n");
}

#[test]
fn test_if_false_skips_rest_of_line() {
    assert_eq!(session(&[b"IF 1 > 2 THEN PRINT 1"], &[]), "");
    assert_eq!(session(&[b"IF 2 > 1 THEN PRINT 1"], &[]), "1 \n");
}

#[test]
fn test_immediate_input() {
    let output = session(&[b"INPUT A", b"PRINT A*2"], &[b"21"]);
    assert_eq!(output, "A? 42 \n");
}

#[test]
fn test_clear_keeps_variables() {
    let output = session(&[b"LET A = 5", b"CLEAR", b"PRINT A"], &[]);
    assert_eq!(output, "5 \n");
}

#[test]
fn test_environment_persists_across_runs() {
    let output = session(
        &[b"10 LET A = A + 1", b"20 PRINT A", b"RUN", b"RUN"],
        &[],
    );
    assert_eq!(output, "1 \n2 \n");
}
