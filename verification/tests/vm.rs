use brainfuck_rs::error::CompileError;
use brainfuck_rs::error::RunResult;
use brainfuck_rs::interpreter::{Interpreter, State};
use brainfuck_rs::interpreter_builder::InterpreterBuilder;
use brainfuck_rs::io_buffer::{ByteSink, ByteSource};
use brainfuck_rs::settings::{EofBehavior, InputMode, NewlineMode, Settings};

fn settings(array_size: usize) -> Settings {
    Settings {
        dynamic_size: false,
        array_size,
        eof_behavior: EofBehavior::AsIs,
        newline_mode: NewlineMode::LF,
        ignore_newline: false,
        input_mode: InputMode::Ascii,
        wrapping: false,
    }
}

fn build(src: &str, s: Settings, input: ByteSource, output: ByteSink) -> Interpreter {
    InterpreterBuilder::new(String::from(src), s)
        .reader(input)
        .writer(output)
        .build()
        .unwrap()
}

/// Step until a terminal outcome, returning it and the number of steps that
/// continued.
fn run(it: &mut Interpreter, st: &mut State) -> (RunResult, usize) {
    let mut steps: usize = 0;
    loop {
        match it.next(st) {
            RunResult::Continue => {
                steps += 1;
                assert!(steps < 100_000, "step budget exceeded");
            }
            r => return (r, steps),
        }
    }
}

#[test]
fn three_increments_write_one_byte() {
    let mut it = build("+++.", settings(10), ByteSource::new(vec![]), ByteSink::new());
    let mut st = it.ready();
    let (r, _) = run(&mut it, &mut st);
    assert_eq!(r, RunResult::Halted);
    assert_eq!(it.writer.bytes, vec![3]);
}

#[test]
fn echo_one_input_byte() {
    let mut it = build(",.", settings(10), ByteSource::new(vec![65]), ByteSink::new());
    let mut st = it.ready();
    let (r, _) = run(&mut it, &mut st);
    assert_eq!(r, RunResult::Halted);
    assert_eq!(it.writer.bytes, vec![65]);
}

#[test]
fn clear_loop_runs_five_iterations() {
    let mut it = build("[-]", settings(4), ByteSource::new(vec![]), ByteSink::new());
    let mut st = it.ready();
    st.cells.0[0] = 5;
    let (r, steps) = run(&mut it, &mut st);
    assert_eq!(r, RunResult::Halted);
    assert_eq!(st.cells.0[0], 0);
    // five iterations of open-test, decrement, close-test; the last
    // close-test sees zero and falls through to the halt
    assert_eq!(steps, 15);
}

#[test]
fn halted_interpreter_stays_halted() {
    let mut it = build("", settings(1), ByteSource::new(vec![]), ByteSink::new());
    let mut st = it.ready();
    assert_eq!(it.next(&mut st), RunResult::Halted);
    assert_eq!(it.next(&mut st), RunResult::Halted);
    assert_eq!(st.command_ptr, 0);
}

#[test]
fn increment_then_decrement_round_trips() {
    let mut it = build("+-", settings(1), ByteSource::new(vec![]), ByteSink::new());
    let mut st = it.ready();
    assert_eq!(it.next(&mut st), RunResult::Continue);
    assert_eq!(st.cells.0[0], 1);
    assert_eq!(it.next(&mut st), RunResult::Continue);
    assert_eq!(st.cells.0[0], 0);
    assert_eq!(it.next(&mut st), RunResult::Halted);
}

#[test]
fn decrement_wraps_through_255_and_back() {
    let mut it = build("-+", settings(1), ByteSource::new(vec![]), ByteSink::new());
    let mut st = it.ready();
    assert_eq!(it.next(&mut st), RunResult::Continue);
    assert_eq!(st.cells.0[0], 255);
    assert_eq!(it.next(&mut st), RunResult::Continue);
    assert_eq!(st.cells.0[0], 0);
}

#[test]
fn left_at_zero_without_wrapping_flag_underflows() {
    // the left edge does not wrap to the last index when the flag is off;
    // the following right move returns to 0 through pointer arithmetic alone
    let n: usize = 5;
    let mut it = build("<>", settings(n), ByteSource::new(vec![]), ByteSink::new());
    let mut st = it.ready();
    assert_eq!(it.next(&mut st), RunResult::Continue);
    assert_eq!(st.cell_ptr, usize::MAX);
    assert_ne!(st.cell_ptr, n - 1);
    assert_eq!(it.next(&mut st), RunResult::Continue);
    assert_eq!(st.cell_ptr, 0);
}

#[test]
fn left_at_zero_with_wrapping_flag_wraps_to_last() {
    let mut s = settings(4);
    s.wrapping = true;
    let mut it = build("<", s, ByteSource::new(vec![]), ByteSink::new());
    let mut st = it.ready();
    assert_eq!(it.next(&mut st), RunResult::Continue);
    assert_eq!(st.cell_ptr, 3);
}

#[test]
fn right_edge_of_fixed_tape_always_wraps() {
    // right-edge wraparound is on for fixed tapes regardless of the flag
    let mut it = build(">>>", settings(3), ByteSource::new(vec![]), ByteSink::new());
    let mut st = it.ready();
    assert_eq!(it.next(&mut st), RunResult::Continue);
    assert_eq!(st.cell_ptr, 1);
    assert_eq!(it.next(&mut st), RunResult::Continue);
    assert_eq!(st.cell_ptr, 2);
    assert_eq!(it.next(&mut st), RunResult::Continue);
    assert_eq!(st.cell_ptr, 0);
}

#[test]
fn length_one_fixed_tape_wraps_right_to_itself() {
    // on a length-1 fixed tape a right move sits at the last index, so it
    // wraps straight back to 0 and the next increment lands on the same cell
    let mut it = build("+>+", settings(1), ByteSource::new(vec![]), ByteSink::new());
    let mut st = it.ready();
    let (r, _) = run(&mut it, &mut st);
    assert_eq!(r, RunResult::Halted);
    assert_eq!(st.cell_ptr, 0);
    assert_eq!(st.cells.0[0], 2);
}

#[test]
fn out_of_bounds_access_reports_index() {
    // without wrapping, a left move at 0 underflows; the increment then
    // accesses far outside the fixed tape
    let mut it = build("<+", settings(3), ByteSource::new(vec![]), ByteSink::new());
    let mut st = it.ready();
    let (r, _) = run(&mut it, &mut st);
    assert_eq!(r, RunResult::IndexOutOfBound(usize::MAX));
    assert_eq!(st.cells.0, vec![0, 0, 0]);
}

#[test]
fn dynamic_tape_grows_to_the_accessed_index() {
    let mut s = settings(1);
    s.dynamic_size = true;
    let mut it = build(">>+", s, ByteSource::new(vec![]), ByteSink::new());
    let mut st = it.ready();
    let (r, _) = run(&mut it, &mut st);
    assert_eq!(r, RunResult::Halted);
    assert_eq!(st.cells.0, vec![0, 0, 1]);
}

#[test]
fn eof_as_is_leaves_cell_untouched() {
    let mut it = build("+++,", settings(1), ByteSource::new(vec![]), ByteSink::new());
    let mut st = it.ready();
    let (r, _) = run(&mut it, &mut st);
    assert_eq!(r, RunResult::Halted);
    assert_eq!(st.cells.0[0], 3);
}

#[test]
fn eof_zero_clears_cell() {
    let mut s = settings(1);
    s.eof_behavior = EofBehavior::Zero;
    let mut it = build("+++,", s, ByteSource::new(vec![]), ByteSink::new());
    let mut st = it.ready();
    let (r, _) = run(&mut it, &mut st);
    assert_eq!(r, RunResult::Halted);
    assert_eq!(st.cells.0[0], 0);
}

#[test]
fn eof_negative_one_sets_cell_to_255() {
    let mut s = settings(1);
    s.eof_behavior = EofBehavior::NegativeOne;
    let mut it = build(",", s, ByteSource::new(vec![]), ByteSink::new());
    let mut st = it.ready();
    let (r, _) = run(&mut it, &mut st);
    assert_eq!(r, RunResult::Halted);
    assert_eq!(st.cells.0[0], 255);
}

#[test]
fn faulty_source_reports_read_failed() {
    let mut it = build(",", settings(1), ByteSource::new_faulty(vec![]), ByteSink::new());
    let mut st = it.ready();
    let (r, _) = run(&mut it, &mut st);
    assert_eq!(r, RunResult::ReadFailed);
}

#[test]
fn faulty_sink_reports_write_failed() {
    let mut it = build("+.", settings(1), ByteSource::new(vec![]), ByteSink::new_faulty());
    let mut st = it.ready();
    let (r, _) = run(&mut it, &mut st);
    assert_eq!(r, RunResult::WriteFailed);
    assert_eq!(it.writer.bytes, Vec::<u8>::new());
}

#[test]
fn digit_mode_reads_a_number_ended_by_line_feed() {
    let mut s = settings(1);
    s.input_mode = InputMode::Digit;
    let mut it = build(",", s, ByteSource::new(b"12\n".to_vec()), ByteSink::new());
    let mut st = it.ready();
    let (r, _) = run(&mut it, &mut st);
    assert_eq!(r, RunResult::Halted);
    assert_eq!(st.cells.0[0], 12);
}

#[test]
fn digit_mode_rejects_non_digit_bytes() {
    let mut s = settings(1);
    s.input_mode = InputMode::Digit;
    let mut it = build(",", s, ByteSource::new(b"1a\n".to_vec()), ByteSink::new());
    let mut st = it.ready();
    let (r, _) = run(&mut it, &mut st);
    assert_eq!(r, RunResult::ParseNumError);
    assert_eq!(st.cells.0[0], 0);
}

#[test]
fn digit_mode_accumulator_wraps_at_256() {
    let mut s = settings(1);
    s.input_mode = InputMode::Digit;
    let mut it = build(",", s, ByteSource::new(b"300\n".to_vec()), ByteSink::new());
    let mut st = it.ready();
    let (r, _) = run(&mut it, &mut st);
    assert_eq!(r, RunResult::Halted);
    assert_eq!(st.cells.0[0], 44);
}

#[test]
fn digit_mode_crlf_newline_ends_the_number() {
    let mut s = settings(1);
    s.input_mode = InputMode::Digit;
    s.newline_mode = NewlineMode::CRLF;
    let mut it = build(",", s, ByteSource::new(b"12\r\n".to_vec()), ByteSink::new());
    let mut st = it.ready();
    let (r, _) = run(&mut it, &mut st);
    assert_eq!(r, RunResult::Halted);
    assert_eq!(st.cells.0[0], 12);
}

#[test]
fn digit_mode_crlf_rejects_digit_after_lone_carriage_return() {
    let mut s = settings(1);
    s.input_mode = InputMode::Digit;
    s.newline_mode = NewlineMode::CRLF;
    let mut it = build(",", s, ByteSource::new(b"1\r2\n".to_vec()), ByteSink::new());
    let mut st = it.ready();
    let (r, _) = run(&mut it, &mut st);
    assert_eq!(r, RunResult::ParseNumError);
}

#[test]
fn digit_mode_eof_after_digits_is_a_read_failure() {
    let mut s = settings(1);
    s.input_mode = InputMode::Digit;
    let mut it = build(",", s, ByteSource::new(b"12".to_vec()), ByteSink::new());
    let mut st = it.ready();
    let (r, _) = run(&mut it, &mut st);
    assert_eq!(r, RunResult::ReadFailed);
}

#[test]
fn digit_mode_eof_with_no_digits_follows_eof_policy() {
    let mut s = settings(1);
    s.input_mode = InputMode::Digit;
    s.eof_behavior = EofBehavior::NegativeOne;
    let mut it = build(",", s, ByteSource::new(vec![]), ByteSink::new());
    let mut st = it.ready();
    let (r, _) = run(&mut it, &mut st);
    assert_eq!(r, RunResult::Halted);
    assert_eq!(st.cells.0[0], 255);
}

#[test]
fn write_encodes_line_feed_as_crlf_pair() {
    let mut s = settings(1);
    s.newline_mode = NewlineMode::CRLF;
    let mut it = build(",.", s, ByteSource::new(vec![10]), ByteSink::new());
    let mut st = it.ready();
    let (r, _) = run(&mut it, &mut st);
    assert_eq!(r, RunResult::Halted);
    assert_eq!(it.writer.bytes, vec![13, 10]);
}

#[test]
fn write_keeps_line_feed_single_in_lf_mode() {
    let mut it = build(",.", settings(1), ByteSource::new(vec![10]), ByteSink::new());
    let mut st = it.ready();
    let (r, _) = run(&mut it, &mut st);
    assert_eq!(r, RunResult::Halted);
    assert_eq!(it.writer.bytes, vec![10]);
}

#[test]
fn crlf_read_delivers_newline_as_line_feed() {
    let mut s = settings(1);
    s.newline_mode = NewlineMode::CRLF;
    let mut it = build(",", s, ByteSource::new(vec![13, 10]), ByteSink::new());
    let mut st = it.ready();
    let (r, _) = run(&mut it, &mut st);
    assert_eq!(r, RunResult::Halted);
    assert_eq!(st.cells.0[0], 10);
}

#[test]
fn crlf_read_passes_lone_carriage_return_through() {
    // a carriage return not opening a newline is a literal byte; what
    // follows it stays unconsumed for the next read
    let mut s = settings(2);
    s.newline_mode = NewlineMode::CRLF;
    let mut it = build(",>,", s, ByteSource::new(vec![13, 65]), ByteSink::new());
    let mut st = it.ready();
    let (r, _) = run(&mut it, &mut st);
    assert_eq!(r, RunResult::Halted);
    assert_eq!(st.cells.0, vec![13, 65]);
}

#[test]
fn ignore_newline_delivers_the_byte_after_it() {
    let mut s = settings(1);
    s.ignore_newline = true;
    let mut it = build(",", s, ByteSource::new(vec![10, 65]), ByteSink::new());
    let mut st = it.ready();
    let (r, _) = run(&mut it, &mut st);
    assert_eq!(r, RunResult::Halted);
    assert_eq!(st.cells.0[0], 65);
}

#[test]
fn ignore_newline_crlf_skips_the_pair() {
    let mut s = settings(1);
    s.newline_mode = NewlineMode::CRLF;
    s.ignore_newline = true;
    let mut it = build(",", s, ByteSource::new(vec![13, 10, 66]), ByteSink::new());
    let mut st = it.ready();
    let (r, _) = run(&mut it, &mut st);
    assert_eq!(r, RunResult::Halted);
    assert_eq!(st.cells.0[0], 66);
}

#[test]
fn builder_reports_compile_errors() {
    let r = InterpreterBuilder::new(String::from("["), settings(1)).build();
    match r {
        Err(CompileError::UnmatchedBracket(off)) => assert_eq!(off, 0),
        _ => panic!("expected an unmatched bracket error"),
    }
}

#[test]
fn ready_builds_a_zeroed_state() {
    let it = build("", settings(4), ByteSource::new(vec![]), ByteSink::new());
    let st = it.ready();
    assert_eq!(st.cells.0, vec![0, 0, 0, 0]);
    assert_eq!(st.command_ptr, 0);
    assert_eq!(st.cell_ptr, 0);
}

#[test]
fn open_loop_skips_body_on_zero_cell() {
    let mut it = build("[+++].", settings(1), ByteSource::new(vec![]), ByteSink::new());
    let mut st = it.ready();
    let (r, steps) = run(&mut it, &mut st);
    assert_eq!(r, RunResult::Halted);
    assert_eq!(st.cells.0[0], 0);
    assert_eq!(it.writer.bytes, vec![0]);
    // one jump over the body plus the write
    assert_eq!(steps, 2);
}

#[test]
fn loop_multiplication_runs_to_completion() {
    // 2 * 3: the loop moves three increments right twice
    let mut it = build("++[>+++<-]>.", settings(2), ByteSource::new(vec![]), ByteSink::new());
    let mut st = it.ready();
    let (r, _) = run(&mut it, &mut st);
    assert_eq!(r, RunResult::Halted);
    assert_eq!(it.writer.bytes, vec![6]);
    assert_eq!(st.cells.0, vec![0, 6]);
}

#[test]
fn crlf_read_keeps_carriage_return_at_end_of_input() {
    let mut s = settings(1);
    s.newline_mode = NewlineMode::CRLF;
    let mut it = build(",", s, ByteSource::new(vec![13]), ByteSink::new());
    let mut st = it.ready();
    let (r, _) = run(&mut it, &mut st);
    assert_eq!(r, RunResult::Halted);
    assert_eq!(st.cells.0[0], 13);
}

#[test]
fn suppressed_newline_at_end_of_input_is_a_read_failure() {
    // with newline suppression on, the read after a consumed newline finds
    // the source exhausted
    let mut s = settings(1);
    s.ignore_newline = true;
    let mut it = build(",", s, ByteSource::new(vec![10]), ByteSink::new());
    let mut st = it.ready();
    let (r, _) = run(&mut it, &mut st);
    assert_eq!(r, RunResult::ReadFailed);
}
