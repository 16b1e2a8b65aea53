use brainfuck_rs::compiler::Compiler;
use brainfuck_rs::error::CompileError;
use brainfuck_rs::program::Command;

fn compile(src: &str) -> Result<Vec<Command>, CompileError> {
    Compiler::new().compile(String::from(src)).map(|p| p.0)
}

#[test]
fn empty_source_compiles_to_halt() {
    assert_eq!(compile("").unwrap(), vec![Command::Halt]);
}

#[test]
fn unknown_characters_are_skipped() {
    assert_eq!(
        compile("a b\ncomment!+?").unwrap(),
        vec![Command::Inc, Command::Halt]
    );
}

#[test]
fn all_eight_commands_translate() {
    assert_eq!(
        compile("><+-,.[]").unwrap(),
        vec![
            Command::Right,
            Command::Left,
            Command::Inc,
            Command::Dec,
            Command::Read,
            Command::Write,
            Command::Open(8),
            Command::Close(6),
            Command::Halt,
        ]
    );
}

#[test]
fn nested_brackets_resolve_round_trip() {
    // + [ > [ - ] < ] .
    let cmds = compile("+[>[-]<].").unwrap();
    assert_eq!(
        cmds,
        vec![
            Command::Inc,
            Command::Open(8),
            Command::Right,
            Command::Open(6),
            Command::Dec,
            Command::Close(3),
            Command::Left,
            Command::Close(1),
            Command::Write,
            Command::Halt,
        ]
    );
    // round trip: every Open's target is one past its matching Close, whose
    // target points back at the Open
    for (i, c) in cmds.iter().enumerate() {
        match c {
            Command::Open(t) => {
                assert_eq!(cmds[*t - 1], Command::Close(i));
            }
            Command::Close(v) => {
                assert_eq!(cmds[*v], Command::Open(i + 1));
            }
            _ => {}
        }
    }
}

#[test]
fn stray_close_fails_at_its_offset() {
    assert_eq!(compile("+]"), Err(CompileError::UnmatchedBracket(1)));
    assert_eq!(compile("]"), Err(CompileError::UnmatchedBracket(0)));
    // the first stray close wins, even with matched pairs before it
    assert_eq!(compile("[]]]"), Err(CompileError::UnmatchedBracket(2)));
}

#[test]
fn unmatched_open_fails_at_earliest_open() {
    assert_eq!(compile("+["), Err(CompileError::UnmatchedBracket(1)));
    // the earliest unmatched open is reported, not the last
    assert_eq!(compile("[[]"), Err(CompileError::UnmatchedBracket(0)));
    assert_eq!(compile("[]["), Err(CompileError::UnmatchedBracket(2)));
}

#[test]
fn unknown_characters_keep_offsets_in_errors() {
    // offsets are character offsets in the source, not command indices
    assert_eq!(compile("ab["), Err(CompileError::UnmatchedBracket(2)));
    assert_eq!(compile("ab]"), Err(CompileError::UnmatchedBracket(2)));
}

#[test]
fn error_offsets_count_characters_not_bytes() {
    // a two-byte character before the bracket still counts as one offset
    assert_eq!(compile("é]"), Err(CompileError::UnmatchedBracket(1)));
    assert_eq!(compile("é["), Err(CompileError::UnmatchedBracket(1)));
}
