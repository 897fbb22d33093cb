use rustfuck::error::MachineError;
use rustfuck::machine::{run, Action, Machine};
use rustfuck::resolver::seek_closing;
use rustfuck::token::{classify, lex, render, to_char, Token, TokenType};

fn tokens(src: &str) -> Vec<Token> {
    lex(&src.to_string()).unwrap()
}

#[test]
fn new_token_keeps_kind_and_position() {
    let t = Token::new(TokenType::Dot, 7);
    assert_eq!(t.typ, TokenType::Dot);
    assert_eq!(t.pos, 7);
}

#[test]
fn lex_gives_one_token_per_character() {
    let toks = tokens("+-<>.,[]");
    let kinds = [
        TokenType::Plus,
        TokenType::Minus,
        TokenType::Left,
        TokenType::Right,
        TokenType::Dot,
        TokenType::Comma,
        TokenType::Lpar,
        TokenType::Rpar,
    ];
    assert_eq!(toks.len(), 8);
    for (i, t) in toks.iter().enumerate() {
        assert_eq!(t.typ, kinds[i]);
        assert_eq!(t.pos, i);
    }
}

#[test]
fn lex_empty_source() {
    assert_eq!(lex(&String::new()), Ok(vec![]));
}

#[test]
fn lex_reports_first_invalid_character() {
    assert_eq!(
        lex(&"+a-b".to_string()),
        Err(MachineError::LexError { ch: 'a', pos: 1 })
    );
    assert_eq!(
        lex(&"é".to_string()),
        Err(MachineError::LexError { ch: 'é', pos: 0 })
    );
}

#[test]
fn classify_and_to_char_agree() {
    for c in "+-<>.,[]".chars() {
        assert_eq!(to_char(classify(c).unwrap()), c);
    }
    assert_eq!(classify('x'), None);
    assert_eq!(classify(' '), None);
}

#[test]
fn round_trip_of_source() {
    let src = "++[->+<].,<>][";
    let back: String = render(&tokens(src)).into_iter().collect();
    assert_eq!(back, src);
}

#[test]
fn seek_closing_finds_first_end() {
    let toks = tokens("+[-]+]");
    assert_eq!(seek_closing(1, &toks), Ok(3));
    assert_eq!(seek_closing(3, &toks), Ok(5));
}

#[test]
fn seek_closing_refuses_nested_start() {
    assert_eq!(
        seek_closing(0, &tokens("[+[]]")),
        Err(MachineError::NestedLoopError { pos: 2 })
    );
}

#[test]
fn seek_closing_without_end() {
    assert_eq!(
        seek_closing(2, &tokens("+-[+")),
        Err(MachineError::UnmatchedLoopError { pos: 2 })
    );
}

#[test]
fn straight_line_program_matches_simulation() {
    let r = run(&tokens("++>+++<->>-"), 5, &vec![], 100).unwrap();
    assert!(r.halted);
    assert_eq!(r.steps, 11);
    assert_eq!(r.machine.dp, 2);
    assert_eq!(r.machine.tape, vec![1, 3, -1, 0, 0]);
    assert!(r.output.is_empty());
}

#[test]
fn prints_scalar_three() {
    let r = run(&tokens("+++."), 1, &vec![], 100).unwrap();
    assert!(r.halted);
    assert_eq!(r.output, vec!['\u{3}']);
    assert_eq!(r.output[0] as u32, 3);
}

#[test]
fn skipped_loop_leaves_tape_unchanged() {
    let r = run(&tokens("[+]"), 100, &vec![], 100).unwrap();
    assert!(r.halted);
    assert_eq!(r.steps, 1);
    assert_eq!(r.machine.tape, vec![0; 100]);
}

#[test]
fn loop_counts_down_three_times() {
    let r = run(&tokens("+++[-]"), 100, &vec![], 100).unwrap();
    assert!(r.halted);
    assert_eq!(r.machine.tape[0], 0);
    // three increments, the loop start, then three rounds of `-` and `]`
    assert_eq!(r.steps, 3 + 1 + 3 * 2);
}

#[test]
fn nested_loop_is_refused() {
    assert_eq!(
        run(&tokens("[[]]"), 100, &vec![], 100).err(),
        Some(MachineError::NestedLoopError { pos: 1 })
    );
}

#[test]
fn unmatched_loop_start() {
    assert_eq!(
        run(&tokens("[+"), 100, &vec![], 100).err(),
        Some(MachineError::UnmatchedLoopError { pos: 0 })
    );
}

#[test]
fn pointer_below_zero() {
    assert_eq!(
        run(&tokens("<"), 100, &vec![], 100).err(),
        Some(MachineError::AddressError { dp: -1, capacity: 100 })
    );
}

#[test]
fn pointer_past_capacity() {
    assert_eq!(
        run(&tokens(">>"), 2, &vec![], 100).err(),
        Some(MachineError::AddressError { dp: 2, capacity: 2 })
    );
}

#[test]
fn negative_cell_is_no_character() {
    assert_eq!(
        run(&tokens("-."), 10, &vec![], 100).err(),
        Some(MachineError::EncodingError { value: -1 })
    );
}

#[test]
fn surrogate_cell_is_no_character() {
    let mut m = Machine::new(1);
    m.tape[0] = 0xD800;
    assert_eq!(
        m.step(&tokens(".")),
        Err(MachineError::EncodingError { value: 0xD800 })
    );
    assert_eq!(m.ip, 0);
}

#[test]
fn input_then_output() {
    let r = run(&tokens(",.,."), 3, &vec![72, 105], 100).unwrap();
    assert!(r.halted);
    assert_eq!(r.output.into_iter().collect::<String>(), "Hi");
}

#[test]
fn input_exhausted() {
    assert_eq!(
        run(&tokens(",,"), 3, &vec![1], 100).err(),
        Some(MachineError::IoError)
    );
}

#[test]
fn fuel_runs_out_on_endless_loop() {
    let r = run(&tokens("+[]"), 1, &vec![], 50).unwrap();
    assert!(!r.halted);
    assert_eq!(r.steps, 50);
}

#[test]
fn sequential_loops() {
    let r = run(&tokens("++[>+<-]>[-]+"), 4, &vec![], 1000).unwrap();
    assert!(r.halted);
    assert_eq!(r.machine.tape, vec![0, 1, 0, 0]);
}

#[test]
fn cells_wrap_at_the_ends() {
    let toks = tokens("+-");
    let mut m = Machine::new(1);
    m.tape[0] = i32::MAX;
    assert_eq!(m.step(&toks), Ok(Action::Continue));
    assert_eq!(m.tape[0], i32::MIN);
    assert_eq!(m.step(&toks), Ok(Action::Continue));
    assert_eq!(m.tape[0], i32::MAX);
    assert_eq!(m.step(&toks), Ok(Action::Halted));
}

#[test]
fn stepping_with_input() {
    let toks = tokens(",+.");
    let mut m = Machine::new(2);
    assert_eq!(m.step(&toks), Ok(Action::Input));
    assert_eq!(m.ip, 0);
    m.provide_input(&toks, 64);
    assert_eq!(m.ip, 1);
    assert_eq!(m.step(&toks), Ok(Action::Continue));
    assert_eq!(m.step(&toks), Ok(Action::Output('A')));
    assert_eq!(m.step(&toks), Ok(Action::Halted));
}

#[test]
fn loop_end_jumps_after_last_start() {
    let toks = tokens("+[]");
    let mut m = Machine::new(1);
    m.step(&toks).unwrap();
    m.step(&toks).unwrap();
    assert_eq!(m.loop_start, 1);
    m.step(&toks).unwrap();
    assert_eq!(m.ip, 2);
}

#[test]
fn cells_snapshot() {
    let r = run(&tokens("+>>--"), 4, &vec![], 100).unwrap();
    assert_eq!(r.machine.cells(true), vec![1, 0, -2, 0]);
    assert_eq!(r.machine.cells(false), vec![1, -2]);
    assert_eq!(r.machine.capacity(), 4);
}
