use bf::{parse_bf, OpCode, ParseError};

#[test]
fn try_from_recognizes_all_symbols() {
    assert_eq!(OpCode::try_from('>'), Ok(OpCode::IncPtr));
    assert_eq!(OpCode::try_from('<'), Ok(OpCode::DecPtr));
    assert_eq!(OpCode::try_from('+'), Ok(OpCode::IncVal));
    assert_eq!(OpCode::try_from('-'), Ok(OpCode::DecVal));
    assert_eq!(OpCode::try_from('.'), Ok(OpCode::Write));
    assert_eq!(OpCode::try_from(','), Ok(OpCode::Read));
    assert_eq!(OpCode::try_from('['), Ok(OpCode::JmpFront(0)));
    assert_eq!(OpCode::try_from(']'), Ok(OpCode::JmpBack(0)));
}

#[test]
fn try_from_rejects_comment_characters() {
    assert_eq!(OpCode::try_from('a'), Err(()));
    assert_eq!(OpCode::try_from(' '), Err(()));
    assert_eq!(OpCode::try_from('\n'), Err(()));
    assert_eq!(OpCode::try_from('#'), Err(()));
}

#[test]
fn comment_only_source_translates_to_empty_program() {
    let code = parse_bf("this text has none of the eight symbols").unwrap();
    assert!(code.is_empty());
}

#[test]
fn empty_source_translates_to_empty_program() {
    let code = parse_bf("").unwrap();
    assert!(code.is_empty());
}

#[test]
fn balanced_nesting_resolves_every_partner() {
    let code = parse_bf("[[][]]").unwrap();
    assert_eq!(code.len(), 6);
    assert_eq!(code[0], OpCode::JmpFront(5));
    assert_eq!(code[1], OpCode::JmpFront(2));
    assert_eq!(code[2], OpCode::JmpBack(1));
    assert_eq!(code[3], OpCode::JmpFront(4));
    assert_eq!(code[4], OpCode::JmpBack(3));
    assert_eq!(code[5], OpCode::JmpBack(0));
}

#[test]
fn comments_do_not_occupy_instruction_slots() {
    let code = parse_bf("a+b[ c- d]e.").unwrap();
    assert_eq!(
        code,
        vec![
            OpCode::IncVal,
            OpCode::JmpFront(3),
            OpCode::DecVal,
            OpCode::JmpBack(1),
            OpCode::Write,
        ]
    );
}

#[test]
fn unmatched_closer_fails_with_unbalanced_loop() {
    assert_eq!(parse_bf("+]"), Err(ParseError::UnbalancedLoop));
    assert_eq!(parse_bf("]["), Err(ParseError::UnbalancedLoop));
    assert_eq!(parse_bf("[]]"), Err(ParseError::UnbalancedLoop));
}

#[test]
fn unmatched_opener_fails_with_unbalanced_loop() {
    assert_eq!(parse_bf("[+"), Err(ParseError::UnbalancedLoop));
    assert_eq!(parse_bf("[[]"), Err(ParseError::UnbalancedLoop));
    assert_eq!(parse_bf("["), Err(ParseError::UnbalancedLoop));
}
