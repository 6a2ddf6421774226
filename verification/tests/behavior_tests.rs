use assembler::split_and_trim;
use assembler::str_to_instructions;
use assembler::DecodeError;

#[test]
fn split_empty_text_gives_one_empty_line() {
    assert_eq!(split_and_trim(""), vec![""]);
}

#[test]
fn split_trims_each_line() {
    assert_eq!(split_and_trim("  ADD 1  \nHLT"), vec!["ADD 1", "HLT"]);
}

#[test]
fn split_keeps_empty_lines_and_order() {
    assert_eq!(split_and_trim("a\n\n  \nb\n"), vec!["a", "", "", "b", ""]);
}

#[test]
fn empty_text_decodes_to_no_instructions() {
    let instructions = str_to_instructions("").unwrap();
    assert_eq!(instructions.len(), 0);
}

#[test]
fn blank_and_comment_lines_are_skipped() {
    let instructions = str_to_instructions("\n   \n// only a comment\n\n").unwrap();
    assert_eq!(instructions.len(), 0);
}

#[test]
fn largest_operand_is_accepted() {
    let instructions = str_to_instructions("BRZ 65535").unwrap();
    assert_eq!(instructions.len(), 1);
    assert_eq!(instructions[0].name(), "BRZ");
    assert_eq!(instructions[0].code(), 7);
    assert_eq!(instructions[0].operand(), Some(65535));
}

#[test]
fn operand_just_past_the_range_is_rejected() {
    match str_to_instructions("BRZ 65536") {
        Err(DecodeError::InvalidOperand(t)) => assert_eq!(t, "65536"),
        _ => panic!("expected an invalid-operand failure"),
    }
}

#[test]
fn very_long_operand_is_rejected() {
    match str_to_instructions("ADD 99999999999999999999") {
        Err(DecodeError::InvalidOperand(t)) => assert_eq!(t, "99999999999999999999"),
        _ => panic!("expected an invalid-operand failure"),
    }
}

#[test]
fn non_numeric_operand_is_rejected() {
    match str_to_instructions("ADD x") {
        Err(DecodeError::InvalidOperand(t)) => assert_eq!(t, "x"),
        _ => panic!("expected an invalid-operand failure"),
    }
}

#[test]
fn negative_operand_is_rejected() {
    match str_to_instructions("ADD -1") {
        Err(DecodeError::InvalidOperand(t)) => assert_eq!(t, "-1"),
        _ => panic!("expected an invalid-operand failure"),
    }
}

#[test]
fn plus_signed_operand_parses() {
    let instructions = str_to_instructions("ADD +5").unwrap();
    assert_eq!(instructions.len(), 1);
    assert_eq!(instructions[0].operand(), Some(5));
}

#[test]
fn leading_zeros_parse() {
    let instructions = str_to_instructions("LDA 007").unwrap();
    assert_eq!(instructions.len(), 1);
    assert_eq!(instructions[0].operand(), Some(7));
}

#[test]
fn unknown_mnemonic_is_rejected() {
    match str_to_instructions("FOO 1") {
        Err(DecodeError::UnknownMnemonic(t)) => assert_eq!(t, "FOO"),
        _ => panic!("expected an unknown-mnemonic failure"),
    }
}

#[test]
fn lower_case_mnemonic_is_rejected() {
    match str_to_instructions("add 1") {
        Err(DecodeError::UnknownMnemonic(t)) => assert_eq!(t, "add"),
        _ => panic!("expected an unknown-mnemonic failure"),
    }
}

#[test]
fn one_bad_line_fails_the_whole_text() {
    match str_to_instructions("ADD 1\nFOO\nSUB 2") {
        Err(DecodeError::UnknownMnemonic(t)) => assert_eq!(t, "FOO"),
        _ => panic!("expected an unknown-mnemonic failure"),
    }
}

#[test]
fn tab_is_no_token_boundary() {
    match str_to_instructions("ADD\t1") {
        Err(DecodeError::UnknownMnemonic(t)) => assert_eq!(t, "ADD\t1"),
        _ => panic!("expected an unknown-mnemonic failure"),
    }
}

#[test]
fn double_space_gives_an_empty_operand_token() {
    match str_to_instructions("ADD  1") {
        Err(DecodeError::InvalidOperand(t)) => assert_eq!(t, ""),
        _ => panic!("expected an invalid-operand failure"),
    }
}

#[test]
fn carriage_return_is_trimmed() {
    let instructions = str_to_instructions("HLT\r\nADD 1").unwrap();
    assert_eq!(instructions.len(), 2);
    assert_eq!(instructions[0].name(), "HLT");
    assert_eq!(instructions[1].name(), "ADD");
    assert_eq!(instructions[1].operand(), Some(1));
}

#[test]
fn trailing_newline_adds_no_instruction() {
    let instructions = str_to_instructions("HLT\n").unwrap();
    assert_eq!(instructions.len(), 1);
    assert_eq!(instructions[0].name(), "HLT");
}

#[test]
fn zero_operand_mnemonic_still_takes_an_operand() {
    let instructions = str_to_instructions("HLT 5").unwrap();
    assert_eq!(instructions.len(), 1);
    assert_eq!(instructions[0].name(), "HLT");
    assert_eq!(instructions[0].code(), 0);
    assert_eq!(instructions[0].operand(), Some(5));
}

#[test]
fn dat_operand_1000() {
    let instructions = str_to_instructions("DAT 1000").unwrap();
    assert_eq!(instructions.len(), 1);
    assert_eq!(instructions[0].name(), "DAT");
    assert_eq!(instructions[0].code(), 1000);
    assert_eq!(instructions[0].operand(), Some(1000));
}

#[test]
fn every_mnemonic_with_operand_decodes_to_its_table_code() {
    let table = [
        ("HLT", 0u16),
        ("ADD", 1),
        ("SUB", 2),
        ("STA", 3),
        ("LDA", 5),
        ("BRA", 6),
        ("BRZ", 7),
        ("BRP", 8),
        ("INP", 901),
        ("OUT", 902),
        ("DAT", 1000),
    ];
    for (name, code) in table {
        for v in [0u16, 1, 42, 999, 65535] {
            let instructions = str_to_instructions(&format!("{} {}", name, v)).unwrap();
            assert_eq!(instructions.len(), 1);
            assert_eq!(instructions[0].name(), name);
            assert_eq!(instructions[0].code(), code);
            assert_eq!(instructions[0].operand(), Some(v));
        }
    }
}

#[test]
fn decoding_twice_gives_identical_results() {
    let s = "ADD 1\n// note\nHLT\nDAT 1000";
    let first = str_to_instructions(s).unwrap();
    let second = str_to_instructions(s).unwrap();
    assert_eq!(first.len(), second.len());
    for k in 0..first.len() {
        assert_eq!(first[k].name(), second[k].name());
        assert_eq!(first[k].code(), second[k].code());
        assert_eq!(first[k].operand(), second[k].operand());
    }
}
