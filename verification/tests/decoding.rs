use tapevm::decode::{decode_source, decode_tokens, tokenize};
use tapevm::opcode::{decode_token, Opcode, VmError};

fn chars(s: &str) -> Vec<char> {
    s.chars().collect()
}

#[test]
fn run_lengths_one_through_eight_decode_to_the_eight_opcodes() {
    let ops = decode_source(&chars("h hh hhh hhhh hhhhh hhhhhh hhhhhhh hhhhhhhh")).unwrap();
    assert_eq!(
        ops,
        vec![
            Opcode::IncrCell,
            Opcode::DecrCell,
            Opcode::IncrPtr,
            Opcode::DecrPtr,
            Opcode::LoopStart,
            Opcode::LoopEnd,
            Opcode::Output,
            Opcode::Input,
        ]
    );
}

#[test]
fn any_repeated_character_counts() {
    let ops = decode_source(&chars("zz yyy .")).unwrap();
    assert_eq!(ops, vec![Opcode::DecrCell, Opcode::IncrPtr, Opcode::IncrCell]);
}

#[test]
fn token_of_length_nine_is_rejected() {
    let r = decode_source(&chars("hhhhhhhhh"));
    assert_eq!(r, Err(VmError::InvalidInstruction(0)));
}

#[test]
fn token_with_mixed_characters_is_rejected() {
    let r = decode_source(&chars("hh hx"));
    assert_eq!(r, Err(VmError::InvalidInstruction(1)));
}

#[test]
fn first_invalid_token_position_is_reported() {
    let r = decode_source(&chars("h hh abc hhhhhhhhh"));
    assert_eq!(r, Err(VmError::InvalidInstruction(2)));
}

#[test]
fn tokenize_splits_on_whitespace_runs() {
    let toks = tokenize(&chars("  h\t hh\n"));
    assert_eq!(toks, vec![vec!['h'], vec!['h', 'h']]);
}

#[test]
fn empty_source_decodes_to_empty_program() {
    assert_eq!(decode_source(&chars("")), Ok(vec![]));
    assert_eq!(decode_source(&chars("   \n\t ")), Ok(vec![]));
    assert_eq!(tokenize(&chars("   ")), Vec::<Vec<char>>::new());
}

#[test]
fn decode_tokens_reports_position_among_tokens() {
    let toks = vec![chars("hhhhh"), chars("")];
    assert_eq!(decode_tokens(&toks), Err(VmError::InvalidInstruction(1)));
    let toks = vec![chars("hhhhh"), chars("hhhhhh")];
    assert_eq!(decode_tokens(&toks), Ok(vec![Opcode::LoopStart, Opcode::LoopEnd]));
}

#[test]
fn decode_token_checks_length_and_uniformity() {
    assert_eq!(decode_token(&chars("hhhhhhh")), Some(Opcode::Output));
    assert_eq!(decode_token(&chars("")), None);
    assert_eq!(decode_token(&chars("hhhhhhhhh")), None);
    assert_eq!(decode_token(&chars("hgh")), None);
}
