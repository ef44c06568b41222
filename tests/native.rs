use lotrust::native_lexer::{parse_digit, parse_word, tokenize_file_contents, TokenType};
use lotrust::native_parser::{parse_tokens, NativeErrorKind, NativeKind, NativeLattice};
use lotrust::text::{chop_character, FileLoc, LexErrorKind};

fn loc() -> FileLoc {
    FileLoc { filename: "t.lotr".to_string(), row: 1, col: 1 }
}

fn parse(text: &str) -> Result<NativeLattice, lotrust::native_parser::NativeError> {
    let lexed = tokenize_file_contents(text.to_string(), "t.lotr").unwrap();
    parse_tokens(&lexed.tokens)
}

#[test]
fn chop_takes_first_character() {
    let mut s = "xyz".to_string();
    assert_eq!(chop_character(&mut s), 'x');
    assert_eq!(s, "yz");
}

#[test]
fn word_stops_at_non_word_character() {
    let mut s = "abc_1 rest".to_string();
    let t = parse_word(&mut s, loc());
    assert_eq!(t.token_type, TokenType::Word);
    assert_eq!(t.value, "abc_1");
    assert_eq!(s, " rest");
}

#[test]
fn number_with_exponent_and_sign() {
    let mut s = "-1.5e-3x".to_string();
    let t = parse_digit(&mut s, loc()).unwrap();
    assert_eq!(t.token_type, TokenType::Value);
    assert_eq!(t.value, "-1.5e-3");
    assert_eq!(s, "x");
}

#[test]
fn number_with_two_decimal_points_is_an_error() {
    let mut s = "1.2.3".to_string();
    assert_eq!(parse_digit(&mut s, loc()).unwrap_err(), LexErrorKind::SecondDecimalPoint);
}

#[test]
fn number_with_two_exponents_is_an_error() {
    let mut s = "1e5e2".to_string();
    assert_eq!(parse_digit(&mut s, loc()).unwrap_err(), LexErrorKind::SecondExponent);
}

#[test]
fn tokens_carry_rows_and_columns() {
    let lexed = tokenize_file_contents("// comment\nbeam\n\t {".to_string(), "f").unwrap();
    assert_eq!(lexed.tokens.len(), 2);
    assert_eq!(lexed.tokens[0].value, "beam");
    assert_eq!((lexed.tokens[0].loc.row, lexed.tokens[0].loc.col), (2, 1));
    assert_eq!(lexed.tokens[1].token_type, TokenType::Ocurly);
    assert_eq!((lexed.tokens[1].loc.row, lexed.tokens[1].loc.col), (3, 3));
    assert_eq!(lexed.tokens[1].loc.filename, "f");
}

#[test]
fn unicode_space_separates_tokens() {
    let lexed = tokenize_file_contents("a\u{3000}b".to_string(), "f").unwrap();
    assert_eq!(lexed.tokens.len(), 2);
    assert_eq!(lexed.tokens[1].value, "b");
    assert_eq!(lexed.tokens[1].loc.col, 3);
    assert!(lexed.stray.is_empty());
}

#[test]
fn unknown_characters_are_skipped_and_reported() {
    let lexed = tokenize_file_contents("a ( b".to_string(), "f").unwrap();
    assert_eq!(lexed.tokens.len(), 2);
    assert_eq!(lexed.stray.len(), 1);
    assert_eq!(lexed.stray[0].ch, '(');
    assert_eq!(lexed.stray[0].loc.col, 3);
}

#[test]
fn malformed_number_reports_its_place() {
    let e = tokenize_file_contents("beam\n  1.2.3".to_string(), "f").unwrap_err();
    assert_eq!(e.kind, LexErrorKind::SecondDecimalPoint);
    assert_eq!((e.loc.row, e.loc.col), (2, 3));
}

#[test]
fn end_to_end_native_input() {
    let l = parse(
        "beam { design_ke: 1e8 particles { (0.0 0.0) } } accelerator { initial_ke: 1e8 drift: 1.0 }",
    )
    .unwrap();
    assert_eq!(l.beams.len(), 1);
    assert_eq!(l.beams[0].design_ke, "1e8");
    assert_eq!(l.beams[0].particles.len(), 1);
    assert_eq!(l.beams[0].particles[0].z, "0.0");
    assert_eq!(l.beams[0].particles[0].delta_energy, "0.0");
    assert_eq!(l.accelerators.len(), 1);
    assert_eq!(l.accelerators[0].initial_ke, "1e8");
    assert_eq!(l.accelerators[0].elements.len(), 1);
    assert_eq!(l.accelerators[0].elements[0].kind, NativeKind::Drift);
    assert_eq!(l.accelerators[0].elements[0].values, vec!["1.0".to_string()]);
}

#[test]
fn every_element_kind_takes_its_values() {
    let l = parse(
        "accelerator { initial_ke: 5 corrector: 1 quad: 2 sext: 3 dipole: 4 0.5 acccav: 1 2 3 4 }",
    )
    .unwrap();
    let kinds: Vec<NativeKind> = l.accelerators[0].elements.iter().map(|e| e.kind).collect();
    assert_eq!(
        kinds,
        vec![NativeKind::Corrector, NativeKind::Quad, NativeKind::Sext, NativeKind::Dipole, NativeKind::AccCav]
    );
    assert_eq!(l.accelerators[0].elements[3].values, vec!["4".to_string(), "0.5".to_string()]);
    assert_eq!(l.accelerators[0].elements[4].values.len(), 4);
}

#[test]
fn two_beam_blocks_are_both_kept() {
    let l = parse("beam { design_ke: 1 particles { 1 2 3 4 } } beam { design_ke: 2 }").unwrap();
    assert_eq!(l.beams.len(), 2);
    assert_eq!(l.beams[0].particles.len(), 2);
    assert_eq!(l.beams[1].design_ke, "2");
    assert!(l.beams[1].particles.is_empty());
}

#[test]
fn tokens_outside_blocks_are_passed_over() {
    let l = parse("stray words 12 beam { design_ke: 1 }").unwrap();
    assert_eq!(l.beams.len(), 1);
    assert!(l.accelerators.is_empty());
}

#[test]
fn beam_must_start_with_design_ke() {
    let e = parse("beam { other: 1 }").unwrap_err();
    assert_eq!(e.kind, NativeErrorKind::ExpectedDesignKe);
    assert_eq!(e.at, 2);
}

#[test]
fn accelerator_must_start_with_initial_ke() {
    let e = parse("accelerator { drift: 1 }").unwrap_err();
    assert_eq!(e.kind, NativeErrorKind::ExpectedInitialKe);
    assert_eq!(e.at, 2);
}

#[test]
fn missing_colon_is_reported() {
    let e = parse("beam { design_ke 1 }").unwrap_err();
    assert_eq!(e.kind, NativeErrorKind::Expected(TokenType::Colon));
    assert_eq!(e.at, 3);
}

#[test]
fn unknown_element_is_reported() {
    let e = parse("accelerator { initial_ke: 1 bogus: 2 }").unwrap_err();
    assert_eq!(e.kind, NativeErrorKind::UnknownElement);
    assert_eq!(e.at, 5);
}

#[test]
fn unknown_beam_item_is_reported() {
    let e = parse("beam { design_ke: 1 charge: 2 }").unwrap_err();
    assert_eq!(e.kind, NativeErrorKind::UnknownBeamItem);
    assert_eq!(e.at, 5);
}

#[test]
fn particle_needs_two_values() {
    let e = parse("beam { design_ke: 1 particles { 1 } } }").unwrap_err();
    assert_eq!(e.kind, NativeErrorKind::Expected(TokenType::Value));
    assert_eq!(e.at, 8);
}

#[test]
fn truncated_block_is_reported() {
    let e = parse("accelerator { initial_ke: 1 drift: 2").unwrap_err();
    assert_eq!(e.kind, NativeErrorKind::UnexpectedEnd);
    assert_eq!(e.at, 8);
}
