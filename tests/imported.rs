use lotrust::expansion::{expand_line, ExpandError};
use lotrust::imported::{load_elegant_text, LoadError};
use lotrust::imported_lexer::{parse_rpn_expr, parse_string, tokenize_file_contents, TokenType};
use lotrust::imported_parser::{parse_tokens, ImportErrorKind, IntermedType, Library, ParamValue};
use lotrust::text::{FileLoc, LexErrorKind};

fn library(text: &str) -> Library {
    let lexed = tokenize_file_contents(text, "t.lte").unwrap();
    parse_tokens(&lexed.tokens).unwrap()
}

fn kinds(text: &str) -> Vec<TokenType> {
    tokenize_file_contents(text, "t.lte").unwrap().tokens.iter().map(|t| t.token_type).collect()
}

fn number(v: &ParamValue) -> String {
    match v {
        ParamValue::Number(s) => s.clone(),
        ParamValue::Expr(_) => panic!("expected a number"),
    }
}

#[test]
fn line_expands_in_member_order() {
    let lib = library("a: drift, l=1.5\nb: kquad, l=0.2\nl1: line=(a, b, a)\n");
    let line = expand_line(&lib, &"l1".to_string()).unwrap();
    let names: Vec<&str> = line.iter().map(|e| e.name.as_str()).collect();
    assert_eq!(names, vec!["a", "b", "a"]);
    assert_eq!(number(&line[0].params[0].value), "1.5");
    assert_eq!(number(&line[1].params[0].value), "0.2");
    assert!(matches!(line[1].intermed_type, IntermedType::Quad));
    assert_eq!(number(&line[2].params[0].value), "1.5");
}

#[test]
fn nested_lines_expand_depth_first() {
    let lib = library("a: drift\nb: marker\ninner: line=(b, a)\nouter: line=(a, inner, \"b\")\n");
    let line = expand_line(&lib, &"outer".to_string()).unwrap();
    let names: Vec<&str> = line.iter().map(|e| e.name.as_str()).collect();
    assert_eq!(names, vec!["a", "b", "a", "b"]);
}

#[test]
fn ignored_names_contribute_nothing() {
    let lib = library("w: watch, filename=\"out.sdds\"\na: drift, l=1\nl1: line=(w, a, w)\n");
    assert_eq!(lib.ignored, vec!["w".to_string()]);
    let line = expand_line(&lib, &"l1".to_string()).unwrap();
    assert_eq!(line.len(), 1);
}

#[test]
fn undefined_member_is_an_error() {
    let lib = library("l1: line=(nothing)\n");
    match expand_line(&lib, &"l1".to_string()) {
        Err(ExpandError::Undefined(n)) => assert_eq!(n, "nothing"),
        other => panic!("unexpected {:?}", other),
    }
}

#[test]
fn line_containing_itself_is_an_error() {
    let lib = library("a: drift\nl1: line=(a, l2)\nl2: line=(l1)\n");
    assert!(matches!(expand_line(&lib, &"l1".to_string()), Err(ExpandError::Cycle(_))));
}

#[test]
fn later_definition_wins() {
    let lib = library("a: drift, l=1\na: drift, l=2\nl1: line=(a)\n");
    let line = expand_line(&lib, &"l1".to_string()).unwrap();
    assert_eq!(number(&line[0].params[0].value), "2");
}

#[test]
fn text_and_line_name_are_read_in_lower_case() {
    let loaded = load_elegant_text("Q1: KQUAD, L=0.3\nL1: LINE=(Q1)\n", "t.lte", "L1").unwrap();
    assert_eq!(loaded.line.len(), 1);
    assert_eq!(loaded.line[0].name, "q1");
    assert_eq!(loaded.line[0].params[0].name, "l");
}

#[test]
fn missing_length_defaults_to_zero() {
    let lib = library("m: marker\n");
    assert_eq!(lib.elements[0].params.len(), 1);
    assert_eq!(lib.elements[0].params[0].name, "l");
    assert_eq!(number(&lib.elements[0].params[0].value), "0");
}

#[test]
fn file_and_column_parameters_are_passed_over() {
    let lib = library("c: rfcw, l=1, zwakefile=\"f.sdds\", volt=2e6, phase=90\n");
    let names: Vec<&str> = lib.elements[0].params.iter().map(|p| p.name.as_str()).collect();
    assert_eq!(names, vec!["l", "volt", "phase"]);
    assert!(matches!(lib.elements[0].intermed_type, IntermedType::AccCav));
}

#[test]
fn bend_keywords_share_one_kind() {
    let lib = library("b1: sbend, l=1, angle=0.1\nb2: csrcsbend, l=1, angle=0\nb3: rben\nb4: sben\n");
    assert!(lib.elements.iter().all(|e| matches!(e.intermed_type, IntermedType::Bend)));
}

#[test]
fn expression_parameters_become_program_steps() {
    let lib = library("% 3 sto x\na: drift, l=\"x 2 *\"\n");
    assert_eq!(lib.program.len(), 2);
    assert_eq!(lib.program[0].text, "3 sto x");
    assert!(!lib.program[0].yields_value);
    assert_eq!(lib.program[1].text, "x 2 *");
    assert!(lib.program[1].yields_value);
    assert!(matches!(lib.elements[0].params[0].value, ParamValue::Expr(1)));
}

#[test]
fn continued_line_reads_as_one_statement() {
    assert_eq!(
        kinds("a: drift, &\n l=2\n"),
        vec![
            TokenType::Word,
            TokenType::Colon,
            TokenType::Word,
            TokenType::Comma,
            TokenType::Word,
            TokenType::Assign,
            TokenType::Value,
            TokenType::LineEnd,
            TokenType::Eof
        ]
    );
    let lib = library("a: drift, &\n l=2\n");
    assert_eq!(number(&lib.elements[0].params[0].value), "2");
}

#[test]
fn comments_end_statements_once() {
    assert_eq!(
        kinds("! header\na: drift ! note\n\n"),
        vec![TokenType::Word, TokenType::Colon, TokenType::Word, TokenType::LineEnd, TokenType::Eof]
    );
}

#[test]
fn number_with_letters_is_a_word() {
    let lexed = tokenize_file_contents("2ab", "t.lte").unwrap();
    assert_eq!(lexed.tokens[0].token_type, TokenType::Word);
    assert_eq!(lexed.tokens[0].value, "2ab");
}

#[test]
fn quoted_string_keeps_its_quotes() {
    let mut s = "\"a b\" rest".to_string();
    let loc = FileLoc { filename: "f".to_string(), row: 1, col: 1 };
    let t = parse_string(&mut s, loc).unwrap();
    assert_eq!(t.token_type, TokenType::EleStr);
    assert_eq!(t.value, "\"a b\"");
    assert_eq!(s, " rest");
}

#[test]
fn unterminated_string_is_an_error() {
    let e = tokenize_file_contents("a: drift, l=\"x", "t.lte").unwrap_err();
    assert_eq!(e.kind, LexErrorKind::UnterminatedString);
    assert_eq!(e.loc.col, 13);
}

#[test]
fn expression_line_skips_leading_space() {
    let mut s = "  1 sto y\nnext".to_string();
    let loc = FileLoc { filename: "f".to_string(), row: 4, col: 1 };
    let t = parse_rpn_expr(&mut s, loc);
    assert_eq!(t.token_type, TokenType::RpnExpr);
    assert_eq!(t.value, "1 sto y");
    assert_eq!((t.loc.row, t.loc.col), (4, 3));
    assert_eq!(s, "next");
}

#[test]
fn unknown_keyword_is_reported_at_its_token() {
    let lexed = tokenize_file_contents("a: drift\nb: bogus\n", "t.lte").unwrap();
    let e = parse_tokens(&lexed.tokens).unwrap_err();
    assert_eq!(e.kind, ImportErrorKind::UnknownKeyword);
    assert_eq!(e.at, 6);
}

#[test]
fn malformed_parameter_is_reported() {
    let lexed = tokenize_file_contents("a: drift, l 2 3\n", "t.lte").unwrap();
    let e = parse_tokens(&lexed.tokens).unwrap_err();
    assert_eq!(e.kind, ImportErrorKind::MalformedParameter);
    assert_eq!(e.at, 4);
}

#[test]
fn statement_without_line_end_is_reported() {
    let lexed = tokenize_file_contents("a: drift", "t.lte").unwrap();
    let e = parse_tokens(&lexed.tokens).unwrap_err();
    assert_eq!(e.kind, ImportErrorKind::UnterminatedStatement);
    assert_eq!(e.at, 0);
}

#[test]
fn load_reports_each_stage() {
    assert!(matches!(load_elegant_text("a: drift, l=1.2.3\n", "f", "x"), Err(LoadError::Lex(_))));
    assert!(matches!(load_elegant_text("= a\n", "f", "x"), Err(LoadError::Parse(_))));
    assert!(matches!(load_elegant_text("a: drift\n", "f", "x"), Err(LoadError::Expand(_))));
}
